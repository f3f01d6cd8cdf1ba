//! The two record shapes and their mathematical models.

use vstd::prelude::*;

verus! {

/// One `(trait_type, value)` pair of a metadata document.
#[derive(Clone, Debug, PartialEq, Eq)]
pub struct Attribute {
    pub trait_type: String,
    pub value: String,
}

/// The nested record: a named object carrying a list of attributes.
#[derive(Clone, Debug, PartialEq, Eq)]
pub struct Metadata {
    pub name: String,
    pub description: String,
    pub edition: u32,
    pub attributes: Vec<Attribute>,
}

/// The flat record, with one column per schema trait.
#[derive(Clone, Debug, PartialEq, Eq)]
pub struct Amare {
    pub name: String,
    pub description: String,
    pub edition: u32,
    pub eye: String,
    pub decoration: String,
    pub arms: String,
    pub legs: String,
    pub body: String,
    pub chip: String,
}

/// The model of an [`Attribute`].
pub struct AttributeView {
    pub trait_type: Seq<char>,
    pub value: Seq<char>,
}

/// The model of a [`Metadata`] document.
pub struct MetadataView {
    pub name: Seq<char>,
    pub description: Seq<char>,
    pub edition: u32,
    pub attributes: Seq<AttributeView>,
}

/// The model of an [`Amare`] row.
pub struct AmareView {
    pub name: Seq<char>,
    pub description: Seq<char>,
    pub edition: u32,
    pub eye: Seq<char>,
    pub decoration: Seq<char>,
    pub arms: Seq<char>,
    pub legs: Seq<char>,
    pub body: Seq<char>,
    pub chip: Seq<char>,
}

impl View for Attribute {
    type V = AttributeView;

    open spec fn view(&self) -> AttributeView {
        AttributeView { trait_type: self.trait_type@, value: self.value@ }
    }
}

/// The models of a sequence of attributes.
pub open spec fn attributes_view(attrs: Seq<Attribute>) -> Seq<AttributeView> {
    attrs.map_values(|a: Attribute| a@)
}

impl View for Metadata {
    type V = MetadataView;

    open spec fn view(&self) -> MetadataView {
        MetadataView {
            name: self.name@,
            description: self.description@,
            edition: self.edition,
            attributes: attributes_view(self.attributes@),
        }
    }
}

impl View for Amare {
    type V = AmareView;

    open spec fn view(&self) -> AmareView {
        AmareView {
            name: self.name@,
            description: self.description@,
            edition: self.edition,
            eye: self.eye@,
            decoration: self.decoration@,
            arms: self.arms@,
            legs: self.legs@,
            body: self.body@,
            chip: self.chip@,
        }
    }
}

impl AmareView {
    /// The trait columns, in schema order.
    pub open spec fn trait_values(self) -> Seq<Seq<char>> {
        seq![self.eye, self.decoration, self.arms, self.legs, self.body, self.chip]
    }
}

} // verus!

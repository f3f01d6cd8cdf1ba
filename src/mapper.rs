//! The mapping between flat rows and metadata documents, in both directions.

use vstd::prelude::*;
use crate::record::{Amare, AmareView, Attribute, AttributeView, Metadata, MetadataView, attributes_view};
use crate::schema::{
    TRAIT_ARMS, TRAIT_BODY, TRAIT_CHIP, TRAIT_COUNT, TRAIT_DECORATION, TRAIT_EYE, TRAIT_LEGS,
    lemma_schema_distinct, schema,
};

verus! {

/// The value of the first attribute whose trait is `key`, or the empty text
/// when no attribute has that trait.
pub open spec fn first_value(attrs: Seq<AttributeView>, key: Seq<char>) -> Seq<char>
    decreases attrs.len(),
{
    if attrs.len() == 0 {
        Seq::empty()
    } else if attrs[0].trait_type == key {
        attrs[0].value
    } else {
        first_value(attrs.drop_first(), key)
    }
}

/// The schema's attribute list carrying `values`, one per trait, in order.
pub open spec fn schema_attributes(values: Seq<Seq<char>>) -> Seq<AttributeView> {
    Seq::new(
        TRAIT_COUNT as nat,
        |i: int| AttributeView { trait_type: schema()[i], value: values[i] },
    )
}

/// A document whose attributes are exactly the schema's traits, in order.
pub open spec fn is_schema_shaped(m: MetadataView) -> bool {
    &&& m.attributes.len() == TRAIT_COUNT
    &&& forall|i: int| 0 <= i < TRAIT_COUNT ==> #[trigger] m.attributes[i].trait_type == schema()[i]
}

/// The row that a document maps to.
pub open spec fn amare_of(m: MetadataView) -> AmareView {
    AmareView {
        name: m.name,
        description: m.description,
        edition: m.edition,
        eye: first_value(m.attributes, schema()[0]),
        decoration: first_value(m.attributes, schema()[1]),
        arms: first_value(m.attributes, schema()[2]),
        legs: first_value(m.attributes, schema()[3]),
        body: first_value(m.attributes, schema()[4]),
        chip: first_value(m.attributes, schema()[5]),
    }
}

/// The document that a row maps to.
pub open spec fn metadata_of(c: AmareView) -> MetadataView {
    MetadataView {
        name: c.name,
        description: c.description,
        edition: c.edition,
        attributes: schema_attributes(c.trait_values()),
    }
}

/// The value of the first attribute of `attrs` whose trait is `key`, or an
/// empty string.
fn find_trait(attrs: &Vec<Attribute>, key: &str) -> (r: String)
    ensures
        r@ == first_value(attributes_view(attrs@), key@),
{
    let ghost av = attributes_view(attrs@);
    let wanted = key.to_owned();
    let mut i: usize = 0;
    assert(av.subrange(0, av.len() as int) =~= av);
    while i < attrs.len()
        invariant
            0 <= i <= attrs.len(),
            av == attributes_view(attrs@),
            wanted@ == key@,
            av.len() == attrs@.len(),
            first_value(av, key@) == first_value(av.subrange(i as int, av.len() as int), key@),
        decreases attrs.len() - i,
    {
        let ghost rest = av.subrange(i as int, av.len() as int);
        assert(rest[0] == attrs@[i as int]@);
        if attrs[i].trait_type == wanted {
            return attrs[i].value.clone();
        }
        assert(rest.drop_first() =~= av.subrange(i + 1, av.len() as int));
        i += 1;
    }
    String::new()
}

/// Maps a document to a row: each trait column takes the value of the first
/// attribute with that trait, or the empty text when there is none; other
/// attributes are ignored.
pub fn metadata_to_amare(v: &Metadata) -> (r: Amare)
    ensures
        r@ == amare_of(v@),
{
    Amare {
        name: v.name.clone(),
        description: v.description.clone(),
        edition: v.edition,
        eye: find_trait(&v.attributes, TRAIT_EYE),
        decoration: find_trait(&v.attributes, TRAIT_DECORATION),
        arms: find_trait(&v.attributes, TRAIT_ARMS),
        legs: find_trait(&v.attributes, TRAIT_LEGS),
        body: find_trait(&v.attributes, TRAIT_BODY),
        chip: find_trait(&v.attributes, TRAIT_CHIP),
    }
}

fn schema_attribute(key: &str, value: &String) -> (r: Attribute)
    ensures
        r@ == (AttributeView { trait_type: key@, value: value@ }),
{
    Attribute { trait_type: key.to_owned(), value: value.clone() }
}

/// Maps a row to a document whose attributes are the six schema traits, in
/// schema order, carrying the row's trait columns.
pub fn amare_to_metadata(v: &Amare) -> (r: Metadata)
    ensures
        r@ == metadata_of(v@),
        is_schema_shaped(r@),
{
    let attributes = vec![
        schema_attribute(TRAIT_EYE, &v.eye),
        schema_attribute(TRAIT_DECORATION, &v.decoration),
        schema_attribute(TRAIT_ARMS, &v.arms),
        schema_attribute(TRAIT_LEGS, &v.legs),
        schema_attribute(TRAIT_BODY, &v.body),
        schema_attribute(TRAIT_CHIP, &v.chip),
    ];
    assert(attributes_view(attributes@) =~= schema_attributes(v@.trait_values()));
    Metadata {
        name: v.name.clone(),
        description: v.description.clone(),
        edition: v.edition,
        attributes,
    }
}

/// When the attribute at `j` is the first one with trait `key`, its value is
/// the one looked up.
pub proof fn lemma_first_value_at(attrs: Seq<AttributeView>, key: Seq<char>, j: int)
    requires
        0 <= j < attrs.len(),
        attrs[j].trait_type == key,
        forall|k: int| 0 <= k < j ==> #[trigger] attrs[k].trait_type != key,
    ensures
        first_value(attrs, key) == attrs[j].value,
    decreases j,
{
    if j > 0 {
        let rest = attrs.drop_first();
        assert(attrs[0].trait_type != key);
        assert forall|k: int| 0 <= k < j - 1 implies #[trigger] rest[k].trait_type != key by {
            assert(rest[k] == attrs[k + 1]);
        }
        lemma_first_value_at(rest, key, j - 1);
    }
}

/// When no attribute has trait `key`, the lookup gives the empty text.
pub proof fn lemma_first_value_absent(attrs: Seq<AttributeView>, key: Seq<char>)
    requires
        forall|k: int| 0 <= k < attrs.len() ==> #[trigger] attrs[k].trait_type != key,
    ensures
        first_value(attrs, key) == Seq::<char>::empty(),
    decreases attrs.len(),
{
    if attrs.len() > 0 {
        let rest = attrs.drop_first();
        assert(attrs[0].trait_type != key);
        assert forall|k: int| 0 <= k < rest.len() implies #[trigger] rest[k].trait_type != key by {
            assert(rest[k] == attrs[k + 1]);
        }
        lemma_first_value_absent(rest, key);
    }
}

/// Inserting an attribute of another trait anywhere leaves the lookup of
/// `key` unchanged.
pub proof fn lemma_first_value_insert(
    attrs: Seq<AttributeView>,
    k: int,
    extra: AttributeView,
    key: Seq<char>,
)
    requires
        0 <= k <= attrs.len(),
        extra.trait_type != key,
    ensures
        first_value(attrs.insert(k, extra), key) == first_value(attrs, key),
    decreases k,
{
    let longer = attrs.insert(k, extra);
    if k == 0 {
        assert(longer.drop_first() =~= attrs);
    } else {
        assert(longer[0] == attrs[0]);
        assert(longer.drop_first() =~= attrs.drop_first().insert(k - 1, extra));
        lemma_first_value_insert(attrs.drop_first(), k - 1, extra, key);
    }
}

/// Each schema trait is found in its own slot of a schema-shaped list.
proof fn lemma_schema_lookup(attrs: Seq<AttributeView>, i: int)
    requires
        attrs.len() == TRAIT_COUNT,
        forall|k: int| 0 <= k < TRAIT_COUNT ==> #[trigger] attrs[k].trait_type == schema()[k],
        0 <= i < TRAIT_COUNT,
    ensures
        first_value(attrs, schema()[i]) == attrs[i].value,
{
    lemma_schema_distinct();
    assert forall|k: int| 0 <= k < i implies #[trigger] attrs[k].trait_type != schema()[i] by {
        assert(attrs[k].trait_type == schema()[k]);
    }
    lemma_first_value_at(attrs, schema()[i], i);
}

/// Every document made from a row is schema-shaped: six attributes whose
/// traits are the schema's names, in schema order.
pub proof fn lemma_schema_order(c: AmareView)
    ensures
        is_schema_shaped(metadata_of(c)),
        metadata_of(c).attributes.len() == 6,
        forall|i: int| 0 <= i < 6 ==> #[trigger] metadata_of(c).attributes[i].trait_type == schema()[i],
{
}

/// Mapping a row to a document and back gives the row again.
pub proof fn lemma_round_trip(c: AmareView)
    ensures
        amare_of(metadata_of(c)) == c,
{
    let attrs = metadata_of(c).attributes;
    assert forall|i: int| 0 <= i < TRAIT_COUNT implies first_value(attrs, schema()[i])
        == c.trait_values()[i] by {
        lemma_schema_lookup(attrs, i);
    }
    assert(amare_of(metadata_of(c)).trait_values() =~= c.trait_values());
}

/// A schema-shaped document mapped to a row and back is the document again.
pub proof fn lemma_projection(m: MetadataView)
    requires
        is_schema_shaped(m),
    ensures
        metadata_of(amare_of(m)) == m,
{
    let c = amare_of(m);
    let attrs = metadata_of(c).attributes;
    assert forall|i: int| 0 <= i < TRAIT_COUNT implies #[trigger] attrs[i] == m.attributes[i] by {
        lemma_schema_lookup(m.attributes, i);
        assert(m.attributes[i].trait_type == schema()[i]);
        assert(c.trait_values()[i] == m.attributes[i].value);
    }
    assert(attrs =~= m.attributes);
}

/// An attribute whose trait is outside the schema changes nothing in the row,
/// and mapping back yields only schema traits.
pub proof fn lemma_unknown_trait_dropped(m: MetadataView, k: int, extra: AttributeView)
    requires
        0 <= k <= m.attributes.len(),
        !schema().contains(extra.trait_type),
    ensures
        amare_of(MetadataView { attributes: m.attributes.insert(k, extra), ..m }) == amare_of(m),
        forall|i: int|
            0 <= i < metadata_of(amare_of(m)).attributes.len() ==> schema().contains(
                #[trigger] metadata_of(amare_of(m)).attributes[i].trait_type,
            ),
{
    assert forall|i: int| 0 <= i < TRAIT_COUNT implies first_value(
        m.attributes.insert(k, extra),
        schema()[i],
    ) == first_value(m.attributes, schema()[i]) by {
        assert(schema()[i] != extra.trait_type);
        lemma_first_value_insert(m.attributes, k, extra, schema()[i]);
    }
    let longer = MetadataView { attributes: m.attributes.insert(k, extra), ..m };
    assert(amare_of(longer).trait_values() =~= amare_of(m).trait_values());
    assert forall|i: int| 0 <= i < metadata_of(amare_of(m)).attributes.len() implies schema().contains(
        #[trigger] metadata_of(amare_of(m)).attributes[i].trait_type,
    ) by {
        assert(metadata_of(amare_of(m)).attributes[i].trait_type == schema()[i]);
    }
}

/// A schema trait that no attribute carries leaves its column empty.
pub proof fn lemma_missing_trait_empty(m: MetadataView, i: int)
    requires
        0 <= i < TRAIT_COUNT,
        forall|k: int| 0 <= k < m.attributes.len() ==> #[trigger] m.attributes[k].trait_type != schema()[i],
    ensures
        amare_of(m).trait_values()[i] == Seq::<char>::empty(),
{
    lemma_first_value_absent(m.attributes, schema()[i]);
}

/// When a schema trait occurs more than once, its column takes the value of
/// the first occurrence.
pub proof fn lemma_first_match_wins(m: MetadataView, i: int, j: int)
    requires
        0 <= i < TRAIT_COUNT,
        0 <= j < m.attributes.len(),
        m.attributes[j].trait_type == schema()[i],
        forall|k: int| 0 <= k < j ==> #[trigger] m.attributes[k].trait_type != schema()[i],
    ensures
        amare_of(m).trait_values()[i] == m.attributes[j].value,
{
    lemma_first_value_at(m.attributes, schema()[i], j);
}

} // verus!

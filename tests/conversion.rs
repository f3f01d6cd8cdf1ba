use amare_convert::driver::{mode_from_flag, sort_by_edition, to_documents, to_rows, Mode};
use amare_convert::mapper::{amare_to_metadata, metadata_to_amare};
use amare_convert::record::{Amare, Attribute, Metadata};
use amare_convert::schema::{
    TRAIT_ARMS, TRAIT_BODY, TRAIT_CHIP, TRAIT_DECORATION, TRAIT_EYE, TRAIT_LEGS,
};

fn attr(trait_type: &str, value: &str) -> Attribute {
    Attribute { trait_type: trait_type.to_string(), value: value.to_string() }
}

fn doc(name: &str, edition: u32, attributes: Vec<Attribute>) -> Metadata {
    Metadata {
        name: name.to_string(),
        description: "d".to_string(),
        edition,
        attributes,
    }
}

fn full_attributes() -> Vec<Attribute> {
    vec![
        attr("01 _ Eye", "blue"),
        attr("02 _ Decoration", "hat"),
        attr("03 _ Arms", "long"),
        attr("04 _ Legs", "short"),
        attr("05 _ Body", "red"),
        attr("06 _ Chip", "gold"),
    ]
}

fn row(name: &str, edition: u32, traits: [&str; 6]) -> Amare {
    Amare {
        name: name.to_string(),
        description: "d".to_string(),
        edition,
        eye: traits[0].to_string(),
        decoration: traits[1].to_string(),
        arms: traits[2].to_string(),
        legs: traits[3].to_string(),
        body: traits[4].to_string(),
        chip: traits[5].to_string(),
    }
}

#[test]
fn schema_names_are_canonical() {
    assert_eq!(TRAIT_EYE, "01 _ Eye");
    assert_eq!(TRAIT_DECORATION, "02 _ Decoration");
    assert_eq!(TRAIT_ARMS, "03 _ Arms");
    assert_eq!(TRAIT_LEGS, "04 _ Legs");
    assert_eq!(TRAIT_BODY, "05 _ Body");
    assert_eq!(TRAIT_CHIP, "06 _ Chip");
}

#[test]
fn single_document_to_row() {
    let rows = to_rows(vec![doc("A", 1, full_attributes())]);
    assert_eq!(rows, vec![row("A", 1, ["blue", "hat", "long", "short", "red", "gold"])]);
}

#[test]
fn single_row_to_document() {
    let docs = to_documents(vec![row("A", 1, ["blue", "hat", "long", "short", "red", "gold"])]);
    assert_eq!(docs, vec![doc("A", 1, full_attributes())]);
}

#[test]
fn documents_come_out_in_edition_order() {
    let rows = to_rows(vec![
        doc("C", 3, full_attributes()),
        doc("A", 1, full_attributes()),
        doc("B", 2, full_attributes()),
    ]);
    let editions: Vec<u32> = rows.iter().map(|r| r.edition).collect();
    assert_eq!(editions, vec![1, 2, 3]);
    let names: Vec<&str> = rows.iter().map(|r| r.name.as_str()).collect();
    assert_eq!(names, vec!["A", "B", "C"]);
}

#[test]
fn rows_come_out_in_edition_order() {
    let traits = ["a", "b", "c", "d", "e", "f"];
    let docs = to_documents(vec![row("C", 3, traits), row("A", 1, traits), row("B", 2, traits)]);
    let editions: Vec<u32> = docs.iter().map(|d| d.edition).collect();
    assert_eq!(editions, vec![1, 2, 3]);
}

#[test]
fn sort_is_stable_within_an_edition() {
    let sorted = sort_by_edition(vec![
        doc("x", 2, vec![]),
        doc("y", 1, vec![]),
        doc("z", 2, vec![]),
        doc("w", 1, vec![]),
        doc("v", 0, vec![]),
    ]);
    let names: Vec<&str> = sorted.iter().map(|d| d.name.as_str()).collect();
    assert_eq!(names, vec!["v", "y", "w", "x", "z"]);
}

#[test]
fn sort_of_empty_batch_is_empty() {
    assert!(sort_by_edition(vec![]).is_empty());
    assert!(to_rows(vec![]).is_empty());
    assert!(to_documents(vec![]).is_empty());
}

#[test]
fn sort_handles_largest_edition() {
    let sorted = sort_by_edition(vec![doc("max", u32::MAX, vec![]), doc("zero", 0, vec![])]);
    assert_eq!(sorted[0].edition, 0);
    assert_eq!(sorted[1].edition, u32::MAX);
}

#[test]
fn missing_trait_gives_empty_column() {
    let mut attributes = full_attributes();
    attributes.remove(4);
    let r = metadata_to_amare(&doc("A", 1, attributes));
    assert_eq!(r.body, "");
    assert_eq!(r.eye, "blue");
    assert_eq!(r.chip, "gold");
}

#[test]
fn unknown_trait_is_ignored() {
    let mut attributes = full_attributes();
    attributes.insert(2, attr("99 _ Aura", "x"));
    let with_extra = metadata_to_amare(&doc("A", 1, attributes));
    let without = metadata_to_amare(&doc("A", 1, full_attributes()));
    assert_eq!(with_extra, without);
    let back = amare_to_metadata(&with_extra);
    assert!(back.attributes.iter().all(|a| a.trait_type != "99 _ Aura"));
}

#[test]
fn first_duplicate_trait_wins() {
    let attributes = vec![
        attr("03 _ Arms", "first"),
        attr("01 _ Eye", "blue"),
        attr("03 _ Arms", "second"),
    ];
    let r = metadata_to_amare(&doc("A", 1, attributes));
    assert_eq!(r.arms, "first");
    assert_eq!(r.eye, "blue");
    assert_eq!(r.legs, "");
}

#[test]
fn trait_lookup_is_case_sensitive() {
    let r = metadata_to_amare(&doc("A", 1, vec![attr("01 _ eye", "blue"), attr("01_Eye", "red")]));
    assert_eq!(r.eye, "");
}

#[test]
fn row_to_document_uses_schema_order() {
    let m = amare_to_metadata(&row("A", 7, ["1", "2", "3", "4", "5", "6"]));
    let names: Vec<&str> = m.attributes.iter().map(|a| a.trait_type.as_str()).collect();
    assert_eq!(
        names,
        vec!["01 _ Eye", "02 _ Decoration", "03 _ Arms", "04 _ Legs", "05 _ Body", "06 _ Chip"]
    );
    let values: Vec<&str> = m.attributes.iter().map(|a| a.value.as_str()).collect();
    assert_eq!(values, vec!["1", "2", "3", "4", "5", "6"]);
    assert_eq!(m.name, "A");
    assert_eq!(m.description, "d");
    assert_eq!(m.edition, 7);
}

#[test]
fn row_round_trip_is_identity() {
    let r = row("N", 42, ["", "x,y", "He said \"hi\", ok", "", "b", "\n"]);
    assert_eq!(metadata_to_amare(&amare_to_metadata(&r)), r);
}

#[test]
fn schema_shaped_document_round_trip_is_identity() {
    let m = doc("A", 1, full_attributes());
    assert_eq!(amare_to_metadata(&metadata_to_amare(&m)), m);
}

#[test]
fn misordered_document_is_normalised() {
    let mut attributes = full_attributes();
    attributes.reverse();
    attributes.push(attr("99 _ Aura", "x"));
    let back = amare_to_metadata(&metadata_to_amare(&doc("A", 1, attributes)));
    assert_eq!(back, doc("A", 1, full_attributes()));
}

#[test]
fn quoted_value_survives_both_directions() {
    let value = "He said \"hi\", ok";
    let r = row("A", 1, [value, "", "", "", "", ""]);
    let docs = to_documents(vec![r.clone()]);
    assert_eq!(docs[0].attributes[0].value, value);
    assert_eq!(to_rows(docs), vec![r]);
}

#[test]
fn csv_flag_selects_rows_as_input() {
    assert_eq!(mode_from_flag("CSV"), Mode::CsvToJson);
    assert_eq!(mode_from_flag("JSON"), Mode::JsonToCsv);
    assert_eq!(mode_from_flag("csv"), Mode::JsonToCsv);
    assert_eq!(mode_from_flag(""), Mode::JsonToCsv);
}

use strings_to_arb::arb::{arb_file_content, to_arb_string, write_needed};
use strings_to_arb::value::ParsedStringXmlValue;
use strings_to_arb::xml::{handle_strings_xml, ParsedStringsXml, StringValue};

fn entry(key: &str, raw_value: &str, description: Option<&str>) -> StringValue {
    StringValue {
        key: key.to_string(),
        value: ParsedStringXmlValue::parse(raw_value.to_string()).unwrap(),
        description: description.map(|d| d.to_string()),
    }
}

fn bundle(locale: &str, entries: Vec<StringValue>) -> ParsedStringsXml {
    ParsedStringsXml {
        strings: entries,
        locale: locale.to_string(),
    }
}

#[test]
fn schema_example_full_bundle() {
    let b = bundle(
        "fr",
        vec![entry("greeting", "Hello, %s!", Some("Greeting text"))],
    );
    let expected = "{\n  \"greeting\": \"Hello, {p0}!\",\n  \"@greeting\": {\n    \"description\": \"Greeting text\",\n    \"placeholders\": {\n      \"p0\": {\n        \"type\": \"String\"\n      }\n    }\n  }\n}\n";
    assert_eq!(arb_file_content(b), expected);
}

#[test]
fn schema_example_through_extractor() {
    let doc = "<resources><string name=\"greeting\" description=\"Greeting text\">Hello, %s!</string></resources>";
    let parsed = handle_strings_xml(doc, "fr").unwrap();
    let expected = "{\n  \"greeting\": \"Hello, {p0}!\",\n  \"@greeting\": {\n    \"description\": \"Greeting text\",\n    \"placeholders\": {\n      \"p0\": {\n        \"type\": \"String\"\n      }\n    }\n  }\n}\n";
    assert_eq!(arb_file_content(parsed), expected);
}

#[test]
fn metadata_omitted_for_base_locale() {
    let b = bundle(
        "en",
        vec![entry("greeting", "Hello, %s!", Some("Greeting text"))],
    );
    let expected = "{\n  \"greeting\": \"Hello, {p0}!\"\n}\n";
    assert_eq!(arb_file_content(b), expected);
}

#[test]
fn keys_sorted_lexicographically() {
    let b = bundle(
        "en",
        vec![entry("b", "2", None), entry("a", "1", None), entry("c", "3", None)],
    );
    let expected = "{\n  \"a\": \"1\",\n  \"b\": \"2\",\n  \"c\": \"3\"\n}\n";
    assert_eq!(arb_file_content(b), expected);
}

#[test]
fn metadata_adjacent_to_sorted_keys() {
    let b = bundle(
        "de",
        vec![entry("z", "%s", None), entry("a", "%s", None)],
    );
    let expected = "{\n  \"a\": \"{p0}\",\n  \"@a\": {\n    \"placeholders\": {\n      \"p0\": {\n        \"type\": \"String\"\n      }\n    }\n  },\n  \"z\": \"{p0}\",\n  \"@z\": {\n    \"placeholders\": {\n      \"p0\": {\n        \"type\": \"String\"\n      }\n    }\n  }\n}\n";
    assert_eq!(arb_file_content(b), expected);
}

#[test]
fn metadata_description_only() {
    let b = bundle("fr", vec![entry("k", "plain", Some("a note"))]);
    let expected = "{\n  \"k\": \"plain\",\n  \"@k\": {\n    \"description\": \"a note\"\n  }\n}\n";
    assert_eq!(arb_file_content(b), expected);
}

#[test]
fn metadata_empty_omitted() {
    let b = bundle("fr", vec![entry("k", "plain", None)]);
    let expected = "{\n  \"k\": \"plain\"\n}\n";
    assert_eq!(arb_file_content(b), expected);
}

#[test]
fn duplicate_keys_last_wins() {
    let b = bundle(
        "en",
        vec![entry("k", "first", None), entry("k", "second", None)],
    );
    let expected = "{\n  \"k\": \"second\"\n}\n";
    assert_eq!(arb_file_content(b), expected);
}

#[test]
fn empty_bundle_renders_empty_object() {
    let b = bundle("en", vec![]);
    assert_eq!(arb_file_content(b), "{}\n");
}

#[test]
fn idempotent_write_skips_equal_content() {
    let first = arb_file_content(bundle(
        "fr",
        vec![entry("greeting", "Hello, %s!", Some("Greeting text"))],
    ));
    let second = arb_file_content(bundle(
        "fr",
        vec![entry("greeting", "Hello, %s!", Some("Greeting text"))],
    ));
    assert_eq!(first, second);
    assert!(!write_needed(Some(&first), &second));
    assert!(write_needed(None, &second));
    let other = "{}\n".to_string();
    assert!(write_needed(Some(&other), &second));
}

#[test]
fn multiple_placeholders_listed_in_order() {
    let parts = to_arb_string(
        vec![entry("m", "%s-%s-%s", None)],
        true,
    );
    let expected = "{\n  \"m\": \"{p0}-{p1}-{p2}\",\n  \"@m\": {\n    \"placeholders\": {\n      \"p0\": {\n        \"type\": \"String\"\n      },\n      \"p1\": {\n        \"type\": \"String\"\n      },\n      \"p2\": {\n        \"type\": \"String\"\n      }\n    }\n  }\n}\n";
    assert_eq!(parts, expected);
}

use strings_to_arb::value::ParseError;
use strings_to_arb::xml::{handle_strings_xml, locale_for_dir_name};

#[test]
fn extract_simple_document() {
    let doc = "<resources>\
        <string name=\"greeting\" description=\"Greeting text\">Hello, %s!</string>\
        <string name=\"farewell\">Bye</string>\
    </resources>";
    let parsed = handle_strings_xml(doc, "en").unwrap();
    assert_eq!(parsed.locale, "en");
    assert_eq!(parsed.strings.len(), 2);
    assert_eq!(parsed.strings[0].key, "greeting");
    assert_eq!(
        parsed.strings[0].description.as_deref(),
        Some("Greeting text")
    );
    assert_eq!(parsed.strings[0].value.to_arb_string(), "Hello, {p0}!");
    assert_eq!(parsed.strings[1].key, "farewell");
    assert_eq!(parsed.strings[1].description, None);
    assert_eq!(parsed.strings[1].value.to_arb_string(), "Bye");
}

#[test]
fn extract_missing_name_fails() {
    let doc = "<resources><string>No name here</string></resources>";
    assert_eq!(handle_strings_xml(doc, "en"), Err(ParseError::MissingName));
}

#[test]
fn extract_malformed_document_fails() {
    let doc = "<resources><string name=\"a\">text";
    assert_eq!(
        handle_strings_xml(doc, "en"),
        Err(ParseError::MalformedDocument)
    );
}

#[test]
fn extract_bad_value_aborts_whole_run() {
    let doc = "<resources>\
        <string name=\"good\">fine</string>\
        <string name=\"bad\">%d</string>\
    </resources>";
    assert_eq!(
        handle_strings_xml(doc, "en"),
        Err(ParseError::UnknownSpecifier)
    );
}

#[test]
fn extract_empty_string_element_dropped() {
    let doc = "<resources>\
        <string name=\"kept\">value</string>\
        <string name=\"dropped\"></string>\
    </resources>";
    let parsed = handle_strings_xml(doc, "en").unwrap();
    assert_eq!(parsed.strings.len(), 1);
    assert_eq!(parsed.strings[0].key, "kept");
}

#[test]
fn extract_ignores_unrelated_elements() {
    let doc = "<resources>\
        <style name=\"ignored\">nope</style>\
        <string name=\"k\">v</string>\
    </resources>";
    let parsed = handle_strings_xml(doc, "en").unwrap();
    assert_eq!(parsed.strings.len(), 1);
    assert_eq!(parsed.strings[0].key, "k");
    assert_eq!(parsed.strings[0].value.to_arb_string(), "v");
}

#[test]
fn extract_whitespace_between_elements() {
    let doc = "<resources>\n  <string name=\"k\">v</string>\n</resources>\n";
    let parsed = handle_strings_xml(doc, "fr").unwrap();
    assert_eq!(parsed.locale, "fr");
    assert_eq!(parsed.strings.len(), 1);
}

#[test]
fn locale_derivation() {
    assert_eq!(locale_for_dir_name("values").as_deref(), Some("en"));
    assert_eq!(locale_for_dir_name("values-fr").as_deref(), Some("fr"));
    assert_eq!(locale_for_dir_name("drawable"), None);
    assert_eq!(locale_for_dir_name("values-pt-rBR").as_deref(), Some("pt-rBR"));
    assert_eq!(locale_for_dir_name("value"), None);
}

#[test]
fn extract_decodes_xml_entities() {
    let doc = "<resources><string name=\"amp\">a &amp; b</string></resources>";
    let parsed = handle_strings_xml(doc, "en").unwrap();
    assert_eq!(parsed.strings[0].value.to_arb_string(), "a & b");
}

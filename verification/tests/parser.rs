use strings_to_arb::value::{
    FormatSpecifier, FormatSpecifierType, ParseError, ParsedStringXmlValue,
    ParsedStringXmlValuePart,
};

fn parse(text: &str) -> Result<ParsedStringXmlValue, ParseError> {
    ParsedStringXmlValue::parse(text.to_string())
}

#[test]
fn round_trip_literal_text() {
    let input = "Hello world, nothing special here.";
    let parsed = parse(input).unwrap();
    assert_eq!(parsed.to_arb_string(), input);
    assert_eq!(parsed.contents.len(), 1);
    assert!(matches!(
        &parsed.contents[0],
        ParsedStringXmlValuePart::Text(t) if t == input
    ));
}

#[test]
fn escape_backslash_n_coalesces() {
    let parsed = parse("a\\nb").unwrap();
    assert_eq!(parsed.contents.len(), 1);
    assert!(matches!(
        &parsed.contents[0],
        ParsedStringXmlValuePart::Text(t) if t == "a\nb"
    ));
    assert_eq!(parsed.to_arb_string(), "a\nb");
}

#[test]
fn placeholder_numbering() {
    let parsed = parse("%s and %s").unwrap();
    assert_eq!(parsed.contents.len(), 3);
    assert_eq!(
        parsed.contents[0],
        ParsedStringXmlValuePart::FormatSpecifier(FormatSpecifier {
            specifier_type: FormatSpecifierType::StringKind,
            arg_number: 0,
        })
    );
    assert_eq!(
        parsed.contents[1],
        ParsedStringXmlValuePart::Text(" and ".to_string())
    );
    assert_eq!(
        parsed.contents[2],
        ParsedStringXmlValuePart::FormatSpecifier(FormatSpecifier {
            specifier_type: FormatSpecifierType::StringKind,
            arg_number: 1,
        })
    );
    assert_eq!(parsed.to_arb_string(), "{p0} and {p1}");
}

#[test]
fn literal_percent_single_text() {
    let parsed = parse("100%%").unwrap();
    assert_eq!(parsed.contents.len(), 1);
    assert_eq!(
        parsed.contents[0],
        ParsedStringXmlValuePart::Text("100%".to_string())
    );
    assert!(parsed.format_specifiers().is_empty());
}

#[test]
fn unknown_specifier_fails() {
    assert_eq!(parse("%d"), Err(ParseError::UnknownSpecifier));
}

#[test]
fn unknown_escape_fails() {
    assert_eq!(parse("\\x"), Err(ParseError::UnknownEscape));
}

#[test]
fn trailing_backslash_fails() {
    assert_eq!(parse("ab\\"), Err(ParseError::UnknownEscape));
}

#[test]
fn trailing_percent_fails() {
    assert_eq!(parse("ab%"), Err(ParseError::UnknownSpecifier));
}

#[test]
fn all_escapes_decode() {
    let parsed = parse("\\\\\\'\\\"\\n\\t\\@\\?").unwrap();
    assert_eq!(parsed.to_arb_string(), "\\'\"\n\t@?");
    assert_eq!(parsed.contents.len(), 1);
}

#[test]
fn empty_value_has_no_parts() {
    let parsed = parse("").unwrap();
    assert!(parsed.contents.is_empty());
    assert_eq!(parsed.to_arb_string(), "");
}

#[test]
fn placeholder_part_queries() {
    let f = FormatSpecifier {
        specifier_type: FormatSpecifierType::StringKind,
        arg_number: 3,
    };
    assert_eq!(f.to_arb_placeholder_name(), "p3");
    assert_eq!(f.to_arb_placeholder_type(), "String");
    assert_eq!(f.to_arb_string(), "{p3}");
    let part = ParsedStringXmlValuePart::FormatSpecifier(f);
    assert!(part.is_format_specifier());
    assert_eq!(part.to_arb_string(), "{p3}");
    let text = ParsedStringXmlValuePart::Text("plain".to_string());
    assert!(!text.is_format_specifier());
    assert_eq!(text.to_arb_string(), "plain");
}

#[test]
fn placeholder_indices_skip_literal_percent() {
    let parsed = parse("%%%s%%%s").unwrap();
    let specs = parsed.format_specifiers();
    assert_eq!(specs.len(), 2);
    assert_eq!(specs[0].arg_number, 0);
    assert_eq!(specs[1].arg_number, 1);
    assert_eq!(parsed.to_arb_string(), "%{p0}%{p1}");
}

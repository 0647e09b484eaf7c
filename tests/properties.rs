use parser::{
    expect_end, identifier_from_str, parse_identifier, parse_property, parse_separator,
    parse_string_value, property_from_str, string_value_from_str, Expected, ParseError, Property,
    skip_blanks, Source, Span,
};

fn property(key: &str, value: &str, start: usize, end: usize) -> Property {
    Property::new(key.to_string(), value.to_string(), Span { start, end })
}

#[test]
fn should_parse_valid_identifier() {
    for identifier in ["valid", "with-dashes", "with_underscores", "with-numbers-23", "ValidIdentifier"] {
        assert_eq!(identifier_from_str(identifier).unwrap(), identifier);
    }
}

#[test]
fn should_fail_to_parse_invalid_identifier() {
    for input in ["?invalid", "not-including-colon:"] {
        assert!(identifier_from_str(input).is_err());
    }
}

#[test]
fn should_parse_valid_string() {
    for (input, expected) in [("\"Michael\"", "Michael"), ("\"$\"", "$"), ("\"1234\"", "1234")] {
        assert_eq!(string_value_from_str(input).unwrap(), expected.to_string());
    }
}

#[test]
fn should_not_parse_invalid_string() {
    for input in ["No begging quote\"", "\"No ending quote"] {
        assert!(string_value_from_str(input).is_err());
    }
}

#[test]
fn should_parse_valid_property() {
    let p = property_from_str("first_name: \"Michael\"").unwrap();
    assert_eq!(p, property("first_name", "Michael", 0, 21));
    let p = property_from_str("name:\t\"Jack\"").unwrap();
    assert_eq!(p, property("name", "Jack", 0, 12));
}

#[test]
fn identifier_with_dashes_alone() {
    assert_eq!(identifier_from_str("with-dashes").unwrap(), "with-dashes");
}

#[test]
fn identifier_of_unicode_alphanumerics() {
    assert_eq!(identifier_from_str("日本語-x_2").unwrap(), "日本語-x_2");
    assert_eq!(identifier_from_str("éte\u{0663}").unwrap(), "éte\u{0663}");
}

#[test]
fn identifier_may_be_empty() {
    assert_eq!(identifier_from_str("").unwrap(), "");
    let src = Source::new(":x");
    assert_eq!(parse_identifier(&src, 0), (String::new(), 0));
}

#[test]
fn identifier_stops_at_first_outsider() {
    let src = Source::new("ab-c d");
    assert_eq!(parse_identifier(&src, 0), ("ab-c".to_string(), 4));
    assert_eq!(parse_identifier(&src, 5), ("d".to_string(), 6));
    assert_eq!(parse_identifier(&src, 6), (String::new(), 6));
}

#[test]
fn leading_outsider_error() {
    let err = identifier_from_str("?invalid").unwrap_err();
    assert_eq!(err, ParseError { offset: 0, expected: Expected::End, found: Some('?') });
    let err = property_from_str("?invalid").unwrap_err();
    assert_eq!(err, ParseError { offset: 0, expected: Expected::Char(':'), found: Some('?') });
}

#[test]
fn identifier_with_trailing_colon_error() {
    let err = identifier_from_str("not-including-colon:").unwrap_err();
    assert_eq!(err, ParseError { offset: 19, expected: Expected::End, found: Some(':') });
}

#[test]
fn string_literals_alone() {
    assert_eq!(string_value_from_str("\"1234\"").unwrap(), "1234");
    assert_eq!(string_value_from_str("\"$\"").unwrap(), "$");
    assert_eq!(string_value_from_str("\"\"").unwrap(), "");
    assert_eq!(string_value_from_str("\"a b\t:'\"").unwrap(), "a b\t:'");
}

#[test]
fn string_round_trip_examples() {
    for text in ["", "plain", "with spaces", "ünïcødé ✓", "colon: here", "back\\slash"] {
        let quoted = format!("\"{}\"", text);
        assert_eq!(string_value_from_str(&quoted).unwrap(), text);
    }
}

#[test]
fn missing_opening_quote_error() {
    let err = string_value_from_str("No begging quote\"").unwrap_err();
    assert_eq!(err, ParseError { offset: 0, expected: Expected::Char('"'), found: Some('N') });
    let err = string_value_from_str("").unwrap_err();
    assert_eq!(err, ParseError { offset: 0, expected: Expected::Char('"'), found: None });
}

#[test]
fn missing_closing_quote_error() {
    let err = string_value_from_str("\"No ending quote").unwrap_err();
    assert_eq!(err, ParseError { offset: 16, expected: Expected::Char('"'), found: None });
}

#[test]
fn string_followed_by_more_text_error() {
    let err = string_value_from_str("\"a\"b").unwrap_err();
    assert_eq!(err, ParseError { offset: 3, expected: Expected::End, found: Some('b') });
}

#[test]
fn blanks_around_colon_do_not_matter() {
    let blanks = ["", " ", "\t", "\n", "\r", "  \t\r\n ", "\r\n\r\n"];
    for before in blanks {
        for after in blanks {
            let input = format!("key{}:{}\"some value\"", before, after);
            let p = property_from_str(&input).unwrap();
            assert_eq!(p.key(), "key");
            assert_eq!(p.value(), "some value");
            assert_eq!(p.span(), Span { start: 0, end: input.len() });
        }
    }
}

#[test]
fn property_with_empty_key_and_value() {
    assert_eq!(property_from_str(":\"\"").unwrap(), property("", "", 0, 3));
}

#[test]
fn property_span_counts_bytes() {
    let p = property_from_str("héllo: \"ü\"").unwrap();
    assert_eq!(p, property("héllo", "ü", 0, 12));
    assert_eq!(p.span(), Span { start: 0, end: "héllo: \"ü\"".len() });
}

#[test]
fn property_at_a_position() {
    let text = "  é : \"v\" rest";
    let src = Source::new(text);
    let (p, next) = parse_property(&src, 2).unwrap();
    assert_eq!(p, property("é", "v", 2, 10));
    assert_eq!(&text[2..10], "é : \"v\"");
    assert_eq!(next, 9);
    assert_eq!(expect_end(&src, next).unwrap_err(),
        ParseError { offset: 10, expected: Expected::End, found: Some(' ') });
    assert_eq!(expect_end(&src, src.len()), Ok(()));
}

#[test]
fn property_missing_colon_error() {
    let err = property_from_str("name \"Jack\"").unwrap_err();
    assert_eq!(err, ParseError { offset: 5, expected: Expected::Char(':'), found: Some('"') });
}

#[test]
fn property_missing_value_quote_error() {
    let err = property_from_str("name: Jack").unwrap_err();
    assert_eq!(err, ParseError { offset: 6, expected: Expected::Char('"'), found: Some('J') });
    let err = property_from_str("name: \"Jack").unwrap_err();
    assert_eq!(err, ParseError { offset: 11, expected: Expected::Char('"'), found: None });
}

#[test]
fn property_with_trailing_text_error() {
    let err = property_from_str("a: \"b\" ").unwrap_err();
    assert_eq!(err, ParseError { offset: 6, expected: Expected::End, found: Some(' ') });
}

#[test]
fn separator_alone() {
    let src = Source::new(" \t: \nx");
    assert_eq!(parse_separator(&src, 0), Ok(5));
    let err = parse_separator(&src, 5).unwrap_err();
    assert_eq!(err, ParseError { offset: 5, expected: Expected::Char(':'), found: Some('x') });
}

#[test]
fn string_value_at_a_position() {
    let src = Source::new("x=\"ab\"!");
    assert_eq!(parse_string_value(&src, 2), Ok(("ab".to_string(), 6)));
    assert!(parse_string_value(&src, 0).is_err());
}

#[test]
fn property_accessors() {
    let p = property("k", "v", 3, 9);
    assert_eq!(p.key(), "k");
    assert_eq!(p.value(), "v");
    assert_eq!(p.value, "v".to_string());
    assert_eq!(p.span(), Span { start: 3, end: 9 });
    assert_eq!(Source::new("né").len(), 2);
}

#[test]
fn blanks_are_skipped() {
    let src = Source::new(" \t\r\n x ");
    assert_eq!(skip_blanks(&src, 0), 5);
    assert_eq!(skip_blanks(&src, 5), 5);
    assert_eq!(skip_blanks(&src, 6), 7);
}

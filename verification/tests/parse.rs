use vcf::headers::{FieldMap, Header, HeaderValue};
use vcf::parse::{collect_fields, strip_quotes, ParseError, ParseErrorKind};

fn fields(pairs: &[(&str, &str)]) -> FieldMap {
    let mut map = FieldMap::new();
    for (key, value) in pairs {
        map.insert(key, value).unwrap();
    }
    map
}

fn in_line(kind: ParseErrorKind) -> ParseError {
    ParseError { kind, field: None }
}

fn in_field(kind: ParseErrorKind, index: usize) -> ParseError {
    ParseError { kind, field: Some(index) }
}

#[test]
fn parses_a_flat_line() {
    assert_eq!(
        Header::parse("##fileformat=VCFv1.4"),
        Ok(Header {
            key: "fileformat".to_string(),
            value: HeaderValue::Flat("VCFv1.4".to_string()),
        })
    );
}

#[test]
fn key_ends_at_the_first_equals_sign() {
    assert_eq!(
        Header::parse("##source=a=b=c"),
        Ok(Header { key: "source".to_string(), value: HeaderValue::Flat("a=b=c".to_string()) })
    );
    assert_eq!(
        Header::parse("##INFO=<ID=x=y>"),
        Ok(Header { key: "INFO".to_string(), value: HeaderValue::Nested(fields(&[("ID", "x=y")])) })
    );
}

#[test]
fn flat_value_is_kept_as_written() {
    assert_eq!(HeaderValue::parse("\"quoted\""), Ok(HeaderValue::Flat("\"quoted\"".to_string())));
    assert_eq!(HeaderValue::parse(" padded "), Ok(HeaderValue::Flat(" padded ".to_string())));
    assert_eq!(HeaderValue::parse(""), Ok(HeaderValue::Flat(String::new())));
    assert_eq!(HeaderValue::parse("<"), Ok(HeaderValue::Flat("<".to_string())));
    assert_eq!(HeaderValue::parse(">"), Ok(HeaderValue::Flat(">".to_string())));
    assert_eq!(HeaderValue::parse("<a=b"), Ok(HeaderValue::Flat("<a=b".to_string())));
    assert_eq!(HeaderValue::parse("a=b>"), Ok(HeaderValue::Flat("a=b>".to_string())));
}

#[test]
fn empty_structured_value_has_no_fields() {
    assert_eq!(HeaderValue::parse("<>"), Ok(HeaderValue::Nested(FieldMap::new())));
    assert_eq!(
        Header::parse("##INFO=<>"),
        Ok(Header { key: "INFO".to_string(), value: HeaderValue::Nested(FieldMap::new()) })
    );
}

#[test]
fn quoted_value_loses_one_pair_of_quotes() {
    let parsed = Header::parse("##FORMAT=<abc=123,xyz=3125,sfh=\"1,574\">").unwrap();
    match parsed.value {
        HeaderValue::Nested(map) => {
            assert_eq!(map.get("sfh"), Some("1,574"));
            assert_eq!(map.get("abc"), Some("123"));
            assert_eq!(map.len(), 3);
        },
        HeaderValue::Flat(_) => panic!("a structured value was expected"),
    }
    assert_eq!(strip_quotes("\"1,574\""), "1,574");
    assert_eq!(strip_quotes("\"\"x\"\""), "\"x\"");
    assert_eq!(strip_quotes("\"\""), "");
    assert_eq!(strip_quotes("\""), "\"");
    assert_eq!(strip_quotes("\"x"), "\"x");
    assert_eq!(strip_quotes("x\""), "x\"");
    assert_eq!(strip_quotes("x"), "x");
    assert_eq!(strip_quotes(""), "");
}

#[test]
fn fields_keep_their_order() {
    let parsed = HeaderValue::parse("<xyz=1,abc=2,mno=3>").unwrap();
    match parsed {
        HeaderValue::Nested(map) => {
            assert_eq!(map.entry(0), Some(("xyz", "1")));
            assert_eq!(map.entry(1), Some(("abc", "2")));
            assert_eq!(map.entry(2), Some(("mno", "3")));
        },
        HeaderValue::Flat(_) => panic!("a structured value was expected"),
    }
}

#[test]
fn missing_prefix_is_an_error() {
    let missing = Err(in_line(ParseErrorKind::MissingPrefix));
    assert_eq!(Header::parse("fileformat=VCFv1.4"), missing);
    assert_eq!(Header::parse("#fileformat=VCFv1.4"), missing);
    assert_eq!(Header::parse(" ##fileformat=VCFv1.4"), missing);
    assert_eq!(Header::parse(""), missing);
    assert_eq!(Header::parse("#"), missing);
}

#[test]
fn missing_separator_is_an_error() {
    let missing = Err(in_line(ParseErrorKind::MissingSeparator));
    assert_eq!(Header::parse("##fileformat"), missing);
    assert_eq!(Header::parse("##"), missing);
    assert_eq!(Header::parse("##<abc>"), missing);
}

#[test]
fn missing_separator_in_a_field_is_an_error() {
    let missing = |index| Err(in_field(ParseErrorKind::MissingSeparator, index));
    assert_eq!(Header::parse("##INFO=<abc>"), missing(0));
    assert_eq!(Header::parse("##INFO=<abc=1,xyz>"), missing(1));
    assert_eq!(Header::parse("##INFO=<abc=1,,xyz=2>"), missing(1));
    assert_eq!(Header::parse("##INFO=<abc=1,>"), missing(1));
    assert_eq!(Header::parse("##INFO=<abc=1,xyz=\"a,b\",mno>"), missing(2));
}

#[test]
fn unterminated_quote_in_a_line_is_an_error() {
    let open = Err(in_line(ParseErrorKind::UnterminatedQuote));
    assert_eq!(Header::parse("##INFO=<abc=\"1,574>"), open);
    assert_eq!(Header::parse("##INFO=<abc,xyz=\">"), open);
}

#[test]
fn duplicate_key_is_an_error() {
    let duplicate = |index| Err(in_field(ParseErrorKind::DuplicateKey, index));
    assert_eq!(Header::parse("##INFO=<abc=1,abc=2>"), duplicate(1));
    assert_eq!(Header::parse("##INFO=<abc=1,xyz=2,abc=1>"), duplicate(2));
}

#[test]
fn empty_key_in_a_structured_value_is_an_error() {
    let empty = |index| Err(in_field(ParseErrorKind::EmptyKey, index));
    assert_eq!(Header::parse("##INFO=<=1>"), empty(0));
    assert_eq!(Header::parse("##INFO=<abc=1,=2>"), empty(1));
}

#[test]
fn empty_key_of_a_line_is_accepted() {
    assert_eq!(
        Header::parse("##=value"),
        Ok(Header { key: String::new(), value: HeaderValue::Flat("value".to_string()) })
    );
}

#[test]
fn first_failing_field_decides_the_error() {
    assert_eq!(
        Header::parse("##INFO=<abc=1,xyz,abc=2>"),
        Err(in_field(ParseErrorKind::MissingSeparator, 1))
    );
    assert_eq!(
        Header::parse("##INFO=<abc=1,abc=2,xyz>"),
        Err(in_field(ParseErrorKind::DuplicateKey, 1))
    );
    assert_eq!(Header::parse("##INFO=<=1,xyz>"), Err(in_field(ParseErrorKind::EmptyKey, 0)));
    assert_eq!(
        Header::parse("##INFO=<xyz,abc=\">"),
        Err(in_line(ParseErrorKind::UnterminatedQuote))
    );
}

#[test]
fn collects_fields_from_tokens() {
    let tokens = vec!["abc=123".to_string(), "sfh=\"1,574\"".to_string()];
    assert_eq!(collect_fields(&tokens), Ok(fields(&[("abc", "123"), ("sfh", "1,574")])));
    assert_eq!(collect_fields(&Vec::new()), Ok(FieldMap::new()));
    assert_eq!(
        collect_fields(&vec!["abc".to_string()]),
        Err(in_field(ParseErrorKind::MissingSeparator, 0))
    );
}

#[test]
fn parsed_lines_compare_by_key_and_value() {
    let one = Header::parse("##INFO=<abc=1,xyz=2>").unwrap();
    let other = Header::parse("##INFO=<xyz=2,abc=1>").unwrap();
    assert_eq!(one, other);
    assert_eq!(one.clone(), one);
    assert_ne!(one, Header::parse("##FORMAT=<abc=1,xyz=2>").unwrap());
    assert_ne!(one, Header::parse("##INFO=<abc=1,xyz=3>").unwrap());
    assert_ne!(one, Header::parse("##INFO=abc").unwrap());
    assert_ne!(Header::parse("##INFO=abc").unwrap(), Header::parse("##INFO=abd").unwrap());
}

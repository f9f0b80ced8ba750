use vcf::headers::FieldMap;
use vcf::validate_format::{
    has_required_keys, has_valid_number_value, has_valid_type_value, is_valid_format,
    parse_count, parse_number_field, parse_type_value, DataType, DeclarationError, NumberField,
};

fn fields(pairs: &[(&str, &str)]) -> FieldMap {
    let mut map = FieldMap::new();
    for (key, value) in pairs {
        map.insert(key, value).unwrap();
    }
    map
}

fn declaration(number: &str, name: &str) -> FieldMap {
    fields(&[("ID", "NS"), ("Number", number), ("Type", name), ("Description", "text")])
}

#[test]
fn number_grammar() {
    let invalid = Err(DeclarationError::InvalidNumber);
    assert_eq!(parse_number_field(Some("0")), Ok(NumberField::Number(0)));
    assert_eq!(parse_number_field(Some("33")), Ok(NumberField::Number(33)));
    assert_eq!(parse_number_field(Some("-3")), invalid);
    assert_eq!(parse_number_field(Some("3.0")), invalid);
    assert_eq!(parse_number_field(Some("")), invalid);
    assert_eq!(parse_number_field(Some("A")), Ok(NumberField::A));
    assert_eq!(parse_number_field(Some("R")), Ok(NumberField::R));
    assert_eq!(parse_number_field(Some("G")), Ok(NumberField::G));
    assert_eq!(parse_number_field(Some(".")), Ok(NumberField::Dot));
    assert_eq!(parse_number_field(Some("B")), invalid);
}

#[test]
fn number_takes_digits_only() {
    let invalid = Err(DeclarationError::InvalidNumber);
    assert_eq!(parse_number_field(Some("+3")), invalid);
    assert_eq!(parse_number_field(Some(" 3")), invalid);
    assert_eq!(parse_number_field(Some("3 ")), invalid);
    assert_eq!(parse_number_field(Some("3a")), invalid);
    assert_eq!(parse_number_field(Some("a")), invalid);
    assert_eq!(parse_number_field(Some("AA")), invalid);
    assert_eq!(parse_number_field(Some("..")), invalid);
    assert_eq!(parse_number_field(Some("٣")), invalid);
    assert_eq!(parse_number_field(Some("007")), Ok(NumberField::Number(7)));
    assert_eq!(parse_number_field(Some("1234567890")), Ok(NumberField::Number(1234567890)));
}

#[test]
fn number_fits_in_32_bits() {
    assert_eq!(parse_number_field(Some("4294967295")), Ok(NumberField::Number(4294967295)));
    assert_eq!(parse_number_field(Some("4294967296")), Err(DeclarationError::InvalidNumber));
    assert_eq!(parse_number_field(Some("42949672950")), Err(DeclarationError::InvalidNumber));
    assert_eq!(
        parse_number_field(Some("99999999999999999999999999")),
        Err(DeclarationError::InvalidNumber)
    );
    assert_eq!(
        parse_number_field(Some("0000000000004294967295")),
        Ok(NumberField::Number(4294967295))
    );
}

#[test]
fn missing_number_is_an_error() {
    assert_eq!(parse_number_field(None), Err(DeclarationError::MissingNumber));
}

#[test]
fn count_is_read_exactly() {
    let digits: Vec<char> = "120".chars().collect();
    assert_eq!(parse_count(&digits), Some(120));
    assert_eq!(parse_count(&[]), None);
    assert_eq!(parse_count(&['1', '.', '0']), None);
    assert_eq!(parse_count(&['A']), None);
}

#[test]
fn type_grammar() {
    let count = NumberField::Number(2);
    assert_eq!(parse_type_value(&declaration("2", "Integer")), Ok(DataType::Integer(count)));
    assert_eq!(parse_type_value(&declaration("2", "Float")), Ok(DataType::Float(count)));
    assert_eq!(parse_type_value(&declaration("2", "Character")), Ok(DataType::Character(count)));
    assert_eq!(parse_type_value(&declaration("2", "String")), Ok(DataType::String(count)));
    assert_eq!(parse_type_value(&declaration("0", "Flag")), Ok(DataType::Flag));
    assert_eq!(parse_type_value(&declaration("A", "Float")), Ok(DataType::Float(NumberField::A)));
    assert_eq!(
        parse_type_value(&declaration(".", "String")),
        Ok(DataType::String(NumberField::Dot))
    );
}

#[test]
fn type_names_are_exact() {
    let invalid = Err(DeclarationError::InvalidType);
    let names = [
        "string", "STRING", "integer", "float", "flag", "character", "Number", "", " String",
        "String ", "Strin", "Strings",
    ];
    for name in names {
        assert_eq!(parse_type_value(&declaration("2", name)), invalid);
        assert!(!has_valid_type_value(&declaration("2", name)));
        assert!(!is_valid_format(&declaration("2", name)));
    }
}

#[test]
fn invalid_type_comes_before_invalid_number() {
    assert_eq!(parse_type_value(&declaration("x", "Text")), Err(DeclarationError::InvalidType));
    assert_eq!(
        parse_type_value(&declaration("x", "Integer")),
        Err(DeclarationError::InvalidNumber)
    );
    assert!(!is_valid_format(&declaration("x", "Text")));
}

#[test]
fn missing_type_or_number() {
    assert_eq!(
        parse_type_value(&fields(&[("Number", "1")])),
        Err(DeclarationError::MissingType)
    );
    assert_eq!(
        parse_type_value(&fields(&[("Type", "Integer")])),
        Err(DeclarationError::MissingNumber)
    );
    assert_eq!(parse_type_value(&FieldMap::new()), Err(DeclarationError::MissingType));
}

#[test]
fn flag_has_no_count() {
    assert_eq!(parse_type_value(&fields(&[("Type", "Flag")])), Ok(DataType::Flag));
    assert_eq!(parse_type_value(&declaration("00", "Flag")), Ok(DataType::Flag));
    assert_eq!(parse_type_value(&declaration("1", "Flag")), Err(DeclarationError::FlagWithCount));
    assert_eq!(parse_type_value(&declaration("A", "Flag")), Err(DeclarationError::FlagWithCount));
    assert_eq!(parse_type_value(&declaration(".", "Flag")), Err(DeclarationError::FlagWithCount));
    assert_eq!(parse_type_value(&declaration("x", "Flag")), Err(DeclarationError::InvalidNumber));
    assert!(is_valid_format(&declaration("0", "Flag")));
    assert!(!is_valid_format(&declaration("1", "Flag")));
    assert!(!is_valid_format(&declaration("A", "Flag")));
}

#[test]
fn key_set_is_exact() {
    let valid = declaration("1", "Integer");
    assert!(has_required_keys(&valid));
    assert!(is_valid_format(&valid));

    for missing in ["ID", "Number", "Type", "Description"] {
        let mut map = FieldMap::new();
        for i in 0..valid.len() {
            let (key, value) = valid.entry(i).unwrap();
            if key != missing {
                map.insert(key, value).unwrap();
            }
        }
        assert!(!has_required_keys(&map));
        assert!(!is_valid_format(&map));
    }

    for extra in ["Source", "Version", "id", "BadKey", "ID "] {
        let mut map = declaration("1", "Integer");
        map.insert(extra, "x").unwrap();
        assert!(!has_required_keys(&map));
        assert!(!is_valid_format(&map));
    }
}

#[test]
fn key_order_does_not_matter() {
    let map = fields(&[("Description", "text"), ("Type", "Float"), ("Number", "A"), ("ID", "AF")]);
    assert!(has_required_keys(&map));
    assert!(is_valid_format(&map));
}

#[test]
fn four_other_keys_are_not_the_required_ones() {
    let map = fields(&[("ID", "x"), ("Number", "1"), ("Type", "Integer"), ("Source", "text")]);
    assert!(!has_required_keys(&map));
    assert!(has_valid_type_value(&map));
    assert!(has_valid_number_value(&map));
    assert!(!is_valid_format(&map));
}

#[test]
fn number_is_checked_beside_the_type() {
    let map = fields(&[("Number", "3.5"), ("Type", "Flag")]);
    assert!(!has_valid_number_value(&map));
    assert!(!has_valid_number_value(&FieldMap::new()));
    assert!(has_valid_number_value(&fields(&[("Number", "G")])));
}

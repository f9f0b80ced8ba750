use vcf::headers::FieldMap;
use vcf::validate_format::is_valid_format;

fn fields(pairs: &[(&str, &str)]) -> FieldMap {
    let mut map = FieldMap::new();
    for (key, value) in pairs {
        map.insert(key, value).unwrap();
    }
    map
}

#[test]
fn returns_true_when_all_fields_present_and_value_types_correct() {
    let valid_input = fields(&[
        ("ID", "ID123"),
        ("Number", "3"),
        ("Type", "String"),
        ("Description", "This is a thing"),
    ]);

    let result = is_valid_format(&valid_input);

    assert_eq!(result, true);
}

#[test]
fn returns_false_if_missing_id() {
    let missing_id_input = fields(&[
        ("Number", "3"),
        ("Type", "String"),
        ("Description", "This is a thing"),
    ]);

    let result = is_valid_format(&missing_id_input);

    assert_eq!(result, false);
}

#[test]
fn returns_false_if_missing_number() {
    let missing_number_input = fields(&[
        ("ID", "ID123"),
        ("Type", "String"),
        ("Description", "This is a thing"),
    ]);

    let result = is_valid_format(&missing_number_input);

    assert_eq!(result, false);
}

#[test]
fn returns_false_if_missing_type() {
    let missing_type_input = fields(&[
        ("ID", "ID123"),
        ("Number", "3"),
        ("Description", "This is a thing"),
    ]);

    let result = is_valid_format(&missing_type_input);

    assert_eq!(result, false);
}

#[test]
fn returns_false_if_missing_description() {
    let missing_description_input =
        fields(&[("ID", "ID123"), ("Number", "3"), ("Type", "String")]);

    let result = is_valid_format(&missing_description_input);

    assert_eq!(result, false);
}

#[test]
fn returns_false_if_extra_key_included() {
    let extra_key_input = fields(&[
        ("ID", "ID123"),
        ("Number", "3"),
        ("Type", "String"),
        ("Description", "This is a thing"),
        ("BadKey", "This shouldn't be here"),
    ]);

    let result = is_valid_format(&extra_key_input);

    assert_eq!(result, false);
}

#[test]
fn returns_true_if_type_is_Integer() {
    let integer_value_input = fields(&[
        ("ID", "ID123"),
        ("Number", "3"),
        ("Type", "Integer"),
        ("Description", "This is a thing"),
    ]);

    let result = is_valid_format(&integer_value_input);

    assert_eq!(result, true);
}

#[test]
fn returns_true_if_type_is_Float() {
    let float_value_input = fields(&[
        ("ID", "ID123"),
        ("Number", "3"),
        ("Type", "Float"),
        ("Description", "This is a thing"),
    ]);

    let result = is_valid_format(&float_value_input);

    assert_eq!(result, true);
}

#[test]
fn returns_true_if_type_is_Character() {
    let character_value_input = fields(&[
        ("ID", "ID123"),
        ("Number", "3"),
        ("Type", "Character"),
        ("Description", "This is a thing"),
    ]);

    let result = is_valid_format(&character_value_input);

    assert_eq!(result, true);
}

#[test]
fn returns_true_if_type_is_String() {
    let string_value_input = fields(&[
        ("ID", "ID123"),
        ("Number", "3"),
        ("Type", "String"),
        ("Description", "This is a thing"),
    ]);

    let result = is_valid_format(&string_value_input);

    assert_eq!(result, true);
}

#[test]
fn returns_false_if_type_is_not_valid() {
    let string_value_input = fields(&[
        ("ID", "ID123"),
        ("Number", "3"),
        ("Type", "Number"),
        ("Description", "This is a thing"),
    ]);

    let result = is_valid_format(&string_value_input);

    assert_eq!(result, false);
}

#[test]
fn returns_true_if_number_is_single_figure_positive_integer() {
    let valid_input = fields(&[
        ("ID", "ID123"),
        ("Number", "1"),
        ("Type", "String"),
        ("Description", "This is a thing"),
    ]);

    let result = is_valid_format(&valid_input);

    assert_eq!(result, true);
}

#[test]
fn returns_true_if_number_is_multiple_figure_positive_integer() {
    let valid_input = fields(&[
        ("ID", "ID123"),
        ("Number", "33"),
        ("Type", "String"),
        ("Description", "This is a thing"),
    ]);

    let result = is_valid_format(&valid_input);

    assert_eq!(result, true);
}

#[test]
fn returns_true_if_number_is_zero() {
    let valid_input = fields(&[
        ("ID", "ID123"),
        ("Number", "0"),
        ("Type", "String"),
        ("Description", "This is a thing"),
    ]);

    let result = is_valid_format(&valid_input);

    assert_eq!(result, true);
}

#[test]
fn returns_false_if_number_is_negative() {
    let valid_input = fields(&[
        ("ID", "ID123"),
        ("Number", "-3"),
        ("Type", "String"),
        ("Description", "This is a thing"),
    ]);

    let result = is_valid_format(&valid_input);

    assert_eq!(result, false);
}

#[test]
fn returns_false_if_number_has_fractional_part() {
    let valid_input = fields(&[
        ("ID", "ID123"),
        ("Number", "3.0"),
        ("Type", "String"),
        ("Description", "This is a thing"),
    ]);

    let result = is_valid_format(&valid_input);

    assert_eq!(result, false);
}

#[test]
fn returns_true_if_number_is_A() {
    let valid_input = fields(&[
        ("ID", "ID123"),
        ("Number", "A"),
        ("Type", "String"),
        ("Description", "This is a thing"),
    ]);

    let result = is_valid_format(&valid_input);

    assert_eq!(result, true);
}

#[test]
fn returns_true_if_number_is_R() {
    let valid_input = fields(&[
        ("ID", "ID123"),
        ("Number", "R"),
        ("Type", "String"),
        ("Description", "This is a thing"),
    ]);

    let result = is_valid_format(&valid_input);

    assert_eq!(result, true);
}

#[test]
fn returns_true_is_number_is_G() {
    let valid_input = fields(&[
        ("ID", "ID123"),
        ("Number", "G"),
        ("Type", "String"),
        ("Description", "This is a thing"),
    ]);

    let result = is_valid_format(&valid_input);

    assert_eq!(result, true);
}

#[test]
fn returns_true_if_number_is_dot() {
    let valid_input = fields(&[
        ("ID", "ID123"),
        ("Number", "."),
        ("Type", "String"),
        ("Description", "This is a thing"),
    ]);

    let result = is_valid_format(&valid_input);

    assert_eq!(result, true);
}

#[test]
fn returns_false_if_number_is_not_special_character() {
    let valid_input = fields(&[
        ("ID", "ID123"),
        ("Number", "B"),
        ("Type", "String"),
        ("Description", "This is a thing"),
    ]);

    let result = is_valid_format(&valid_input);

    assert_eq!(result, false);
}

#[test]
fn returns_false_if_number_is_empty() {
    let valid_input = fields(&[
        ("ID", "ID123"),
        ("Number", ""),
        ("Type", "String"),
        ("Description", "This is a thing"),
    ]);

    let result = is_valid_format(&valid_input);

    assert_eq!(result, false);
}

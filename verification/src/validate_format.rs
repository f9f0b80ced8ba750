//! Validation of a field declaration: a structured value that declares a typed
//! attribute with exactly the keys `ID`, `Number`, `Type` and `Description`.

use vstd::prelude::*;
use crate::headers::{lemma_as_map_values, FieldMap};
use crate::text::{all_digits, chars_of, is_digits, str_eq};

verus! {

/// How many values a declared attribute holds.
#[derive(Debug, Clone, Copy, PartialEq, Eq, Structural)]
pub enum NumberField {
    /// A fixed count.
    Number(u32),
    /// One value per alternate allele.
    A,
    /// One value per possible allele.
    R,
    /// One value per possible genotype.
    G,
    /// The count varies, is unknown or unbounded.
    Dot,
}

/// The kind of value that a declared attribute holds. A flag is present or
/// absent and so has no count of values.
#[derive(Debug, Clone, Copy, PartialEq, Eq, Structural)]
pub enum DataType {
    Integer(NumberField),
    Float(NumberField),
    Flag,
    Character(NumberField),
    String(NumberField),
}

/// Why a field declaration has no data type.
#[derive(Debug, Clone, Copy, PartialEq, Eq, Structural)]
pub enum DeclarationError {
    /// There is no `Number` field.
    MissingNumber,
    /// The `Number` field is neither a count nor one of `A`, `R`, `G`, `.`.
    InvalidNumber,
    /// There is no `Type` field.
    MissingType,
    /// The `Type` field names no data type.
    InvalidType,
    /// The type is `Flag` and the `Number` field is not the count zero.
    FlagWithCount,
}

/// The key of the field that names the attribute.
pub const ID_KEY: &'static str = "ID";

/// The key of the field that says how many values the attribute holds.
pub const NUMBER_KEY: &'static str = "Number";

/// The key of the field that says of what kind the values are.
pub const TYPE_KEY: &'static str = "Type";

/// The key of the field that describes the attribute.
pub const DESCRIPTION_KEY: &'static str = "Description";

/// The keys that a field declaration has, all of them and no other.
pub open spec fn required_keys() -> Set<Seq<char>> {
    set![ID_KEY@, NUMBER_KEY@, TYPE_KEY@, DESCRIPTION_KEY@]
}

/// The value of the decimal digit `c`.
pub open spec fn digit_value(c: char) -> nat {
    (c as int - '0' as int) as nat
}

/// The number that the decimal digits `digits` write.
pub open spec fn decimal_value(digits: Seq<char>) -> nat
    decreases digits.len(),
{
    if digits.len() == 0 {
        0
    } else {
        decimal_value(digits.drop_last()) * 10 + digit_value(digits.last())
    }
}

/// The count that `text` writes: `text` is one decimal digit or more and
/// nothing else, no sign and no fraction, and the number fits in 32 bits.
pub open spec fn count_of(text: Seq<char>) -> Option<u32> {
    if text.len() > 0 && all_digits(text) && decimal_value(text) <= u32::MAX {
        Some(decimal_value(text) as u32)
    } else {
        None
    }
}

/// What a `Number` field stands for: one of the four symbols, or a count.
pub open spec fn number_field(text: Seq<char>) -> Option<NumberField> {
    if text == "A"@ {
        Some(NumberField::A)
    } else if text == "R"@ {
        Some(NumberField::R)
    } else if text == "G"@ {
        Some(NumberField::G)
    } else if text == "."@ {
        Some(NumberField::Dot)
    } else {
        match count_of(text) {
            Some(count) => Some(NumberField::Number(count)),
            None => None,
        }
    }
}

/// The value that `fields` holds for `key`.
pub open spec fn lookup(fields: Map<Seq<char>, Seq<char>>, key: Seq<char>) -> Option<Seq<char>> {
    if fields.contains_key(key) {
        Some(fields[key])
    } else {
        None
    }
}

/// The count that a `Number` field gives, or why it gives none.
pub open spec fn number_result(number: Option<Seq<char>>) -> Result<NumberField, DeclarationError> {
    match number {
        None => Err(DeclarationError::MissingNumber),
        Some(text) => match number_field(text) {
            Some(n) => Ok(n),
            None => Err(DeclarationError::InvalidNumber),
        },
    }
}

/// What a flag may say of its count: nothing, or that it is zero.
pub open spec fn flag_result(number: Option<Seq<char>>) -> Result<DataType, DeclarationError> {
    match number {
        None => Ok(DataType::Flag),
        Some(text) => match number_field(text) {
            Some(NumberField::Number(0)) => Ok(DataType::Flag),
            Some(_) => Err(DeclarationError::FlagWithCount),
            None => Err(DeclarationError::InvalidNumber),
        },
    }
}

/// The data type that the fields `Type` and `Number` declare. The type is one
/// of `Integer`, `Float`, `Flag`, `Character` and `String`, written exactly so.
pub open spec fn type_result(fields: Map<Seq<char>, Seq<char>>) -> Result<
    DataType,
    DeclarationError,
> {
    let number = lookup(fields, NUMBER_KEY@);
    match lookup(fields, TYPE_KEY@) {
        None => Err(DeclarationError::MissingType),
        Some(name) => if name == "Integer"@ {
            match number_result(number) {
                Ok(n) => Ok(DataType::Integer(n)),
                Err(e) => Err(e),
            }
        } else if name == "Float"@ {
            match number_result(number) {
                Ok(n) => Ok(DataType::Float(n)),
                Err(e) => Err(e),
            }
        } else if name == "Flag"@ {
            flag_result(number)
        } else if name == "Character"@ {
            match number_result(number) {
                Ok(n) => Ok(DataType::Character(n)),
                Err(e) => Err(e),
            }
        } else if name == "String"@ {
            match number_result(number) {
                Ok(n) => Ok(DataType::String(n)),
                Err(e) => Err(e),
            }
        } else {
            Err(DeclarationError::InvalidType)
        },
    }
}

/// Whether `fields` is a valid field declaration: its keys are the required
/// ones and no other, and its `Type` and `Number` fields are both valid.
pub open spec fn valid_format(fields: Map<Seq<char>, Seq<char>>) -> bool {
    &&& fields.dom() == required_keys()
    &&& type_result(fields) is Ok
    &&& number_result(lookup(fields, NUMBER_KEY@)) is Ok
}

/// Whether `name` names a data type.
pub open spec fn is_type_name(name: Seq<char>) -> bool {
    name == "Integer"@ || name == "Float"@ || name == "Flag"@ || name == "Character"@ || name
        == "String"@
}

/// The digits before a position write no more than all the digits do.
pub proof fn lemma_decimal_value_prefix(digits: Seq<char>, n: int)
    requires
        0 <= n <= digits.len(),
    ensures
        decimal_value(digits.take(n)) <= decimal_value(digits),
    decreases digits.len() - n,
{
    if n < digits.len() {
        assert(digits.take(n + 1).drop_last() == digits.take(n));
        lemma_decimal_value_prefix(digits, n + 1);
    } else {
        assert(digits.take(n) == digits);
    }
}

/// Reads a count.
pub fn parse_count(text: &[char]) -> (r: Option<u32>)
    ensures
        r == count_of(text@),
{
    if text.len() == 0 || !is_digits(text) {
        return None;
    }
    let mut value: u32 = 0;
    let mut i: usize = 0;
    while i < text.len()
        invariant
            i <= text.len(),
            all_digits(text@),
            value == decimal_value(text@.take(i as int)),
        decreases text.len() - i,
    {
        let c = text[i];
        let digit: u32 = c as u32 - '0' as u32;
        proof {
            assert(text@.take(i + 1).drop_last() == text@.take(i as int));
            lemma_decimal_value_prefix(text@, i + 1);
        }
        let shifted = match value.checked_mul(10) {
            Some(shifted) => shifted,
            None => {
                return None;
            },
        };
        value = match shifted.checked_add(digit) {
            Some(sum) => sum,
            None => {
                return None;
            },
        };
        i += 1;
    }
    assert(text@.take(i as int) == text@);
    Some(value)
}

/// Reads a `Number` field.
pub fn parse_number_field(number: Option<&str>) -> (r: Result<NumberField, DeclarationError>)
    ensures
        r == number_result(
            match number {
                Some(text) => Some(text@),
                None => None,
            },
        ),
{
    let text = match number {
        Some(text) => text,
        None => {
            return Err(DeclarationError::MissingNumber);
        },
    };
    if str_eq(text, "A") {
        Ok(NumberField::A)
    } else if str_eq(text, "R") {
        Ok(NumberField::R)
    } else if str_eq(text, "G") {
        Ok(NumberField::G)
    } else if str_eq(text, ".") {
        Ok(NumberField::Dot)
    } else {
        let digits = chars_of(text);
        match parse_count(digits.as_slice()) {
            Some(count) => Ok(NumberField::Number(count)),
            None => Err(DeclarationError::InvalidNumber),
        }
    }
}

/// Whether the keys of `input` are the required ones and no other.
pub fn has_required_keys(input: &FieldMap) -> (r: bool)
    ensures
        r == (input@.dom() == required_keys()),
{
    proof {
        use_type_invariant(input);
        lemma_as_map_values(input.pairs());
        lemma_required_keys();
    }
    let r = input.len() == 4 && input.contains_key(ID_KEY) && input.contains_key(NUMBER_KEY)
        && input.contains_key(TYPE_KEY) && input.contains_key(DESCRIPTION_KEY);
    proof {
        if r {
            assert(required_keys().subset_of(input@.dom()));
            vstd::set_lib::lemma_subset_equality(required_keys(), input@.dom());
        }
    }
    r
}

/// Reads the data type that `info_map` declares in its fields `Type` and
/// `Number`.
pub fn parse_type_value(info_map: &FieldMap) -> (r: Result<DataType, DeclarationError>)
    ensures
        r == type_result(info_map@),
{
    let number = info_map.get(NUMBER_KEY);
    let name = match info_map.get(TYPE_KEY) {
        Some(name) => name,
        None => {
            return Err(DeclarationError::MissingType);
        },
    };
    if str_eq(name, "Integer") {
        match parse_number_field(number) {
            Ok(n) => Ok(DataType::Integer(n)),
            Err(e) => Err(e),
        }
    } else if str_eq(name, "Float") {
        match parse_number_field(number) {
            Ok(n) => Ok(DataType::Float(n)),
            Err(e) => Err(e),
        }
    } else if str_eq(name, "Flag") {
        match number {
            None => Ok(DataType::Flag),
            Some(_) => match parse_number_field(number) {
                Ok(NumberField::Number(0)) => Ok(DataType::Flag),
                Ok(_) => Err(DeclarationError::FlagWithCount),
                Err(e) => Err(e),
            },
        }
    } else if str_eq(name, "Character") {
        match parse_number_field(number) {
            Ok(n) => Ok(DataType::Character(n)),
            Err(e) => Err(e),
        }
    } else if str_eq(name, "String") {
        match parse_number_field(number) {
            Ok(n) => Ok(DataType::String(n)),
            Err(e) => Err(e),
        }
    } else {
        Err(DeclarationError::InvalidType)
    }
}

/// Whether the field `Type` of `input`, with its `Number`, declares a data
/// type.
pub fn has_valid_type_value(input: &FieldMap) -> (r: bool)
    ensures
        r == (type_result(input@) is Ok),
{
    parse_type_value(input).is_ok()
}

/// Whether the field `Number` of `input` is there and valid.
pub fn has_valid_number_value(input: &FieldMap) -> (r: bool)
    ensures
        r == (number_result(lookup(input@, NUMBER_KEY@)) is Ok),
{
    parse_number_field(input.get(NUMBER_KEY)).is_ok()
}

/// Whether `input` is a valid field declaration.
pub fn is_valid_format(input: &FieldMap) -> (r: bool)
    ensures
        r == valid_format(input@),
{
    has_required_keys(input) && has_valid_type_value(input) && has_valid_number_value(input)
}

/// The required keys are four different keys.
pub proof fn lemma_required_keys()
    ensures
        required_keys().finite(),
        required_keys().len() == 4,
{
    reveal_strlit("ID");
    reveal_strlit("Number");
    reveal_strlit("Type");
    reveal_strlit("Description");
    assert(ID_KEY@.len() == 2);
    assert(NUMBER_KEY@.len() == 6);
    assert(TYPE_KEY@.len() == 4);
    assert(DESCRIPTION_KEY@.len() == 11);
}

/// A declaration has a data type only if its `Type` field holds one of the
/// five names, written exactly so. Any other text there is an invalid type,
/// whatever the `Number` field holds.
pub proof fn lemma_type_names(fields: Map<Seq<char>, Seq<char>>)
    ensures
        type_result(fields) is Ok ==> fields.contains_key(TYPE_KEY@) && is_type_name(
            fields[TYPE_KEY@],
        ),
        fields.contains_key(TYPE_KEY@) && !is_type_name(fields[TYPE_KEY@]) ==> type_result(fields)
            == Err::<DataType, DeclarationError>(DeclarationError::InvalidType),
{
}

/// Of a declaration with a data type, the `Number` field is valid unless it
/// is missing: with the required keys there, the check of the type covers
/// the check of the number.
pub proof fn lemma_type_covers_number(fields: Map<Seq<char>, Seq<char>>)
    requires
        type_result(fields) is Ok,
        fields.contains_key(NUMBER_KEY@),
    ensures
        number_result(lookup(fields, NUMBER_KEY@)) is Ok,
{
}

/// A mapping with the required keys and no other, whose `Type` and `Number`
/// fields are valid, is a valid declaration.
pub proof fn lemma_exact_keys_pass(fields: Map<Seq<char>, Seq<char>>)
    requires
        fields.dom() == required_keys(),
        type_result(fields) is Ok,
    ensures
        valid_format(fields),
{
    lemma_type_covers_number(fields);
}

/// A mapping that lacks one of the required keys is no valid declaration.
pub proof fn lemma_missing_key_fails(fields: Map<Seq<char>, Seq<char>>, key: Seq<char>)
    requires
        required_keys().contains(key),
    ensures
        !valid_format(fields.remove(key)),
{
    assert(!fields.remove(key).dom().contains(key));
}

/// A mapping with a key that is not required is no valid declaration.
pub proof fn lemma_extra_key_fails(
    fields: Map<Seq<char>, Seq<char>>,
    key: Seq<char>,
    value: Seq<char>,
)
    requires
        !required_keys().contains(key),
    ensures
        !valid_format(fields.insert(key, value)),
{
    assert(fields.insert(key, value).dom().contains(key));
}

} // verus!

//! Validation of the line that declares the file format and its version.

use vstd::prelude::*;
use vstd::slice::slice_subrange;
use crate::headers::{Header, HeaderValue, HeaderValueView, HeaderView};
use crate::text::{
    all_digits, chars_of, has_prefix, is_digits, position, split_at_first, starts_with, str_eq,
};

verus! {

/// The key of the line that declares the file format.
pub const FILE_FORMAT_KEY: &'static str = "fileformat";

/// What every accepted file format value begins with.
pub const VERSION_PREFIX: &'static str = "VCFv";

/// The accepted version tokens: a major and a minor number, each of one
/// decimal digit or more, with one `.` between them. With the prefix, this
/// is where the accepted versions are set, once for every validation.
pub open spec fn version_token(token: Seq<char>) -> bool {
    match split_at_first(token, '.') {
        Some((major, minor)) => major.len() > 0 && minor.len() > 0 && all_digits(major)
            && all_digits(minor),
        None => false,
    }
}

/// The accepted file format values: the prefix, and behind it an accepted
/// version token.
pub open spec fn accepted_version(value: Seq<char>) -> bool {
    has_prefix(value, VERSION_PREFIX@) && version_token(value.skip(VERSION_PREFIX@.len() as int))
}

/// Whether `header` declares the file format: its key is the file format key,
/// its value is flat, and that value is an accepted one.
pub open spec fn valid_file_format(header: HeaderView) -> bool {
    &&& header.key == FILE_FORMAT_KEY@
    &&& header.value matches HeaderValueView::Flat(value)
    &&& accepted_version(value)
}

/// Whether `token` is an accepted version token.
pub fn is_version_token(token: &[char]) -> (r: bool)
    ensures
        r == version_token(token@),
{
    match position(token, '.') {
        None => false,
        Some(i) => {
            let major = slice_subrange(token, 0, i);
            let minor = slice_subrange(token, i + 1, token.len());
            major.len() > 0 && minor.len() > 0 && is_digits(major) && is_digits(minor)
        },
    }
}

/// Whether `value` is an accepted file format value.
pub fn is_accepted_version(value: &str) -> (r: bool)
    ensures
        r == accepted_version(value@),
{
    let chars = chars_of(value);
    let prefix = chars_of(VERSION_PREFIX);
    if !starts_with(chars.as_slice(), prefix.as_slice()) {
        return false;
    }
    let token = slice_subrange(chars.as_slice(), prefix.len(), chars.len());
    is_version_token(token)
}

/// Whether the value of `input` is flat.
pub fn is_flat(input: &Header) -> (r: bool)
    ensures
        r == (input@.value is Flat),
{
    match input.value {
        HeaderValue::Flat(..) => true,
        _ => false,
    }
}

/// Whether the key of `input` is the file format key.
pub fn key_is_fileformat(input: &Header) -> (r: bool)
    ensures
        r == (input@.key == FILE_FORMAT_KEY@),
{
    str_eq(input.key.as_str(), FILE_FORMAT_KEY)
}

/// The file format that `input` declares, if it is a valid declaration of
/// the file format.
pub fn file_format_version(input: &Header) -> (r: Option<&str>)
    ensures
        match r {
            Some(version) => valid_file_format(input@) && input@.value == HeaderValueView::Flat(
                version@,
            ),
            None => !valid_file_format(input@),
        },
{
    if !key_is_fileformat(input) {
        return None;
    }
    match &input.value {
        HeaderValue::Flat(value) => if is_accepted_version(value.as_str()) {
            Some(value.as_str())
        } else {
            None
        },
        HeaderValue::Nested(_) => None,
    }
}

/// Whether `input` is a valid declaration of the file format.
pub fn is_valid_file_format(input: &Header) -> (r: bool)
    ensures
        r == valid_file_format(input@),
{
    file_format_version(input).is_some()
}

} // verus!

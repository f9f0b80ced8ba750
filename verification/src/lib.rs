//! Parsing and validation of the meta-information header block of a VCF
//! file: lines of the form `##key=value`, where a value is either flat or
//! structured as `<k1=v1,k2=v2,...>`.
//!
//! - [`tokenize`] splits the inner text of a structured value into fields,
//!   taking a comma inside double quotes as part of a field.
//! - [`parse`] turns one line into a [`Header`].
//! - [`validate_fileformat`] checks the line that declares the file format.
//! - [`validate_format`] checks a field declaration, such as an `INFO` or a
//!   `FORMAT` line.
//! - [`vcf`] assembles a header block from its lines.
//!
//! Every function states what it returns over the text it is given, as a
//! sequence of characters, and is proved to meet that statement.

pub mod headers;
pub mod parse;
pub mod text;
pub mod tokenize;
pub mod validate_fileformat;
pub mod validate_format;
pub mod vcf;

pub use headers::{FieldMap, Header, HeaderValue};
pub use parse::{ParseError, ParseErrorKind};

//! The header block of a file: the line that declares the file format, and
//! behind it the other meta-information lines.

use vstd::prelude::*;
use crate::headers::{as_map, Header, HeaderValue, HeaderValueView, HeaderView};
use crate::parse::{parse_line, ParseError};
use crate::text::{lines_of, split_lines, str_eq};
use crate::validate_fileformat::{file_format_version, valid_file_format};
use crate::validate_format::{is_valid_format, valid_format};

verus! {

/// `std::io::Error`, the failure of a line source. It is declared so that a
/// failure can be carried through to the caller; nothing is said of what it
/// holds.
#[verifier::external_type_specification]
#[verifier::external_body]
pub struct ExIoError(std::io::Error);

/// A line as the line source hands it over: its text, or the failure to read
/// it.
pub type Line = Result<String, std::io::Error>;

/// The header block of a file.
#[derive(Debug)]
pub struct VCF {
    /// The file format with its version, as the first line declares it.
    pub file_format: String,
    /// The lines behind the first, in their order.
    pub declarations: Vec<Header>,
}

/// A header block as text: what a [`VCF`] stands for.
pub struct VCFView {
    pub file_format: Seq<char>,
    pub declarations: Seq<HeaderView>,
}

/// What the headers of `headers` stand for, in their order.
pub open spec fn header_views(headers: Seq<Header>) -> Seq<HeaderView> {
    Seq::new(headers.len(), |i: int| headers[i]@)
}

impl View for VCF {
    type V = VCFView;

    open spec fn view(&self) -> VCFView {
        VCFView {
            file_format: self.file_format@,
            declarations: header_views(self.declarations@),
        }
    }
}

/// Why a header block is refused.
#[derive(Debug)]
pub enum VCFError {
    /// There is no line at all.
    EmptyInput,
    /// A line cannot be parsed.
    ParseError(ParseError),
    /// The first line does not declare an accepted file format.
    NotFileFormatLine,
    /// A field declaration is not valid.
    InvalidDeclaration,
    /// The line source failed.
    IoError(std::io::Error),
}

impl From<std::io::Error> for VCFError {
    fn from(error: std::io::Error) -> (r: VCFError) {
        VCFError::IoError(error)
    }
}

impl vstd::std_specs::convert::FromSpecImpl<std::io::Error> for VCFError {
    open spec fn obeys_from_spec() -> bool {
        true
    }

    open spec fn from_spec(error: std::io::Error) -> VCFError {
        VCFError::IoError(error)
    }
}

impl From<ParseError> for VCFError {
    fn from(error: ParseError) -> (r: VCFError) {
        VCFError::ParseError(error)
    }
}

impl vstd::std_specs::convert::FromSpecImpl<ParseError> for VCFError {
    open spec fn obeys_from_spec() -> bool {
        true
    }

    open spec fn from_spec(error: ParseError) -> VCFError {
        VCFError::ParseError(error)
    }
}

/// The key of the lines that declare an attribute of a record.
pub const INFO_KEY: &'static str = "INFO";

/// The key of the lines that declare an attribute of a sample.
pub const FORMAT_KEY: &'static str = "FORMAT";

/// Whether lines with the key `key` are field declarations.
pub open spec fn is_declaration_key(key: Seq<char>) -> bool {
    key == INFO_KEY@ || key == FORMAT_KEY@
}

/// Whether `header` may stand behind the first line: a field declaration
/// has a structured value that is a valid declaration, and a line of any
/// other kind is accepted as it is.
pub open spec fn valid_declaration(header: HeaderView) -> bool {
    is_declaration_key(header.key) ==> {
        &&& header.value matches HeaderValueView::Nested(pairs)
        &&& valid_format(as_map(pairs))
    }
}

/// What one line gives: its parsed form, the failure of the line source, or
/// the failure to parse it.
pub open spec fn line_result(line: Line) -> Result<HeaderView, VCFError> {
    match line {
        Err(error) => Err(VCFError::IoError(error)),
        Ok(text) => match parse_line(text@) {
            Err(e) => Err(VCFError::ParseError(e)),
            Ok(header) => Ok(header),
        },
    }
}

/// What the lines behind the first give, taken in order: all of them parsed,
/// or the error of the first line that fails.
pub open spec fn declarations_result(lines: Seq<Line>) -> Result<Seq<HeaderView>, VCFError>
    decreases lines.len(),
{
    if lines.len() == 0 {
        Ok(Seq::<HeaderView>::empty())
    } else {
        match declarations_result(lines.drop_last()) {
            Err(e) => Err(e),
            Ok(headers) => match line_result(lines.last()) {
                Err(e) => Err(e),
                Ok(header) => if valid_declaration(header) {
                    Ok(headers.push(header))
                } else {
                    Err(VCFError::InvalidDeclaration)
                },
            },
        }
    }
}

/// The text of a flat value.
pub open spec fn flat_text(value: HeaderValueView) -> Seq<char> {
    match value {
        HeaderValueView::Flat(text) => text,
        HeaderValueView::Nested(_) => Seq::<char>::empty(),
    }
}

/// What a sequence of lines gives: the header block, or the first error. The
/// first line has to declare the file format; the lines behind it are taken
/// only if it does.
pub open spec fn document_result(lines: Seq<Line>) -> Result<VCFView, VCFError> {
    if lines.len() == 0 {
        Err(VCFError::EmptyInput)
    } else {
        match line_result(lines[0]) {
            Err(e) => Err(e),
            Ok(first) => if !valid_file_format(first) {
                Err(VCFError::NotFileFormatLine)
            } else {
                match declarations_result(lines.skip(1)) {
                    Err(e) => Err(e),
                    Ok(declarations) => Ok(
                        VCFView { file_format: flat_text(first.value), declarations },
                    ),
                }
            },
        }
    }
}

/// Whether `lines` are the lines of a valid header block: there is a first
/// line and it declares an accepted file format, and every line behind it
/// parses and, if it is a field declaration, is a valid one.
pub open spec fn valid_document(lines: Seq<Seq<char>>) -> bool {
    &&& lines.len() > 0
    &&& parse_line(lines[0]) matches Ok(first) && valid_file_format(first)
    &&& forall|i: int|
        1 <= i < lines.len() ==> (parse_line(#[trigger] lines[i]) matches Ok(header)
            && valid_declaration(header))
}

/// The texts of `lines`; a line that the line source failed to read counts
/// as the empty text.
pub open spec fn line_texts(lines: Seq<Line>) -> Seq<Seq<char>> {
    Seq::new(
        lines.len(),
        |i: int|
            match lines[i] {
                Ok(text) => text@,
                Err(_) => Seq::<char>::empty(),
            },
    )
}

/// Whether `input` is a field declaration by its key.
pub fn is_field_declaration(input: &Header) -> (r: bool)
    ensures
        r == is_declaration_key(input@.key),
{
    str_eq(input.key.as_str(), INFO_KEY) || str_eq(input.key.as_str(), FORMAT_KEY)
}

/// Whether `input` may stand behind the first line of a header block.
pub fn is_valid_declaration(input: &Header) -> (r: bool)
    ensures
        r == valid_declaration(input@),
{
    if !is_field_declaration(input) {
        return true;
    }
    match &input.value {
        HeaderValue::Nested(fields) => is_valid_format(fields),
        HeaderValue::Flat(_) => false,
    }
}

/// Takes one line from the line source and parses it.
pub fn read_line(line: Line) -> (r: Result<Header, VCFError>)
    ensures
        (match r {
            Ok(header) => Ok(header@),
            Err(e) => Err(e),
        }) == line_result(line),
{
    let text = match line {
        Ok(text) => text,
        Err(e) => {
            return Err(VCFError::from(e));
        },
    };
    match Header::parse(text.as_str()) {
        Ok(header) => Ok(header),
        Err(e) => Err(VCFError::from(e)),
    }
}

/// Assembles the header block from its lines. The first line has to declare
/// the file format. Every line behind it has to parse, and a field
/// declaration among them has to be valid. The first failure, in the order
/// of the lines, is returned.
pub fn parse_vcf(source: Vec<Line>) -> (r: Result<VCF, VCFError>)
    ensures
        (match r {
            Ok(vcf) => Ok(vcf@),
            Err(e) => Err(e),
        }) == document_result(source@),
{
    let ghost all = source@;
    let ghost rest = all.skip(1);
    let mut file_format: Option<String> = None;
    let mut declarations: Vec<Header> = Vec::new();
    for line in it: source
        invariant
            it.seq() == all,
            rest == all.skip(1),
            match file_format {
                None => it.index() == 0 && declarations@.len() == 0,
                Some(version) => {
                    &&& it.index() >= 1
                    &&& line_result(all[0]) matches Ok(first)
                    &&& valid_file_format(first)
                    &&& version@ == flat_text(first.value)
                    &&& declarations_result(rest.take(it.index() - 1)) == Ok::<
                        Seq<HeaderView>,
                        VCFError,
                    >(header_views(declarations@))
                },
            },
    {
        let ghost k = it.index() - 1;
        let header = match read_line(line) {
            Ok(header) => header,
            Err(e) => {
                proof {
                    if file_format is Some {
                        assert(rest.take(k + 1).drop_last() == rest.take(k));
                        lemma_declarations_error(rest, k + 1);
                    }
                }
                return Err(e);
            },
        };
        if file_format.is_none() {
            match file_format_version(&header) {
                Some(version) => {
                    file_format = Some(version.to_owned());
                },
                None => {
                    return Err(VCFError::NotFileFormatLine);
                },
            }
            assert(header_views(declarations@) == Seq::<HeaderView>::empty());
        } else {
            proof {
                assert(rest.take(k + 1).drop_last() == rest.take(k));
            }
            if !is_valid_declaration(&header) {
                proof {
                    lemma_declarations_error(rest, k + 1);
                }
                return Err(VCFError::InvalidDeclaration);
            }
            let ghost before = header_views(declarations@);
            declarations.push(header);
            assert(header_views(declarations@) == before.push(header@));
        }
    }
    match file_format {
        Some(file_format) => {
            assert(rest.take(all.len() - 1) == rest);
            Ok(VCF { file_format, declarations })
        },
        None => Err(VCFError::EmptyInput),
    }
}

/// Whether `headers`, the text of a header block, is valid: its lines are a
/// valid document.
pub fn is_valid(headers: String) -> (r: bool)
    ensures
        r == valid_document(lines_of(headers@)),
{
    let texts = split_lines(headers.as_str());
    let mut source: Vec<Line> = Vec::new();
    for text in it: texts
        invariant
            it.seq() == texts@,
            source@.len() == it.index(),
            forall|i: int| 0 <= i < source@.len() ==> (#[trigger] source@[i]) == Ok::<
                String,
                std::io::Error,
            >(texts@[i]),
    {
        source.push(Ok(text));
    }
    proof {
        assert(line_texts(source@) == lines_of(headers@));
        lemma_document_ok(source@);
    }
    parse_vcf(source).is_ok()
}

/// An error among the first `n` lines is the error of all the lines.
pub proof fn lemma_declarations_error(lines: Seq<Line>, n: int)
    requires
        0 <= n <= lines.len(),
        declarations_result(lines.take(n)) is Err,
    ensures
        declarations_result(lines) == declarations_result(lines.take(n)),
    decreases lines.len() - n,
{
    if n < lines.len() {
        assert(lines.take(n + 1).drop_last() == lines.take(n));
        lemma_declarations_error(lines, n + 1);
    } else {
        assert(lines.take(n) == lines);
    }
}

/// The lines behind the first are accepted exactly when each was read, parses
/// and is a valid declaration where it is one; they come out one for one.
pub proof fn lemma_declarations_ok(lines: Seq<Line>)
    ensures
        declarations_result(lines) is Ok <==> forall|i: int|
            0 <= i < lines.len() ==> (line_result(#[trigger] lines[i]) matches Ok(header)
                && valid_declaration(header)),
        declarations_result(lines) matches Ok(headers) ==> headers.len() == lines.len()
            && forall|i: int|
            0 <= i < lines.len() ==> line_result(lines[i]) == Ok::<HeaderView, VCFError>(
                #[trigger] headers[i],
            ),
    decreases lines.len(),
{
    if lines.len() > 0 {
        let init = lines.drop_last();
        lemma_declarations_ok(init);
        if declarations_result(lines) is Ok {
            assert forall|i: int| 0 <= i < lines.len() implies (line_result(
                #[trigger] lines[i],
            ) matches Ok(header) && valid_declaration(header)) by {
                if i < init.len() {
                    assert(lines[i] == init[i]);
                }
            }
            let headers = declarations_result(lines)->Ok_0;
            let before = declarations_result(init)->Ok_0;
            assert forall|i: int| 0 <= i < lines.len() implies line_result(lines[i]) == Ok::<
                HeaderView,
                VCFError,
            >(#[trigger] headers[i]) by {
                if i < init.len() {
                    assert(lines[i] == init[i]);
                    assert(headers[i] == before[i]);
                }
            }
        }
        if forall|i: int|
            0 <= i < lines.len() ==> (line_result(#[trigger] lines[i]) matches Ok(header)
                && valid_declaration(header)) {
            assert forall|i: int| 0 <= i < init.len() implies (line_result(
                #[trigger] init[i],
            ) matches Ok(header) && valid_declaration(header)) by {
                assert(init[i] == lines[i]);
            }
            assert(line_result(lines[lines.len() - 1]) is Ok);
        }
    }
}

/// A header block is accepted exactly when every line was read and the texts
/// of the lines are a valid document.
pub proof fn lemma_document_ok(lines: Seq<Line>)
    ensures
        document_result(lines) is Ok <==> (forall|i: int|
            0 <= i < lines.len() ==> (#[trigger] lines[i]) is Ok) && valid_document(
            line_texts(lines),
        ),
{
    let texts = line_texts(lines);
    if lines.len() > 0 {
        let rest = lines.skip(1);
        lemma_declarations_ok(rest);
        if document_result(lines) is Ok {
            assert forall|i: int| 0 <= i < lines.len() implies (#[trigger] lines[i]) is Ok by {
                if i > 0 {
                    assert(line_result(rest[i - 1]) is Ok);
                }
            }
            assert forall|i: int| 1 <= i < texts.len() implies (parse_line(
                #[trigger] texts[i],
            ) matches Ok(header) && valid_declaration(header)) by {
                assert(line_result(rest[i - 1]) is Ok);
            }
        }
        if (forall|i: int| 0 <= i < lines.len() ==> (#[trigger] lines[i]) is Ok)
            && valid_document(texts) {
            assert(lines[0] is Ok);
            assert forall|i: int| 0 <= i < rest.len() implies (line_result(
                #[trigger] rest[i],
            ) matches Ok(header) && valid_declaration(header)) by {
                assert(lines[i + 1] is Ok);
                assert(parse_line(texts[i + 1]) is Ok);
            }
        }
    }
}

/// A first line that declares no accepted file format decides the outcome:
/// whatever lines stand behind it, none of them is looked at.
pub proof fn lemma_not_file_format(lines: Seq<Line>)
    requires
        lines.len() > 0,
        line_result(lines[0]) matches Ok(first) && !valid_file_format(first),
    ensures
        document_result(lines) == Err::<VCFView, VCFError>(VCFError::NotFileFormatLine),
{
}

} // verus!

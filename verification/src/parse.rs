//! Parsing of one meta-information line into a [`Header`].

use vstd::prelude::*;
use crate::headers::{
    distinct_keys, has_key, insert_result, is_wrapped, nonempty_keys, FieldMap, Header, HeaderValue,
    HeaderValueView, HeaderView, Pair,
};
use crate::text::{chars_of, lemma_first_occurrence, split_at_first, split_once};
use crate::tokenize::{
    join, lemma_fields_of_join, lemma_plain_field, lemma_quoted_field, plain, single_field,
    tokenize, tokenize_result, tokens, top_level_fields,
};

verus! {

/// What went wrong while parsing a line.
#[derive(Debug, Clone, Copy, PartialEq, Eq, Structural)]
pub enum ParseErrorKind {
    /// The line does not begin with the `##` marker.
    MissingPrefix,
    /// No `=` stands where one is needed: after the key of the line, or
    /// after the key of a field inside a structured value.
    MissingSeparator,
    /// A `"` inside a structured value is never closed.
    UnterminatedQuote,
    /// A field inside a structured value has nothing before its `=`.
    EmptyKey,
    /// Two fields inside one structured value share a key.
    DuplicateKey,
}

/// A failure to parse a line: what went wrong, and where.
#[derive(Debug, Clone, Copy, PartialEq, Eq)]
pub struct ParseError {
    /// What went wrong.
    pub kind: ParseErrorKind,
    /// The position, counted from zero, of the field of a structured value in
    /// which it went wrong; `None` where it is the line itself that fails, or
    /// the quoting of a structured value.
    pub field: Option<usize>,
}

/// The failure of kind `kind` that lies in no single field.
pub open spec fn line_error(kind: ParseErrorKind) -> ParseError {
    ParseError { kind, field: None }
}

/// The failure of kind `kind` in the field at position `index`.
pub open spec fn field_error(kind: ParseErrorKind, index: int) -> ParseError {
    ParseError { kind, field: Some(index as usize) }
}

/// What the outcome of a parse says: what the parsed value stands for, or the
/// error.
pub open spec fn outcome<T: View>(r: Result<T, ParseError>) -> Result<T::V, ParseError> {
    match r {
        Ok(value) => Ok(value@),
        Err(e) => Err(e),
    }
}

/// The text behind the `##` marker, if `line` begins with it.
pub open spec fn strip_marker(line: Seq<char>) -> Option<Seq<char>> {
    if line.len() >= 2 && line[0] == '#' && line[1] == '#' {
        Some(line.skip(2))
    } else {
        None
    }
}

/// `value` without one pair of surrounding double quotes, if it has one.
pub open spec fn unquote(value: Seq<char>) -> Seq<char> {
    if value.len() >= 2 && value.first() == '"' && value.last() == '"' {
        value.subrange(1, value.len() - 1)
    } else {
        value
    }
}

/// What the fields of a structured value give, taken in order: each is split
/// at its first `=` into a key and a value, the value loses one pair of
/// surrounding quotes, and the pair is added to those before it. The first
/// field that cannot be added decides the error.
pub open spec fn parse_fields(fields: Seq<Seq<char>>) -> Result<Seq<Pair>, ParseError>
    decreases fields.len(),
{
    if fields.len() == 0 {
        Ok(Seq::<Pair>::empty())
    } else {
        let index = fields.len() - 1;
        match parse_fields(fields.drop_last()) {
            Err(e) => Err(e),
            Ok(pairs) => match split_at_first(fields.last(), '=') {
                None => Err(field_error(ParseErrorKind::MissingSeparator, index)),
                Some((key, value)) => match insert_result(pairs, key, unquote(value)) {
                    Err(kind) => Err(field_error(kind, index)),
                    Ok(longer) => Ok(longer),
                },
            },
        }
    }
}

/// What the raw value of a line stands for. A value wrapped in angle brackets
/// is structured, and its inner text is split into fields; any other value is
/// flat and kept as it is.
pub open spec fn parse_value(raw: Seq<char>) -> Result<HeaderValueView, ParseError> {
    if !is_wrapped(raw) {
        Ok(HeaderValueView::Flat(raw))
    } else {
        match tokenize_result(raw.subrange(1, raw.len() - 1)) {
            Err(e) => Err(e),
            Ok(fields) => match parse_fields(fields) {
                Err(e) => Err(e),
                Ok(pairs) => Ok(HeaderValueView::Nested(pairs)),
            },
        }
    }
}

/// What a line stands for: behind the marker, the text before the first `=`
/// is the key and the text after it the raw value.
pub open spec fn parse_line(line: Seq<char>) -> Result<HeaderView, ParseError> {
    match strip_marker(line) {
        None => Err(line_error(ParseErrorKind::MissingPrefix)),
        Some(rest) => match split_at_first(rest, '=') {
            None => Err(line_error(ParseErrorKind::MissingSeparator)),
            Some((key, raw)) => match parse_value(raw) {
                Err(e) => Err(e),
                Ok(value) => Ok(HeaderView { key, value }),
            },
        },
    }
}

/// Removes one pair of surrounding double quotes from `value`, if it has one.
pub fn strip_quotes(value: &str) -> (r: &str)
    ensures
        r@ == unquote(value@),
{
    let chars = chars_of(value);
    let n = chars.len();
    if n >= 2 && chars[0] == '"' && chars[n - 1] == '"' {
        value.substring_char(1, n - 1)
    } else {
        value
    }
}

/// Builds the fields of a structured value from its tokens, taken from the
/// left. The first token that gives no field decides the error.
pub fn collect_fields(tokens: &Vec<String>) -> (r: Result<FieldMap, ParseError>)
    ensures
        (match r {
            Ok(fields) => Ok(fields.pairs()),
            Err(e) => Err(e),
        }) == parse_fields(tokens.deep_view()),
        r matches Err(e) ==> e.field matches Some(index) && index < tokens.len(),
{
    let mut fields = FieldMap::new();
    let mut i: usize = 0;
    while i < tokens.len()
        invariant
            i <= tokens.len(),
            parse_fields(tokens.deep_view().take(i as int)) == Ok::<Seq<Pair>, ParseError>(
                fields.pairs(),
            ),
        decreases tokens.len() - i,
    {
        let ghost all = tokens.deep_view();
        proof {
            assert(all.take(i + 1).drop_last() == all.take(i as int));
        }
        let added = match split_once(tokens[i].as_str(), '=') {
            None => Err(ParseErrorKind::MissingSeparator),
            Some((key, value)) => fields.insert(key, strip_quotes(value)),
        };
        if let Err(kind) = added {
            proof {
                lemma_parse_fields_error(all, i + 1);
            }
            return Err(ParseError { kind, field: Some(i) });
        }
        i += 1;
    }
    assert(tokens.deep_view().take(i as int) == tokens.deep_view());
    Ok(fields)
}

impl HeaderValue {
    /// Parses the raw value of a line, the text behind its first `=`.
    ///
    /// A value that begins with `<` and ends with `>` is structured. The text
    /// between the brackets is split into fields at its top-level commas, each
    /// field at its first `=` into a key and a value, and a value loses one
    /// pair of surrounding double quotes. Any other value is flat and is kept
    /// as it was written.
    ///
    /// A structured value fails on a quoted span that is never closed, and
    /// else on the first field from the left that has no `=`, has an empty
    /// key or has the key of a field before it.
    pub fn parse(input: &str) -> (r: Result<HeaderValue, ParseError>)
        ensures
            outcome(r) == parse_value(input@),
            r matches Ok(value) ==> value@.well_formed(),
    {
        proof {
            lemma_parse_value_well_formed(input@);
        }
        let chars = chars_of(input);
        let n = chars.len();
        if n >= 2 && chars[0] == '<' && chars[n - 1] == '>' {
            let inner = input.substring_char(1, n - 1);
            let fields = match tokenize(inner) {
                Ok(fields) => fields,
                Err(e) => {
                    return Err(e);
                },
            };
            match collect_fields(&fields) {
                Ok(map) => Ok(HeaderValue::Nested(map)),
                Err(e) => Err(e),
            }
        } else {
            Ok(HeaderValue::Flat(input.to_owned()))
        }
    }
}

impl Header {
    /// Parses one meta-information line, of the form `##key=value`.
    ///
    /// The line is taken as it stands: nothing is trimmed from it, so the
    /// marker `##` stands at its very beginning. The key is the text between
    /// the marker and the first `=`, whatever `=` the value holds.
    pub fn parse(input: &str) -> (r: Result<Header, ParseError>)
        ensures
            outcome(r) == parse_line(input@),
            r matches Ok(header) ==> header@.value.well_formed(),
    {
        let chars = chars_of(input);
        let n = chars.len();
        if !(n >= 2 && chars[0] == '#' && chars[1] == '#') {
            return Err(ParseError { kind: ParseErrorKind::MissingPrefix, field: None });
        }
        let rest = input.substring_char(2, n);
        match split_once(rest, '=') {
            None => Err(ParseError { kind: ParseErrorKind::MissingSeparator, field: None }),
            Some((key, raw)) => match HeaderValue::parse(raw) {
                Ok(value) => Ok(Header { key: key.to_owned(), value }),
                Err(e) => Err(e),
            },
        }
    }
}

/// An error among the first `n` fields is the error of all the fields.
pub proof fn lemma_parse_fields_error(fields: Seq<Seq<char>>, n: int)
    requires
        0 <= n <= fields.len(),
        parse_fields(fields.take(n)) is Err,
    ensures
        parse_fields(fields) == parse_fields(fields.take(n)),
    decreases fields.len() - n,
{
    if n < fields.len() {
        assert(fields.take(n + 1).drop_last() == fields.take(n));
        lemma_parse_fields_error(fields, n + 1);
    } else {
        assert(fields.take(n) == fields);
    }
}

/// Fields that parse give one pair each, with distinct keys, none of them
/// empty.
pub proof fn lemma_parse_fields_well_formed(fields: Seq<Seq<char>>)
    ensures
        parse_fields(fields) matches Ok(pairs) ==> pairs.len() == fields.len() && distinct_keys(
            pairs,
        ) && nonempty_keys(pairs),
    decreases fields.len(),
{
    if fields.len() > 0 {
        lemma_parse_fields_well_formed(fields.drop_last());
        if let Ok(pairs) = parse_fields(fields) {
            let before = parse_fields(fields.drop_last())->Ok_0;
            let last = pairs.len() - 1;
            assert(pairs == before.push(pairs[last]));
            assert forall|i: int, j: int| 0 <= i < j < pairs.len() implies (#[trigger] pairs[i]).0
                != (#[trigger] pairs[j]).0 by {
                if j < last {
                    assert(before[i].0 != before[j].0);
                } else {
                    assert(before[i].0 != pairs[last].0);
                }
            }
            assert forall|i: int| 0 <= i < pairs.len() implies (#[trigger] pairs[i]).0.len()
                > 0 by {
                if i < last {
                    assert(before[i].0.len() > 0);
                }
            }
        }
    }
}

/// A value that parses is well formed: a flat value is not wrapped in angle
/// brackets, and a structured value has distinct keys, none of them empty.
pub proof fn lemma_parse_value_well_formed(raw: Seq<char>)
    ensures
        parse_value(raw) matches Ok(value) ==> value.well_formed(),
{
    if is_wrapped(raw) {
        lemma_parse_fields_well_formed(tokens(raw.subrange(1, raw.len() - 1)));
    }
}

/// A line that parses is the marker, the key, `=` and the raw value, one
/// behind the other; the key holds no `=`, and the value is what the raw
/// value stands for and is well formed.
pub proof fn lemma_parse_line_shape(line: Seq<char>)
    ensures
        parse_line(line) matches Ok(header) ==> {
            &&& !header.key.contains('=')
            &&& header.value.well_formed()
            &&& exists|raw: Seq<char>|
                line == seq!['#', '#'] + header.key + seq!['='] + raw && #[trigger] parse_value(
                    raw,
                ) == Ok::<HeaderValueView, ParseError>(header.value)
        },
{
    if let Ok(header) = parse_line(line) {
        let rest = line.skip(2);
        rest.index_of_first_ensures('=');
        let i = rest.index_of_first('=')->Some_0;
        let key = rest.take(i);
        let raw = rest.skip(i + 1);
        lemma_parse_value_well_formed(raw);
        assert(!key.contains('=')) by {
            if key.contains('=') {
                let j = choose|j: int| 0 <= j < key.len() && key[j] == '=';
                assert(rest[j] == '=');
            }
        }
        assert(line == seq!['#', '#'] + key + seq!['='] + raw);
        assert(parse_value(raw) == Ok::<HeaderValueView, ParseError>(header.value));
    }
}

/// A value as it is written: as it is, or in double quotes.
pub open spec fn written_value(value: Seq<char>, quoted: bool) -> Seq<char> {
    if quoted {
        seq!['"'] + value + seq!['"']
    } else {
        value
    }
}

/// A field as it is written: its key, `=` and its value.
pub open spec fn field_text(pair: Pair, quoted: bool) -> Seq<char> {
    pair.0 + seq!['='] + written_value(pair.1, quoted)
}

/// The fields of `pairs` as they are written, in their order; `quoted` says
/// of each whether its value stands in quotes.
pub open spec fn field_texts(pairs: Seq<Pair>, quoted: Seq<bool>) -> Seq<Seq<char>> {
    Seq::new(pairs.len(), |i: int| field_text(pairs[i], quoted[i]))
}

/// A structured value as it is written: its fields with commas between them,
/// in angle brackets.
pub open spec fn structured_text(pairs: Seq<Pair>, quoted: Seq<bool>) -> Seq<char> {
    seq!['<'] + join(field_texts(pairs, quoted), ',') + seq!['>']
}

/// Whether the fields of `pairs` can be written so: the keys are distinct,
/// none is empty, and none holds a comma, a `"` or a `=`; no value holds a
/// `"`, and a value with a comma is one that is written in quotes.
pub open spec fn writable(pairs: Seq<Pair>, quoted: Seq<bool>) -> bool {
    &&& quoted.len() == pairs.len()
    &&& distinct_keys(pairs)
    &&& forall|i: int|
        0 <= i < pairs.len() ==> {
            let (key, value) = #[trigger] pairs[i];
            &&& key.len() > 0
            &&& plain(key)
            &&& !key.contains('=')
            &&& !value.contains('"')
            &&& quoted[i] || !value.contains(',')
        }
}

/// A field that is written is read as it was: the key ends at the first `=`,
/// and the value comes out without the quotes it was written in.
pub proof fn lemma_parse_written_field(key: Seq<char>, value: Seq<char>, quoted: bool)
    requires
        !key.contains('='),
        !value.contains('"'),
    ensures
        split_at_first(field_text((key, value), quoted), '=') == Some(
            (key, written_value(value, quoted)),
        ),
        unquote(written_value(value, quoted)) == value,
{
    let text = field_text((key, value), quoted);
    let written = written_value(value, quoted);
    assert(text[key.len() as int] == '=');
    assert forall|j: int| 0 <= j < key.len() implies text[j] != '=' by {
        assert(key[j] == text[j]);
    }
    lemma_first_occurrence(text, '=', key.len() as int);
    assert(text.take(key.len() as int) == key);
    assert(text.skip(key.len() as int + 1) == written);
    if quoted {
        assert(written.subrange(1, written.len() - 1) == value);
    } else if value.len() >= 2 && value.first() == '"' {
        assert(value[0] == '"');
    }
}

/// Written fields are read as they were: what is read from the fields as
/// they are written is the fields.
pub proof fn lemma_parse_written_fields(pairs: Seq<Pair>, quoted: Seq<bool>)
    requires
        writable(pairs, quoted),
    ensures
        parse_fields(field_texts(pairs, quoted)) == Ok::<Seq<Pair>, ParseError>(pairs),
    decreases pairs.len(),
{
    let texts = field_texts(pairs, quoted);
    if pairs.len() > 0 {
        let last = pairs.len() - 1;
        let init = pairs.drop_last();
        let (key, value) = pairs[last];
        assert forall|i: int| 0 <= i < init.len() implies {
            let (key, value) = #[trigger] init[i];
            &&& key.len() > 0
            &&& plain(key)
            &&& !key.contains('=')
            &&& !value.contains('"')
            &&& quoted.drop_last()[i] || !value.contains(',')
        } by {
            assert(init[i] == pairs[i]);
        }
        assert forall|i: int, j: int| 0 <= i < j < init.len() implies (#[trigger] init[i]).0 != (
        #[trigger] init[j]).0 by {
            assert(pairs[i].0 != pairs[j].0);
        }
        lemma_parse_written_fields(init, quoted.drop_last());
        assert(texts.drop_last() == field_texts(init, quoted.drop_last()));
        assert(texts.last() == field_text((key, value), quoted[last]));
        lemma_parse_written_field(key, value, quoted[last]);
        assert(!has_key(init, key)) by {
            if has_key(init, key) {
                let i = choose|i: int| 0 <= i < init.len() && (#[trigger] init[i]).0 == key;
                assert(pairs[i].0 != pairs[last].0);
            }
        }
        assert(init.push((key, value)) == pairs);
    } else {
        assert(pairs == Seq::<Pair>::empty());
    }
}

/// A field that is written is one field to the tokenizer, with its quoted
/// span closed.
pub proof fn lemma_written_field_is_single(key: Seq<char>, value: Seq<char>, quoted: bool)
    requires
        plain(key),
        !value.contains('"'),
        quoted || !value.contains(','),
    ensures
        single_field(field_text((key, value), quoted)),
{
    let head = key + seq!['='];
    assert(plain(head)) by {
        if head.contains(',') || head.contains('"') {
            let j = choose|j: int| 0 <= j < head.len() && (head[j] == ',' || head[j] == '"');
            if j < key.len() {
                assert(key[j] == head[j]);
            }
        }
    }
    if quoted {
        lemma_quoted_field(head, value);
        assert(head + seq!['"'] + value + seq!['"'] == field_text((key, value), quoted));
    } else {
        let text = head + value;
        assert(plain(text)) by {
            if text.contains(',') || text.contains('"') {
                let j = choose|j: int| 0 <= j < text.len() && (text[j] == ',' || text[j] == '"');
                if j < head.len() {
                    assert(head[j] == text[j]);
                } else {
                    assert(value[j - head.len()] == text[j]);
                }
            }
        }
        lemma_plain_field(text);
    }
}

/// A structured value that is written is read as it was: from
/// `<k1=v1,k2="v2",...>` the fields come out in their order, the values
/// without their quotes, whatever commas the quoted ones hold.
pub proof fn lemma_parse_structured_text(pairs: Seq<Pair>, quoted: Seq<bool>)
    requires
        writable(pairs, quoted),
    ensures
        parse_value(structured_text(pairs, quoted)) == Ok::<HeaderValueView, ParseError>(
            HeaderValueView::Nested(pairs),
        ),
{
    let texts = field_texts(pairs, quoted);
    let inner = join(texts, ',');
    let raw = structured_text(pairs, quoted);
    assert(raw.first() == '<');
    assert(raw.last() == '>');
    assert(raw.subrange(1, raw.len() - 1) == inner);
    lemma_parse_written_fields(pairs, quoted);
    if pairs.len() > 0 {
        assert forall|i: int| 0 <= i < texts.len() implies single_field(#[trigger] texts[i]) by {
            let (key, value) = pairs[i];
            lemma_written_field_is_single(key, value, quoted[i]);
        }
        lemma_fields_of_join(texts);
        if inner.len() == 0 {
            let (key, value) = pairs[0];
            assert(texts[0][key.len() as int] == '=');
            assert(top_level_fields(inner) == seq![Seq::<char>::empty()]);
        }
    } else {
        assert(texts == Seq::<Seq<char>>::empty());
        assert(inner == Seq::<char>::empty());
    }
}

} // verus!

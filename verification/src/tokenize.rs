//! Splitting the inner text of a structured value into its fields.
//!
//! Fields are separated by commas. A `"` opens a quoted span that the next
//! `"` closes, and a comma inside such a span separates nothing. A quoted
//! span that is never closed is an error.

use vstd::prelude::*;
use crate::parse::{line_error, ParseError, ParseErrorKind};
use crate::text::{chars_of, pieces};

verus! {

/// Whether the end of `s` lies inside a quoted span, which is the case when
/// `s` holds an odd number of `"`.
pub open spec fn open_quote(s: Seq<char>) -> bool
    decreases s.len(),
{
    if s.len() == 0 {
        false
    } else {
        open_quote(s.drop_last()) != (s.last() == '"')
    }
}

/// The pieces of `s` between its top-level commas, in order. There is one
/// piece more than there are such commas, so the empty text has one piece.
///
/// Read from left to right: a comma outside quoted spans ends the current
/// piece and begins an empty one, and any other character extends the
/// current piece.
pub open spec fn top_level_fields(s: Seq<char>) -> Seq<Seq<char>>
    decreases s.len(),
{
    if s.len() == 0 {
        seq![Seq::<char>::empty()]
    } else {
        let before = top_level_fields(s.drop_last());
        if s.last() == ',' && !open_quote(s.drop_last()) {
            before.push(Seq::<char>::empty())
        } else {
            before.drop_last().push(before.last().push(s.last()))
        }
    }
}

/// The fields of the inner text `s`: none for the empty text, else its
/// top-level pieces.
pub open spec fn tokens(s: Seq<char>) -> Seq<Seq<char>> {
    if s.len() == 0 {
        Seq::<Seq<char>>::empty()
    } else {
        top_level_fields(s)
    }
}

/// What tokenizing the inner text `s` gives: its fields, unless a quoted span
/// of it is never closed.
pub open spec fn tokenize_result(s: Seq<char>) -> Result<Seq<Seq<char>>, ParseError> {
    if open_quote(s) {
        Err(line_error(ParseErrorKind::UnterminatedQuote))
    } else {
        Ok(tokens(s))
    }
}

/// The fields written one after the other with `sep` between neighbours.
pub open spec fn join(fields: Seq<Seq<char>>, sep: char) -> Seq<char>
    decreases fields.len(),
{
    if fields.len() == 0 {
        Seq::<char>::empty()
    } else if fields.len() == 1 {
        fields[0]
    } else {
        join(fields.drop_last(), sep).push(sep) + fields.last()
    }
}

/// Whether `s` holds neither a comma nor a `"`.
pub open spec fn plain(s: Seq<char>) -> bool {
    !s.contains(',') && !s.contains('"')
}

/// Whether `s` is one field with all its quoted spans closed: its only
/// commas stand inside quoted spans.
pub open spec fn single_field(s: Seq<char>) -> bool {
    !open_quote(s) && top_level_fields(s) == seq![s]
}

/// `fields` with `tail` written behind its last field.
pub open spec fn extend_last(fields: Seq<Seq<char>>, tail: Seq<char>) -> Seq<Seq<char>> {
    fields.drop_last().push(fields.last() + tail)
}

/// The pieces `x` and `y` of two texts, read as the pieces of one: the last
/// piece of the first text and the first piece of the second are one piece.
pub open spec fn glue(x: Seq<Seq<char>>, y: Seq<Seq<char>>) -> Seq<Seq<char>> {
    x.drop_last().push(x.last() + y.first()) + y.drop_first()
}

/// Splits the inner text of a structured value into its fields. A quoted span
/// that is never closed is an error.
pub fn tokenize(inner: &str) -> (r: Result<Vec<String>, ParseError>)
    ensures
        (match r {
            Ok(fields) => Ok(fields.deep_view()),
            Err(e) => Err(e),
        }) == tokenize_result(inner@),
{
    let chars = chars_of(inner);
    let n = chars.len();
    let mut fields: Vec<String> = Vec::new();
    if n == 0 {
        assert(fields.deep_view() == Seq::<Seq<char>>::empty());
        return Ok(fields);
    }
    let mut start: usize = 0;
    let mut quoted = false;
    let mut i: usize = 0;
    assert(inner@.take(0) == Seq::<char>::empty());
    while i < n
        invariant
            n == inner@.len(),
            chars@ == inner@,
            start <= i <= n,
            quoted == open_quote(inner@.take(i as int)),
            top_level_fields(inner@.take(i as int)) == fields.deep_view().push(
                inner@.subrange(start as int, i as int),
            ),
        decreases n - i,
    {
        let c = chars[i];
        assert(inner@.take(i + 1).drop_last() == inner@.take(i as int));
        if c == ',' && !quoted {
            fields.push(inner.substring_char(start, i).to_owned());
            start = i + 1;
            assert(inner@.subrange(start as int, i + 1) == Seq::<char>::empty());
        } else {
            if c == '"' {
                quoted = !quoted;
            }
            assert(inner@.subrange(start as int, i as int).push(c) == inner@.subrange(
                start as int,
                i + 1,
            ));
        }
        i += 1;
    }
    assert(inner@.take(n as int) == inner@);
    if quoted {
        return Err(ParseError { kind: ParseErrorKind::UnterminatedQuote, field: None });
    }
    let ghost done = fields.deep_view();
    fields.push(inner.substring_char(start, n).to_owned());
    assert(fields.deep_view() == done.push(inner@.subrange(start as int, n as int)));
    Ok(fields)
}

/// What a text does not hold, the text without its last character does not
/// hold either, nor is it that last character.
pub proof fn lemma_contains_drop_last(s: Seq<char>, c: char)
    requires
        s.len() > 0,
        !s.contains(c),
    ensures
        !s.drop_last().contains(c),
        s.last() != c,
{
    let head = s.drop_last();
    if head.contains(c) {
        let j = choose|j: int| 0 <= j < head.len() && head[j] == c;
        assert(s[j] == c);
    }
    assert(s[s.len() - 1] != c);
}

/// A text always has a first piece, and its pieces joined with commas give the
/// text back.
pub proof fn lemma_join_top_level_fields(s: Seq<char>)
    ensures
        top_level_fields(s).len() >= 1,
        join(top_level_fields(s), ',') == s,
    decreases s.len(),
{
    if s.len() > 0 {
        let head = s.drop_last();
        let before = top_level_fields(head);
        lemma_join_top_level_fields(head);
        let after = top_level_fields(s);
        if s.last() == ',' && !open_quote(head) {
            assert(after.drop_last() == before);
        } else if before.len() > 1 {
            assert(after.drop_last() == before.drop_last());
            assert(join(after, ',') == join(before, ',').push(s.last()));
        }
    }
}

/// Tokenizing loses nothing: the fields joined with commas give the text
/// back, so tokenizing the joined fields gives the same fields again.
pub proof fn lemma_tokens_join(s: Seq<char>)
    ensures
        join(tokens(s), ',') == s,
        tokens(join(tokens(s), ',')) == tokens(s),
{
    lemma_join_top_level_fields(s);
}

/// A text without a comma is one piece.
pub proof fn lemma_without_comma(s: Seq<char>)
    requires
        !s.contains(','),
    ensures
        top_level_fields(s) == seq![s],
    decreases s.len(),
{
    if s.len() > 0 {
        let head = s.drop_last();
        lemma_contains_drop_last(s, ',');
        lemma_without_comma(head);
        assert(seq![head].drop_last().push(head.push(s.last())) == seq![s]) by {
            assert(head.push(s.last()) == s);
        }
    } else {
        assert(s == Seq::<char>::empty());
    }
}

/// A text without `"` has no quoted span, so its pieces are those of a plain
/// split at commas, and no piece holds a comma.
pub proof fn lemma_unquoted_fields(s: Seq<char>)
    requires
        !s.contains('"'),
    ensures
        !open_quote(s),
        top_level_fields(s) == pieces(s, ','),
        forall|i: int|
            0 <= i < top_level_fields(s).len() ==> !(#[trigger] top_level_fields(s)[i]).contains(
                ',',
            ),
    decreases s.len(),
{
    if s.len() > 0 {
        let head = s.drop_last();
        let before = top_level_fields(head);
        let after = top_level_fields(s);
        lemma_contains_drop_last(s, '"');
        lemma_unquoted_fields(head);
        lemma_join_top_level_fields(head);
        assert forall|i: int| 0 <= i < after.len() implies !(#[trigger] after[i]).contains(
            ',',
        ) by {
            if s.last() != ',' && i == before.len() - 1 {
                lemma_contains_drop_last(after[i], ',');
                assert(after[i].drop_last() == before[i]);
            }
        }
    }
}

/// For a text without quoted spans, tokenizing is a plain split at commas:
/// no field holds a comma, and the fields joined with commas give the text
/// back. So tokenizing and joining again changes nothing, neither the text
/// nor the fields.
pub proof fn lemma_tokenize_unquoted(s: Seq<char>)
    requires
        !s.contains('"'),
    ensures
        tokenize_result(s) == Ok::<Seq<Seq<char>>, ParseError>(tokens(s)),
        top_level_fields(s) == pieces(s, ','),
        forall|i: int| 0 <= i < tokens(s).len() ==> !(#[trigger] tokens(s)[i]).contains(','),
        join(tokens(s), ',') == s,
        tokens(join(tokens(s), ',')) == tokens(s),
        join(tokens(join(tokens(s), ',')), ',') == join(tokens(s), ','),
{
    lemma_tokens_join(s);
    lemma_unquoted_fields(s);
}

/// A quote is open at the end of two texts written one behind the other when
/// it is open at the end of exactly one of them.
pub proof fn lemma_open_quote_concat(a: Seq<char>, t: Seq<char>)
    ensures
        open_quote(a + t) == (open_quote(a) != open_quote(t)),
    decreases t.len(),
{
    if t.len() > 0 {
        lemma_open_quote_concat(a, t.drop_last());
        assert((a + t).drop_last() == a + t.drop_last());
    }
}

/// Behind a text whose quoted spans are all closed, a second text is split as
/// it is split alone: the pieces of both are the pieces of the whole, but
/// for the two that meet, which are one piece.
pub proof fn lemma_fields_concat(a: Seq<char>, t: Seq<char>)
    requires
        !open_quote(a),
    ensures
        top_level_fields(a + t) == glue(top_level_fields(a), top_level_fields(t)),
    decreases t.len(),
{
    lemma_join_top_level_fields(a);
    if t.len() > 0 {
        let init = t.drop_last();
        let x = top_level_fields(a);
        let y = top_level_fields(init);
        lemma_fields_concat(a, init);
        lemma_open_quote_concat(a, init);
        lemma_join_top_level_fields(init);
        assert((a + t).drop_last() == a + init);
        if y.len() > 1 {
            assert(glue(x, y).drop_last() == x.drop_last().push(x.last() + y.first())
                + y.drop_first().drop_last());
        }
    }
}

/// Inside a quoted span nothing separates: text without `"` that is written
/// behind an open quote extends the last piece, commas included, and leaves
/// the quote open.
pub proof fn lemma_inside_quotes(a: Seq<char>, q: Seq<char>)
    requires
        open_quote(a),
        !q.contains('"'),
    ensures
        open_quote(a + q),
        top_level_fields(a + q) == extend_last(top_level_fields(a), q),
    decreases q.len(),
{
    lemma_join_top_level_fields(a);
    if q.len() > 0 {
        let init = q.drop_last();
        let piece = top_level_fields(a).last();
        lemma_contains_drop_last(q, '"');
        lemma_inside_quotes(a, init);
        assert((a + q).drop_last() == a + init);
        assert((piece + init).push(q.last()) == piece + q);
    }
}

/// A quoted span is never split: written behind a text whose quotes are all
/// closed, the span `"q"` extends the last piece as a whole, whatever commas
/// `q` holds, and its quote is closed again.
pub proof fn lemma_quoted_span(a: Seq<char>, q: Seq<char>)
    requires
        !open_quote(a),
        !q.contains('"'),
    ensures
        !open_quote(a + seq!['"'] + q + seq!['"']),
        top_level_fields(a + seq!['"'] + q + seq!['"']) == extend_last(
            top_level_fields(a),
            seq!['"'] + q + seq!['"'],
        ),
{
    let opened = a + seq!['"'];
    let fields = top_level_fields(a);
    lemma_join_top_level_fields(a);
    assert(opened.drop_last() == a);
    assert(top_level_fields(opened) == extend_last(fields, seq!['"'])) by {
        assert(fields.last().push('"') == fields.last() + seq!['"']);
    }
    lemma_inside_quotes(opened, q);
    let inside = opened + q;
    let closed = inside + seq!['"'];
    assert(closed.drop_last() == inside);
    let before = top_level_fields(inside);
    assert(before.last().push('"') == fields.last() + (seq!['"'] + q + seq!['"'])) by {
        assert((fields.last() + seq!['"'] + q).push('"') == fields.last() + (seq!['"'] + q
            + seq!['"']));
    }
}

/// A plain text is one field.
pub proof fn lemma_plain_field(s: Seq<char>)
    requires
        plain(s),
    ensures
        single_field(s),
{
    lemma_without_comma(s);
    lemma_unquoted_fields(s);
}

/// A plain text with a quoted span behind it is one field, whatever commas
/// the span holds.
pub proof fn lemma_quoted_field(a: Seq<char>, q: Seq<char>)
    requires
        plain(a),
        !q.contains('"'),
    ensures
        single_field(a + seq!['"'] + q + seq!['"']),
{
    lemma_plain_field(a);
    lemma_quoted_span(a, q);
    assert(extend_last(seq![a], seq!['"'] + q + seq!['"']) == seq![a + seq!['"'] + q + seq!['"']])
        by {
        assert(a + (seq!['"'] + q + seq!['"']) == a + seq!['"'] + q + seq!['"']);
    }
}

/// Fields that are joined with commas come apart again at those commas: if
/// each is one field with its quoted spans closed, the pieces of the joined
/// text are the fields.
pub proof fn lemma_fields_of_join(fields: Seq<Seq<char>>)
    requires
        fields.len() > 0,
        forall|i: int| 0 <= i < fields.len() ==> single_field(#[trigger] fields[i]),
    ensures
        !open_quote(join(fields, ',')),
        top_level_fields(join(fields, ',')) == fields,
    decreases fields.len(),
{
    if fields.len() > 1 {
        let init = fields.drop_last();
        let last = fields.last();
        let cut = join(init, ',').push(',');
        assert forall|i: int| 0 <= i < init.len() implies single_field(#[trigger] init[i]) by {
            assert(init[i] == fields[i]);
        }
        lemma_fields_of_join(init);
        assert(cut.drop_last() == join(init, ','));
        lemma_fields_concat(cut, last);
        lemma_open_quote_concat(cut, last);
        assert(glue(init.push(Seq::<char>::empty()), seq![last]) == fields);
    }
}

} // verus!

//! The parsed form of a meta-information line.

use vstd::prelude::*;
use crate::parse::ParseErrorKind;
use crate::text::str_eq;

verus! {

/// A key and its value, as text.
pub type Pair = (Seq<char>, Seq<char>);

/// Whether some pair of `pairs` has the key `key`.
pub open spec fn has_key(pairs: Seq<Pair>, key: Seq<char>) -> bool {
    exists|i: int| 0 <= i < pairs.len() && (#[trigger] pairs[i]).0 == key
}

/// No two pairs share a key.
pub open spec fn distinct_keys(pairs: Seq<Pair>) -> bool {
    forall|i: int, j: int|
        0 <= i < j < pairs.len() ==> (#[trigger] pairs[i]).0 != (#[trigger] pairs[j]).0
}

/// No pair has the empty text as its key.
pub open spec fn nonempty_keys(pairs: Seq<Pair>) -> bool {
    forall|i: int| 0 <= i < pairs.len() ==> (#[trigger] pairs[i]).0.len() > 0
}

/// The mapping that `pairs` describes: each key to the value it stands with.
pub open spec fn as_map(pairs: Seq<Pair>) -> Map<Seq<char>, Seq<char>>
    decreases pairs.len(),
{
    if pairs.len() == 0 {
        Map::empty()
    } else {
        as_map(pairs.drop_last()).insert(pairs.last().0, pairs.last().1)
    }
}

/// What adding `key` with `value` to `pairs` gives: the longer sequence, or
/// the reason why the pair is refused.
pub open spec fn insert_result(pairs: Seq<Pair>, key: Seq<char>, value: Seq<char>) -> Result<
    Seq<Pair>,
    ParseErrorKind,
> {
    if key.len() == 0 {
        Err(ParseErrorKind::EmptyKey)
    } else if has_key(pairs, key) {
        Err(ParseErrorKind::DuplicateKey)
    } else {
        Ok(pairs.push((key, value)))
    }
}

/// The texts of stored entries, in their order.
pub open spec fn pairs_of(entries: Seq<(String, String)>) -> Seq<Pair> {
    Seq::new(entries.len(), |i: int| (entries[i].0@, entries[i].1@))
}

/// The fields of a structured value: keys with their values, in the order in
/// which they were added. No key occurs twice and none is empty.
#[derive(Debug, Eq)]
pub struct FieldMap {
    entries: Vec<(String, String)>,
}

impl View for FieldMap {
    type V = Map<Seq<char>, Seq<char>>;

    /// The fields as a mapping from key to value.
    open spec fn view(&self) -> Map<Seq<char>, Seq<char>> {
        as_map(self.pairs())
    }
}

impl FieldMap {
    /// The fields in the order in which they were added.
    pub closed spec fn pairs(&self) -> Seq<Pair> {
        pairs_of(self.entries@)
    }

    /// What holds of every map: no key occurs twice and none is empty.
    #[verifier::type_invariant]
    pub open spec fn well_formed(&self) -> bool {
        distinct_keys(self.pairs()) && nonempty_keys(self.pairs())
    }

    /// A map without fields.
    pub fn new() -> (m: FieldMap)
        ensures
            m.pairs() == Seq::<Pair>::empty(),
    {
        FieldMap { entries: Vec::new() }
    }

    /// The number of fields.
    pub fn len(&self) -> (n: usize)
        ensures
            n == self.pairs().len(),
    {
        self.entries.len()
    }

    /// The position of `key` among the fields.
    fn find(&self, key: &str) -> (r: Option<usize>)
        ensures
            match r {
                Some(i) => i < self.pairs().len() && self.pairs()[i as int].0 == key@,
                None => !has_key(self.pairs(), key@),
            },
    {
        let mut i: usize = 0;
        while i < self.entries.len()
            invariant
                i <= self.entries.len(),
                forall|j: int| 0 <= j < i ==> (#[trigger] self.pairs()[j]).0 != key@,
            decreases self.entries.len() - i,
        {
            if str_eq(self.entries[i].0.as_str(), key) {
                return Some(i);
            }
            i += 1;
        }
        None
    }

    /// The value that stands with `key`.
    pub fn get(&self, key: &str) -> (r: Option<&str>)
        ensures
            match r {
                Some(v) => self@.contains_key(key@) && self@[key@] == v@,
                None => !self@.contains_key(key@),
            },
    {
        proof {
            use_type_invariant(self);
            lemma_as_map_dom(self.pairs(), key@);
            lemma_as_map_values(self.pairs());
        }
        match self.find(key) {
            Some(i) => Some(self.entries[i].1.as_str()),
            None => None,
        }
    }

    /// Whether a field has the key `key`.
    pub fn contains_key(&self, key: &str) -> (r: bool)
        ensures
            r == self@.contains_key(key@),
    {
        proof {
            lemma_as_map_dom(self.pairs(), key@);
        }
        self.find(key).is_some()
    }

    /// The field at position `i` in the order of insertion, as key and value.
    pub fn entry(&self, i: usize) -> (r: Option<(&str, &str)>)
        ensures
            match r {
                Some((k, v)) => i < self.pairs().len() && self.pairs()[i as int] == (k@, v@),
                None => i >= self.pairs().len(),
            },
    {
        if i < self.entries.len() {
            Some((self.entries[i].0.as_str(), self.entries[i].1.as_str()))
        } else {
            None
        }
    }

    /// Adds the field `key` with `value` behind the others. A key that is
    /// empty or already present is refused, and the map stays as it was.
    pub fn insert(&mut self, key: &str, value: &str) -> (r: Result<(), ParseErrorKind>)
        ensures
            (match r {
                Ok(()) => Ok(final(self).pairs()),
                Err(kind) => Err(kind),
            }) == insert_result(old(self).pairs(), key@, value@),
            r is Err ==> final(self).pairs() == old(self).pairs(),
    {
        proof {
            use_type_invariant(&*self);
        }
        if key.is_empty() {
            return Err(ParseErrorKind::EmptyKey);
        }
        if self.find(key).is_some() {
            return Err(ParseErrorKind::DuplicateKey);
        }
        let ghost before = self.pairs();
        let mut entries: Vec<(String, String)> = Vec::new();
        std::mem::swap(&mut entries, &mut self.entries);
        entries.push((key.to_owned(), value.to_owned()));
        proof {
            let after = pairs_of(entries@);
            assert(after == before.push((key@, value@)));
            assert forall|i: int, j: int| 0 <= i < j < after.len() implies (#[trigger] after[i]).0
                != (#[trigger] after[j]).0 by {
                if j < before.len() {
                    assert(before[i].0 != before[j].0);
                } else {
                    assert(before[i].0 != key@);
                }
            }
            assert forall|i: int| 0 <= i < after.len() implies (#[trigger] after[i]).0.len()
                > 0 by {
                if i < before.len() {
                    assert(before[i].0.len() > 0);
                }
            }
        }
        self.entries = entries;
        Ok(())
    }
}

impl Clone for FieldMap {
    fn clone(&self) -> (r: FieldMap)
        ensures
            r.pairs() == self.pairs(),
    {
        proof {
            use_type_invariant(self);
        }
        let mut entries: Vec<(String, String)> = Vec::new();
        let mut i: usize = 0;
        while i < self.entries.len()
            invariant
                i <= self.entries.len(),
                pairs_of(entries@) == pairs_of(self.entries@).take(i as int),
            decreases self.entries.len() - i,
        {
            let key = self.entries[i].0.clone();
            let value = self.entries[i].1.clone();
            entries.push((key, value));
            assert(pairs_of(entries@) == pairs_of(self.entries@).take(i as int).push(
                pairs_of(self.entries@)[i as int],
            ));
            i += 1;
        }
        FieldMap { entries }
    }
}

impl PartialEq for FieldMap {
    /// Two maps are equal when they hold the same keys with the same values,
    /// in whatever order.
    fn eq(&self, other: &FieldMap) -> (r: bool) {
        proof {
            use_type_invariant(self);
            use_type_invariant(other);
            lemma_as_map_values(self.pairs());
            lemma_as_map_values(other.pairs());
        }
        if self.entries.len() != other.entries.len() {
            return false;
        }
        let mut i: usize = 0;
        while i < self.entries.len()
            invariant
                i <= self.entries.len(),
                self.entries.len() == other.entries.len(),
                forall|j: int|
                    0 <= j < i ==> {
                        let (key, value) = #[trigger] self.pairs()[j];
                        other@.contains_key(key) && other@[key] == value
                    },
                forall|j: int|
                    0 <= j < self.pairs().len() ==> {
                        let (key, value) = #[trigger] self.pairs()[j];
                        self@.contains_key(key) && self@[key] == value
                    },
            decreases self.entries.len() - i,
        {
            let ghost pair = self.pairs()[i as int];
            match other.get(self.entries[i].0.as_str()) {
                Some(v) => {
                    if !str_eq(v, self.entries[i].1.as_str()) {
                        assert(self@[pair.0] != other@[pair.0]);
                        return false;
                    }
                },
                None => {
                    assert(self@.contains_key(pair.0));
                    return false;
                },
            }
            i += 1;
        }
        proof {
            lemma_as_map_equal(self.pairs(), other.pairs());
        }
        true
    }
}

impl vstd::std_specs::cmp::PartialEqSpecImpl for FieldMap {
    open spec fn obeys_eq_spec() -> bool {
        true
    }

    open spec fn eq_spec(&self, other: &FieldMap) -> bool {
        self@ == other@
    }
}

/// Whether `raw` is wrapped in one pair of angle brackets that spans it.
pub open spec fn is_wrapped(raw: Seq<char>) -> bool {
    raw.len() >= 2 && raw.first() == '<' && raw.last() == '>'
}

/// The value of a line as text: what a [`HeaderValue`] stands for.
pub enum HeaderValueView {
    /// A bare value.
    Flat(Seq<char>),
    /// The fields of a structured value, in their order.
    Nested(Seq<Pair>),
}

impl HeaderValueView {
    /// A flat value is not wrapped in angle brackets; the keys of a
    /// structured value are distinct and none is empty.
    pub open spec fn well_formed(self) -> bool {
        match self {
            HeaderValueView::Flat(text) => !is_wrapped(text),
            HeaderValueView::Nested(pairs) => distinct_keys(pairs) && nonempty_keys(pairs),
        }
    }

    /// Whether two values say the same: flat values with the same text, or
    /// structured values with the same fields in whatever order.
    pub open spec fn same_as(self, other: HeaderValueView) -> bool {
        match (self, other) {
            (HeaderValueView::Flat(a), HeaderValueView::Flat(b)) => a == b,
            (HeaderValueView::Nested(a), HeaderValueView::Nested(b)) => as_map(a) == as_map(b),
            _ => false,
        }
    }
}

/// A line as text: what a [`Header`] stands for.
pub struct HeaderView {
    pub key: Seq<char>,
    pub value: HeaderValueView,
}

impl HeaderView {
    /// Whether two lines say the same: the same key with the same value.
    pub open spec fn same_as(self, other: HeaderView) -> bool {
        self.key == other.key && self.value.same_as(other.value)
    }
}

/// The right-hand side of a meta-information line.
#[derive(Debug, Eq)]
pub enum HeaderValue {
    /// A bare value, kept as it was written.
    Flat(String),
    /// The fields of a structured value `<k1=v1,k2=v2,...>`.
    Nested(FieldMap),
}

impl View for HeaderValue {
    type V = HeaderValueView;

    open spec fn view(&self) -> HeaderValueView {
        match self {
            HeaderValue::Flat(text) => HeaderValueView::Flat(text@),
            HeaderValue::Nested(fields) => HeaderValueView::Nested(fields.pairs()),
        }
    }
}

/// One parsed meta-information line: `##key=value`.
#[derive(Debug, Eq)]
pub struct Header {
    pub key: String,
    pub value: HeaderValue,
}

impl View for Header {
    type V = HeaderView;

    open spec fn view(&self) -> HeaderView {
        HeaderView { key: self.key@, value: self.value@ }
    }
}

impl Clone for HeaderValue {
    fn clone(&self) -> (r: HeaderValue)
        ensures
            r@ == self@,
    {
        match self {
            HeaderValue::Flat(text) => HeaderValue::Flat(text.clone()),
            HeaderValue::Nested(fields) => HeaderValue::Nested(fields.clone()),
        }
    }
}

impl PartialEq for HeaderValue {
    /// Flat values are equal when their texts are, structured values when
    /// they hold the same fields.
    fn eq(&self, other: &HeaderValue) -> (r: bool) {
        match (self, other) {
            (HeaderValue::Flat(a), HeaderValue::Flat(b)) => *a == *b,
            (HeaderValue::Nested(a), HeaderValue::Nested(b)) => *a == *b,
            _ => false,
        }
    }
}

impl vstd::std_specs::cmp::PartialEqSpecImpl for HeaderValue {
    open spec fn obeys_eq_spec() -> bool {
        true
    }

    open spec fn eq_spec(&self, other: &HeaderValue) -> bool {
        self@.same_as(other@)
    }
}

impl Clone for Header {
    fn clone(&self) -> (r: Header)
        ensures
            r@ == self@,
    {
        Header { key: self.key.clone(), value: self.value.clone() }
    }
}

impl PartialEq for Header {
    fn eq(&self, other: &Header) -> (r: bool) {
        self.key == other.key && self.value == other.value
    }
}

impl vstd::std_specs::cmp::PartialEqSpecImpl for Header {
    open spec fn obeys_eq_spec() -> bool {
        true
    }

    open spec fn eq_spec(&self, other: &Header) -> bool {
        self@.same_as(other@)
    }
}

/// A key belongs to `as_map(pairs)` exactly when it occurs in `pairs`, and
/// the map has finitely many keys.
pub proof fn lemma_as_map_dom(pairs: Seq<Pair>, key: Seq<char>)
    ensures
        as_map(pairs).contains_key(key) <==> has_key(pairs, key),
        as_map(pairs).dom().finite(),
    decreases pairs.len(),
{
    if pairs.len() > 0 {
        let init = pairs.drop_last();
        let last = pairs.len() - 1;
        lemma_as_map_dom(init, key);
        if has_key(pairs, key) {
            let i = choose|i: int| 0 <= i < pairs.len() && (#[trigger] pairs[i]).0 == key;
            if i < last {
                assert(init[i].0 == key);
            }
        }
        if has_key(init, key) {
            let i = choose|i: int| 0 <= i < init.len() && (#[trigger] init[i]).0 == key;
            assert(pairs[i].0 == key);
        }
        if key == pairs.last().0 {
            assert(pairs[last].0 == key);
        }
    }
}

/// With distinct keys, the map holds for the key of each pair the value of
/// that pair, and it has as many keys as there are pairs.
pub proof fn lemma_as_map_values(pairs: Seq<Pair>)
    requires
        distinct_keys(pairs),
    ensures
        forall|i: int|
            0 <= i < pairs.len() ==> as_map(pairs).contains_key((#[trigger] pairs[i]).0) && as_map(
                pairs,
            )[pairs[i].0] == pairs[i].1,
        as_map(pairs).dom().finite(),
        as_map(pairs).dom().len() == pairs.len(),
    decreases pairs.len(),
{
    if pairs.len() > 0 {
        let init = pairs.drop_last();
        let last = pairs.len() - 1;
        assert forall|i: int, j: int| 0 <= i < j < init.len() implies (#[trigger] init[i]).0 != (
        #[trigger] init[j]).0 by {
            assert(pairs[i].0 != pairs[j].0);
        }
        lemma_as_map_values(init);
        lemma_as_map_dom(init, pairs.last().0);
        if has_key(init, pairs.last().0) {
            let i = choose|i: int| 0 <= i < init.len() && (#[trigger] init[i]).0 == pairs.last().0;
            assert(pairs[i].0 != pairs[last].0);
        }
        assert forall|i: int| 0 <= i < pairs.len() implies as_map(pairs).contains_key(
            (#[trigger] pairs[i]).0,
        ) && as_map(pairs)[pairs[i].0] == pairs[i].1 by {
            if i < last {
                assert(init[i] == pairs[i]);
                assert(pairs[i].0 != pairs[last].0);
            }
        }
    }
}

/// Two sequences of pairs with distinct keys and the same length describe
/// the same mapping as soon as the second holds each pair of the first.
pub proof fn lemma_as_map_equal(a: Seq<Pair>, b: Seq<Pair>)
    requires
        distinct_keys(a),
        distinct_keys(b),
        a.len() == b.len(),
        forall|i: int|
            0 <= i < a.len() ==> as_map(b).contains_key((#[trigger] a[i]).0) && as_map(b)[a[i].0]
                == a[i].1,
    ensures
        as_map(a) == as_map(b),
{
    lemma_as_map_values(a);
    lemma_as_map_values(b);
    assert forall|k: Seq<char>| #[trigger] as_map(a).dom().contains(k) implies as_map(
        b,
    ).dom().contains(k) && as_map(a)[k] == as_map(b)[k] by {
        lemma_as_map_dom(a, k);
        let i = choose|i: int| 0 <= i < a.len() && (#[trigger] a[i]).0 == k;
        assert(as_map(a)[a[i].0] == a[i].1);
    }
    assert(as_map(a).dom().subset_of(as_map(b).dom()));
    vstd::set_lib::lemma_subset_equality(as_map(a).dom(), as_map(b).dom());
    assert(as_map(a) =~= as_map(b));
}

} // verus!

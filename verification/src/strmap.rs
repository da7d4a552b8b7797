//! Maps and sets keyed by strings, walked in key order.
//!
//! A map is a list of rows in strictly ascending key order. Order matters
//! wherever a map is walked: it reaches diagnostics, records and canonical
//! bytes, and two runs over the same contents must walk it alike.
use vstd::prelude::*;

use crate::text;

verus! {

/// Whether the keys ascend strictly.
pub open spec fn keys_ascend<W>(rows: Seq<(Seq<char>, W)>) -> bool {
    forall|i: int, j: int|
        0 <= i < j < rows.len() ==> text::text_less(#[trigger] rows[i].0, #[trigger] rows[j].0)
}

/// The value a key has, looking from row `i` on.
pub open spec fn lookup_from<W>(rows: Seq<(Seq<char>, W)>, key: Seq<char>, i: int) -> Option<W>
    decreases rows.len() - i,
{
    if i >= rows.len() || i < 0 {
        None
    } else if rows[i].0 == key {
        Some(rows[i].1)
    } else {
        lookup_from(rows, key, i + 1)
    }
}

/// The value a key has.
pub open spec fn lookup<W>(rows: Seq<(Seq<char>, W)>, key: Seq<char>) -> Option<W> {
    lookup_from(rows, key, 0)
}

/// How many leading rows have a key before `key`.
pub open spec fn place<W>(rows: Seq<(Seq<char>, W)>, key: Seq<char>, i: int) -> int
    decreases rows.len() - i,
{
    if i >= rows.len() || i < 0 || !text::text_less(rows[i].0, key) {
        i
    } else {
        place(rows, key, i + 1)
    }
}

/// The rows once `key` has `value`.
pub open spec fn inserted<W>(
    rows: Seq<(Seq<char>, W)>,
    key: Seq<char>,
    value: W,
) -> Seq<(Seq<char>, W)> {
    let p = place(rows, key, 0);
    if p < rows.len() && rows[p].0 == key {
        rows.update(p, (key, value))
    } else {
        rows.insert(p, (key, value))
    }
}

/// The rows once `key` is gone.
pub open spec fn removed<W>(rows: Seq<(Seq<char>, W)>, key: Seq<char>) -> Seq<(Seq<char>, W)> {
    let p = place(rows, key, 0);
    if p < rows.len() && rows[p].0 == key {
        rows.remove(p)
    } else {
        rows
    }
}

proof fn lemma_place<W>(rows: Seq<(Seq<char>, W)>, key: Seq<char>, i: int)
    requires
        keys_ascend(rows),
        0 <= i <= rows.len(),
        forall|j: int| 0 <= j < i ==> text::text_less((#[trigger] rows[j]).0, key),
    ensures
        i <= place(rows, key, i) <= rows.len(),
        forall|j: int|
            0 <= j < place(rows, key, i) ==> text::text_less((#[trigger] rows[j]).0, key) && rows[j].0
                != key,
        forall|j: int|
            place(rows, key, i) <= j < rows.len() ==> (#[trigger] rows[j]).0 == key || text::text_less(
                key,
                rows[j].0,
            ),
        forall|j: int|
            place(rows, key, i) < j < rows.len() ==> text::text_less(key, (#[trigger] rows[j]).0)
                && rows[j].0 != key,
    decreases rows.len() - i,
{
    if i < rows.len() && text::text_less(rows[i].0, key) {
        lemma_place(rows, key, i + 1);
    } else {
        assert forall|j: int| 0 <= j < i implies text::text_less((#[trigger] rows[j]).0, key)
            && rows[j].0 != key by {
            text::lemma_text_less_irreflexive(key);
        }
        assert forall|j: int| i <= j < rows.len() implies (#[trigger] rows[j]).0 == key
            || text::text_less(key, rows[j].0) by {
            text::lemma_text_less_total(rows[i].0, key);
            if j > i {
                assert(text::text_less(rows[i].0, rows[j].0));
                if rows[i].0 != key {
                    text::lemma_text_less_transitive(key, rows[i].0, rows[j].0);
                }
            }
        }
        assert forall|j: int| i < j < rows.len() implies text::text_less(key, (#[trigger] rows[j]).0)
            && rows[j].0 != key by {
            assert(text::text_less(rows[i].0, rows[j].0));
            text::lemma_text_less_irreflexive(key);
            if rows[i].0 != key {
                text::lemma_text_less_total(rows[i].0, key);
                text::lemma_text_less_transitive(key, rows[i].0, rows[j].0);
            }
        }
    }
}

proof fn lemma_lookup_at<W>(rows: Seq<(Seq<char>, W)>, key: Seq<char>, i: int, p: int)
    requires
        0 <= i <= p < rows.len(),
        rows[p].0 == key,
        forall|j: int| i <= j < p ==> (#[trigger] rows[j]).0 != key,
    ensures
        lookup_from(rows, key, i) == Some(rows[p].1),
    decreases p - i,
{
    if i < p {
        lemma_lookup_at(rows, key, i + 1, p);
    }
}

proof fn lemma_lookup_hit<W>(rows: Seq<(Seq<char>, W)>, key: Seq<char>, i: int) -> (p: int)
    requires
        0 <= i,
        lookup_from(rows, key, i) is Some,
    ensures
        i <= p < rows.len(),
        rows[p].0 == key,
        lookup_from(rows, key, i) == Some(rows[p].1),
    decreases rows.len() - i,
{
    if rows[i].0 == key {
        i
    } else {
        lemma_lookup_hit(rows, key, i + 1)
    }
}

proof fn lemma_lookup_some<W>(rows: Seq<(Seq<char>, W)>, key: Seq<char>, i: int, p: int)
    requires
        0 <= i <= p < rows.len(),
        rows[p].0 == key,
    ensures
        lookup_from(rows, key, i) is Some,
    decreases p - i,
{
    if rows[i].0 != key {
        lemma_lookup_some(rows, key, i + 1, p);
    }
}

/// A key has a value exactly where a row has the key.
pub proof fn lemma_lookup_iff<W>(rows: Seq<(Seq<char>, W)>, key: Seq<char>)
    ensures
        lookup(rows, key) is Some <==> exists|i: int|
            0 <= i < rows.len() && (#[trigger] rows[i]).0 == key,
{
    if lookup(rows, key) is Some {
        let p = lemma_lookup_hit(rows, key, 0);
        assert(rows[p].0 == key);
    }
    if exists|i: int| 0 <= i < rows.len() && (#[trigger] rows[i]).0 == key {
        let p = choose|i: int| 0 <= i < rows.len() && (#[trigger] rows[i]).0 == key;
        lemma_lookup_some(rows, key, 0, p);
    }
}

/// The value of the key of row `p` is the value of row `p`.
pub proof fn lemma_lookup_row<W>(rows: Seq<(Seq<char>, W)>, p: int)
    requires
        keys_ascend(rows),
        0 <= p < rows.len(),
    ensures
        lookup(rows, rows[p].0) == Some(rows[p].1),
{
    assert forall|j: int| 0 <= j < p implies (#[trigger] rows[j]).0 != rows[p].0 by {
        text::lemma_text_less_irreflexive(rows[p].0);
    }
    lemma_lookup_at(rows, rows[p].0, 0, p);
}

/// Inserting keeps the keys ascending, gives the key its value and leaves every
/// other key as it was.
pub proof fn lemma_inserted<W>(rows: Seq<(Seq<char>, W)>, key: Seq<char>, value: W)
    requires
        keys_ascend(rows),
    ensures
        keys_ascend(inserted(rows, key, value)),
        lookup(inserted(rows, key, value), key) == Some(value),
        forall|other: Seq<char>|
            other != key ==> #[trigger] lookup(inserted(rows, key, value), other) == lookup(
                rows,
                other,
            ),
{
    let p = place(rows, key, 0);
    lemma_place(rows, key, 0);
    let next = inserted(rows, key, value);
    let hit = p < rows.len() && rows[p].0 == key;
    assert forall|i: int, j: int| 0 <= i < j < next.len() implies text::text_less(
        #[trigger] next[i].0,
        #[trigger] next[j].0,
    ) by {
        if hit {
            assert(text::text_less(rows[i].0, rows[j].0));
        } else {
            if j < p {
                assert(text::text_less(rows[i].0, rows[j].0));
            } else if j == p {
                assert(text::text_less(rows[i].0, key));
            } else if i < p {
                assert(text::text_less(rows[i].0, rows[j - 1].0));
            } else if i == p {
                assert(rows[j - 1].0 == key || text::text_less(key, rows[j - 1].0));
                assert(rows[j - 1].0 != key);
            } else {
                assert(text::text_less(rows[i - 1].0, rows[j - 1].0));
            }
        }
    }
    assert(next[p] == (key, value));
    lemma_lookup_row(next, p);
    assert forall|other: Seq<char>| other != key implies #[trigger] lookup(next, other) == lookup(
        rows,
        other,
    ) by {
        lemma_lookup_iff(rows, other);
        lemma_lookup_iff(next, other);
        if lookup(rows, other) is Some {
            let q = lemma_lookup_hit(rows, other, 0);
            let q2 = if hit || q < p { q } else { q + 1 };
            assert(next[q2] == rows[q]);
            lemma_lookup_row(next, q2);
            lemma_lookup_row(rows, q);
        } else {
            if lookup(next, other) is Some {
                let q = lemma_lookup_hit(next, other, 0);
                let q2 = if hit || q < p { q } else { q - 1 };
                assert(rows[q2] == next[q]);
                assert(false);
            }
        }
    }
}

/// Giving a key that had no value one puts one row in, and moves no other.
pub proof fn lemma_inserted_anew<W>(rows: Seq<(Seq<char>, W)>, key: Seq<char>, value: W)
    requires
        keys_ascend(rows),
        lookup(rows, key) is None,
    ensures
        0 <= place(rows, key, 0) <= rows.len(),
        inserted(rows, key, value) == rows.insert(place(rows, key, 0), (key, value)),
{
    lemma_place(rows, key, 0);
    lemma_lookup_iff(rows, key);
}

/// Removing keeps the keys ascending, leaves the key without a value and every
/// other key as it was.
pub proof fn lemma_removed<W>(rows: Seq<(Seq<char>, W)>, key: Seq<char>)
    requires
        keys_ascend(rows),
    ensures
        keys_ascend(removed(rows, key)),
        lookup(removed(rows, key), key) is None,
        forall|other: Seq<char>|
            other != key ==> #[trigger] lookup(removed(rows, key), other) == lookup(rows, other),
{
    let p = place(rows, key, 0);
    lemma_place(rows, key, 0);
    let next = removed(rows, key);
    let hit = p < rows.len() && rows[p].0 == key;
    assert forall|i: int, j: int| 0 <= i < j < next.len() implies text::text_less(
        #[trigger] next[i].0,
        #[trigger] next[j].0,
    ) by {
        let a = if hit && i >= p { i + 1 } else { i };
        let b = if hit && j >= p { j + 1 } else { j };
        assert(next[i] == rows[a] && next[j] == rows[b]);
    }
    lemma_lookup_iff(next, key);
    if lookup(next, key) is Some {
        let q = lemma_lookup_hit(next, key, 0);
        let a = if hit && q >= p { q + 1 } else { q };
        assert(next[q] == rows[a]);
        assert(false);
    }
    assert forall|other: Seq<char>| other != key implies #[trigger] lookup(next, other) == lookup(
        rows,
        other,
    ) by {
        lemma_lookup_iff(rows, other);
        lemma_lookup_iff(next, other);
        if lookup(rows, other) is Some {
            let q = lemma_lookup_hit(rows, other, 0);
            let q2 = if hit && q > p { q - 1 } else { q };
            assert(next[q2] == rows[q]);
            lemma_lookup_row(next, q2);
            lemma_lookup_row(rows, q);
        } else if lookup(next, other) is Some {
            let q = lemma_lookup_hit(next, other, 0);
            let a = if hit && q >= p { q + 1 } else { q };
            assert(rows[a] == next[q]);
            assert(false);
        }
    }
}

/// A set of keys has one form: the same keys are the same rows.
pub proof fn lemma_same_keys(a: Seq<(Seq<char>, ())>, b: Seq<(Seq<char>, ())>)
    requires
        keys_ascend(a),
        keys_ascend(b),
        forall|key: Seq<char>| #[trigger] has_key(a, key) == has_key(b, key),
    ensures
        a == b,
    decreases a.len(),
{
    if a.len() == 0 {
        if b.len() > 0 {
            lemma_lookup_row(b, 0);
            assert(has_key(b, b[0].0) && has_key(a, b[0].0));
            lemma_lookup_iff(a, b[0].0);
        }
        assert(a =~= b);
    } else {
        let last = a.last().0;
        lemma_lookup_row(a, a.len() - 1);
        assert(a[a.len() - 1].0 == last);
        assert(has_key(a, last));
        assert(has_key(b, last));
        lemma_lookup_iff(b, last);
        let j = choose|j: int| 0 <= j < b.len() && (#[trigger] b[j]).0 == last;
        let end = b.last().0;
        lemma_lookup_row(b, b.len() - 1);
        assert(b[b.len() - 1].0 == end);
        assert(has_key(b, end));
        assert(has_key(a, end));
        lemma_lookup_iff(a, end);
        let i = choose|i: int| 0 <= i < a.len() && (#[trigger] a[i]).0 == end;
        text::lemma_text_less_irreflexive(last);
        if j < b.len() - 1 {
            assert(text::text_less(last, end));
            if i < a.len() - 1 {
                assert(text::text_less(end, last));
                text::lemma_text_less_transitive(last, end, last);
            }
        }
        assert(last == end);
        let ra = a.drop_last();
        let rb = b.drop_last();
        assert forall|key: Seq<char>| #[trigger] has_key(ra, key) == has_key(rb, key) by {
            lemma_last_dropped(a, key);
            lemma_last_dropped(b, key);
            assert(has_key(a, key) == has_key(b, key));
        }
        lemma_same_keys(ra, rb);
        assert(a =~= ra.push(a.last()));
        assert(b =~= rb.push(b.last()));
    }
}

proof fn lemma_last_dropped(rows: Seq<(Seq<char>, ())>, key: Seq<char>)
    requires
        rows.len() > 0,
        keys_ascend(rows),
    ensures
        has_key(rows.drop_last(), key) <==> has_key(rows, key) && key != rows.last().0,
{
    let rest = rows.drop_last();
    lemma_lookup_iff(rows, key);
    lemma_lookup_iff(rest, key);
    text::lemma_text_less_irreflexive(rows.last().0);
    if has_key(rest, key) {
        let i = choose|i: int| 0 <= i < rest.len() && (#[trigger] rest[i]).0 == key;
        assert(rows[i].0 == key);
        assert(text::text_less(rows[i].0, rows[rows.len() - 1].0));
    }
    if has_key(rows, key) && key != rows.last().0 {
        let i = choose|i: int| 0 <= i < rows.len() && (#[trigger] rows[i]).0 == key;
        assert(rest[i].0 == key);
    }
}

/// A map from strings to values, walked in key order.
#[derive(Debug, PartialEq, Eq)]
pub struct StrMap<V> {
    entries: Vec<(String, V)>,
}

impl<V: Clone> Clone for StrMap<V> {
    fn clone(&self) -> (r: Self)
        ensures
            r.entries().len() == self.entries().len(),
            forall|i: int|
                0 <= i < self.entries().len() ==> (#[trigger] r.entries()[i]).0
                    == self.entries()[i].0 && cloned(self.entries()[i].1, r.entries()[i].1),
    {
        let mut entries: Vec<(String, V)> = Vec::new();
        let mut i: usize = 0;
        while i < self.entries.len()
            invariant
                i <= self.entries@.len(),
                entries@.len() == i,
                forall|j: int|
                    0 <= j < i ==> (#[trigger] entries@[j]).0 == self.entries@[j].0 && cloned(
                        self.entries@[j].1,
                        entries@[j].1,
                    ),
            decreases self.entries.len() - i,
        {
            let key = self.entries[i].0.clone();
            let value = self.entries[i].1.clone();
            entries.push((key, value));
            i = i + 1;
        }
        proof {
            use_type_invariant(self);
            assert(keys_of(entries@) =~= keys_of(self.entries@));
        }
        StrMap { entries }
    }
}

/// What a list of entries says, row by row.
pub open spec fn rows_of<V: View>(entries: Seq<(String, V)>) -> Seq<(Seq<char>, V::V)> {
    Seq::new(entries.len(), |i: int| (entries[i].0@, entries[i].1@))
}

pub open spec fn keys_of<V>(entries: Seq<(String, V)>) -> Seq<(Seq<char>, ())> {
    Seq::new(entries.len(), |i: int| (entries[i].0@, ()))
}

impl<V> StrMap<V> {
    pub closed spec fn entries(self) -> Seq<(String, V)> {
        self.entries@
    }

    #[verifier::type_invariant]
    spec fn in_order(self) -> bool {
        keys_ascend(keys_of(self.entries@))
    }
}

impl<V: View> View for StrMap<V> {
    type V = Seq<(Seq<char>, V::V)>;

    open spec fn view(&self) -> Seq<(Seq<char>, V::V)> {
        rows_of(self.entries())
    }
}

proof fn lemma_keys_and_rows<V: View>(entries: Seq<(String, V)>)
    ensures
        keys_ascend(keys_of(entries)) <==> keys_ascend(rows_of(entries)),
{
    let k = keys_of(entries);
    let r = rows_of(entries);
    if keys_ascend(k) {
        assert forall|i: int, j: int| 0 <= i < j < r.len() implies text::text_less(
            #[trigger] r[i].0,
            #[trigger] r[j].0,
        ) by {
            assert(text::text_less(k[i].0, k[j].0));
        }
    }
    if keys_ascend(r) {
        assert forall|i: int, j: int| 0 <= i < j < k.len() implies text::text_less(
            #[trigger] k[i].0,
            #[trigger] k[j].0,
        ) by {
            assert(text::text_less(r[i].0, r[j].0));
        }
    }
}

impl<V: View> StrMap<V> {
    /// A map with nothing in it.
    pub fn new() -> (m: Self)
        ensures
            m@.len() == 0,
            keys_ascend(m@),
    {
        let m = StrMap { entries: Vec::new() };
        assert(m@ =~= Seq::empty());
        m
    }

    /// How many keys have a value.
    pub fn len(&self) -> (n: usize)
        ensures
            n == self@.len(),
            keys_ascend(self@),
    {
        proof {
            use_type_invariant(self);
            lemma_keys_and_rows(self.entries@);
        }
        self.entries.len()
    }

    /// Whether no key has a value.
    pub fn is_empty(&self) -> (r: bool)
        ensures
            r == (self@.len() == 0),
    {
        self.entries.len() == 0
    }

    /// The key of row `i`.
    pub fn key_at(&self, i: usize) -> (k: &String)
        requires
            i < self@.len(),
        ensures
            k@ == self@[i as int].0,
            keys_ascend(self@),
    {
        proof {
            use_type_invariant(self);
            lemma_keys_and_rows(self.entries@);
        }
        &self.entries[i].0
    }

    /// The value of row `i`.
    pub fn value_at(&self, i: usize) -> (v: &V)
        requires
            i < self@.len(),
        ensures
            v@ == self@[i as int].1,
            keys_ascend(self@),
    {
        proof {
            use_type_invariant(self);
            lemma_keys_and_rows(self.entries@);
        }
        &self.entries[i].1
    }

    fn find(&self, key: &str) -> (p: usize)
        ensures
            p == place(self@, key@, 0),
            p <= self@.len(),
            keys_ascend(self@),
    {
        let mut i: usize = 0;
        proof {
            use_type_invariant(self);
            lemma_keys_and_rows(self.entries@);
            lemma_place(self@, key@, 0);
        }
        while i < self.entries.len() && text::text_before(self.entries[i].0.as_str(), key)
            invariant
                i <= self@.len(),
                self@.len() == self.entries@.len(),
                place(self@, key@, 0) == place(self@, key@, i as int),
            decreases self.entries.len() - i,
        {
            i = i + 1;
        }
        i
    }

    /// The value `key` has.
    pub fn get(&self, key: &str) -> (r: Option<&V>)
        ensures
            match r {
                Some(v) => lookup(self@, key@) == Some(v@),
                None => lookup(self@, key@) is None,
            },
            keys_ascend(self@),
    {
        let p = self.find(key);
        proof {
            lemma_place(self@, key@, 0);
            lemma_lookup_iff(self@, key@);
        }
        if p < self.entries.len() && text::same_text(self.entries[p].0.as_str(), key) {
            proof {
                lemma_lookup_row(self@, p as int);
            }
            Some(&self.entries[p].1)
        } else {
            None
        }
    }

    /// Whether `key` has a value.
    pub fn contains_key(&self, key: &str) -> (r: bool)
        ensures
            r == (lookup(self@, key@) is Some),
            keys_ascend(self@),
    {
        self.get(key).is_some()
    }

    /// Give `key` a value, and hand back the one it had.
    pub fn insert(&mut self, key: String, value: V) -> (before: Option<V>)
        ensures
            final(self)@ == inserted(old(self)@, key@, value@),
            keys_ascend(old(self)@),
            keys_ascend(final(self)@),
            match before {
                Some(v) => lookup(old(self)@, key@) == Some(v@),
                None => lookup(old(self)@, key@) is None,
            },
    {
        let p = self.find(key.as_str());
        let mut entries: Vec<(String, V)> = Vec::new();
        let ghost rows = self@;
        proof {
            lemma_place(rows, key@, 0);
            lemma_lookup_iff(rows, key@);
            lemma_inserted(rows, key@, value@);
        }
        std::mem::swap(&mut entries, &mut self.entries);
        let mut before: Option<V> = None;
        if p < entries.len() && text::same_text(entries[p].0.as_str(), key.as_str()) {
            proof {
                lemma_lookup_row(rows, p as int);
            }
            let taken = entries.remove(p);
            before = Some(taken.1);
        }
        entries.insert(p, (key, value));
        proof {
            assert(rows_of(entries@) =~= inserted(rows, key@, value@));
            lemma_keys_and_rows(entries@);
        }
        self.entries = entries;
        before
    }

    /// Leave `key` without a value, and hand back the one it had.
    pub fn remove(&mut self, key: &str) -> (before: Option<V>)
        ensures
            final(self)@ == removed(old(self)@, key@),
            keys_ascend(old(self)@),
            keys_ascend(final(self)@),
            match before {
                Some(v) => lookup(old(self)@, key@) == Some(v@),
                None => lookup(old(self)@, key@) is None,
            },
    {
        let p = self.find(key);
        let mut entries: Vec<(String, V)> = Vec::new();
        let ghost rows = self@;
        proof {
            lemma_place(rows, key@, 0);
            lemma_lookup_iff(rows, key@);
            lemma_removed(rows, key@);
        }
        std::mem::swap(&mut entries, &mut self.entries);
        let mut before: Option<V> = None;
        if p < entries.len() && text::same_text(entries[p].0.as_str(), key) {
            proof {
                lemma_lookup_row(rows, p as int);
            }
            let taken = entries.remove(p);
            before = Some(taken.1);
        }
        proof {
            assert(rows_of(entries@) =~= removed(rows, key@));
            lemma_keys_and_rows(entries@);
        }
        self.entries = entries;
        before
    }
}

/// A set of strings, walked in order.
pub type StrSet = StrMap<()>;

/// Whether a set holds a string.
pub open spec fn has_key<W>(rows: Seq<(Seq<char>, W)>, key: Seq<char>) -> bool {
    lookup(rows, key) is Some
}

} // verus!

//! The value tree that a JSON5 text decodes to.

use vstd::prelude::*;

verus! {

/// A decoded JSON5 value.
///
/// A number is held as the bit pattern of an IEEE 754 double (see
/// [`crate::binary64`]). An object is held as its entries in the order in
/// which they are handed on; in a well-formed value no key occurs twice.
#[derive(Debug, PartialEq)]
pub enum Val {
    Null,
    Bool(bool),
    Number(u64),
    String(String),
    Array(Vec<Val>),
    Object(Vec<(String, Val)>),
}

/// The mathematical content of a [`Val`].
pub ghost enum ValView {
    Null,
    Bool(bool),
    Number(u64),
    String(Seq<char>),
    Array(Seq<ValView>),
    Object(Seq<(Seq<char>, ValView)>),
}

/// The content of a value tree: strings as their characters, arrays and
/// objects as sequences of the contents of their parts.
///
/// (The test of the bounds inside each sequence is there for the proof that
/// the recursion ends; no place outside the bounds is ever read.)
pub open spec fn content(v: Val) -> ValView
    decreases v,
{
    match v {
        Val::Null => ValView::Null,
        Val::Bool(b) => ValView::Bool(b),
        Val::Number(bits) => ValView::Number(bits),
        Val::String(s) => ValView::String(s@),
        Val::Array(items) => ValView::Array(
            Seq::new(
                items@.len(),
                |i: int|
                    if 0 <= i < items@.len() {
                        content(items@[i])
                    } else {
                        ValView::Null
                    },
            ),
        ),
        Val::Object(entries) => ValView::Object(
            Seq::new(
                entries@.len(),
                |i: int|
                    if 0 <= i < entries@.len() {
                        (entries@[i].0@, content(entries@[i].1))
                    } else {
                        (Seq::empty(), ValView::Null)
                    },
            ),
        ),
    }
}

impl View for Val {
    type V = ValView;

    open spec fn view(&self) -> ValView {
        content(*self)
    }
}

impl ValView {
    /// No object in the tree has two entries under the same key.
    pub open spec fn well_formed(self) -> bool
        decreases self,
    {
        match self {
            ValView::Array(items) => forall|i: int|
                0 <= i < items.len() ==> (#[trigger] items[i]).well_formed(),
            ValView::Object(entries) => {
                &&& distinct_keys(entries)
                &&& forall|i: int|
                    0 <= i < entries.len() ==> (#[trigger] entries[i]).1.well_formed()
            },
            _ => true,
        }
    }
}

/// The contents of a list of entries, key by key and value by value.
pub open spec fn entries_content(entries: Seq<(String, Val)>) -> Seq<(Seq<char>, ValView)> {
    Seq::new(entries.len(), |i: int| (entries[i].0@, entries[i].1@))
}

/// No two entries have the same key.
pub open spec fn distinct_keys<V>(entries: Seq<(Seq<char>, V)>) -> bool {
    forall|i: int, j: int|
        0 <= i < j < entries.len() ==> (#[trigger] entries[i]).0 != (#[trigger] entries[j]).0
}

/// Some entry has the key.
pub open spec fn has_key(entries: Seq<(Seq<char>, ValView)>, key: Seq<char>) -> bool {
    exists|i: int| 0 <= i < entries.len() && (#[trigger] entries[i]).0 == key
}

/// The place of an entry with the key, where there is one.
pub open spec fn place_of(entries: Seq<(Seq<char>, ValView)>, key: Seq<char>) -> int {
    choose|i: int| 0 <= i < entries.len() && (#[trigger] entries[i]).0 == key
}

/// The entries after `key` is set to `value`: the entry of the key gets the
/// new value where it stands, and a new key is added at the end.
pub open spec fn put(
    entries: Seq<(Seq<char>, ValView)>,
    key: Seq<char>,
    value: ValView,
) -> Seq<(Seq<char>, ValView)> {
    if has_key(entries, key) {
        entries.update(place_of(entries, key), (key, value))
    } else {
        entries.push((key, value))
    }
}

/// The entries of the object that a list of entries writes, one after the
/// other: each key once, at the place where it first came, with the value
/// that came last.
pub open spec fn merged(entries: Seq<(Seq<char>, ValView)>) -> Seq<(Seq<char>, ValView)>
    decreases entries.len(),
{
    if entries.len() == 0 {
        entries
    } else {
        put(merged(entries.drop_last()), entries.last().0, entries.last().1)
    }
}

/// Setting a key keeps the keys distinct.
pub proof fn lemma_put_keeps_keys_distinct(
    entries: Seq<(Seq<char>, ValView)>,
    key: Seq<char>,
    value: ValView,
)
    requires
        distinct_keys(entries),
    ensures
        distinct_keys(put(entries, key, value)),
        has_key(put(entries, key, value), key),
{
    let out = put(entries, key, value);
    if has_key(entries, key) {
        let at = place_of(entries, key);
        assert(out[at].0 == key);
        assert forall|i: int, j: int| 0 <= i < j < out.len() implies (#[trigger] out[i]).0 != (
        #[trigger] out[j]).0 by {
            assert(entries[i].0 != entries[j].0);
        }
    } else {
        assert(out[entries.len() as int].0 == key);
        assert forall|i: int, j: int| 0 <= i < j < out.len() implies (#[trigger] out[i]).0 != (
        #[trigger] out[j]).0 by {
            if j < entries.len() {
                assert(entries[i].0 != entries[j].0);
            } else {
                assert(entries[i].0 != key);
            }
        }
    }
}

/// In the entries that a list writes, no key occurs twice.
pub proof fn lemma_merged_has_distinct_keys(entries: Seq<(Seq<char>, ValView)>)
    ensures
        distinct_keys(merged(entries)),
    decreases entries.len(),
{
    if entries.len() > 0 {
        lemma_merged_has_distinct_keys(entries.drop_last());
        lemma_put_keeps_keys_distinct(
            merged(entries.drop_last()),
            entries.last().0,
            entries.last().1,
        );
    }
}

/// A list in which no key occurs twice writes itself.
pub proof fn lemma_merged_of_distinct_keys(entries: Seq<(Seq<char>, ValView)>)
    requires
        distinct_keys(entries),
    ensures
        merged(entries) == entries,
    decreases entries.len(),
{
    if entries.len() > 0 {
        let front = entries.drop_last();
        assert forall|i: int, j: int| 0 <= i < j < front.len() implies (#[trigger] front[i]).0 != (
        #[trigger] front[j]).0 by {
            assert(entries[i].0 != entries[j].0);
        }
        lemma_merged_of_distinct_keys(front);
        if has_key(front, entries.last().0) {
            let at = place_of(front, entries.last().0);
            assert(entries[at].0 != entries[entries.len() - 1].0);
        }
        assert(front.push(entries.last()) =~= entries);
    }
}

/// Where no key occurs twice, an entry with the key stands at the place of
/// the key.
pub proof fn lemma_place_of_key(entries: Seq<(Seq<char>, ValView)>, at: int)
    requires
        distinct_keys(entries),
        0 <= at < entries.len(),
    ensures
        has_key(entries, entries[at].0),
        place_of(entries, entries[at].0) == at,
{
    let key = entries[at].0;
    let found = place_of(entries, key);
    if found < at {
        assert(entries[found].0 != entries[at].0);
    } else if at < found {
        assert(entries[at].0 != entries[found].0);
    }
}

/// After a key is set, its entry holds the new value.
pub proof fn lemma_put_sets_the_key(
    entries: Seq<(Seq<char>, ValView)>,
    key: Seq<char>,
    value: ValView,
)
    requires
        distinct_keys(entries),
    ensures
        has_key(put(entries, key, value), key),
        put(entries, key, value)[place_of(put(entries, key, value), key)] == (key, value),
{
    let out = put(entries, key, value);
    lemma_put_keeps_keys_distinct(entries, key, value);
    if has_key(entries, key) {
        lemma_place_of_key(out, place_of(entries, key));
    } else {
        lemma_place_of_key(out, entries.len() as int);
    }
}

/// Setting a key leaves every other key as it was.
pub proof fn lemma_put_keeps_other_keys(
    entries: Seq<(Seq<char>, ValView)>,
    key: Seq<char>,
    value: ValView,
    other: Seq<char>,
)
    requires
        distinct_keys(entries),
        other != key,
    ensures
        has_key(put(entries, key, value), other) <==> has_key(entries, other),
        has_key(entries, other) ==> put(entries, key, value)[place_of(
            put(entries, key, value),
            other,
        )] == entries[place_of(entries, other)],
{
    let out = put(entries, key, value);
    lemma_put_keeps_keys_distinct(entries, key, value);
    if has_key(entries, other) {
        let at = place_of(entries, other);
        assert(out[at] == entries[at]);
        lemma_place_of_key(out, at);
    }
    if has_key(out, other) {
        let at = place_of(out, other);
        assert(at < entries.len());
        assert(entries[at].0 == other);
    }
}

/// The entries that a list writes have the keys of the list and no others.
pub proof fn lemma_merged_has_the_keys(entries: Seq<(Seq<char>, ValView)>, key: Seq<char>)
    ensures
        has_key(merged(entries), key) <==> has_key(entries, key),
    decreases entries.len(),
{
    if entries.len() > 0 {
        let front = entries.drop_last();
        let end = entries.last();
        lemma_merged_has_the_keys(front, key);
        lemma_merged_has_distinct_keys(front);
        if key == end.0 {
            lemma_put_sets_the_key(merged(front), end.0, end.1);
            assert(entries[entries.len() - 1].0 == key);
        } else {
            lemma_put_keeps_other_keys(merged(front), end.0, end.1, key);
            if has_key(front, key) {
                let at = place_of(front, key);
                assert(entries[at].0 == key);
            }
            if has_key(entries, key) {
                let at = place_of(entries, key);
                assert(front[at].0 == key);
            }
        }
    }
}

/// The entries that a list writes hold, under each key, the last entry that
/// the list has for the key: the last write wins.
pub proof fn lemma_merged_keeps_the_last_entry(entries: Seq<(Seq<char>, ValView)>, last: int)
    requires
        0 <= last < entries.len(),
        forall|later: int|
            last < later < entries.len() ==> (#[trigger] entries[later]).0 != entries[last].0,
    ensures
        has_key(merged(entries), entries[last].0),
        merged(entries)[place_of(merged(entries), entries[last].0)] == entries[last],
    decreases entries.len(),
{
    let front = entries.drop_last();
    let end = entries.last();
    lemma_merged_has_distinct_keys(front);
    if last == entries.len() - 1 {
        lemma_put_sets_the_key(merged(front), end.0, end.1);
    } else {
        assert(entries[entries.len() - 1].0 != entries[last].0);
        assert(front[last] == entries[last]);
        assert forall|later: int| last < later < front.len() implies (#[trigger] front[later]).0
            != front[last].0 by {
            assert(entries[later].0 != entries[last].0);
        }
        lemma_merged_keeps_the_last_entry(front, last);
        lemma_put_keeps_other_keys(merged(front), end.0, end.1, entries[last].0);
    }
}

/// Every entry that a list writes is an entry of the list.
pub proof fn lemma_merged_entries_are_of_the_list(entries: Seq<(Seq<char>, ValView)>, at: int)
    requires
        0 <= at < merged(entries).len(),
    ensures
        entries.contains(merged(entries)[at]),
    decreases entries.len(),
{
    let front = entries.drop_last();
    let end = entries.last();
    let before = merged(front);
    assert(entries[entries.len() - 1] == end);
    if at < before.len() && !(has_key(before, end.0) && place_of(before, end.0) == at) {
        assert(merged(entries)[at] == before[at]);
        lemma_merged_entries_are_of_the_list(front, at);
        let from = choose|i: int| 0 <= i < front.len() && front[i] == before[at];
        assert(entries[from] == before[at]);
    }
}

/// Where every value of a list of entries is well-formed, so is the object
/// that the list writes.
pub proof fn lemma_merged_is_well_formed(entries: Seq<(Seq<char>, ValView)>)
    requires
        forall|i: int| 0 <= i < entries.len() ==> (#[trigger] entries[i]).1.well_formed(),
    ensures
        ValView::Object(merged(entries)).well_formed(),
{
    let out = merged(entries);
    lemma_merged_has_distinct_keys(entries);
    assert forall|at: int| 0 <= at < out.len() implies (#[trigger] out[at]).1.well_formed() by {
        lemma_merged_entries_are_of_the_list(entries, at);
        let from = choose|i: int| 0 <= i < entries.len() && entries[i] == out[at];
        assert(entries[from].1.well_formed());
    }
}

impl Val {
    /// The object that a list of entries writes, one after the other: each
    /// key once, at the place where it first came, with the value that came
    /// last. No key occurs twice in it, so it is well-formed where the values
    /// of the entries are.
    pub fn object(entries: Vec<(String, Val)>) -> (out: Val)
        ensures
            out@ == ValView::Object(merged(entries_content(entries@))),
            distinct_keys(merged(entries_content(entries@))),
            (forall|i: int| 0 <= i < entries@.len() ==> (#[trigger] entries@[i]).1@.well_formed())
                ==> out@.well_formed(),
    {
        let ghost all = entries_content(entries@);
        let mut kept: Vec<(String, Val)> = Vec::new();
        for entry in it: entries
            invariant
                it.seq() == entries@,
                entries_content(kept@) == merged(all.take(it.index() as int)),
                all == entries_content(entries@),
        {
            let ghost before = entries_content(kept@);
            proof {
                lemma_merged_has_distinct_keys(all.take(it.index() as int));
                assert(all.take(it.index() + 1).drop_last() =~= all.take(it.index() as int));
            }
            let (key, value) = entry;
            let mut at: usize = 0;
            while at < kept.len() && !(kept[at].0 == key)
                invariant
                    at <= kept.len(),
                    forall|i: int| 0 <= i < at ==> kept@[i].0@ != key@,
                decreases kept.len() - at,
            {
                at += 1;
            }
            if at < kept.len() {
                proof {
                    assert(before[at as int].0 == key@);
                    assert(has_key(before, key@));
                    let chosen = place_of(before, key@);
                    assert(before[chosen].0 == before[at as int].0);
                    assert(chosen == at);
                }
                kept.set(at, (key, value));
                assert(entries_content(kept@) =~= put(before, key@, value@));
            } else {
                proof {
                    if has_key(before, key@) {
                        let chosen = place_of(before, key@);
                        assert(kept@[chosen].0@ != key@);
                    }
                }
                kept.push((key, value));
                assert(entries_content(kept@) =~= put(before, key@, value@));
            }
        }
        let out = Val::Object(kept);
        proof {
            lemma_merged_has_distinct_keys(all);
            if forall|i: int| 0 <= i < entries@.len() ==> (#[trigger] entries@[i]).1@.well_formed() {
                assert forall|i: int| 0 <= i < all.len() implies (#[trigger] all[i]).1.well_formed() by {
                    assert(entries@[i].1@.well_formed());
                }
                lemma_merged_is_well_formed(all);
            }
            assert(all.take(entries@.len() as int) =~= all);
            assert(out@->Object_0 =~= entries_content(kept@));
        }
        out
    }
}

} // verus!

//! Ordered bindings: the model of an insertion-ordered map and the verified
//! operations of [`Bindings`] on top of the `indexmap` crate.

use crate::ast::{bindings_entries, Bindings, ExprView, NixExpr};
use indexmap::IndexMap;
use vstd::prelude::*;

verus! {

/// The entries of an ordered mapping: names with the views of their values.
pub type Entries = Seq<(Seq<char>, ExprView)>;

/// The first position at which `key` occurs among `entries`, if any.
pub open spec fn index_of(entries: Entries, key: Seq<char>) -> Option<int>
    decreases entries.len(),
{
    if entries.len() == 0 {
        None
    } else {
        match index_of(entries.drop_last(), key) {
            Some(i) => Some(i),
            None => if entries.last().0 == key {
                Some(entries.len() - 1)
            } else {
                None
            },
        }
    }
}

/// The value bound to `key`, if any.
pub open spec fn lookup(entries: Entries, key: Seq<char>) -> Option<ExprView> {
    match index_of(entries, key) {
        Some(i) => Some(entries[i].1),
        None => None,
    }
}

/// Binding `key` to `value`: an existing entry keeps its place and gets the
/// new value, a new key is added last.
pub open spec fn insert_entry(entries: Entries, key: Seq<char>, value: ExprView) -> Entries {
    match index_of(entries, key) {
        Some(i) => entries.update(i, (key, value)),
        None => entries.push((key, value)),
    }
}

/// No name occurs twice.
pub open spec fn distinct_keys(entries: Entries) -> bool {
    forall|i: int, j: int|
        0 <= i < j < entries.len() ==> (#[trigger] entries[i]).0 != (#[trigger] entries[j]).0
}

/// What `index_of` returns: the least position holding `key`.
pub proof fn lemma_index_of(entries: Entries, key: Seq<char>)
    ensures
        match index_of(entries, key) {
            Some(i) => {
                &&& 0 <= i < entries.len()
                &&& entries[i].0 == key
                &&& forall|j: int| 0 <= j < i ==> (#[trigger] entries[j]).0 != key
            },
            None => forall|j: int| 0 <= j < entries.len() ==> (#[trigger] entries[j]).0 != key,
        },
    decreases entries.len(),
{
    if entries.len() > 0 {
        let prefix = entries.drop_last();
        lemma_index_of(prefix, key);
        assert forall|j: int| 0 <= j < prefix.len() implies #[trigger] entries[j] == prefix[j] by {}
    }
}

/// A position that holds `key` and has no earlier occurrence is `index_of`.
pub proof fn lemma_index_of_is(entries: Entries, key: Seq<char>, i: int)
    requires
        0 <= i < entries.len(),
        entries[i].0 == key,
        forall|j: int| 0 <= j < i ==> (#[trigger] entries[j]).0 != key,
    ensures
        index_of(entries, key) == Some(i),
{
    lemma_index_of(entries, key);
}

/// A key that occurs nowhere has no index.
pub proof fn lemma_index_of_absent(entries: Entries, key: Seq<char>)
    requires
        forall|j: int| 0 <= j < entries.len() ==> (#[trigger] entries[j]).0 != key,
    ensures
        index_of(entries, key) is None,
{
    lemma_index_of(entries, key);
}

/// Inserting keeps the names distinct.
pub proof fn lemma_insert_keeps_distinct(entries: Entries, key: Seq<char>, value: ExprView)
    requires
        distinct_keys(entries),
    ensures
        distinct_keys(insert_entry(entries, key, value)),
{
    lemma_index_of(entries, key);
}

/// After an insertion the key is bound to the new value and every other key
/// is bound as before.
pub proof fn lemma_lookup_after_insert(
    entries: Entries,
    key: Seq<char>,
    value: ExprView,
    other: Seq<char>,
)
    ensures
        lookup(insert_entry(entries, key, value), key) == Some(value),
        other != key ==> lookup(insert_entry(entries, key, value), other) == lookup(entries, other),
{
    let after = insert_entry(entries, key, value);
    lemma_index_of(entries, key);
    lemma_index_of(entries, other);
    lemma_index_of(after, key);
    lemma_index_of(after, other);
    match index_of(entries, key) {
        Some(i) => {
            lemma_index_of_is(after, key, i);
        },
        None => {
            lemma_index_of_is(after, key, entries.len() as int);
        },
    }
    if other != key {
        match index_of(entries, other) {
            Some(j) => {
                lemma_index_of_is(after, other, j);
            },
            None => {
                lemma_index_of_absent(after, other);
            },
        }
    }
}

/// `IndexMap::new`: a map without entries.
#[verifier::external_body]
fn map_new() -> (b: Bindings)
    ensures
        bindings_entries(b) == Seq::<(Seq<char>, ExprView)>::empty(),
{
    Bindings { map: IndexMap::new() }
}

/// `IndexMap::len`: the number of entries.
#[verifier::external_body]
fn map_len(b: &Bindings) -> (n: usize)
    ensures
        n == bindings_entries(*b).len(),
{
    b.map.len()
}

/// `IndexMap::get`: the value stored for `key`, where the map has one.
#[verifier::external_body]
fn map_get<'a>(b: &'a Bindings, key: &str) -> (r: Option<&'a NixExpr>)
    ensures
        match r {
            Some(v) => lookup(bindings_entries(*b), key@) == Some(v@),
            None => lookup(bindings_entries(*b), key@) is None,
        },
{
    b.map.get(key)
}

/// `IndexMap::get_index`: the entry at position `i`, where `i` is below the
/// length. The key found there occurs at no other position.
#[verifier::external_body]
fn map_get_index<'a>(b: &'a Bindings, i: usize) -> (r: Option<(&'a String, &'a NixExpr)>)
    ensures
        match r {
            Some((k, v)) => {
                &&& i < bindings_entries(*b).len()
                &&& (k@, v@) == bindings_entries(*b)[i as int]
                &&& index_of(bindings_entries(*b), k@) == Some(i as int)
            },
            None => i >= bindings_entries(*b).len(),
        },
{
    b.map.get_index(i)
}

/// `IndexMap::insert`: an equal key keeps its place and gets the new value,
/// and the value it had is returned; a new key goes last.
#[verifier::external_body]
fn map_insert(b: &mut Bindings, key: String, value: NixExpr) -> (r: Option<NixExpr>)
    ensures
        bindings_entries(*final(b)) == insert_entry(bindings_entries(*old(b)), key@, value@),
        match r {
            Some(v) => lookup(bindings_entries(*old(b)), key@) == Some(v@),
            None => lookup(bindings_entries(*old(b)), key@) is None,
        },
{
    b.map.insert(key, value)
}

impl Bindings {
    /// An empty mapping.
    pub fn new() -> (b: Self)
        ensures
            b@ == Seq::<(Seq<char>, ExprView)>::empty(),
    {
        map_new()
    }

    /// The number of entries.
    pub fn len(&self) -> (n: usize)
        ensures
            n == self@.len(),
    {
        map_len(self)
    }

    /// The value bound to `key`.
    pub fn get(&self, key: &str) -> (r: Option<&NixExpr>)
        ensures
            match r {
                Some(v) => lookup(self@, key@) == Some(v@),
                None => lookup(self@, key@) is None,
            },
    {
        map_get(self, key)
    }

    /// The entry at position `i` in insertion order.
    pub fn get_index(&self, i: usize) -> (r: Option<(&String, &NixExpr)>)
        ensures
            match r {
                Some((k, v)) => {
                    &&& i < self@.len()
                    &&& (k@, v@) == self@[i as int]
                    &&& index_of(self@, k@) == Some(i as int)
                },
                None => i >= self@.len(),
            },
    {
        map_get_index(self, i)
    }

    /// Binds `key` to `value` and returns the value that `key` had before.
    pub fn insert(&mut self, key: String, value: NixExpr) -> (r: Option<NixExpr>)
        ensures
            final(self)@ == insert_entry(old(self)@, key@, value@),
            match r {
                Some(v) => lookup(old(self)@, key@) == Some(v@),
                None => lookup(old(self)@, key@) is None,
            },
    {
        map_insert(self, key, value)
    }
}

} // verus!


//! A map from text keys to values that keeps its entries in the order in
//! which their keys first came in.

use vstd::prelude::*;
use crate::text::{text_eq, Text};

verus! {

/// The index of the first of `keys` that equals `key`.
pub open spec fn first_index(keys: Seq<Text>, key: Text) -> Option<int>
    decreases keys.len(),
{
    if keys.len() == 0 {
        None
    } else {
        match first_index(keys.drop_last(), key) {
            Some(i) => Some(i),
            None => if keys.last() == key {
                Some(keys.len() - 1)
            } else {
                None
            },
        }
    }
}

/// `i` is where `key` first occurs in `keys`.
pub open spec fn is_first(keys: Seq<Text>, key: Text, i: int) -> bool {
    &&& 0 <= i < keys.len()
    &&& keys[i] == key
    &&& forall|j: int| 0 <= j < i ==> keys[j] != key
}

/// No key occurs twice.
pub open spec fn distinct(keys: Seq<Text>) -> bool {
    forall|i: int, j: int| 0 <= i < j < keys.len() ==> keys[i] != keys[j]
}

/// `first_index` finds the first occurrence, and finds nothing only where
/// there is none.
pub proof fn lemma_first_index(keys: Seq<Text>, key: Text)
    ensures
        match first_index(keys, key) {
            Some(i) => is_first(keys, key, i),
            None => forall|j: int| 0 <= j < keys.len() ==> keys[j] != key,
        },
    decreases keys.len(),
{
    if keys.len() > 0 {
        let front = keys.drop_last();
        lemma_first_index(front, key);
        assert(forall|j: int| 0 <= j < front.len() ==> front[j] == keys[j]);
        match first_index(front, key) {
            Some(i) => {
                assert(is_first(front, key, i));
                assert(forall|j: int| 0 <= j < i ==> keys[j] == front[j]);
            },
            None => {
                assert(forall|j: int| 0 <= j < front.len() ==> keys[j] == front[j]);
            },
        }
    }
}

/// A first occurrence is what `first_index` returns.
pub proof fn lemma_is_first(keys: Seq<Text>, key: Text, i: int)
    requires
        is_first(keys, key, i),
    ensures
        first_index(keys, key) == Some(i),
{
    lemma_first_index(keys, key);
}

/// Among distinct keys each is its own first occurrence.
pub proof fn lemma_distinct_first(keys: Seq<Text>, i: int)
    requires
        distinct(keys),
        0 <= i < keys.len(),
    ensures
        first_index(keys, keys[i]) == Some(i),
{
    lemma_is_first(keys, keys[i], i);
}

/// The texts of the keys of a sequence of entries.
pub open spec fn keys_of<V>(entries: Seq<(String, V)>) -> Seq<Text> {
    Seq::new(entries.len(), |i: int| entries[i].0@)
}

/// `m` with `value` under `key` unless the key is there already.
pub open spec fn kept_or_added<V>(m: TextMap<V>, key: String, value: V) -> Seq<(String, V)> {
    if first_index(m.keys(), key@) is Some {
        m.entries@
    } else {
        m.entries@.push((key, value))
    }
}

/// A map from text to `V` in insertion order. Looking a key up finds its
/// first entry; `insert` never adds a second entry for a key.
#[derive(Clone, Debug, PartialEq, Eq)]
pub struct TextMap<V> {
    pub entries: Vec<(String, V)>,
}

impl<V> TextMap<V> {
    /// The keys, in order.
    pub open spec fn keys(self) -> Seq<Text> {
        keys_of(self.entries@)
    }

    /// No key has two entries.
    pub open spec fn wf(self) -> bool {
        distinct(self.keys())
    }

    /// The value under `key`.
    pub open spec fn lookup(self, key: Text) -> Option<V> {
        match first_index(self.keys(), key) {
            Some(i) => if 0 <= i < self.entries@.len() {
                Some(self.entries@[i].1)
            } else {
                None
            },
            None => None,
        }
    }

    /// What is under `key` sits at the key's first index.
    pub proof fn lemma_lookup(self, key: Text)
        ensures
            match first_index(self.keys(), key) {
                Some(i) => 0 <= i < self.entries@.len() && self.lookup(key) == Some(
                    self.entries@[i].1,
                ) && self.entries@[i].0@ == key,
                None => self.lookup(key) is None,
            },
    {
        lemma_first_index(self.keys(), key);
    }

    /// The empty map.
    pub fn new() -> (r: Self)
        ensures
            r.entries@.len() == 0,
            r.wf(),
    {
        TextMap { entries: Vec::new() }
    }

    /// The number of entries.
    pub fn len(&self) -> (r: usize)
        ensures
            r == self.entries@.len(),
    {
        self.entries.len()
    }

    /// Whether there is no entry.
    pub fn is_empty(&self) -> (r: bool)
        ensures
            r == (self.entries@.len() == 0),
    {
        self.entries.len() == 0
    }

    /// Where `key` first occurs.
    pub fn position(&self, key: &str) -> (r: Option<usize>)
        ensures
            match r {
                Some(i) => first_index(self.keys(), key@) == Some(i as int) && i < self.entries@.len(),
                None => first_index(self.keys(), key@) is None,
            },
    {
        let mut i: usize = 0;
        while i < self.entries.len()
            invariant
                i <= self.entries@.len(),
                forall|j: int| 0 <= j < i ==> self.keys()[j] != key@,
            decreases self.entries@.len() - i,
        {
            if text_eq(self.entries[i].0.as_str(), key) {
                proof {
                    lemma_is_first(self.keys(), key@, i as int);
                }
                return Some(i);
            }
            i = i + 1;
        }
        proof {
            lemma_first_index(self.keys(), key@);
        }
        None
    }

    /// The value under `key`, if there is one.
    pub fn get(&self, key: &str) -> (r: Option<&V>)
        ensures
            match r {
                Some(v) => self.lookup(key@) == Some(*v),
                None => self.lookup(key@) is None,
            },
    {
        match self.position(key) {
            Some(i) => Some(&self.entries[i].1),
            None => None,
        }
    }

    /// Whether `key` has an entry.
    pub fn contains_key(&self, key: &str) -> (r: bool)
        ensures
            r == self.lookup(key@).is_some(),
    {
        self.position(key).is_some()
    }

    /// Puts `value` under `key`: in place of the value that was there, or
    /// at the end where the key is new.
    pub fn insert(&mut self, key: String, value: V)
        ensures
            match first_index(old(self).keys(), key@) {
                Some(i) => final(self).entries@ == old(self).entries@.update(i, (key, value)),
                None => final(self).entries@ == old(self).entries@.push((key, value)),
            },
            old(self).wf() ==> final(self).wf(),
            final(self).lookup(key@) == Some(value),
            forall|k: Text| k != key@ ==> final(self).lookup(k) == old(self).lookup(k),
    {
        let ghost before = self.keys();
        let ghost old_self = *self;
        match self.position(key.as_str()) {
            Some(i) => {
                proof {
                    lemma_first_index(before, key@);
                }
                self.entries.set(i, (key, value));
                proof {
                    assert(self.keys() =~= before);
                    assert forall|k: Text| k != key@ implies self.lookup(k) == old_self.lookup(
                        k,
                    ) by {
                        lemma_first_index(before, k);
                    }
                }
            },
            None => {
                proof {
                    lemma_first_index(before, key@);
                }
                self.entries.push((key, value));
                proof {
                    assert(self.keys() =~= before.push(key@));
                    lemma_is_first(self.keys(), key@, before.len() as int);
                    assert forall|k: Text| k != key@ implies self.lookup(k) == old_self.lookup(
                        k,
                    ) by {
                        lemma_first_index(before, k);
                        assert(self.keys().drop_last() =~= before);
                    }
                }
            },
        }
    }

    /// Puts `value` under `key` unless the key has an entry already.
    pub fn insert_if_absent(&mut self, key: String, value: V)
        ensures
            final(self).entries@ == kept_or_added(*old(self), key, value),
            old(self).wf() ==> final(self).wf(),
            final(self).lookup(key@) == match old(self).lookup(key@) {
                Some(kept) => Some(kept),
                None => Some(value),
            },
            forall|k: Text| k != key@ ==> final(self).lookup(k) == old(self).lookup(k),
    {
        let ghost before = self.keys();
        let ghost old_self = *self;
        proof {
            lemma_first_index(before, key@);
        }
        if self.position(key.as_str()).is_none() {
            self.entries.push((key, value));
            proof {
                assert(self.keys() =~= before.push(key@));
                lemma_is_first(self.keys(), key@, before.len() as int);
                assert forall|k: Text| k != key@ implies self.lookup(k) == old_self.lookup(k) by {
                    lemma_first_index(before, k);
                    assert(self.keys().drop_last() =~= before);
                }
            }
        }
    }
}

} // verus!

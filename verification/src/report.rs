//! The report: an ordered mapping from string keys to string values,
//! built incrementally. Keys are package identifiers or `<name>_ratio`;
//! values are human-readable display strings. Insertion keeps the first
//! occurrence's position and replaces its value; a new key is appended.

use vstd::prelude::*;

use crate::assoc::{has_key, insert_entry, key_at, lemma_first_index_unique};

verus! {

/// One report line as it appears in specifications: key and value.
pub type EntryView = (Seq<char>, Seq<char>);

/// An ordered string-to-string mapping with stable entry positions.
pub struct Report {
    entries: Vec<(String, String)>,
}

impl View for Report {
    type V = Seq<EntryView>;

    closed spec fn view(&self) -> Seq<EntryView> {
        Seq::new(self.entries@.len(), |i: int| (self.entries@[i].0@, self.entries@[i].1@))
    }
}

impl Report {
    /// The empty report.
    pub fn new() -> (r: Report)
        ensures
            r@ == Seq::<EntryView>::empty(),
    {
        let r = Report { entries: Vec::new() };
        proof {
            assert(r@ =~= Seq::<EntryView>::empty());
        }
        r
    }

    /// How many entries the report holds.
    pub fn len(&self) -> (n: usize)
        ensures
            n == self@.len(),
    {
        self.entries.len()
    }

    /// The key and value of the entry at position `i`.
    pub fn entry_at(&self, i: usize) -> (e: (&String, &String))
        requires
            i < self@.len(),
        ensures
            e.0@ == self@[i as int].0,
            e.1@ == self@[i as int].1,
    {
        let pair = &self.entries[i];
        (&pair.0, &pair.1)
    }

    /// The value stored under `key`, if any.
    pub fn get(&self, key: &String) -> (r: Option<&String>)
        ensures
            match r {
                Some(v) => has_key(self@, key@) && v@ == self@[key_at(self@, key@)].1,
                None => !has_key(self@, key@),
            },
    {
        let n = self.entries.len();
        let mut i: usize = 0;
        while i < n
            invariant
                n == self@.len(),
                i <= n,
                forall|j: int| 0 <= j < i ==> self@[j].0 != key@,
            decreases n - i,
        {
            if self.entries[i].0 == *key {
                proof {
                    assert(self@[i as int].0 == key@);
                    assert(has_key(self@, key@));
                    lemma_first_index_unique(self@, key@, i as int);
                }
                return Some(&self.entries[i].1);
            }
            i += 1;
        }
        None
    }

    /// Sets `key` to `value`, overwriting the first entry with that key
    /// in place or appending a fresh entry at the end.
    pub fn insert(&mut self, key: String, value: String)
        ensures
            final(self)@ == insert_entry(old(self)@, key@, value@),
    {
        let n = self.entries.len();
        let mut i: usize = 0;
        while i < n
            invariant
                n == self@.len(),
                i <= n,
                *self == *old(self),
                forall|j: int| 0 <= j < i ==> self@[j].0 != key@,
            decreases n - i,
        {
            if self.entries[i].0 == key {
                proof {
                    assert(self@[i as int].0 == key@);
                    assert(has_key(self@, key@));
                    lemma_first_index_unique(self@, key@, i as int);
                }
                let ghost k = key@;
                let ghost v = value@;
                self.entries[i] = (key, value);
                proof {
                    assert(self@[i as int] == (k, v));
                    assert(forall|j: int|
                        0 <= j < self@.len() && j != i ==> self@[j] == old(self)@[j]);
                    assert(self@ =~~= insert_entry(old(self)@, k, v));
                }
                return ;
            }
            i += 1;
        }
        self.entries.push((key, value));
        proof {
            assert(self@ =~= insert_entry(old(self)@, key@, value@));
        }
    }
}

} // verus!

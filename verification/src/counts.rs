//! The per-package download counts gathered by the aggregator: a
//! mapping from package identifier to its latest aggregated count.

use vstd::prelude::*;

use crate::assoc::{has_key, insert_entry, key_at, lemma_first_index_unique, value_of};

verus! {

/// One count entry as it appears in specifications: key and count.
pub type CountView = (Seq<char>, u64);

/// A mapping from package identifier to download count.
pub struct CountMap {
    entries: Vec<(String, u64)>,
}

impl View for CountMap {
    type V = Seq<CountView>;

    closed spec fn view(&self) -> Seq<CountView> {
        Seq::new(self.entries@.len(), |i: int| (self.entries@[i].0@, self.entries@[i].1))
    }
}

impl CountMap {
    /// The empty count map.
    pub fn new() -> (r: CountMap)
        ensures
            r@ == Seq::<CountView>::empty(),
    {
        let r = CountMap { entries: Vec::new() };
        proof {
            assert(r@ =~= Seq::<CountView>::empty());
        }
        r
    }

    /// How many packages have a recorded count.
    pub fn len(&self) -> (n: usize)
        ensures
            n == self@.len(),
    {
        self.entries.len()
    }

    /// The count recorded for `key`, if any.
    pub fn get(&self, key: &String) -> (r: Option<u64>)
        ensures
            match r {
                Some(c) => has_key(self@, key@) && c == value_of(self@, key@),
                None => !has_key(self@, key@),
            },
    {
        let n = self.entries.len();
        let mut i: usize = 0;
        while i < n
            invariant
                n == self@.len(),
                i <= n,
                forall|j: int| 0 <= j < i ==> self@[j].0 != key@,
            decreases n - i,
        {
            if self.entries[i].0 == *key {
                proof {
                    assert(self@[i as int].0 == key@);
                    assert(has_key(self@, key@));
                    lemma_first_index_unique(self@, key@, i as int);
                }
                return Some(self.entries[i].1);
            }
            i += 1;
        }
        None
    }

    /// Records `count` for `key`, overwriting the first entry with that
    /// key in place or appending a fresh entry at the end.
    pub fn insert(&mut self, key: String, count: u64)
        ensures
            final(self)@ == insert_entry(old(self)@, key@, count),
    {
        let n = self.entries.len();
        let mut i: usize = 0;
        while i < n
            invariant
                n == self@.len(),
                i <= n,
                *self == *old(self),
                forall|j: int| 0 <= j < i ==> self@[j].0 != key@,
            decreases n - i,
        {
            if self.entries[i].0 == key {
                proof {
                    assert(self@[i as int].0 == key@);
                    assert(has_key(self@, key@));
                    lemma_first_index_unique(self@, key@, i as int);
                }
                let ghost k = key@;
                self.entries[i] = (key, count);
                proof {
                    assert(self@[i as int] == (k, count));
                    assert(forall|j: int|
                        0 <= j < self@.len() && j != i ==> self@[j] == old(self)@[j]);
                    assert(self@ =~~= insert_entry(old(self)@, k, count));
                }
                return ;
            }
            i += 1;
        }
        self.entries.push((key, count));
        proof {
            assert(self@ =~= insert_entry(old(self)@, key@, count));
        }
    }
}

} // verus!

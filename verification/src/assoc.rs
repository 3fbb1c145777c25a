//! Specification view of an association list: a sequence of key-value
//! pairs whose keys are character sequences. Lookup finds the first
//! entry with a given key; insertion overwrites that entry in place or
//! appends a fresh one.

use vstd::prelude::*;

verus! {

/// Whether some entry of `r` has key `k`.
pub open spec fn has_key<V>(r: Seq<(Seq<char>, V)>, k: Seq<char>) -> bool {
    exists|i: int| 0 <= i < r.len() && r[i].0 == k
}

/// The position of the first entry of `r` whose key is `k`.
pub open spec fn key_at<V>(r: Seq<(Seq<char>, V)>, k: Seq<char>) -> int {
    choose|i: int|
        0 <= i < r.len() && r[i].0 == k && (forall|j: int| 0 <= j < i ==> r[j].0 != k)
}

/// The value of the first entry of `r` whose key is `k`.
pub open spec fn value_of<V>(r: Seq<(Seq<char>, V)>, k: Seq<char>) -> V {
    r[key_at(r, k)].1
}

/// The list after setting key `k` to value `v`: the first entry with
/// key `k` is overwritten in place, or a fresh entry is appended.
pub open spec fn insert_entry<V>(r: Seq<(Seq<char>, V)>, k: Seq<char>, v: V) -> Seq<
    (Seq<char>, V),
> {
    if has_key(r, k) {
        r.update(key_at(r, k), (k, v))
    } else {
        r.push((k, v))
    }
}

/// The first index of `r` whose key is `k` is the unique index that both
/// holds `k` and has no earlier entry with `k`.
pub proof fn lemma_first_index_unique<V>(r: Seq<(Seq<char>, V)>, k: Seq<char>, i: int)
    requires
        0 <= i < r.len(),
        r[i].0 == k,
        forall|j: int| 0 <= j < i ==> r[j].0 != k,
    ensures
        key_at(r, k) == i,
{
    assert(0 <= i < r.len() && r[i].0 == k && (forall|j: int| 0 <= j < i ==> r[j].0 != k));
    let w = key_at(r, k);
    assert(0 <= w < r.len() && r[w].0 == k && (forall|j: int| 0 <= j < w ==> r[j].0 != k));
}

/// If some entry of `r` has key `k`, a first such entry exists, and
/// `key_at` names it.
pub proof fn lemma_key_at_valid<V>(r: Seq<(Seq<char>, V)>, k: Seq<char>)
    requires
        has_key(r, k),
    ensures
        0 <= key_at(r, k) < r.len(),
        r[key_at(r, k)].0 == k,
        forall|j: int| 0 <= j < key_at(r, k) ==> r[j].0 != k,
    decreases r.len(),
{
    if r[0].0 == k {
        lemma_first_index_unique(r, k, 0);
    } else {
        let w = choose|i: int| 0 <= i < r.len() && r[i].0 == k;
        let tail = r.drop_first();
        assert(tail[w - 1].0 == k);
        assert(has_key(tail, k));
        lemma_key_at_valid(tail, k);
        let f = key_at(tail, k);
        assert(r[f + 1].0 == k);
        assert(forall|j: int| 0 <= j < f + 1 ==> r[j].0 != k) by {
            assert(forall|j: int| 1 <= j < f + 1 ==> r[j] == tail[j - 1]);
        }
        lemma_first_index_unique(r, k, f + 1);
    }
}

/// The keys present after an insertion are the old keys together with
/// the inserted one.
pub proof fn lemma_insert_entry_keys<V>(r: Seq<(Seq<char>, V)>, k: Seq<char>, v: V, q: Seq<char>)
    ensures
        has_key(insert_entry(r, k, v), q) <==> (has_key(r, q) || q == k),
{
    let out = insert_entry(r, k, v);
    if has_key(r, k) {
        lemma_key_at_valid(r, k);
        let f = key_at(r, k);
        assert forall|i: int| 0 <= i < r.len() implies out[i].0 == r[i].0 by {
            if i != f {
                assert(out[i] == r[i]);
            }
        }
        if has_key(out, q) {
            let w = choose|i: int| 0 <= i < out.len() && out[i].0 == q;
            assert(r[w].0 == q);
            assert(has_key(r, q));
        }
        if has_key(r, q) {
            let w = choose|i: int| 0 <= i < r.len() && r[i].0 == q;
            assert(out[w].0 == q);
            assert(has_key(out, q));
        }
    } else {
        if has_key(out, q) && q != k {
            let w = choose|i: int| 0 <= i < out.len() && out[i].0 == q;
            assert(w < r.len());
            assert(has_key(r, q));
        }
        if has_key(r, q) {
            let w = choose|i: int| 0 <= i < r.len() && r[i].0 == q;
            assert(out[w].0 == q);
            assert(has_key(out, q));
        }
        if q == k {
            assert(out[r.len() as int].0 == q);
            assert(has_key(out, q));
        }
    }
}

} // verus!

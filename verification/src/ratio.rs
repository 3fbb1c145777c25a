//! Percentage shares for pairs of packages. Each pair whose two counts
//! are both known and sum to something positive contributes two report
//! entries, one share per side; a pair with a missing count or a zero
//! sum contributes nothing. Shares are computed in hundredths of a
//! percent, rounding half up, so no division by zero and no floating
//! point is involved.

use vstd::prelude::*;

use crate::assoc::{has_key, insert_entry, lemma_insert_entry_keys, value_of};
use crate::counts::{CountMap, CountView};
use crate::report::{EntryView, Report};
use crate::strnum::{percent_string, percent_text};
use vstd::arithmetic::div_mod::{
    lemma_fundamental_div_mod, lemma_mod_division_less_than_divisor,
};
use vstd::string::StringExecFns;

verus! {

/// A side's share of a pair's total, in hundredths of a percent,
/// rounded half up: the nearest integer to `10000 * count / total`.
pub open spec fn share_bp(count: int, total: int) -> int
    recommends
        0 < total,
{
    (count * 10000 + total / 2) / total
}

/// The report key that carries a package's share.
pub open spec fn ratio_key(package: Seq<char>) -> Seq<char> {
    package + "_ratio"@
}

/// Whether a pair contributes ratio entries: both counts are present
/// and their sum is positive.
pub open spec fn pair_emits(counts: Seq<CountView>, a: Seq<char>, b: Seq<char>) -> bool {
    has_key(counts, a) && has_key(counts, b) && value_of(counts, a) + value_of(counts, b) > 0
}

/// The report after one pair's ratio step: two share entries when the
/// pair contributes, the report unchanged otherwise.
pub open spec fn apply_pair(
    rep: Seq<EntryView>,
    counts: Seq<CountView>,
    a: Seq<char>,
    b: Seq<char>,
) -> Seq<EntryView> {
    if pair_emits(counts, a, b) {
        let ca = value_of(counts, a) as int;
        let cb = value_of(counts, b) as int;
        let first = insert_entry(rep, ratio_key(a), percent_text(share_bp(ca, ca + cb)));
        insert_entry(first, ratio_key(b), percent_text(share_bp(cb, ca + cb)))
    } else {
        rep
    }
}

/// The report after the whole ratio step, pair by pair in order.
pub open spec fn ratios_of(
    rep: Seq<EntryView>,
    counts: Seq<CountView>,
    pairs: Seq<(Seq<char>, Seq<char>)>,
) -> Seq<EntryView>
    decreases pairs.len(),
{
    if pairs.len() == 0 {
        rep
    } else {
        ratios_of(
            apply_pair(rep, counts, pairs.first().0, pairs.first().1),
            counts,
            pairs.drop_first(),
        )
    }
}

/// One side's share in hundredths of a percent, exactly `share_bp` of
/// the pair's total. The total is widened before the arithmetic, so no
/// count can overflow it.
pub fn share_basis_points(count: u64, other: u64) -> (bp: u64)
    requires
        count as int + other as int > 0,
    ensures
        bp == share_bp(count as int, count as int + other as int),
        bp <= 10000,
{
    let total: u128 = count as u128 + other as u128;
    let num: u128 = (count as u128) * 10000 + total / 2;
    let q: u128 = num / total;
    proof {
        lemma_share_bp_bounds(count as int, total as int);
    }
    q as u64
}

/// A share lies between nothing and the whole: `share_bp` of a count
/// within the total is between 0 and 10000.
pub proof fn lemma_share_bp_bounds(count: int, total: int)
    requires
        0 <= count <= total,
        0 < total,
    ensures
        0 <= share_bp(count, total) <= 10000,
{
    let h = total / 2;
    let num = count * 10000 + h;
    lemma_fundamental_div_mod(total, 2);
    lemma_mod_division_less_than_divisor(total, 2);
    assert(0 <= h < total);
    lemma_fundamental_div_mod(num, total);
    lemma_mod_division_less_than_divisor(num, total);
    let q = num / total;
    let r = num % total;
    assert(count * 10000 <= total * 10000) by (nonlinear_arith)
        requires
            0 <= count <= total,
    ;
    assert(0 <= q <= 10000) by (nonlinear_arith)
        requires
            num == total * q + r,
            0 <= r < total,
            0 <= h < total,
            num == count * 10000 + h,
            0 <= count * 10000 <= total * 10000,
            0 < total,
    ;
}

/// The two shares of one pair account for the whole: they sum to
/// 100.00%, up to one hundredth of a percent of rounding.
pub proof fn lemma_shares_sum(a: int, b: int, total: int)
    requires
        0 <= a,
        0 <= b,
        a + b == total,
        0 < total,
    ensures
        10000 <= share_bp(a, total) + share_bp(b, total) <= 10001,
{
    let h = total / 2;
    let na = a * 10000 + h;
    let nb = b * 10000 + h;
    lemma_fundamental_div_mod(total, 2);
    lemma_mod_division_less_than_divisor(total, 2);
    assert(0 <= h < total);
    assert(total == 2 * h + total % 2);
    lemma_fundamental_div_mod(na, total);
    lemma_mod_division_less_than_divisor(na, total);
    lemma_fundamental_div_mod(nb, total);
    lemma_mod_division_less_than_divisor(nb, total);
    let qa = na / total;
    let ra = na % total;
    let qb = nb / total;
    let rb = nb % total;
    assert(na + nb == total * 10000 + 2 * h) by (nonlinear_arith)
        requires
            na == a * 10000 + h,
            nb == b * 10000 + h,
            a + b == total,
    ;
    assert(10000 <= qa + qb <= 10001) by (nonlinear_arith)
        requires
            na == total * qa + ra,
            nb == total * qb + rb,
            0 <= ra < total,
            0 <= rb < total,
            na + nb == total * 10000 + 2 * h,
            total == 2 * h + total % 2,
            0 <= total % 2 < 2,
            0 < total,
    ;
}

/// Builds the report key that carries a package's share.
fn ratio_key_string(package: &String) -> (r: String)
    ensures
        r@ == ratio_key(package@),
{
    let mut s = package.clone();
    s.append("_ratio");
    s
}

/// Walks the pairs in order and inserts both share entries for every
/// pair whose two counts are present with a positive sum; a pair with a
/// missing side or a zero sum leaves the report untouched.
pub fn compute_ratios(pairs: &Vec<(String, String)>, counts: &CountMap, report: &mut Report)
    ensures
        final(report)@ == ratios_of(old(report)@, counts@, pairs.deep_view()),
{
    let ghost pv = pairs.deep_view();
    let n = pairs.len();
    let mut i: usize = 0;
    proof {
        assert(pv.skip(0) =~= pv);
    }
    while i < n
        invariant
            n == pairs@.len(),
            pv == pairs.deep_view(),
            i <= n,
            ratios_of(report@, counts@, pv.skip(i as int)) == ratios_of(old(report)@, counts@, pv),
        decreases n - i,
    {
        let ghost rep_before = report@;
        proof {
            assert(pv.skip(i as int).first() == pv[i as int]);
            assert(pv.skip(i as int).drop_first() =~= pv.skip(i + 1 as int));
            assert(pv[i as int].0 == pairs@[i as int].0@);
            assert(pv[i as int].1 == pairs@[i as int].1@);
        }
        let a = &pairs[i].0;
        let b = &pairs[i].1;
        match (counts.get(a), counts.get(b)) {
            (Some(ca), Some(cb)) => {
                if ca > 0 || cb > 0 {
                    let bp_a = share_basis_points(ca, cb);
                    let bp_b = share_basis_points(cb, ca);
                    report.insert(ratio_key_string(a), percent_string(bp_a));
                    report.insert(ratio_key_string(b), percent_string(bp_b));
                }
            },
            _ => {},
        }
        proof {
            assert(report@ == apply_pair(rep_before, counts@, pv[i as int].0, pv[i as int].1));
        }
        i += 1;
    }
    proof {
        assert(pv.skip(n as int) =~= Seq::<(Seq<char>, Seq<char>)>::empty());
    }
}

/// A key stands in the report after the ratio step only if it stood
/// there before, or it is the ratio key of a pair whose two counts are
/// both present with a positive sum: a pair with a missing side or a
/// zero sum contributes no ratio entries.
pub proof fn lemma_ratio_keys_only_from_emitting_pairs(
    rep: Seq<EntryView>,
    counts: Seq<CountView>,
    pairs: Seq<(Seq<char>, Seq<char>)>,
    k: Seq<char>,
)
    requires
        has_key(ratios_of(rep, counts, pairs), k),
        !has_key(rep, k),
    ensures
        exists|j: int|
            0 <= j < pairs.len() && pair_emits(counts, pairs[j].0, pairs[j].1) && (k == ratio_key(
                pairs[j].0,
            ) || k == ratio_key(pairs[j].1)),
    decreases pairs.len(),
{
    assert(pairs.len() > 0);
    let a = pairs.first().0;
    let b = pairs.first().1;
    let rep1 = apply_pair(rep, counts, a, b);
    if has_key(rep1, k) {
        assert(pair_emits(counts, a, b) && (k == ratio_key(a) || k == ratio_key(b))) by {
            if pair_emits(counts, a, b) {
                let ca = value_of(counts, a) as int;
                let cb = value_of(counts, b) as int;
                let first = insert_entry(rep, ratio_key(a), percent_text(share_bp(ca, ca + cb)));
                lemma_insert_entry_keys(
                    rep,
                    ratio_key(a),
                    percent_text(share_bp(ca, ca + cb)),
                    k,
                );
                lemma_insert_entry_keys(
                    first,
                    ratio_key(b),
                    percent_text(share_bp(cb, ca + cb)),
                    k,
                );
            }
        }
        assert(0 <= 0 < pairs.len() && pair_emits(counts, pairs[0].0, pairs[0].1) && (k
            == ratio_key(pairs[0].0) || k == ratio_key(pairs[0].1)));
    } else {
        lemma_ratio_keys_only_from_emitting_pairs(rep1, counts, pairs.drop_first(), k);
        let tail = pairs.drop_first();
        let j = choose|j: int|
            0 <= j < tail.len() && pair_emits(counts, tail[j].0, tail[j].1) && (k == ratio_key(
                tail[j].0,
            ) || k == ratio_key(tail[j].1));
        assert(pairs[j + 1] == tail[j]);
        assert(0 <= j + 1 < pairs.len() && pair_emits(counts, pairs[j + 1].0, pairs[j + 1].1) && (
        k == ratio_key(pairs[j + 1].0) || k == ratio_key(pairs[j + 1].1)));
    }
}

/// A pair one of whose counts is absent, or whose two counts sum to
/// zero, contributes no ratio entries: after the ratio step its ratio
/// key is absent, as long as it was absent before and no other
/// contributing pair carries the same key.
pub proof fn lemma_skipped_pair_adds_no_ratio_keys(
    rep: Seq<EntryView>,
    counts: Seq<CountView>,
    pairs: Seq<(Seq<char>, Seq<char>)>,
    j: int,
    k: Seq<char>,
)
    requires
        0 <= j < pairs.len(),
        !pair_emits(counts, pairs[j].0, pairs[j].1),
        k == ratio_key(pairs[j].0) || k == ratio_key(pairs[j].1),
        !has_key(rep, k),
        forall|l: int|
            0 <= l < pairs.len() && pair_emits(counts, pairs[l].0, pairs[l].1) ==> ratio_key(
                pairs[l].0,
            ) != k && ratio_key(pairs[l].1) != k,
    ensures
        !has_key(ratios_of(rep, counts, pairs), k),
{
    if has_key(ratios_of(rep, counts, pairs), k) {
        lemma_ratio_keys_only_from_emitting_pairs(rep, counts, pairs, k);
        let l = choose|l: int|
            0 <= l < pairs.len() && pair_emits(counts, pairs[l].0, pairs[l].1) && (k == ratio_key(
                pairs[l].0,
            ) || k == ratio_key(pairs[l].1));
        assert(ratio_key(pairs[l].0) != k && ratio_key(pairs[l].1) != k);
        assert(false);
    }
}

} // verus!

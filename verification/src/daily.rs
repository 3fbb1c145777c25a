//! The daily-breakdown metric and its reduction: among all calendar
//! dates of a package's per-day, per-version download counts, pick the
//! lexicographically greatest date string — the latest day, as long as
//! every date is written in the same zero-padded form — and sum the
//! version counts under it. An empty breakdown reduces to a zero count
//! with a fixed placeholder label instead of failing.

use vstd::prelude::*;

use vstd::string::{StringExecFns, StrSliceExecFns};

verus! {

/// Lexicographic order on character sequences by code point: the order
/// in which date strings are compared.
pub open spec fn lex_lt(a: Seq<char>, b: Seq<char>) -> bool
    decreases a.len(),
{
    if b.len() == 0 {
        false
    } else if a.len() == 0 {
        true
    } else if a.first() == b.first() {
        lex_lt(a.drop_first(), b.drop_first())
    } else {
        (a.first() as int) < (b.first() as int)
    }
}

/// Two distinct character sequences are lexicographically comparable.
pub proof fn lemma_lex_total(a: Seq<char>, b: Seq<char>)
    requires
        a != b,
    ensures
        lex_lt(a, b) || lex_lt(b, a),
    decreases a.len(),
{
    if b.len() == 0 {
        if a.len() == 0 {
            assert(a =~= b);
        }
    } else if a.len() == 0 {
    } else if a.first() == b.first() {
        assert(a.drop_first() != b.drop_first()) by {
            if a.drop_first() == b.drop_first() {
                assert(a.drop_first().len() == b.drop_first().len());
                assert(a.len() == b.len());
                assert forall|i: int| 0 <= i < a.len() implies a[i] == b[i] by {
                    if i > 0 {
                        assert(a[i] == a.drop_first()[i - 1]);
                        assert(b[i] == b.drop_first()[i - 1]);
                    }
                }
                assert(a =~= b);
            }
        }
        lemma_lex_total(a.drop_first(), b.drop_first());
    }
}

/// Lexicographic order is transitive.
pub proof fn lemma_lex_trans(a: Seq<char>, b: Seq<char>, c: Seq<char>)
    requires
        lex_lt(a, b),
        lex_lt(b, c),
    ensures
        lex_lt(a, c),
    decreases a.len(),
{
    if c.len() == 0 || b.len() == 0 || a.len() == 0 {
    } else if a.first() == b.first() && b.first() == c.first() {
        lemma_lex_trans(a.drop_first(), b.drop_first(), c.drop_first());
    }
}

/// The sum of a sequence of counts, as an unbounded integer.
pub open spec fn sum_of(s: Seq<u64>) -> int
    decreases s.len(),
{
    if s.len() == 0 {
        0
    } else {
        sum_of(s.drop_last()) + s.last()
    }
}

/// A prefix of non-negative counts never sums to more than the whole.
proof fn lemma_sum_take_le(s: Seq<u64>, i: int)
    requires
        0 <= i <= s.len(),
    ensures
        sum_of(s.take(i)) <= sum_of(s),
    decreases s.len(),
{
    if i == s.len() {
        assert(s.take(i) =~= s);
    } else {
        assert(s.take(i) =~= s.drop_last().take(i));
        lemma_sum_take_le(s.drop_last(), i);
    }
}

/// Whether `a@` precedes `b@` lexicographically.
pub fn str_lt(a: &String, b: &String) -> (r: bool)
    ensures
        r == lex_lt(a@, b@),
{
    let na = a.as_str().unicode_len();
    let nb = b.as_str().unicode_len();
    let mut i: usize = 0;
    proof {
        assert(a@.skip(0) =~= a@);
        assert(b@.skip(0) =~= b@);
    }
    while i < na && i < nb
        invariant
            na == a@.len(),
            nb == b@.len(),
            i <= na,
            i <= nb,
            lex_lt(a@, b@) == lex_lt(a@.skip(i as int), b@.skip(i as int)),
        decreases na - i,
    {
        let ca = a.as_str().get_char(i);
        let cb = b.as_str().get_char(i);
        proof {
            assert(a@.skip(i as int).first() == a@[i as int]);
            assert(b@.skip(i as int).first() == b@[i as int]);
        }
        if (ca as u32) != (cb as u32) {
            return (ca as u32) < (cb as u32);
        }
        proof {
            assert(ca == cb);
            assert(a@.skip(i as int).drop_first() =~= a@.skip(i + 1 as int));
            assert(b@.skip(i as int).drop_first() =~= b@.skip(i + 1 as int));
        }
        i += 1;
    }
    proof {
        if i >= na {
            assert(a@.skip(i as int).len() == 0);
        } else {
            assert(b@.skip(i as int).len() == 0);
        }
    }
    i < nb
}

/// One calendar day of a package's breakdown: the date label and the
/// per-version download counts under it.
pub struct DayRecord {
    pub date: String,
    pub counts: Vec<u64>,
}

/// A package's daily-breakdown metric: one record per calendar date.
pub struct DailyBreakdown {
    pub days: Vec<DayRecord>,
}

impl DailyBreakdown {
    /// The breakdown models a mapping: its date labels are distinct.
    pub open spec fn wf(&self) -> bool {
        forall|i: int, j: int|
            0 <= i < j < self.days@.len() ==> self.days@[i].date@ != self.days@[j].date@
    }

    /// Whether position `m` holds the latest day: every other date
    /// precedes it lexicographically.
    pub open spec fn spec_is_latest(&self, m: int) -> bool {
        &&& 0 <= m < self.days@.len()
        &&& forall|i: int|
            0 <= i < self.days@.len() && i != m ==> lex_lt(
                self.days@[i].date@,
                self.days@[m].date@,
            )
    }

    /// The position of the latest day of a non-empty breakdown.
    fn latest_day_index(&self) -> (m: usize)
        requires
            self.wf(),
            self.days@.len() > 0,
        ensures
            self.spec_is_latest(m as int),
    {
        let n = self.days.len();
        let mut m: usize = 0;
        let mut i: usize = 1;
        while i < n
            invariant
                n == self.days@.len(),
                m < i <= n,
                self.wf(),
                forall|j: int|
                    0 <= j < i && j != m ==> lex_lt(self.days@[j].date@, self.days@[m as int].date@),
            decreases n - i,
        {
            if str_lt(&self.days[m].date, &self.days[i].date) {
                proof {
                    assert forall|j: int|
                        0 <= j < i + 1 && j != i implies lex_lt(
                        self.days@[j].date@,
                        self.days@[i as int].date@,
                    ) by {
                        if j != m {
                            lemma_lex_trans(
                                self.days@[j].date@,
                                self.days@[m as int].date@,
                                self.days@[i as int].date@,
                            );
                        }
                    }
                }
                m = i;
            } else {
                proof {
                    assert(self.days@[m as int].date@ != self.days@[i as int].date@);
                    lemma_lex_total(self.days@[m as int].date@, self.days@[i as int].date@);
                }
            }
            i += 1;
        }
        m
    }

    /// Reduces the breakdown: the latest day's date label together with
    /// the sum of all version counts under it, or a zero count with the
    /// placeholder label when the breakdown is empty.
    pub fn reduce_last_day(&self) -> (r: (u64, String))
        requires
            self.wf(),
            forall|m: int|
                self.spec_is_latest(m) ==> sum_of(self.days@[m].counts@) <= u64::MAX,
        ensures
            self.days@.len() == 0 ==> r.0 == 0 && r.1@ == "No data available"@,
            self.days@.len() > 0 ==> exists|m: int|
                self.spec_is_latest(m) && r.0 == sum_of(self.days@[m].counts@) && r.1@
                    == self.days@[m].date@,
    {
        if self.days.len() == 0 {
            (0, String::from_str("No data available"))
        } else {
            let m = self.latest_day_index();
            let total = sum_counts(&self.days[m].counts);
            (total, self.days[m].date.clone())
        }
    }
}

/// Adds up a day's version counts, whose total fits the count type.
fn sum_counts(counts: &Vec<u64>) -> (s: u64)
    requires
        sum_of(counts@) <= u64::MAX,
    ensures
        s == sum_of(counts@),
{
    let n = counts.len();
    let mut acc: u64 = 0;
    let mut i: usize = 0;
    proof {
        assert(counts@.take(0) =~= Seq::<u64>::empty());
    }
    while i < n
        invariant
            n == counts@.len(),
            i <= n,
            acc == sum_of(counts@.take(i as int)),
            sum_of(counts@) <= u64::MAX,
        decreases n - i,
    {
        proof {
            assert(counts@.take(i + 1 as int).drop_last() =~= counts@.take(i as int));
            assert(counts@.take(i + 1 as int).last() == counts@[i as int]);
            lemma_sum_take_le(counts@, i + 1 as int);
        }
        acc = acc + counts[i];
        i += 1;
    }
    proof {
        assert(counts@.take(n as int) =~= counts@);
    }
    acc
}

} // verus!

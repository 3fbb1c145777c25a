//! Aggregation of per-package fetch outcomes. Every attempted package
//! yields exactly one outcome; successes are recorded in the count map
//! and the report, failures are turned into diagnostic lines and the
//! package is omitted. A failure never aborts the aggregation.

use vstd::prelude::*;

use crate::assoc::{has_key, insert_entry, lemma_insert_entry_keys};
use crate::counts::{CountMap, CountView};
use crate::report::{EntryView, Report};
use thousands::Separable;
use vstd::string::StringExecFns;

verus! {

/// What `separate_with_commas` returns for a number: its decimal digits
/// with a comma inserted every three digits from the right. The result
/// depends on the number alone.
pub uninterp spec fn commas_of(n: u64) -> Seq<char>;

/// Relies on thousands::Separable::separate_with_commas on u64: it
/// renders the number in decimal with a comma every three digits from
/// the right.
#[verifier::external_body]
fn separate_with_commas(n: u64) -> (r: String)
    ensures
        r@ == commas_of(n),
{
    n.separate_with_commas()
}

/// The URL that the statistics API answers for one package.
pub fn stats_url(package: &String) -> (r: String)
    ensures
        r@ == "https://pepy.tech/api/v2/projects/"@ + package@,
{
    let mut out = String::from_str("https://pepy.tech/api/v2/projects/");
    out.append(package.as_str());
    out
}

/// The outcome of one attempted fetch: either the package's reduced
/// count with its date label, or a description of what went wrong.
pub enum FetchResult {
    Success { package: String, count: u64, date: String },
    Failure { package: String, error: String },
}

impl FetchResult {
    /// The package this outcome speaks of.
    pub open spec fn spec_package(&self) -> Seq<char> {
        match self {
            FetchResult::Success { package, .. } => package@,
            FetchResult::Failure { package, .. } => package@,
        }
    }

    /// The error description, for a failed outcome.
    pub open spec fn spec_error(&self) -> Seq<char> {
        match self {
            FetchResult::Success { .. } => Seq::empty(),
            FetchResult::Failure { error, .. } => error@,
        }
    }
}

/// The report line for a successful package.
pub open spec fn display_line(count: u64, date: Seq<char>) -> Seq<char> {
    commas_of(count) + " downloads on "@ + date
}

/// The diagnostic line for a failed package.
pub open spec fn failure_line(package: Seq<char>, error: Seq<char>) -> Seq<char> {
    "Failed to fetch data for '"@ + package + "': "@ + error
}

/// The count map after aggregating a sequence of outcomes in order.
pub open spec fn counts_of(rs: Seq<FetchResult>) -> Seq<CountView>
    decreases rs.len(),
{
    if rs.len() == 0 {
        Seq::empty()
    } else {
        let prev = counts_of(rs.drop_last());
        match rs.last() {
            FetchResult::Success { package, count, .. } => insert_entry(prev, package@, count),
            FetchResult::Failure { .. } => prev,
        }
    }
}

/// The report fragment after aggregating a sequence of outcomes in
/// order.
pub open spec fn report_of(rs: Seq<FetchResult>) -> Seq<EntryView>
    decreases rs.len(),
{
    if rs.len() == 0 {
        Seq::empty()
    } else {
        let prev = report_of(rs.drop_last());
        match rs.last() {
            FetchResult::Success { package, count, date } => insert_entry(
                prev,
                package@,
                display_line(count, date@),
            ),
            FetchResult::Failure { .. } => prev,
        }
    }
}

/// The diagnostic lines after aggregating a sequence of outcomes in
/// order: one line per failure.
pub open spec fn diags_of(rs: Seq<FetchResult>) -> Seq<Seq<char>>
    decreases rs.len(),
{
    if rs.len() == 0 {
        Seq::empty()
    } else {
        let prev = diags_of(rs.drop_last());
        match rs.last() {
            FetchResult::Success { .. } => prev,
            FetchResult::Failure { package, error } => prev.push(
                failure_line(package@, error@),
            ),
        }
    }
}

/// Everything the aggregation produces: the counts for the ratio step,
/// the report fragment, and one diagnostic line per failed fetch.
pub struct Aggregate {
    pub counts: CountMap,
    pub report: Report,
    pub diagnostics: Vec<String>,
}

/// Builds the report line for a successful package.
fn make_display_line(count: u64, date: &String) -> (r: String)
    ensures
        r@ == display_line(count, date@),
{
    let mut s = separate_with_commas(count);
    s.append(" downloads on ");
    s.append(date.as_str());
    s
}

/// Builds the diagnostic line for a failed package.
fn make_failure_line(package: &String, error: &String) -> (r: String)
    ensures
        r@ == failure_line(package@, error@),
{
    let mut s = String::from_str("Failed to fetch data for '");
    s.append(package.as_str());
    s.append("': ");
    s.append(error.as_str());
    s
}

/// Combines the outcomes in input order: each success is recorded under
/// its package in the counts and as a display line in the report, each
/// failure becomes a diagnostic line, and no failure stops the loop.
pub fn aggregate(results: &Vec<FetchResult>) -> (agg: Aggregate)
    ensures
        agg.counts@ == counts_of(results@),
        agg.report@ == report_of(results@),
        agg.diagnostics.deep_view() == diags_of(results@),
{
    let mut counts = CountMap::new();
    let mut report = Report::new();
    let mut diagnostics: Vec<String> = Vec::new();
    let n = results.len();
    let mut i: usize = 0;
    proof {
        assert(results@.take(0) =~= Seq::<FetchResult>::empty());
        assert(diagnostics.deep_view() =~= diags_of(results@.take(0)));
    }
    while i < n
        invariant
            n == results@.len(),
            i <= n,
            counts@ == counts_of(results@.take(i as int)),
            report@ == report_of(results@.take(i as int)),
            diagnostics.deep_view() == diags_of(results@.take(i as int)),
        decreases n - i,
    {
        proof {
            assert(results@.take(i + 1 as int).drop_last() =~= results@.take(i as int));
            assert(results@.take(i + 1 as int).last() == results@[i as int]);
        }
        match &results[i] {
            FetchResult::Success { package, count, date } => {
                counts.insert(package.clone(), *count);
                let line = make_display_line(*count, date);
                report.insert(package.clone(), line);
            },
            FetchResult::Failure { package, error } => {
                let line = make_failure_line(package, error);
                diagnostics.push(line);
                proof {
                    assert(diagnostics.deep_view() =~= diags_of(results@.take(i + 1 as int)));
                }
            },
        }
        i += 1;
    }
    proof {
        assert(results@.take(n as int) =~= results@);
    }
    Aggregate { counts, report, diagnostics }
}

/// Whatever key the aggregated counts or report hold, some successful
/// outcome carries that package: failures and absent packages leave no
/// trace in either.
pub proof fn lemma_keys_are_success_packages(rs: Seq<FetchResult>, k: Seq<char>)
    requires
        has_key(counts_of(rs), k) || has_key(report_of(rs), k),
    ensures
        exists|j: int| 0 <= j < rs.len() && rs[j] is Success && rs[j].spec_package() == k,
    decreases rs.len(),
{
    assert(rs.len() > 0);
    let prev = rs.drop_last();
    let m = rs.len() - 1;
    match rs.last() {
        FetchResult::Success { package, count, date } => {
            lemma_insert_entry_keys(counts_of(prev), package@, count, k);
            lemma_insert_entry_keys(report_of(prev), package@, display_line(count, date@), k);
            if k == package@ {
                assert(rs[m] is Success && rs[m].spec_package() == k);
            } else {
                lemma_keys_are_success_packages(prev, k);
                let j = choose|j: int|
                    0 <= j < prev.len() && prev[j] is Success && prev[j].spec_package() == k;
                assert(rs[j] is Success && rs[j].spec_package() == k);
            }
        },
        FetchResult::Failure { .. } => {
            lemma_keys_are_success_packages(prev, k);
            let j = choose|j: int|
                0 <= j < prev.len() && prev[j] is Success && prev[j].spec_package() == k;
            assert(rs[j] is Success && rs[j].spec_package() == k);
        },
    }
}

/// A package whose fetch failed, and that no successful outcome names,
/// appears in neither the counts nor the report; the run went on without
/// it.
pub proof fn lemma_failure_omitted(rs: Seq<FetchResult>, i: int)
    requires
        0 <= i < rs.len(),
        rs[i] is Failure,
        forall|j: int|
            0 <= j < rs.len() && rs[j] is Success ==> rs[j].spec_package() != rs[i].spec_package(),
    ensures
        !has_key(counts_of(rs), rs[i].spec_package()),
        !has_key(report_of(rs), rs[i].spec_package()),
{
    if has_key(counts_of(rs), rs[i].spec_package()) || has_key(
        report_of(rs),
        rs[i].spec_package(),
    ) {
        lemma_keys_are_success_packages(rs, rs[i].spec_package());
        assert(false);
    }
}

/// Every failed fetch leaves its diagnostic line in the aggregation's
/// output: a failure is logged, never silently dropped.
pub proof fn lemma_failure_logged(rs: Seq<FetchResult>, i: int)
    requires
        0 <= i < rs.len(),
        rs[i] is Failure,
    ensures
        diags_of(rs).contains(failure_line(rs[i].spec_package(), rs[i].spec_error())),
    decreases rs.len(),
{
    let prev = rs.drop_last();
    let line = failure_line(rs[i].spec_package(), rs[i].spec_error());
    if i == rs.len() - 1 {
        match rs.last() {
            FetchResult::Success { .. } => {
                assert(false);
            },
            FetchResult::Failure { .. } => {
                assert(diags_of(rs).last() == line);
            },
        }
    } else {
        lemma_failure_logged(prev, i);
        let w = choose|w: int| 0 <= w < diags_of(prev).len() && diags_of(prev)[w] == line;
        assert(diags_of(rs)[w] == line);
    }
}

/// Every successful fetch is recorded: its package has a count and a
/// report entry, whatever happened to the other packages.
pub proof fn lemma_success_recorded(rs: Seq<FetchResult>, i: int)
    requires
        0 <= i < rs.len(),
        rs[i] is Success,
    ensures
        has_key(counts_of(rs), rs[i].spec_package()),
        has_key(report_of(rs), rs[i].spec_package()),
    decreases rs.len(),
{
    let prev = rs.drop_last();
    match rs.last() {
        FetchResult::Success { package, count, date } => {
            if i < rs.len() - 1 {
                lemma_success_recorded(prev, i);
            }
            lemma_insert_entry_keys(counts_of(prev), package@, count, rs[i].spec_package());
            lemma_insert_entry_keys(
                report_of(prev),
                package@,
                display_line(count, date@),
                rs[i].spec_package(),
            );
        },
        FetchResult::Failure { .. } => {
            lemma_success_recorded(prev, i);
        },
    }
}

} // verus!

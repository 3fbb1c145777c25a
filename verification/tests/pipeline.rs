use rustybears::counts::CountMap;
use rustybears::daily::{DailyBreakdown, DayRecord};
use rustybears::fetch::{aggregate, stats_url, FetchResult};
use rustybears::publish::{gist_url, is_success_status, publish_outcome};
use rustybears::ratio::compute_ratios;
use rustybears::report::Report;

fn breakdown(days: Vec<(&str, Vec<u64>)>) -> DailyBreakdown {
    DailyBreakdown {
        days: days
            .into_iter()
            .map(|(date, counts)| DayRecord { date: date.to_string(), counts })
            .collect(),
    }
}

#[test]
fn reduce_picks_latest_day_and_sums_versions() {
    let b = breakdown(vec![("2024-01-01", vec![10]), ("2024-01-02", vec![5, 7])]);
    let (total, date) = b.reduce_last_day();
    assert_eq!(total, 12);
    assert_eq!(date.as_str(), "2024-01-02");
}

#[test]
fn reduce_of_empty_breakdown_is_soft_fallback() {
    let b = breakdown(vec![]);
    let (total, date) = b.reduce_last_day();
    assert_eq!(total, 0);
    assert_eq!(date.as_str(), "No data available");
}

#[test]
fn reduce_ignores_insertion_order() {
    let b = breakdown(vec![
        ("2024-03-09", vec![3]),
        ("2024-03-11", vec![4, 4]),
        ("2024-03-10", vec![100]),
    ]);
    let (total, date) = b.reduce_last_day();
    assert_eq!(total, 8);
    assert_eq!(date.as_str(), "2024-03-11");
}

#[test]
fn reduce_of_single_day_with_no_versions() {
    let b = breakdown(vec![("2024-05-05", vec![])]);
    let (total, date) = b.reduce_last_day();
    assert_eq!(total, 0);
    assert_eq!(date.as_str(), "2024-05-05");
}

fn counts(entries: Vec<(&str, u64)>) -> CountMap {
    let mut m = CountMap::new();
    for (k, v) in entries {
        m.insert(k.to_string(), v);
    }
    m
}

fn pairs(ps: Vec<(&str, &str)>) -> Vec<(String, String)> {
    ps.into_iter().map(|(a, b)| (a.to_string(), b.to_string())).collect()
}

#[test]
fn ratios_of_nine_to_one_split() {
    let m = counts(vec![("pandas", 900), ("polars", 100)]);
    let mut report = Report::new();
    compute_ratios(&pairs(vec![("pandas", "polars")]), &m, &mut report);
    assert_eq!(report.get(&"pandas_ratio".to_string()).unwrap().as_str(), "90.00%");
    assert_eq!(report.get(&"polars_ratio".to_string()).unwrap().as_str(), "10.00%");
}

#[test]
fn ratio_shares_sum_to_one_hundred_within_rounding() {
    let m = counts(vec![("uv", 1), ("poetry", 2)]);
    let mut report = Report::new();
    compute_ratios(&pairs(vec![("uv", "poetry")]), &m, &mut report);
    assert_eq!(report.get(&"uv_ratio".to_string()).unwrap().as_str(), "33.33%");
    assert_eq!(report.get(&"poetry_ratio".to_string()).unwrap().as_str(), "66.67%");
}

#[test]
fn ratio_pair_with_missing_side_is_skipped() {
    let m = counts(vec![("pandas", 900)]);
    let mut report = Report::new();
    compute_ratios(&pairs(vec![("pandas", "polars")]), &m, &mut report);
    assert!(report.get(&"pandas_ratio".to_string()).is_none());
    assert!(report.get(&"polars_ratio".to_string()).is_none());
    assert_eq!(report.len(), 0);
}

#[test]
fn ratio_pair_with_zero_counts_is_skipped() {
    let m = counts(vec![("pandas", 0), ("polars", 0)]);
    let mut report = Report::new();
    compute_ratios(&pairs(vec![("pandas", "polars")]), &m, &mut report);
    assert!(report.get(&"pandas_ratio".to_string()).is_none());
    assert!(report.get(&"polars_ratio".to_string()).is_none());
    assert_eq!(report.len(), 0);
}

#[test]
fn ratio_pairs_are_independent() {
    let m = counts(vec![("pandas", 50), ("polars", 50), ("uv", 7)]);
    let mut report = Report::new();
    compute_ratios(&pairs(vec![("pandas", "polars"), ("uv", "poetry")]), &m, &mut report);
    assert_eq!(report.get(&"pandas_ratio".to_string()).unwrap().as_str(), "50.00%");
    assert_eq!(report.get(&"polars_ratio".to_string()).unwrap().as_str(), "50.00%");
    assert!(report.get(&"uv_ratio".to_string()).is_none());
    assert!(report.get(&"poetry_ratio".to_string()).is_none());
}

#[test]
fn ratio_of_whole_and_nothing() {
    let m = counts(vec![("uv", 5), ("poetry", 0)]);
    let mut report = Report::new();
    compute_ratios(&pairs(vec![("uv", "poetry")]), &m, &mut report);
    assert_eq!(report.get(&"uv_ratio".to_string()).unwrap().as_str(), "100.00%");
    assert_eq!(report.get(&"poetry_ratio".to_string()).unwrap().as_str(), "0.00%");
}

fn success(package: &str, count: u64, date: &str) -> FetchResult {
    FetchResult::Success { package: package.to_string(), count, date: date.to_string() }
}

fn failure(package: &str, error: &str) -> FetchResult {
    FetchResult::Failure { package: package.to_string(), error: error.to_string() }
}

#[test]
fn aggregate_records_successes_in_order() {
    let results = vec![success("pandas", 1234, "2024-02-03"), success("polars", 9, "2024-02-03")];
    let agg = aggregate(&results);
    assert_eq!(agg.report.len(), 2);
    let (k0, v0) = agg.report.entry_at(0);
    assert_eq!(k0.as_str(), "pandas");
    assert_eq!(v0.as_str(), "1,234 downloads on 2024-02-03");
    let (k1, v1) = agg.report.entry_at(1);
    assert_eq!(k1.as_str(), "polars");
    assert_eq!(v1.as_str(), "9 downloads on 2024-02-03");
    assert_eq!(agg.counts.get(&"pandas".to_string()), Some(1234));
    assert_eq!(agg.counts.get(&"polars".to_string()), Some(9));
    assert!(agg.diagnostics.is_empty());
}

#[test]
fn aggregate_separates_large_counts_with_commas() {
    let results = vec![success("pandas", 1234567890, "2024-02-03")];
    let agg = aggregate(&results);
    let (_, v) = agg.report.entry_at(0);
    assert_eq!(v.as_str(), "1,234,567,890 downloads on 2024-02-03");
}

#[test]
fn aggregate_omits_failed_package_and_keeps_going() {
    let results = vec![
        failure("pandas", "connection refused"),
        success("polars", 42, "2024-02-03"),
    ];
    let agg = aggregate(&results);
    assert_eq!(agg.report.len(), 1);
    let (k, _) = agg.report.entry_at(0);
    assert_eq!(k.as_str(), "polars");
    assert_eq!(agg.counts.get(&"pandas".to_string()), None);
    assert_eq!(agg.counts.get(&"polars".to_string()), Some(42));
    assert_eq!(
        agg.diagnostics,
        vec!["Failed to fetch data for 'pandas': connection refused".to_string()]
    );
}

#[test]
fn aggregate_of_all_failures_yields_empty_report() {
    let results = vec![failure("pandas", "timeout"), failure("polars", "bad body")];
    let agg = aggregate(&results);
    assert_eq!(agg.report.len(), 0);
    assert_eq!(agg.counts.len(), 0);
    assert_eq!(agg.diagnostics.len(), 2);
}

#[test]
fn publish_status_classification() {
    assert!(is_success_status(200));
    assert!(is_success_status(204));
    assert!(is_success_status(299));
    assert!(!is_success_status(199));
    assert!(!is_success_status(300));
    assert!(!is_success_status(404));
    assert!(!is_success_status(500));
}

#[test]
fn failed_publish_is_reported_but_run_still_emits_output() {
    let results = vec![success("pandas", 900, "2024-02-03"), success("polars", 100, "2024-02-03")];
    let agg = aggregate(&results);
    let mut report = agg.report;
    compute_ratios(&pairs(vec![("pandas", "polars")]), &agg.counts, &mut report);
    let output = rustybears::json::report_to_json_pretty(&report);
    let outcome = publish_outcome(404);
    assert_eq!(outcome, Err("Gist update failed with status: 404".to_string()));
    assert!(output.contains("\"pandas_ratio\": \"90.00%\""));
    assert!(output.contains("\"polars_ratio\": \"10.00%\""));
    assert_eq!(publish_outcome(200), Ok(()));
}

#[test]
fn endpoint_urls() {
    assert_eq!(
        stats_url(&"pandas".to_string()).as_str(),
        "https://pepy.tech/api/v2/projects/pandas"
    );
    assert_eq!(
        gist_url(&"abc123".to_string()).as_str(),
        "https://api.github.com/gists/abc123"
    );
}

#[test]
fn count_map_insert_replaces_existing_package() {
    let mut m = CountMap::new();
    m.insert("pandas".to_string(), 1);
    m.insert("pandas".to_string(), 7);
    assert_eq!(m.len(), 1);
    assert_eq!(m.get(&"pandas".to_string()), Some(7));
}

#[test]
fn aggregate_keeps_last_success_for_repeated_package() {
    let results = vec![
        success("pandas", 1, "2024-02-01"),
        success("polars", 5, "2024-02-01"),
        success("pandas", 2, "2024-02-02"),
    ];
    let agg = aggregate(&results);
    assert_eq!(agg.report.len(), 2);
    let (k0, v0) = agg.report.entry_at(0);
    assert_eq!(k0.as_str(), "pandas");
    assert_eq!(v0.as_str(), "2 downloads on 2024-02-02");
    assert_eq!(agg.counts.get(&"pandas".to_string()), Some(2));
}

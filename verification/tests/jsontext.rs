use rustybears::json::{gist_patch_body, report_to_json, report_to_json_pretty};
use rustybears::report::Report;
use rustybears::strnum::{percent_string, u64_to_string};

fn report(entries: Vec<(&str, &str)>) -> Report {
    let mut r = Report::new();
    for (k, v) in entries {
        r.insert(k.to_string(), v.to_string());
    }
    r
}

#[test]
fn compact_json_of_empty_report() {
    assert_eq!(report_to_json(&report(vec![])).as_str(), "{}");
}

#[test]
fn compact_json_of_two_entries() {
    let r = report(vec![("pandas", "12 downloads on 2024-01-02"), ("pandas_ratio", "90.00%")]);
    assert_eq!(
        report_to_json(&r).as_str(),
        "{\"pandas\":\"12 downloads on 2024-01-02\",\"pandas_ratio\":\"90.00%\"}"
    );
}

#[test]
fn pretty_json_of_empty_report() {
    assert_eq!(report_to_json_pretty(&report(vec![])).as_str(), "{}");
}

#[test]
fn pretty_json_matches_two_space_indent_layout() {
    let r = report(vec![("a", "1"), ("b", "2")]);
    assert_eq!(
        report_to_json_pretty(&r).as_str(),
        "{\n  \"a\": \"1\",\n  \"b\": \"2\"\n}"
    );
}

#[test]
fn json_escapes_quotes_backslashes_and_controls() {
    let r = report(vec![("k", "a\"b\\c\nd\te\ru\u{1}f")]);
    assert_eq!(
        report_to_json(&r).as_str(),
        "{\"k\":\"a\\\"b\\\\c\\nd\\te\\ru\\u0001f\"}"
    );
}

#[test]
fn compact_json_round_trips_through_a_json_parser() {
    let r = report(vec![
        ("weird key \"x\"", "line1\nline2"),
        ("plain", "1,234 downloads on 2024-01-02"),
    ]);
    let text = report_to_json(&r);
    let parsed: serde_json::Map<String, serde_json::Value> =
        serde_json::from_str(&text).expect("library emitted invalid JSON");
    assert_eq!(parsed.len(), 2);
    assert_eq!(
        parsed.get("weird key \"x\"").unwrap().as_str().unwrap(),
        "line1\nline2"
    );
    assert_eq!(
        parsed.get("plain").unwrap().as_str().unwrap(),
        "1,234 downloads on 2024-01-02"
    );
}

#[test]
fn pretty_json_agrees_with_reference_serializer() {
    let r = report(vec![("a", "1"), ("b", "2")]);
    let mut m = serde_json::Map::new();
    m.insert("a".to_string(), serde_json::Value::String("1".to_string()));
    m.insert("b".to_string(), serde_json::Value::String("2".to_string()));
    let reference = serde_json::to_string_pretty(&serde_json::Value::Object(m)).unwrap();
    assert_eq!(report_to_json_pretty(&r), reference);
}

#[test]
fn gist_body_embeds_the_report_as_file_content() {
    let r = report(vec![("pandas", "ok")]);
    assert_eq!(
        gist_patch_body(&r).as_str(),
        "{\"files\":{\"rustybears.json\":{\"content\":\"{\\\"pandas\\\":\\\"ok\\\"}\"}}}"
    );
}

#[test]
fn gist_body_parses_back_to_the_report_text() {
    let r = report(vec![("pandas", "12 downloads on 2024-01-02")]);
    let body: serde_json::Value = serde_json::from_str(&gist_patch_body(&r)).unwrap();
    let content = body["files"]["rustybears.json"]["content"].as_str().unwrap();
    assert_eq!(content, report_to_json(&r).as_str());
}

#[test]
fn decimal_rendering() {
    assert_eq!(u64_to_string(0).as_str(), "0");
    assert_eq!(u64_to_string(7).as_str(), "7");
    assert_eq!(u64_to_string(10).as_str(), "10");
    assert_eq!(u64_to_string(65007).as_str(), "65007");
    assert_eq!(u64_to_string(u64::MAX).as_str(), "18446744073709551615");
}

#[test]
fn percent_rendering() {
    assert_eq!(percent_string(0).as_str(), "0.00%");
    assert_eq!(percent_string(1).as_str(), "0.01%");
    assert_eq!(percent_string(905).as_str(), "9.05%");
    assert_eq!(percent_string(9000).as_str(), "90.00%");
    assert_eq!(percent_string(10000).as_str(), "100.00%");
}

#[test]
fn report_insert_replaces_in_place_and_appends_fresh_keys() {
    let mut r = Report::new();
    r.insert("a".to_string(), "1".to_string());
    r.insert("b".to_string(), "2".to_string());
    r.insert("a".to_string(), "3".to_string());
    assert_eq!(r.len(), 2);
    let (k0, v0) = r.entry_at(0);
    assert_eq!((k0.as_str(), v0.as_str()), ("a", "3"));
    let (k1, v1) = r.entry_at(1);
    assert_eq!((k1.as_str(), v1.as_str()), ("b", "2"));
    assert_eq!(r.get(&"a".to_string()).unwrap().as_str(), "3");
    assert_eq!(r.get(&"c".to_string()), None);
}

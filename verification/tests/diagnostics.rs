use std::time::{SystemTime, UNIX_EPOCH};

use waddle::diagnostics::{prune, state_path, History, Record, MAX_RECORDS, RETENTION_SECS};

fn now() -> u64 {
    SystemTime::now().duration_since(UNIX_EPOCH).map(|elapsed| elapsed.as_secs()).unwrap_or(0)
}

fn record(timestamp: u64, summary: &str) -> Record {
    Record { timestamp, summary: summary.to_owned(), detail: "detail".to_owned() }
}

#[test]
fn history_keeps_the_newest_hundred_and_reports_newest_first() {
    let mut history = History::open("/state/diagnostics.json".to_owned(), Vec::new(), 1000);
    for index in 0..105u64 {
        history.record_at(format!("failure {index}"), "detail".to_owned(), 1000 + index);
    }
    assert_eq!(history.records().len(), MAX_RECORDS);
    let report = history.report_at(Err("unreadable".to_owned()), 1200);
    assert!(!report.contains("failure 0\n"));
    assert!(report.contains("failure 104"));
    assert!(report.starts_with("1104\nfailure 104\ndetail\n\n1103\nfailure 103"));
}

#[test]
fn pruning_drops_old_records_and_sorts_stably() {
    let day = 24 * 60 * 60;
    let now = 40 * day;
    let mut records = vec![
        record(now - day, "b"),
        record(now - 31 * day, "too old"),
        record(now - 2 * day, "a"),
        record(now - day, "c"),
    ];
    prune(&mut records, now);
    let summaries: Vec<&str> = records.iter().map(|r| r.summary.as_str()).collect();
    assert_eq!(summaries, ["a", "b", "c"]);

    let mut early = vec![record(5, "x")];
    prune(&mut early, RETENTION_SECS - 1);
    assert_eq!(early.len(), 1);
}

#[test]
fn saving_merges_the_shared_file_with_pending_failures() {
    let mut history = History::open("/state/d.json".to_owned(), Vec::new(), 100);
    history.record_at("mine".to_owned(), "out".to_owned(), 100);
    let shared = vec![record(50, "other window")];
    let to_save = history.records_to_save(&shared, 100);
    assert_eq!(to_save.len(), 2);
    assert_eq!(to_save[0].summary, "other window");
    history.saved(to_save);
    let report = history.report_at(Ok(vec![record(50, "other window"), record(100, "mine")]), 100);
    assert!(report.contains("other window"));
    assert_eq!(history.records().len(), 2);
}

#[test]
fn an_empty_history_says_so() {
    let mut history = History::open("/state/d.json".to_owned(), Vec::new(), now());
    assert_eq!(
        history.report(Ok(Vec::new())),
        "No command failures recorded in the last 30 days."
    );
    history.record("failed".to_owned(), "why".to_owned());
    assert!(history.report(Err("gone".to_owned())).contains("failed\nwhy"));
}

#[test]
fn the_diagnostics_file_follows_the_state_folder() {
    assert_eq!(state_path(Some("/state"), Some("/home/me")), "/state/waddle/diagnostics.json");
    assert_eq!(state_path(None, Some("/home/me")), "/home/me/.local/state/waddle/diagnostics.json");
    assert_eq!(state_path(None, None), ".waddle-diagnostics.json");
}

#[test]
fn pruning_twice_at_the_same_moment_changes_nothing_more() {
    let day = 24 * 60 * 60;
    let now = 40 * day;
    let mut records: Vec<Record> = (0..130u64).map(|i| record(now - (i % 35) * day, "r")).collect();
    records.push(record(now - 45 * day, "old"));
    prune(&mut records, now);
    assert_eq!(records.len(), MAX_RECORDS);
    let once = records.clone();
    prune(&mut records, now);
    assert_eq!(records, once);
}

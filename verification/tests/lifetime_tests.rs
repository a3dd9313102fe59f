use changeset_age::ChangesetLifetime;
use changeset_age::HistoryEvent;
use changeset_age::LifetimeError;
use changeset_age::ObservationWindow;
use changeset_age::PathHistory;
use changeset_age::WindowError;
use changeset_age::build_report;
use changeset_age::entry_line;
use changeset_age::render::summary_line;
use changeset_age::resolve::resolve_created;
use changeset_age::resolve::resolve_deleted;
use changeset_age::report::evaluate_candidate;
use changeset_age::report::mean_minutes;
use changeset_age::report::sort_by_age_desc;
use changeset_age::textutil::base_name;
use changeset_age::textutil::distinct_paths;
use changeset_age::textutil::fmt_u64;
use changeset_age::textutil::line_tokens;
use changeset_age::textutil::normalize_lines;
use changeset_age::textutil::trim_str;

// Epoch seconds for the instants the scenarios use.
const T_2024_01_01: i64 = 1_704_067_200;
const T_2024_02_01: i64 = 1_706_745_600;
const T_2024_03_01: i64 = 1_709_251_200;
const T_2024_04_01: i64 = 1_711_929_600;
const THIRTY_DAYS_SECS: i64 = 2_592_000;
const DAY_MINUTES: i64 = 1_440;

fn strings(v: &[&str]) -> Vec<String> {
    v.iter().map(|s| s.to_string()).collect()
}

fn window(start: i64, end: i64, min_age: i64) -> ObservationWindow {
    ObservationWindow::new(start, end, min_age).expect("valid window")
}

#[test]
fn window_requires_end_after_start() {
    assert_eq!(
        ObservationWindow::new(10, 10, 0).unwrap_err(),
        WindowError::EndNotAfterStart
    );
    assert_eq!(
        ObservationWindow::new(10, 5, 0).unwrap_err(),
        WindowError::EndNotAfterStart
    );
    assert_eq!(
        ObservationWindow::new(0, 1, -1).unwrap_err(),
        WindowError::NegativeThreshold
    );
    let w = window(1, 2, 3);
    assert_eq!(w.start_secs, 1);
    assert_eq!(w.end_secs, 2);
    assert_eq!(w.min_age_secs, 3);
}

#[test]
fn trim_removes_surrounding_whitespace() {
    assert_eq!(trim_str("  a b\t"), "a b");
    assert_eq!(trim_str("\r\n"), "");
    assert_eq!(trim_str("x"), "x");
    assert_eq!(trim_str(""), "");
}

#[test]
fn normalize_drops_empty_lines_and_trims() {
    let got = normalize_lines("  first line \n\n second \r\n\t\n");
    assert_eq!(got, strings(&["first line", "second"]));
    assert_eq!(normalize_lines(""), Vec::<String>::new());
    assert_eq!(normalize_lines("\n\n \n"), Vec::<String>::new());
    assert_eq!(normalize_lines("only"), strings(&["only"]));
}

#[test]
fn tokens_split_on_whitespace_runs() {
    let toks = line_tokens("abcd  2024-01-01T00:00:00Z \textra");
    assert_eq!(toks, strings(&["abcd", "2024-01-01T00:00:00Z", "extra"]));
    assert_eq!(line_tokens("   "), Vec::<String>::new());
    assert_eq!(line_tokens("one"), strings(&["one"]));
}

#[test]
fn distinct_paths_keeps_first_occurrences() {
    let got = distinct_paths(&strings(&["a", "b", "a", "c", "b"]));
    assert_eq!(got, strings(&["a", "b", "c"]));
    assert_eq!(distinct_paths(&strings(&[])), Vec::<String>::new());
}

#[test]
fn base_name_takes_last_component() {
    assert_eq!(base_name(".changeset/foo.md"), "foo.md");
    assert_eq!(base_name("a/b/c"), "c");
    assert_eq!(base_name("plain"), "plain");
}

#[test]
fn fmt_u64_renders_decimal() {
    assert_eq!(fmt_u64(0), "0");
    assert_eq!(fmt_u64(7), "7");
    assert_eq!(fmt_u64(1203), "1203");
    assert_eq!(fmt_u64(u64::MAX), "18446744073709551615");
}

#[test]
fn resolve_created_takes_oldest_add() {
    // Most-recent-first history: the creation event is the last line.
    let lines = strings(&[
        "ffff 2024-03-01T00:00:00Z",
        "aaaa 2024-01-01T00:00:00Z",
    ]);
    let ev: HistoryEvent = resolve_created(&lines).expect("resolves");
    assert_eq!(ev.commit, "aaaa");
    assert_eq!(ev.timestamp_secs, T_2024_01_01);
}

#[test]
fn resolve_created_reports_each_failure() {
    assert_eq!(
        resolve_created(&strings(&[])).unwrap_err(),
        LifetimeError::MissingAddHistory
    );
    assert_eq!(
        resolve_created(&strings(&["onlyhash"])).unwrap_err(),
        LifetimeError::MalformedAddRecord
    );
    assert_eq!(
        resolve_created(&strings(&["hash notadate"])).unwrap_err(),
        LifetimeError::BadAddTimestamp
    );
}

#[test]
fn resolve_created_honours_offsets() {
    // +02:00 means two hours before the same wall-clock instant in UTC.
    let lines = strings(&["aaaa 2024-01-01T02:00:00+02:00"]);
    let ev = resolve_created(&lines).expect("resolves");
    assert_eq!(ev.timestamp_secs, T_2024_01_01);
}

#[test]
fn resolve_deleted_takes_newest_delete_and_recovers() {
    let lines = strings(&[
        "bbbb 2024-03-01T00:00:00Z",
        "aaaa 2024-01-01T00:00:00Z",
    ]);
    let ev = resolve_deleted(&lines).expect("present");
    assert_eq!(ev.commit, "bbbb");
    assert_eq!(ev.timestamp_secs, T_2024_03_01);
    // No delete history, a short record, or a bad timestamp all mean
    // "no deletion", never an error.
    assert!(resolve_deleted(&strings(&[])).is_none());
    assert!(resolve_deleted(&strings(&["only"])).is_none());
    assert!(resolve_deleted(&strings(&["hash notadate"])).is_none());
}

#[test]
fn candidate_created_after_end_is_excluded() {
    let w = window(T_2024_01_01, T_2024_02_01, 0);
    let r = evaluate_candidate(T_2024_02_01 + 1, Some(T_2024_03_01), 0, &w);
    assert!(r.is_none());
}

#[test]
fn candidate_removed_before_start_is_excluded() {
    let w = window(T_2024_01_01, T_2024_02_01, 0);
    let r = evaluate_candidate(T_2024_01_01 - 100, Some(T_2024_01_01 - 1), 0, &w);
    assert!(r.is_none());
}

#[test]
fn candidate_with_zero_age_is_excluded() {
    let w = window(T_2024_01_01, T_2024_02_01, 0);
    // Created and removed within the same minute: no signal.
    let r = evaluate_candidate(T_2024_01_01, Some(T_2024_01_01 + 59), 0, &w);
    assert!(r.is_none());
    let r = evaluate_candidate(T_2024_01_01, Some(T_2024_01_01), 0, &w);
    assert!(r.is_none());
}

#[test]
fn boundary_age_at_threshold() {
    let w = window(T_2024_01_01, T_2024_02_01, THIRTY_DAYS_SECS);
    // Age exactly at the threshold meets `age >= min_days` and survives.
    let r = evaluate_candidate(
        T_2024_01_01,
        Some(T_2024_01_01 + THIRTY_DAYS_SECS),
        0,
        &w,
    );
    assert_eq!(r, Some(30 * DAY_MINUTES));
    // One minute short of the threshold is excluded.
    let r = evaluate_candidate(
        T_2024_01_01,
        Some(T_2024_01_01 + THIRTY_DAYS_SECS - 60),
        0,
        &w,
    );
    assert!(r.is_none());
    // One minute past the threshold is included.
    let r = evaluate_candidate(
        T_2024_01_01,
        Some(T_2024_01_01 + THIRTY_DAYS_SECS + 60),
        0,
        &w,
    );
    assert_eq!(r, Some(30 * DAY_MINUTES + 1));
}

#[test]
fn age_truncates_to_whole_minutes() {
    let w = window(0, 1, 0);
    let r = evaluate_candidate(0, Some(60 * 7 + 59), 0, &w);
    assert_eq!(r, Some(7));
}

#[test]
fn still_present_file_ages_against_now() {
    // A file added and never deleted, with "now" fixed for the test.
    let w = window(T_2024_01_01, T_2024_02_01, THIRTY_DAYS_SECS);
    let now = T_2024_01_01 + 45 * 86_400;
    let r = evaluate_candidate(T_2024_01_01, None, now, &w);
    assert_eq!(r, Some(45 * DAY_MINUTES));
}

fn foo_md_history() -> PathHistory {
    PathHistory {
        path: ".changeset/foo.md".to_string(),
        added: strings(&["aaaa 2024-01-01T00:00:00Z"]),
        deleted: strings(&["bbbb 2024-03-01T00:00:00Z"]),
    }
}

#[test]
fn scenario_deletion_after_end_still_included() {
    // Creation within the window; deletion after `end` but not before
    // `start`: included, with a minute-truncated age of sixty days.
    let w = window(T_2024_01_01, T_2024_02_01, THIRTY_DAYS_SECS);
    let rep = build_report(&vec![foo_md_history()], &w, 0).expect("no resolution errors");
    assert_eq!(rep.entries.len(), 1);
    let e = &rep.entries[0];
    assert_eq!(e.name, "foo.md");
    assert_eq!(e.commit_added, "aaaa");
    assert_eq!(e.commit_removed.as_deref(), Some("bbbb"));
    assert_eq!(e.age_minutes, 60 * DAY_MINUTES);
    assert_eq!(rep.mean_minutes, 60 * DAY_MINUTES);
}

#[test]
fn scenario_deletion_before_start_excluded() {
    // The same file, but the window opens after its deletion.
    let w = window(T_2024_04_01, T_2024_04_01 + 86_400, THIRTY_DAYS_SECS);
    let rep = build_report(&vec![foo_md_history()], &w, 0).expect("no resolution errors");
    assert_eq!(rep.entries.len(), 0);
    assert_eq!(rep.mean_minutes, 0);
}

#[test]
fn scenario_report_errs_on_unresolvable_candidate() {
    let broken = PathHistory {
        path: ".changeset/bad.md".to_string(),
        added: strings(&[]),
        deleted: strings(&[]),
    };
    let w = window(T_2024_01_01, T_2024_02_01, 0);
    let err = build_report(&vec![broken], &w, 0).unwrap_err();
    assert_eq!(err, LifetimeError::MissingAddHistory);
}

#[test]
fn report_sorts_by_age_descending_and_means() {
    // Two entries, forty-five and ninety days old: the ninety-day entry
    // comes first, and the mean is 67.5 days truncated to whole minutes.
    let young = PathHistory {
        path: ".changeset/young.md".to_string(),
        added: strings(&["y1 2024-01-01T00:00:00Z"]),
        deleted: strings(&["y2 2024-02-15T00:00:00Z"]),
    };
    let old = PathHistory {
        path: ".changeset/old.md".to_string(),
        added: strings(&["o1 2024-01-01T00:00:00Z"]),
        deleted: strings(&["o2 2024-03-31T00:00:00Z"]),
    };
    let w = window(T_2024_01_01, T_2024_04_01, THIRTY_DAYS_SECS);
    let rep = build_report(&vec![young, old], &w, 0).expect("no resolution errors");
    assert_eq!(rep.entries.len(), 2);
    assert_eq!(rep.entries[0].name, "old.md");
    assert_eq!(rep.entries[0].age_minutes, 90 * DAY_MINUTES);
    assert_eq!(rep.entries[1].name, "young.md");
    assert_eq!(rep.entries[1].age_minutes, 45 * DAY_MINUTES);
    assert_eq!(rep.mean_minutes, 97_200);
}

#[test]
fn empty_candidate_set_reports_zero() {
    let w = window(T_2024_01_01, T_2024_02_01, THIRTY_DAYS_SECS);
    let rep = build_report(&vec![], &w, 0).expect("empty is fine");
    assert_eq!(rep.entries.len(), 0);
    assert_eq!(rep.mean_minutes, 0);
    assert_eq!(
        summary_line(rep.entries.len(), rep.mean_minutes),
        "Total: 0 changesets (0s)"
    );
}

#[test]
fn sort_and_mean_on_plain_records() {
    let mk = |age: i64| ChangesetLifetime {
        name: "n".to_string(),
        commit_added: "a".to_string(),
        commit_removed: None,
        age_minutes: age,
    };
    let sorted = sort_by_age_desc(vec![mk(5), mk(9), mk(7)]);
    let ages: Vec<i64> = sorted.iter().map(|e| e.age_minutes).collect();
    assert_eq!(ages, vec![9, 7, 5]);
    assert_eq!(mean_minutes(&sorted), 7);
    // The mean rounds down.
    let sorted = sort_by_age_desc(vec![mk(2), mk(3)]);
    assert_eq!(mean_minutes(&sorted), 2);
}

#[test]
fn entry_line_formats_each_field() {
    let e = ChangesetLifetime {
        name: "foo.md".to_string(),
        commit_added: "aaaa".to_string(),
        commit_removed: Some("bbbb".to_string()),
        age_minutes: 45,
    };
    assert_eq!(entry_line(&e), "foo.md aaaa - bbbb  (45m)");
    let still_here = ChangesetLifetime {
        name: "bar.md".to_string(),
        commit_added: "cccc".to_string(),
        commit_removed: None,
        age_minutes: 125,
    };
    assert_eq!(entry_line(&still_here), "bar.md cccc -   (2h 5m)");
}

#[test]
fn summary_line_shows_count_and_mean() {
    assert_eq!(summary_line(3, 45), "Total: 3 changesets (45m)");
    assert_eq!(summary_line(1, 1), "Total: 1 changesets (1m)");
}

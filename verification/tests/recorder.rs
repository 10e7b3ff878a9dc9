use starlark_typing::recorder::calculate_diff_if_some;
use starlark_typing::recorder::merge_file_watcher_stats;
use starlark_typing::recorder::process_memory;
use starlark_typing::recorder::truncate_stderr;
use starlark_typing::recorder::FileWatcherStats;
use starlark_typing::recorder::Snapshot;

#[test]
fn test_truncate_stderr() {
    let mut stderr = String::new();
    stderr.push_str("prefix");
    stderr.push('Ъ'); // two bytes, so the ideal cut lands inside the character
    for _ in 0..19_999 {
        stderr.push('a');
    }
    let truncated = truncate_stderr(&stderr);
    assert_eq!(truncated.len(), 19999);
}

#[test]
fn truncate_stderr_short_input_unchanged() {
    let stderr = "all fine";
    assert_eq!(truncate_stderr(stderr), "all fine");
}

#[test]
fn truncate_stderr_exact_boundary() {
    let mut stderr = String::new();
    for _ in 0..20_000 {
        stderr.push('a');
    }
    stderr.push('b');
    let truncated = truncate_stderr(&stderr);
    assert_eq!(truncated.len(), 20_000);
    assert!(truncated.ends_with('b'));
    assert!(truncated.starts_with('a'));
}

#[test]
fn diff_of_present_counters() {
    assert_eq!(calculate_diff_if_some(&Some(10), &Some(4)), Some(6));
    assert_eq!(calculate_diff_if_some(&Some(4), &Some(10)), Some(6));
    assert_eq!(calculate_diff_if_some(&Some(7), &Some(7)), Some(0));
}

#[test]
fn diff_needs_both_counters() {
    assert_eq!(calculate_diff_if_some(&Some(10), &None), None);
    assert_eq!(calculate_diff_if_some(&None, &Some(10)), None);
    assert_eq!(calculate_diff_if_some(&None, &None), None);
}

#[test]
fn process_memory_takes_the_larger_counter() {
    let s = Snapshot { malloc_bytes_active: Some(10), buck2_rss: Some(99) };
    assert_eq!(process_memory(&s), Some(99));
    let s = Snapshot { malloc_bytes_active: Some(100), buck2_rss: Some(99) };
    assert_eq!(process_memory(&s), Some(100));
    let s = Snapshot { malloc_bytes_active: Some(5), buck2_rss: None };
    assert_eq!(process_memory(&s), Some(5));
    let s = Snapshot { malloc_bytes_active: None, buck2_rss: Some(7) };
    assert_eq!(process_memory(&s), Some(7));
    let s = Snapshot { malloc_bytes_active: None, buck2_rss: None };
    assert_eq!(process_memory(&s), None);
}

fn stats(fresh: bool, total: u64, processed: u64, rev: Option<&str>) -> FileWatcherStats {
    FileWatcherStats {
        fresh_instance: fresh,
        events_total: total,
        events_processed: processed,
        branched_from_revision: rev.map(|s| s.to_owned()),
        branched_from_global_rev: None,
        branched_from_revision_timestamp: None,
        events: Vec::new(),
        incomplete_events_reason: None,
        watchman_version: None,
    }
}

#[test]
fn merge_file_watcher_stats_adds_and_ors() {
    let mut a = stats(false, 3, 2, None);
    a.events.push("cell//pkg/a.bzl".to_owned());
    let mut b = stats(true, 4, 4, Some("abc123"));
    b.events.push("cell//pkg/b.bzl".to_owned());
    let m = merge_file_watcher_stats(Some(a), Some(b)).unwrap();
    assert!(m.fresh_instance);
    assert_eq!(m.events_total, 7);
    assert_eq!(m.events_processed, 6);
    assert_eq!(m.branched_from_revision.as_deref(), Some("abc123"));
    assert_eq!(m.events.len(), 2);
    assert_eq!(m.events[0], "cell//pkg/a.bzl");
    assert_eq!(m.events[1], "cell//pkg/b.bzl");
}

#[test]
fn merge_file_watcher_stats_one_side() {
    let a = stats(false, 3, 2, Some("r1"));
    let m = merge_file_watcher_stats(Some(a), None).unwrap();
    assert_eq!(m.events_total, 3);
    assert_eq!(m.branched_from_revision.as_deref(), Some("r1"));
    let b = stats(true, 1, 1, None);
    let m = merge_file_watcher_stats(None, Some(b)).unwrap();
    assert!(m.fresh_instance);
    assert!(merge_file_watcher_stats(None, None).is_none());
}

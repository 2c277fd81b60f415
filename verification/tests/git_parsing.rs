use std::time::SystemTime;

use git_dash::git::{
    format_age, parse_ahead_behind, parse_branch_line, parse_commit_line, parse_last_commit,
    parse_status_line, truncate_message,
};

#[test]
fn ahead_behind_parses_tab_separated() {
    assert_eq!(parse_ahead_behind("3\t5\n"), (3, 5));
    assert_eq!(parse_ahead_behind("0\t0"), (0, 0));
}

#[test]
fn ahead_behind_handles_malformed_input() {
    // No upstream / unexpected shape falls back to zeros.
    assert_eq!(parse_ahead_behind(""), (0, 0));
    assert_eq!(parse_ahead_behind("garbage"), (0, 0));
    assert_eq!(parse_ahead_behind("1 2"), (0, 0));
}

#[test]
fn last_commit_parses_timestamp_and_subject() {
    let (_age, msg, ts) = parse_last_commit("1700000000\tInitial commit");
    assert_eq!(msg, "Initial commit");
    assert_eq!(ts, 1700000000);
}

#[test]
fn last_commit_handles_no_commits() {
    let (age, msg, ts) = parse_last_commit("");
    assert_eq!(age, "never");
    assert_eq!(msg, "no commits");
    assert_eq!(ts, 0);
}

#[test]
fn truncate_message_leaves_short_subjects_untouched() {
    assert_eq!(truncate_message("short"), "short");
}

#[test]
fn truncate_message_shortens_long_subjects_with_ellipsis() {
    let long = "a".repeat(100);
    let out = truncate_message(&long);
    assert!(out.ends_with("..."));
    assert!(out.len() < long.len());
}

#[test]
fn truncate_message_respects_char_boundaries() {
    // Multi-byte chars must not be split mid-codepoint.
    let long = "é".repeat(80);
    let out = truncate_message(&long);
    assert!(out.ends_with("..."));
}

#[test]
fn format_age_reports_just_now_for_current_time() {
    let now = SystemTime::now()
        .duration_since(SystemTime::UNIX_EPOCH)
        .unwrap()
        .as_secs() as i64;
    assert_eq!(format_age(now), "just now");
}

#[test]
fn format_age_reports_future_for_future_timestamps() {
    let now = SystemTime::now()
        .duration_since(SystemTime::UNIX_EPOCH)
        .unwrap()
        .as_secs() as i64;
    assert_eq!(format_age(now + 10_000), "future");
}

#[test]
fn format_age_buckets_relative_times() {
    let now = SystemTime::now()
        .duration_since(SystemTime::UNIX_EPOCH)
        .unwrap()
        .as_secs() as i64;
    assert_eq!(format_age(now - 120), "2m ago");
    assert_eq!(format_age(now - 7_200), "2h ago");
    assert_eq!(format_age(now - 3 * 86_400), "3d ago");
    assert_eq!(format_age(now - 14 * 86_400), "2w ago");
}

#[test]
fn branch_line_marks_current_and_extracts_tracking() {
    let b = parse_branch_line("* main 1a2b3c4 [origin/main] latest work");
    assert!(b.is_current);
    assert_eq!(b.name, "main");
    assert_eq!(b.tracking.as_deref(), Some("origin/main"));
}

#[test]
fn branch_line_without_tracking_or_star() {
    let b = parse_branch_line("  feature/x 9f8e7d6 wip");
    assert!(!b.is_current);
    assert_eq!(b.name, "feature/x");
    assert_eq!(b.tracking, None);
}

#[test]
fn commit_line_parses_four_fields() {
    let c = parse_commit_line("1a2b3c4\tJane Doe\t2 days ago\tFix the bug").unwrap();
    assert_eq!(c.hash, "1a2b3c4");
    assert_eq!(c.author, "Jane Doe");
    assert_eq!(c.date, "2 days ago");
    assert_eq!(c.message, "Fix the bug");
}

#[test]
fn commit_line_keeps_tabs_in_subject() {
    // splitn(4) means tabs inside the subject are preserved.
    let c = parse_commit_line("h\ta\td\tmsg\twith\ttabs").unwrap();
    assert_eq!(c.message, "msg\twith\ttabs");
}

#[test]
fn commit_line_rejects_malformed_lines() {
    assert!(parse_commit_line("not enough fields").is_none());
    assert!(parse_commit_line("").is_none());
}

#[test]
fn status_line_splits_code_and_path() {
    let f = parse_status_line(" M src/main.rs");
    assert_eq!(f.status, "M");
    assert_eq!(f.path, "src/main.rs");

    let f = parse_status_line("?? new_file.txt");
    assert_eq!(f.status, "??");
    assert_eq!(f.path, "new_file.txt");
}

use git_dash::git::{
    branch_from_head, branches_from_listing, changed_files_from_status, commits_from_log,
    dirty_count_from_status, format_age_at, parse_ahead_behind, parse_branch_line,
    parse_last_commit_at, parse_status_line, repo_detail_from_outputs, repo_info_from_outputs,
    sort_discovered, stashes_from_list, truncate_message,
};
use git_dash::number::{parse_i64, parse_u32};
use git_dash::text::{chars_of, contains_chars, filled_lines_of};

fn chars(s: &str) -> Vec<char> {
    s.chars().collect()
}

#[test]
fn lines_drop_empty_ones_and_carriage_returns() {
    let ls = filled_lines_of("a\r\n\nb\n\r\nc");
    let ls: Vec<String> = ls.iter().map(|l| l.iter().collect()).collect();
    assert_eq!(ls, vec!["a", "b", "c"]);
    assert!(filled_lines_of("").is_empty());
    assert!(filled_lines_of("\n\n").is_empty());
}

#[test]
fn commits_skip_malformed_lines() {
    let log = "a1\tAnn\t1 day ago\tFirst\nbroken line\n\nb2\tBob\t2 days ago\tSecond\n";
    let commits = commits_from_log(Some(log));
    assert_eq!(commits.len(), 2);
    assert_eq!(commits[0].hash, "a1");
    assert_eq!(commits[1].author, "Bob");
    assert!(commits_from_log(None).is_empty());
}

#[test]
fn status_output_lists_every_change() {
    let files = changed_files_from_status(Some(" M a.rs\n?? b.rs\nA  c.rs\n"));
    let got: Vec<(String, String)> =
        files.iter().map(|f| (f.status.clone(), f.path.clone())).collect();
    assert_eq!(
        got,
        vec![
            ("M".to_string(), "a.rs".to_string()),
            ("??".to_string(), "b.rs".to_string()),
            ("A".to_string(), "c.rs".to_string()),
        ]
    );
    assert_eq!(dirty_count_from_status(Some(" M a.rs\n?? b.rs\n\n")), 2);
    assert_eq!(dirty_count_from_status(None), 0);
}

#[test]
fn short_status_lines_fall_back() {
    let f = parse_status_line("M");
    assert_eq!(f.status, "??");
    assert_eq!(f.path, "");
    let f = parse_status_line("é");
    assert_eq!(f.status, "é");
    assert_eq!(f.path, "");
}

#[test]
fn branch_listing_and_edge_lines() {
    let bs = branches_from_listing(Some("* main abc [origin/main] x\n  dev def y\n"));
    assert_eq!(bs.len(), 2);
    assert!(bs[0].is_current);
    assert_eq!(bs[1].name, "dev");
    let b = parse_branch_line("  x ] then [ y");
    assert_eq!(b.tracking, None);
    let b = parse_branch_line("**");
    assert!(b.is_current);
    assert_eq!(b.name, "");
}

#[test]
fn stashes_are_the_non_empty_lines() {
    let s = stashes_from_list(Some("stash@{0}: WIP\n\nstash@{1}: more\n"));
    assert_eq!(s, vec!["stash@{0}: WIP", "stash@{1}: more"]);
    assert!(stashes_from_list(None).is_empty());
}

#[test]
fn head_branch_is_trimmed_or_unknown() {
    assert_eq!(branch_from_head(Some("main\n")), "main");
    assert_eq!(branch_from_head(None), "???");
}

#[test]
fn ahead_behind_reads_back_what_git_prints() {
    let out = format!("{}\t{}\n", 123u32, 45u32);
    assert_eq!(parse_ahead_behind(&out), (123, 45));
    assert_eq!(parse_ahead_behind("1\t2\t3"), (0, 0));
    assert_eq!(parse_ahead_behind("x\t7"), (0, 7));
    assert_eq!(parse_ahead_behind("99999999999\t1"), (0, 1));
}

#[test]
fn numbers_parse_like_std() {
    assert_eq!(parse_u32(&chars("+5")), Some(5));
    assert_eq!(parse_u32(&chars("4294967295")), Some(u32::MAX));
    assert_eq!(parse_u32(&chars("4294967296")), None);
    assert_eq!(parse_u32(&chars("-1")), None);
    assert_eq!(parse_u32(&chars("")), None);
    assert_eq!(parse_u32(&chars("+")), None);
    assert_eq!(parse_i64(&chars("-9223372036854775808")), Some(i64::MIN));
    assert_eq!(parse_i64(&chars("9223372036854775808")), None);
    assert_eq!(parse_i64(&chars("-0")), Some(0));
    assert_eq!(parse_i64(&chars("-")), None);
    assert_eq!(parse_i64(&chars("12a")), None);
}

#[test]
fn age_labels_at_fixed_times() {
    let now = 1_000_000_000;
    assert_eq!(format_age_at(now, now), "just now");
    assert_eq!(format_age_at(now, now + 1), "future");
    assert_eq!(format_age_at(now, now - 59), "just now");
    assert_eq!(format_age_at(now, now - 60), "1m ago");
    assert_eq!(format_age_at(now, now - 3600), "1h ago");
    assert_eq!(format_age_at(now, now - 86_400 * 6), "6d ago");
    assert_eq!(format_age_at(now, now - 86_400 * 34), "4w ago");
    assert_eq!(format_age_at(now, now - 86_400 * 35), "1mo ago");
    assert_eq!(format_age_at(now, now - 86_400 * 400), "13mo ago");
}

#[test]
fn last_commit_at_a_fixed_time() {
    let (age, msg, ts) = parse_last_commit_at("1000\thello\n", 1000 + 7200);
    assert_eq!(age, "2h ago");
    assert_eq!(msg, "hello");
    assert_eq!(ts, 1000);
    let (age, _, ts) = parse_last_commit_at("oops\tsubject", 100);
    assert_eq!(ts, 0);
    assert_eq!(age, "1m ago");
}

#[test]
fn truncation_stays_within_sixty_characters() {
    let long = "a".repeat(100);
    let out = truncate_message(&long);
    assert_eq!(out.len(), 60);
    assert_eq!(out, format!("{}...", "a".repeat(57)));
    let wide = "é".repeat(80);
    let out = truncate_message(&wide);
    assert_eq!(out, format!("{}...", "é".repeat(57)));
    assert_eq!(out.chars().count(), 60);
    let fits = "é".repeat(40);
    assert_eq!(truncate_message(&fits), fits);
    let exact = "b".repeat(60);
    assert_eq!(truncate_message(&exact), exact);
    let one_over = "c".repeat(61);
    assert_eq!(truncate_message(&one_over), format!("{}...", "c".repeat(57)));
}

#[test]
fn repo_summary_from_outputs() {
    let r = repo_info_from_outputs(
        "/x/proj".to_string(),
        "proj".to_string(),
        Some("dev\n"),
        Some("2\t1\n"),
        Some(" M a\n"),
        Some("500\tfix\n"),
        500,
    );
    assert_eq!(r.branch, "dev");
    assert_eq!((r.ahead, r.behind), (2, 1));
    assert_eq!(r.dirty_count, 1);
    assert_eq!(r.last_commit_age, "just now");
    assert_eq!(r.last_commit_message, "fix");
    assert_eq!(r.last_commit_timestamp, 500);
    let r = repo_info_from_outputs("p".to_string(), "n".to_string(), None, None, None, None, 0);
    assert_eq!(r.branch, "???");
    assert_eq!(r.last_commit_age, "never");
    assert_eq!(r.last_commit_message, "no commits");
}

#[test]
fn detail_from_outputs() {
    let d = repo_detail_from_outputs(Some("h\ta\td\tm\n"), None, Some("* main\n"), Some("s\n"));
    assert_eq!(d.commits.len(), 1);
    assert!(d.changed_files.is_empty());
    assert_eq!(d.branches[0].name, "main");
    assert_eq!(d.stashes, vec!["s"]);
}

#[test]
fn discovered_repositories_sort_by_lowercased_name() {
    let paths = vec!["/r/b".to_string(), "/r/A".to_string(), "/r/a".to_string(), "/r/C".to_string()];
    let names = vec!["b".to_string(), "A".to_string(), "a".to_string(), "C".to_string()];
    assert_eq!(sort_discovered(paths, names), vec!["/r/A", "/r/a", "/r/b", "/r/C"]);
}

#[test]
fn substring_search() {
    assert!(contains_chars(&chars("alphabet"), &chars("hab")));
    assert!(contains_chars(&chars("abc"), &chars("")));
    assert!(!contains_chars(&chars("abc"), &chars("abcd")));
    assert!(!contains_chars(&chars("abc"), &chars("ac")));
    assert_eq!(chars_of("hé"), vec!['h', 'é']);
}

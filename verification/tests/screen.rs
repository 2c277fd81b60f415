use git_dash::app::{DetailTab, SortMode};
use git_dash::compute_scroll_offset;
use git_dash::git::{BranchInfo, RepoInfo};
use git_dash::layout::{
    ahead_behind_text, dirty_text, filter_popup, AUTO_REFRESH_SECS, TICK_MILLIS, row_tone, sort_label, status_tone, summary_counts, tab_index,
    tracking_text, RowTone, StatusTone,
};

fn repo(ahead: u32, behind: u32, dirty: u32) -> RepoInfo {
    RepoInfo {
        path: "p".to_string(),
        name: "n".to_string(),
        branch: "main".to_string(),
        ahead,
        behind,
        dirty_count: dirty,
        last_commit_age: String::new(),
        last_commit_message: String::new(),
        last_commit_timestamp: 0,
        error: None,
    }
}

#[test]
fn scroll_offset_keeps_the_selection_visible() {
    assert_eq!(compute_scroll_offset(3, 5, 10), 0);
    assert_eq!(compute_scroll_offset(1, 20, 6), 0);
    assert_eq!(compute_scroll_offset(10, 20, 6), 7);
    assert_eq!(compute_scroll_offset(18, 20, 6), 14);
    assert_eq!(compute_scroll_offset(19, 20, 6), 14);
    for sel in 0..30 {
        let off = compute_scroll_offset(sel, 30, 7);
        assert!(off <= sel && sel < off + 7);
        assert!(off + 7 <= 30);
    }
}

#[test]
fn summary_counts_by_state() {
    let repos = vec![repo(0, 0, 0), repo(1, 0, 0), repo(0, 2, 3), repo(0, 0, 4)];
    let c = summary_counts(&repos);
    assert_eq!(c.total, 4);
    assert_eq!(c.clean, 1);
    assert_eq!(c.dirty, 2);
    assert_eq!(c.behind, 1);
    assert_eq!(c.uncommitted, 7);
}

#[test]
fn row_tones_in_priority_order() {
    assert_eq!(row_tone(&repo(1, 1, 1)), RowTone::Behind);
    assert_eq!(row_tone(&repo(1, 0, 1)), RowTone::Dirty);
    assert_eq!(row_tone(&repo(1, 0, 0)), RowTone::Ahead);
    assert_eq!(row_tone(&repo(0, 0, 0)), RowTone::Clean);
}

#[test]
fn cell_texts() {
    assert_eq!(ahead_behind_text(&repo(2, 10, 0)), "↑2 ↓10");
    assert_eq!(ahead_behind_text(&repo(0, 0, 0)), "—");
    assert_eq!(dirty_text(&repo(0, 0, 12)), "12");
    assert_eq!(dirty_text(&repo(0, 0, 0)), "✓");
}

#[test]
fn labels_and_tones() {
    assert_eq!(sort_label(SortMode::Name), "name");
    assert_eq!(sort_label(SortMode::LastCommit), "last commit");
    assert_eq!(sort_label(SortMode::DirtyCount), "dirty count");
    assert_eq!(tab_index(DetailTab::Branches), 2);
    assert_eq!(status_tone("M"), StatusTone::Modified);
    assert_eq!(status_tone("??"), StatusTone::Untracked);
    assert_eq!(status_tone("D"), StatusTone::Deleted);
    assert_eq!(status_tone("A"), StatusTone::Added);
    assert_eq!(status_tone("MM"), StatusTone::Other);
}

#[test]
fn branch_tracking_note() {
    let b = BranchInfo { name: "main".to_string(), is_current: true, tracking: Some("origin/main".to_string()) };
    assert_eq!(tracking_text(&b), " → origin/main");
    let b = BranchInfo { name: "x".to_string(), is_current: false, tracking: None };
    assert_eq!(tracking_text(&b), "");
}

#[test]
fn filter_popup_geometry() {
    let p = filter_popup(100, 30);
    assert_eq!((p.x, p.y, p.width, p.height), (30, 15, 40, 3));
    let p = filter_popup(20, 7);
    assert_eq!((p.x, p.y, p.width, p.height), (2, 3, 16, 3));
    let p = filter_popup(3, 0);
    assert_eq!((p.x, p.y, p.width, p.height), (1, 0, 0, 3));
}

#[test]
fn timing_constants() {
    assert_eq!(AUTO_REFRESH_SECS, 30);
    assert_eq!(TICK_MILLIS, 50);
}

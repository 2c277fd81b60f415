use git_dash::app::{App, DetailTab, Effect, Key, SortMode, View};
use git_dash::git::{CommitInfo, RepoDetail, RepoInfo};

fn repo(name: &str, ts: i64, dirty: u32) -> RepoInfo {
    RepoInfo {
        path: format!("/src/{}", name),
        name: name.to_string(),
        branch: "main".to_string(),
        ahead: 0,
        behind: 0,
        dirty_count: dirty,
        last_commit_age: "1d ago".to_string(),
        last_commit_message: "msg".to_string(),
        last_commit_timestamp: ts,
        error: None,
    }
}

fn names(repos: &[RepoInfo]) -> Vec<String> {
    repos.iter().map(|r| r.name.clone()).collect()
}

fn sample_app() -> App {
    let repos = vec![
        repo("zeta", 300, 0),
        repo("Alpha", 100, 5),
        repo("beta", 200, 2),
        repo("alpha", 400, 5),
    ];
    let paths = repos.iter().map(|r| r.path.clone()).collect();
    App::new("/src".to_string(), paths, repos)
}

fn detail(commits: usize) -> RepoDetail {
    let mut list = Vec::new();
    for i in 0..commits {
        list.push(CommitInfo {
            hash: format!("h{}", i),
            author: "a".to_string(),
            date: "d".to_string(),
            message: "m".to_string(),
        });
    }
    RepoDetail { commits: list, changed_files: vec![], branches: vec![], stashes: vec![] }
}

#[test]
fn new_app_starts_on_the_list() {
    let app = sample_app();
    assert_eq!(app.selected, 0);
    assert!(matches!(app.view, View::RepoList));
    assert_eq!(app.sort_mode, SortMode::Name);
    assert_eq!(app.detail_tab, DetailTab::Commits);
    assert!(app.filter_text.is_empty());
    assert!(!app.should_quit);
}

#[test]
fn name_sort_ignores_case_and_keeps_ties_in_scan_order() {
    let app = sample_app();
    assert_eq!(names(&app.filtered_repos()), vec!["Alpha", "alpha", "beta", "zeta"]);
}

#[test]
fn last_commit_sort_puts_newest_first() {
    let mut app = sample_app();
    app.cycle_sort();
    assert_eq!(app.sort_mode, SortMode::LastCommit);
    assert_eq!(names(&app.filtered_repos()), vec!["alpha", "zeta", "beta", "Alpha"]);
}

#[test]
fn dirty_sort_puts_most_changes_first_stably() {
    let mut app = sample_app();
    app.cycle_sort();
    app.cycle_sort();
    assert_eq!(app.sort_mode, SortMode::DirtyCount);
    assert_eq!(names(&app.filtered_repos()), vec!["Alpha", "alpha", "beta", "zeta"]);
    app.cycle_sort();
    assert_eq!(app.sort_mode, SortMode::Name);
}

#[test]
fn filter_matches_names_case_insensitively() {
    let mut app = sample_app();
    app.start_filter();
    for c in "ALP".chars() {
        app.push_filter_char(c);
    }
    app.apply_filter();
    assert_eq!(names(&app.filtered_repos()), vec!["Alpha", "alpha"]);
    assert_eq!(app.selected, 0);
}

#[test]
fn filter_without_match_empties_the_list() {
    let mut app = sample_app();
    app.filter_input = "nothing".to_string();
    app.apply_filter();
    assert!(app.filtered_repos().is_empty());
    assert_eq!(app.detail_target(), None);
}

#[test]
fn cancel_filter_keeps_the_old_filter() {
    let mut app = sample_app();
    app.filter_text = "eta".to_string();
    app.start_filter();
    assert_eq!(app.filter_input, "eta");
    app.push_filter_char('x');
    app.cancel_filter();
    assert_eq!(app.filter_text, "eta");
    assert!(app.filter_input.is_empty());
    assert!(!app.filter_active);
    assert_eq!(names(&app.filtered_repos()), vec!["beta", "zeta"]);
}

#[test]
fn pop_filter_char_removes_one_character() {
    let mut app = sample_app();
    app.filter_input = "ab".to_string();
    app.pop_filter_char();
    assert_eq!(app.filter_input, "a");
    app.pop_filter_char();
    app.pop_filter_char();
    assert_eq!(app.filter_input, "");
}

#[test]
fn selection_stops_at_both_ends() {
    let mut app = sample_app();
    app.select_prev();
    assert_eq!(app.selected, 0);
    for _ in 0..10 {
        app.select_next();
    }
    assert_eq!(app.selected, 3);
    app.select_prev();
    assert_eq!(app.selected, 2);
}

#[test]
fn rescan_clamps_the_selection() {
    let mut app = sample_app();
    app.selected = 3;
    app.rescan_status(vec![repo("one", 0, 0), repo("two", 0, 0)]);
    assert_eq!(app.selected, 1);
    app.refresh(vec![], vec![]);
    assert_eq!(app.selected, 0);
}

#[test]
fn keys_move_and_jump_in_the_list() {
    let mut app = sample_app();
    assert!(matches!(app.handle_key(Key::Char('j'), false), Effect::Nothing));
    assert_eq!(app.selected, 1);
    app.handle_key(Key::End, false);
    assert_eq!(app.selected, 3);
    app.handle_key(Key::Up, false);
    assert_eq!(app.selected, 2);
    app.handle_key(Key::Char('g'), false);
    assert_eq!(app.selected, 0);
    app.handle_key(Key::Char('G'), false);
    assert_eq!(app.selected, 3);
    app.handle_key(Key::Home, false);
    assert_eq!(app.selected, 0);
}

#[test]
fn enter_asks_for_the_selected_repository() {
    let mut app = sample_app();
    app.handle_key(Key::Down, false);
    match app.handle_key(Key::Enter, false) {
        Effect::OpenDetail(path) => assert_eq!(path, "/src/alpha"),
        other => panic!("unexpected effect {:?}", other),
    }
    assert!(matches!(app.view, View::RepoList));
}

#[test]
fn fetch_starts_once() {
    let mut app = sample_app();
    assert!(matches!(app.handle_key(Key::Char('f'), false), Effect::Fetch));
    assert!(app.fetching);
    assert!(matches!(app.handle_key(Key::Char('f'), false), Effect::Nothing));
    app.finish_fetch(vec![repo("solo", 0, 0)]);
    assert!(!app.fetching);
    assert_eq!(app.repos.len(), 1);
}

#[test]
fn refresh_key_asks_for_a_rescan() {
    let mut app = sample_app();
    assert!(matches!(app.handle_key(Key::Char('r'), false), Effect::Refresh));
}

#[test]
fn quit_keys() {
    let mut app = sample_app();
    app.handle_key(Key::Char('c'), false);
    assert!(!app.should_quit);
    app.handle_key(Key::Char('c'), true);
    assert!(app.should_quit);
    let mut app = sample_app();
    app.handle_key(Key::Char('q'), false);
    assert!(app.should_quit);
}

#[test]
fn filter_prompt_takes_the_keys() {
    let mut app = sample_app();
    app.handle_key(Key::Char('/'), false);
    assert!(app.filter_active);
    app.handle_key(Key::Char('z'), false);
    app.handle_key(Key::Char('q'), false);
    assert!(!app.should_quit);
    app.handle_key(Key::Backspace, false);
    app.handle_key(Key::Enter, false);
    assert!(!app.filter_active);
    assert_eq!(app.filter_text, "z");
    assert_eq!(names(&app.filtered_repos()), vec!["zeta"]);
}

#[test]
fn detail_view_tabs_and_scrolling() {
    let mut app = sample_app();
    app.enter_detail(detail(3));
    assert!(matches!(app.view, View::RepoDetail(0)));
    app.handle_key(Key::Char('j'), false);
    app.handle_key(Key::Down, false);
    app.handle_key(Key::Down, false);
    assert_eq!(app.detail_scroll, 2);
    app.handle_key(Key::Char('k'), false);
    assert_eq!(app.detail_scroll, 1);
    app.handle_key(Key::Tab, false);
    assert_eq!(app.detail_tab, DetailTab::Changes);
    assert_eq!(app.detail_scroll, 0);
    app.handle_key(Key::Down, false);
    assert_eq!(app.detail_scroll, 0);
    app.handle_key(Key::Char('4'), false);
    assert_eq!(app.detail_tab, DetailTab::Stashes);
    app.handle_key(Key::Tab, false);
    assert_eq!(app.detail_tab, DetailTab::Commits);
    app.handle_key(Key::Esc, false);
    assert!(matches!(app.view, View::RepoList));
    assert!(app.detail.is_none());
}

#[test]
fn enter_detail_outside_the_list_changes_nothing() {
    let mut app = sample_app();
    app.selected = 7;
    app.enter_detail(detail(1));
    assert!(matches!(app.view, View::RepoList));
    assert!(app.detail.is_none());
}

#[test]
fn tabs_and_sort_modes_cycle() {
    let mut app = sample_app();
    for _ in 0..4 {
        app.next_tab();
    }
    assert_eq!(app.detail_tab, DetailTab::Commits);
    for _ in 0..3 {
        app.cycle_sort();
    }
    assert_eq!(app.sort_mode, SortMode::Name);
}

#[test]
fn set_tab_resets_scroll() {
    let mut app = sample_app();
    app.detail_scroll = 5;
    app.set_tab(DetailTab::Branches);
    assert_eq!(app.detail_tab, DetailTab::Branches);
    assert_eq!(app.detail_scroll, 0);
}

#[test]
fn selection_survives_every_key() {
    let keys = [
        Key::Down, Key::Char('j'), Key::End, Key::Char('/'), Key::Char('z'), Key::Enter,
        Key::Char('s'), Key::Up, Key::Home, Key::Char('G'), Key::Esc, Key::Tab, Key::Char('3'),
        Key::Char('/'), Key::Backspace, Key::Enter,
    ];
    let mut app = sample_app();
    for k in keys.iter() {
        app.handle_key(*k, false);
        let count = app.filtered_repos().len();
        assert!(app.selected < count || (count == 0 && app.selected == 0));
    }
}

#[test]
fn moving_down_an_empty_list_does_nothing() {
    let mut app = App::new("/src".to_string(), vec![], vec![]);
    app.selected = usize::MAX;
    app.select_next();
    assert_eq!(app.selected, usize::MAX);
    app.handle_key(Key::Down, false);
    assert_eq!(app.selected, usize::MAX);
    app.detail_scroll = usize::MAX;
    app.detail_scroll_down();
    assert_eq!(app.detail_scroll, usize::MAX);
}

#[test]
fn detail_keeps_its_clone() {
    let d = detail(2);
    let copy = d.clone();
    assert_eq!(copy.commits.len(), 2);
}

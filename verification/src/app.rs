//! The dashboard's state: which repositories it lists, in which order, which
//! one is selected, and what each key press does to it.
use vstd::prelude::*;
use vstd::view::View as _;
use crate::git::{RepoDetail, RepoInfo};
use crate::order::{
    is_stable_order, key_lt, key_models, lemma_is_the_stable_order, positions, stable_order,
    stably_sorted, KeyModel, SortKey,
};
use crate::text::{
    chars_of, contains_chars, contains_text, lowercase, string_from_chars, sub_chars, to_lowercase,
};
use vstd::string::*;

verus! {

/// Which screen is shown.
#[derive(Clone, Copy, Debug)]
pub enum View {
    RepoList,
    /// The detail of the repository at this index of the listed repositories.
    RepoDetail(usize),
}

/// The order of the repository list.
#[derive(Clone, Copy, Debug, PartialEq, Eq, Structural)]
pub enum SortMode {
    Name,
    LastCommit,
    DirtyCount,
}

/// The tab of the detail view.
#[derive(Clone, Copy, Debug, PartialEq, Eq, Structural)]
pub enum DetailTab {
    Commits,
    Changes,
    Branches,
    Stashes,
}

/// Whether repository `r` passes the name filter `filter`: an empty filter
/// passes everything; otherwise the lower-cased filter must occur in the
/// lower-cased name.
pub open spec fn passes_filter(r: RepoInfo, filter: Seq<char>) -> bool {
    filter.len() == 0 || contains_text(lowercase(r.name@), lowercase(filter))
}

/// The repositories of `repos` that pass `filter`, in their order.
pub open spec fn matching(repos: Seq<RepoInfo>, filter: Seq<char>) -> Seq<RepoInfo> {
    repos.filter(|r: RepoInfo| passes_filter(r, filter))
}

/// What repository `r` is sorted by under `mode`: its lower-cased name
/// (ascending), its last commit's time or its number of uncommitted changes
/// (both descending).
pub open spec fn sort_key_of(mode: SortMode, r: RepoInfo) -> KeyModel {
    match mode {
        SortMode::Name => KeyModel::Text(lowercase(r.name@)),
        SortMode::LastCommit => KeyModel::Descending(r.last_commit_timestamp as int),
        SortMode::DirtyCount => KeyModel::Descending(r.dirty_count as int),
    }
}

/// The keys of `repos` under `mode`.
pub open spec fn sort_keys(repos: Seq<RepoInfo>, mode: SortMode) -> Seq<KeyModel> {
    repos.map_values(|r: RepoInfo| sort_key_of(mode, r))
}

/// `repos` sorted stably under `mode`.
pub open spec fn sorted_by_mode(repos: Seq<RepoInfo>, mode: SortMode) -> Seq<RepoInfo> {
    stably_sorted(repos, sort_keys(repos, mode))
}

/// The dashboard's state.
pub struct App {
    pub scan_dir: String,
    pub repo_paths: Vec<String>,
    pub repos: Vec<RepoInfo>,
    pub selected: usize,
    pub view: View,
    pub sort_mode: SortMode,
    pub filter_text: String,
    pub filter_input: String,
    pub filter_active: bool,
    pub fetching: bool,
    pub detail: Option<RepoDetail>,
    pub detail_tab: DetailTab,
    pub detail_scroll: usize,
    pub should_quit: bool,
}

impl App {
    /// The repositories that pass the filter, in scan order.
    pub open spec fn matched(self) -> Seq<RepoInfo> {
        matching(self.repos@, self.filter_text@)
    }

    /// The repositories as the list shows them: those that pass the filter,
    /// sorted by the sort mode.
    pub open spec fn listed(self) -> Seq<RepoInfo> {
        sorted_by_mode(self.matched(), self.sort_mode)
    }

    /// How many repositories the list shows.
    pub open spec fn shown_count(self) -> nat {
        self.matched().len()
    }

    /// The selection points into the list, or is 0 when the list is empty.
    pub open spec fn selection_ok(self) -> bool {
        self.selected < self.shown_count() || (self.shown_count() == 0 && self.selected == 0)
    }

    /// How many items the open tab of the detail view has.
    pub open spec fn detail_count(self) -> nat {
        match self.detail {
            Some(d) => match self.detail_tab {
                DetailTab::Commits => d.commits@.len(),
                DetailTab::Changes => d.changed_files@.len(),
                DetailTab::Branches => d.branches@.len(),
                DetailTab::Stashes => d.stashes@.len(),
            },
            None => 0,
        }
    }

    /// The key by which `r` sorts under `mode`.
    fn sort_key(mode: SortMode, r: &RepoInfo) -> (k: SortKey)
        ensures
            k@ == sort_key_of(mode, *r),
    {
        match mode {
            SortMode::Name => {
                let lower = to_lowercase(r.name.as_str());
                SortKey::Text(chars_of(lower.as_str()))
            },
            SortMode::LastCommit => SortKey::Descending(r.last_commit_timestamp),
            SortMode::DirtyCount => SortKey::Descending(r.dirty_count as i64),
        }
    }

    /// The repositories that pass the filter, in scan order.
    fn matching_repos(&self) -> (r: Vec<RepoInfo>)
        ensures
            r@ == self.matched(),
    {
        let ghost pred = |x: RepoInfo| passes_filter(x, self.filter_text@);
        let mut out: Vec<RepoInfo> = Vec::new();
        let n = self.repos.len();
        let empty_filter = self.filter_text.as_str().is_empty();
        let lower_filter = to_lowercase(self.filter_text.as_str());
        let needle = chars_of(lower_filter.as_str());
        let mut k: usize = 0;
        assert(self.repos@.take(0).filter(pred) =~= Seq::<RepoInfo>::empty());
        while k < n
            invariant
                k <= n == self.repos@.len(),
                pred == (|x: RepoInfo| passes_filter(x, self.filter_text@)),
                empty_filter == (self.filter_text@.len() == 0),
                needle@ == lowercase(self.filter_text@),
                out@ == self.repos@.take(k as int).filter(pred),
            decreases n - k,
        {
            let r = &self.repos[k];
            let keep = if empty_filter {
                true
            } else {
                let lower_name = to_lowercase(r.name.as_str());
                let hay = chars_of(lower_name.as_str());
                contains_chars(hay.as_slice(), needle.as_slice())
            };
            assert(keep == pred(*r));
            let ghost t = self.repos@.take(k + 1);
            assert(t.drop_last() =~= self.repos@.take(k as int));
            assert(t.last() == *r);
            reveal(Seq::filter);
            assert(t.filter(pred) == (if pred(*r) {
                self.repos@.take(k as int).filter(pred).push(*r)
            } else {
                self.repos@.take(k as int).filter(pred)
            }));
            if keep {
                out.push(r.clone());
            }
            k = k + 1;
        }
        assert(self.repos@.take(n as int) =~= self.repos@);
        out
    }

    /// The repositories as the list shows them: those whose lower-cased name
    /// contains the lower-cased filter (all of them for an empty filter),
    /// stably sorted by the sort mode.
    pub fn filtered_repos(&self) -> (r: Vec<RepoInfo>)
        ensures
            r@ == self.listed(),
            r@.len() == self.shown_count(),
            forall|i: int, j: int|
                0 <= i < j < r@.len() ==> !key_lt(
                    sort_key_of(self.sort_mode, #[trigger] r@[j]),
                    sort_key_of(self.sort_mode, #[trigger] r@[i]),
                ),
            forall|i: int| 0 <= i < r@.len() ==> self.matched().contains(#[trigger] r@[i]),
            forall|j: int|
                0 <= j < self.shown_count() ==> r@.contains(#[trigger] self.matched()[j]),
            forall|i: int|
                0 <= i < r@.len() ==> passes_filter(#[trigger] r@[i], self.filter_text@),
            forall|k: int|
                0 <= k < self.repos@.len() && passes_filter(self.repos@[k], self.filter_text@)
                    ==> r@.contains(#[trigger] self.repos@[k]),
    {
        let repos = self.matching_repos();
        let n = repos.len();
        let mut keys: Vec<SortKey> = Vec::new();
        let mut k: usize = 0;
        while k < n
            invariant
                k <= n == repos@.len(),
                repos@ == self.matched(),
                keys@.len() == k,
                forall|j: int| 0 <= j < k ==> (#[trigger] keys@[j])@ == sort_key_of(
                    self.sort_mode,
                    repos@[j],
                ),
            decreases n - k,
        {
            keys.push(Self::sort_key(self.sort_mode, &repos[k]));
            k = k + 1;
        }
        assert(key_models(keys@) =~= sort_keys(repos@, self.sort_mode));
        let ord = stable_order(&keys);
        proof {
            lemma_is_the_stable_order(sort_keys(repos@, self.sort_mode), positions(ord@));
        }
        let mut out: Vec<RepoInfo> = Vec::new();
        let mut k: usize = 0;
        while k < n
            invariant
                k <= n == repos@.len() == ord@.len(),
                is_stable_order(key_models(keys@), positions(ord@)),
                key_models(keys@).len() == n,
                out@.len() == k,
                forall|j: int| 0 <= j < k ==> #[trigger] out@[j] == repos@[ord@[j] as int],
            decreases n - k,
        {
            assert(positions(ord@)[k as int] == ord@[k as int] as int);
            let i = ord[k];
            out.push(repos[i].clone());
            k = k + 1;
        }
        assert(out@ =~= positions(ord@).map_values(|i: int| repos@[i]));
        proof {
            lemma_listed_is_the_sorted_matches(*self);
        }
        out
    }

    /// How many repositories the list shows.
    fn shown_len(&self) -> (n: usize)
        ensures
            n == self.shown_count(),
    {
        self.matching_repos().len()
    }

    /// A dashboard over the repositories found in `scan_dir`: `repo_paths`
    /// as discovered and `repos` as scanned, listed by name with the first
    /// one selected.
    pub fn new(scan_dir: String, repo_paths: Vec<String>, repos: Vec<RepoInfo>) -> (app: App)
        ensures
            app.scan_dir == scan_dir,
            app.repo_paths == repo_paths,
            app.repos == repos,
            app.selected == 0,
            app.view == View::RepoList,
            app.sort_mode == SortMode::Name,
            app.filter_text@ == Seq::<char>::empty(),
            app.filter_input@ == Seq::<char>::empty(),
            !app.filter_active,
            !app.fetching,
            app.detail is None,
            app.detail_tab == DetailTab::Commits,
            app.detail_scroll == 0,
            !app.should_quit,
            app.selection_ok(),
    {
        App {
            scan_dir,
            repo_paths,
            repos,
            selected: 0,
            view: View::RepoList,
            sort_mode: SortMode::Name,
            filter_text: String::new(),
            filter_input: String::new(),
            filter_active: false,
            fetching: false,
            detail: None,
            detail_tab: DetailTab::Commits,
            detail_scroll: 0,
            should_quit: false,
        }
    }

    /// Puts the selection back into the list: on its last entry when it
    /// points past it, on 0 when the list is empty.
    fn clamp_selection(&mut self)
        ensures
            *final(self) == clamped(*old(self)),
            final(self).selection_ok(),
    {
        let count = self.shown_len();
        if count == 0 {
            self.selected = 0;
        } else if self.selected >= count {
            self.selected = count - 1;
        }
    }

    /// Takes a new discovery and scan of the repositories, keeping the
    /// selection in the list.
    pub fn refresh(&mut self, repo_paths: Vec<String>, repos: Vec<RepoInfo>)
        ensures
            *final(self) == clamped(App { repo_paths: repo_paths, repos: repos, ..*old(self) }),
            final(self).selection_ok(),
    {
        self.repo_paths = repo_paths;
        self.repos = repos;
        self.clamp_selection();
    }

    /// Takes a new scan of the known repositories, keeping the selection in
    /// the list.
    pub fn rescan_status(&mut self, repos: Vec<RepoInfo>)
        ensures
            *final(self) == clamped(App { repos: repos, ..*old(self) }),
            final(self).selection_ok(),
    {
        self.repos = repos;
        self.clamp_selection();
    }

    /// Moves the selection one entry down, stopping at the last.
    pub fn select_next(&mut self)
        requires
            old(self).shown_count() > 0 ==> old(self).selected < usize::MAX,
        ensures
            *final(self) == after_select_next(*old(self)),
    {
        let count = self.shown_len();
        if count > 0 {
            let next = self.selected + 1;
            self.selected = if next < count - 1 {
                next
            } else {
                count - 1
            };
        }
    }

    /// Moves the selection one entry up, stopping at the first.
    pub fn select_prev(&mut self)
        ensures
            *final(self) == after_select_prev(*old(self)),
    {
        if self.selected > 0 {
            self.selected -= 1;
        }
    }

    /// Selects the first entry.
    pub fn select_first(&mut self)
        ensures
            *final(self) == (App { selected: 0, ..*old(self) }),
    {
        self.selected = 0;
    }

    /// Selects the last entry; nothing changes when the list is empty.
    pub fn select_last(&mut self)
        ensures
            *final(self) == after_select_last(*old(self)),
    {
        let count = self.shown_len();
        if count > 0 {
            self.selected = count - 1;
        }
    }

    /// The path of the selected repository, whose detail view Enter opens;
    /// `None` when the selection is outside the list.
    pub fn detail_target(&self) -> (r: Option<String>)
        ensures
            r == detail_target_of(*self),
    {
        let repos = self.filtered_repos();
        if self.selected < repos.len() {
            Some(repos[self.selected].path.clone())
        } else {
            None
        }
    }

    /// Opens the detail view of the selected repository with `detail`, on
    /// its first tab; nothing changes when the selection is outside the list.
    pub fn enter_detail(&mut self, detail: RepoDetail)
        ensures
            *final(self) == after_enter_detail(*old(self), detail),
    {
        let count = self.shown_len();
        if self.selected < count {
            self.detail = Some(detail);
            self.detail_tab = DetailTab::Commits;
            self.detail_scroll = 0;
            self.view = View::RepoDetail(self.selected);
        }
    }

    /// Goes back to the repository list.
    pub fn exit_detail(&mut self)
        ensures
            *final(self) == after_exit_detail(*old(self)),
    {
        self.view = View::RepoList;
        self.detail = None;
        self.detail_scroll = 0;
    }

    /// Opens the next tab of the detail view, the first after the last.
    pub fn next_tab(&mut self)
        ensures
            *final(self) == after_set_tab(*old(self), next_tab_of(old(self).detail_tab)),
    {
        self.detail_tab = match self.detail_tab {
            DetailTab::Commits => DetailTab::Changes,
            DetailTab::Changes => DetailTab::Branches,
            DetailTab::Branches => DetailTab::Stashes,
            DetailTab::Stashes => DetailTab::Commits,
        };
        self.detail_scroll = 0;
    }

    /// Opens the tab `tab` of the detail view.
    pub fn set_tab(&mut self, tab: DetailTab)
        ensures
            *final(self) == after_set_tab(*old(self), tab),
    {
        self.detail_tab = tab;
        self.detail_scroll = 0;
    }

    /// Switches to the next sort order, the first after the last.
    pub fn cycle_sort(&mut self)
        ensures
            *final(self) == clamped(App { sort_mode: next_sort_of(old(self).sort_mode), ..*old(self) }),
            final(self).selection_ok(),
    {
        self.sort_mode = match self.sort_mode {
            SortMode::Name => SortMode::LastCommit,
            SortMode::LastCommit => SortMode::DirtyCount,
            SortMode::DirtyCount => SortMode::Name,
        };
        self.clamp_selection();
    }

    /// Opens the filter prompt with the current filter in it.
    pub fn start_filter(&mut self)
        ensures
            *final(self) == after_start_filter(*old(self)),
    {
        self.filter_active = true;
        self.filter_input = self.filter_text.clone();
    }

    /// Makes the typed text the filter, closes the prompt and selects the
    /// first entry.
    pub fn apply_filter(&mut self)
        ensures
            *final(self) == after_apply_filter(*old(self)),
    {
        self.filter_text = self.filter_input.clone();
        self.filter_active = false;
        self.selected = 0;
    }

    /// Closes the filter prompt and drops what was typed; the filter stays.
    pub fn cancel_filter(&mut self)
        ensures
            *final(self) == (App {
                filter_active: false,
                filter_input: final(self).filter_input,
                ..*old(self)
            }),
            final(self).filter_input@ == Seq::<char>::empty(),
    {
        self.filter_active = false;
        self.filter_input = String::new();
    }

    /// Adds `c` to the text typed at the filter prompt.
    pub fn push_filter_char(&mut self, c: char)
        ensures
            *final(self) == (App { filter_input: final(self).filter_input, ..*old(self) }),
            final(self).filter_input@ == old(self).filter_input@.push(c),
    {
        let mut one: Vec<char> = Vec::new();
        one.push(c);
        let piece = string_from_chars(one.as_slice());
        self.filter_input.append(piece.as_str());
        assert(one@ =~= seq![c]);
    }

    /// Removes the last character typed at the filter prompt, if any.
    pub fn pop_filter_char(&mut self)
        ensures
            *final(self) == (App { filter_input: final(self).filter_input, ..*old(self) }),
            final(self).filter_input@ == (if old(self).filter_input@.len() > 0 {
                old(self).filter_input@.drop_last()
            } else {
                old(self).filter_input@
            }),
    {
        let chars = chars_of(self.filter_input.as_str());
        if chars.len() > 0 {
            let kept = sub_chars(chars.as_slice(), 0, chars.len() - 1);
            assert(kept@ =~= chars@.drop_last());
            self.filter_input = string_from_chars(kept.as_slice());
        }
    }

    /// How many items the open tab of the detail view has.
    fn detail_item_count(&self) -> (n: usize)
        ensures
            n == self.detail_count(),
    {
        match &self.detail {
            Some(detail) => match self.detail_tab {
                DetailTab::Commits => detail.commits.len(),
                DetailTab::Changes => detail.changed_files.len(),
                DetailTab::Branches => detail.branches.len(),
                DetailTab::Stashes => detail.stashes.len(),
            },
            None => 0,
        }
    }

    /// Scrolls the detail view one item down, stopping at the last.
    pub fn detail_scroll_down(&mut self)
        requires
            old(self).detail_count() > 0 ==> old(self).detail_scroll < usize::MAX,
        ensures
            *final(self) == after_scroll_down(*old(self)),
    {
        let max = self.detail_item_count();
        if max > 0 {
            let next = self.detail_scroll + 1;
            self.detail_scroll = if next < max - 1 {
                next
            } else {
                max - 1
            };
        }
    }

    /// Scrolls the detail view one item up, stopping at the first.
    pub fn detail_scroll_up(&mut self)
        ensures
            *final(self) == after_scroll_up(*old(self)),
    {
        if self.detail_scroll > 0 {
            self.detail_scroll -= 1;
        }
    }
}

/// `a` with its selection put back into the list.
pub open spec fn clamped(a: App) -> App {
    App {
        selected: if a.shown_count() == 0 {
            0
        } else if a.selected >= a.shown_count() {
            (a.shown_count() - 1) as usize
        } else {
            a.selected
        },
        ..a
    }
}

/// `a` with the selection one entry further down, stopping at the last.
pub open spec fn after_select_next(a: App) -> App {
    App {
        selected: if a.shown_count() > 0 {
            if a.selected + 1 < a.shown_count() {
                (a.selected + 1) as usize
            } else {
                (a.shown_count() - 1) as usize
            }
        } else {
            a.selected
        },
        ..a
    }
}

/// `a` with the selection one entry further up, stopping at the first.
pub open spec fn after_select_prev(a: App) -> App {
    App {
        selected: if a.selected > 0 {
            (a.selected - 1) as usize
        } else {
            0
        },
        ..a
    }
}

/// `a` with the last entry selected, unless the list is empty.
pub open spec fn after_select_last(a: App) -> App {
    if a.shown_count() > 0 {
        App { selected: (a.shown_count() - 1) as usize, ..a }
    } else {
        a
    }
}

/// The path of the selected repository of `a`, if the selection is in the
/// list.
pub open spec fn detail_target_of(a: App) -> Option<String> {
    if a.selected < a.shown_count() {
        Some(a.listed()[a.selected as int].path)
    } else {
        None
    }
}

/// `a` showing `detail` for the selected repository, if it is in the list.
pub open spec fn after_enter_detail(a: App, detail: RepoDetail) -> App {
    if a.selected < a.shown_count() {
        App {
            detail: Some(detail),
            detail_tab: DetailTab::Commits,
            detail_scroll: 0,
            view: View::RepoDetail(a.selected),
            ..a
        }
    } else {
        a
    }
}

/// `a` back at the repository list.
pub open spec fn after_exit_detail(a: App) -> App {
    App { view: View::RepoList, detail: None, detail_scroll: 0, ..a }
}

/// `a` on tab `t`, scrolled to the top.
pub open spec fn after_set_tab(a: App, t: DetailTab) -> App {
    App { detail_tab: t, detail_scroll: 0, ..a }
}

/// `a` with the filter prompt open on the current filter.
pub open spec fn after_start_filter(a: App) -> App {
    App { filter_active: true, filter_input: a.filter_text, ..a }
}

/// `a` with the typed text as its filter and the first entry selected.
pub open spec fn after_apply_filter(a: App) -> App {
    App { filter_text: a.filter_input, filter_active: false, selected: 0, ..a }
}

/// `a` scrolled one item down in the detail view, stopping at the last.
pub open spec fn after_scroll_down(a: App) -> App {
    App {
        detail_scroll: if a.detail_count() > 0 {
            if a.detail_scroll + 1 < a.detail_count() {
                (a.detail_scroll + 1) as usize
            } else {
                (a.detail_count() - 1) as usize
            }
        } else {
            a.detail_scroll
        },
        ..a
    }
}

/// `a` scrolled one item up in the detail view, stopping at the first.
pub open spec fn after_scroll_up(a: App) -> App {
    App {
        detail_scroll: if a.detail_scroll > 0 {
            (a.detail_scroll - 1) as usize
        } else {
            0
        },
        ..a
    }
}

/// A key press, as far as the dashboard tells keys apart.
#[derive(Clone, Copy, Debug, PartialEq, Eq, Structural)]
pub enum Key {
    Enter,
    Esc,
    Backspace,
    Tab,
    Up,
    Down,
    Home,
    End,
    Char(char),
    Other,
}

/// What the caller must do after a key press, outside the dashboard's state.
#[derive(Debug)]
pub enum Effect {
    /// Nothing.
    Nothing,
    /// Start fetching all repositories in the background.
    Fetch,
    /// Discover and scan the repositories again, then call `refresh`.
    Refresh,
    /// Read the detail of the repository at this path, then call
    /// `enter_detail`.
    OpenDetail(String),
}

/// Whether pressing `key` moves down a line (Down or `j` outside the filter
/// prompt), the only presses that count one further.
pub open spec fn moves_down(a: App, key: Key) -> bool {
    !a.filter_active && (key == Key::Down || key == Key::Char('j'))
}

/// `post` and `effect` are what a press of `key` (with Ctrl held when `ctrl`)
/// makes of `pre`: the dashboard's key bindings.
pub open spec fn key_step(pre: App, key: Key, ctrl: bool, post: App, effect: Effect) -> bool {
    let unchanged_but_input = post == App { filter_input: post.filter_input, ..pre };
    let quit = App { should_quit: true, ..pre };
    if pre.filter_active {
        &&& effect is Nothing
        &&& match key {
            Key::Enter => post == after_apply_filter(pre),
            Key::Esc => post == App { filter_active: false, filter_input: post.filter_input, ..pre }
                && post.filter_input@ == Seq::<char>::empty(),
            Key::Backspace => unchanged_but_input && post.filter_input@ == (if pre.filter_input@.len()
                > 0 {
                pre.filter_input@.drop_last()
            } else {
                pre.filter_input@
            }),
            Key::Char(c) => unchanged_but_input && post.filter_input@ == pre.filter_input@.push(c),
            _ => post == pre,
        }
    } else {
        match pre.view {
            View::RepoList => match key {
                Key::Char('q') => post == quit && effect is Nothing,
                Key::Char('c') if ctrl => post == quit && effect is Nothing,
                Key::Down | Key::Char('j') => post == after_select_next(pre) && effect is Nothing,
                Key::Up | Key::Char('k') => post == after_select_prev(pre) && effect is Nothing,
                Key::Enter => post == pre && match detail_target_of(pre) {
                    Some(path) => effect == Effect::OpenDetail(path),
                    None => effect is Nothing,
                },
                Key::Char('f') if !pre.fetching => post == App { fetching: true, ..pre }
                    && effect is Fetch,
                Key::Char('r') => post == pre && effect is Refresh,
                Key::Char('/') => post == after_start_filter(pre) && effect is Nothing,
                Key::Char('s') => post == clamped(
                    App { sort_mode: next_sort_of(pre.sort_mode), ..pre },
                ) && effect is Nothing,
                Key::Home | Key::Char('g') => post == App { selected: 0, ..pre } && effect is Nothing,
                Key::End | Key::Char('G') => post == after_select_last(pre) && effect is Nothing,
                _ => post == pre && effect is Nothing,
            },
            View::RepoDetail(_) => effect is Nothing && match key {
                Key::Esc | Key::Backspace => post == after_exit_detail(pre),
                Key::Char('q') => post == quit,
                Key::Char('c') if ctrl => post == quit,
                Key::Tab => post == after_set_tab(pre, next_tab_of(pre.detail_tab)),
                Key::Char('1') => post == after_set_tab(pre, DetailTab::Commits),
                Key::Char('2') => post == after_set_tab(pre, DetailTab::Changes),
                Key::Char('3') => post == after_set_tab(pre, DetailTab::Branches),
                Key::Char('4') => post == after_set_tab(pre, DetailTab::Stashes),
                Key::Down | Key::Char('j') => post == after_scroll_down(pre),
                Key::Up | Key::Char('k') => post == after_scroll_up(pre),
                _ => post == pre,
            },
        }
    }
}

impl App {
    /// Applies a press of `key` (with Ctrl held when `ctrl`): typing into the
    /// filter prompt while it is open, else the bindings of the list or of
    /// the detail view. Quitting sets `should_quit`; what needs the outside
    /// world comes back as an [`Effect`].
    pub fn handle_key(&mut self, key: Key, ctrl: bool) -> (effect: Effect)
        requires
            moves_down(*old(self), key) && old(self).view is RepoList && old(self).shown_count() > 0
                ==> old(self).selected < usize::MAX,
            moves_down(*old(self), key) && old(self).view is RepoDetail
                && old(self).detail_count() > 0 ==> old(self).detail_scroll < usize::MAX,
        ensures
            key_step(*old(self), key, ctrl, *final(self), effect),
    {
        if self.filter_active {
            match key {
                Key::Enter => self.apply_filter(),
                Key::Esc => self.cancel_filter(),
                Key::Backspace => self.pop_filter_char(),
                Key::Char(c) => self.push_filter_char(c),
                _ => {},
            }
            return Effect::Nothing;
        }
        match self.view {
            View::RepoList => match key {
                Key::Char('q') => {
                    self.should_quit = true;
                    Effect::Nothing
                },
                Key::Char('c') if ctrl => {
                    self.should_quit = true;
                    Effect::Nothing
                },
                Key::Down | Key::Char('j') => {
                    self.select_next();
                    Effect::Nothing
                },
                Key::Up | Key::Char('k') => {
                    self.select_prev();
                    Effect::Nothing
                },
                Key::Enter => match self.detail_target() {
                    Some(path) => Effect::OpenDetail(path),
                    None => Effect::Nothing,
                },
                Key::Char('f') if !self.fetching => {
                    self.fetching = true;
                    Effect::Fetch
                },
                Key::Char('r') => Effect::Refresh,
                Key::Char('/') => {
                    self.start_filter();
                    Effect::Nothing
                },
                Key::Char('s') => {
                    self.cycle_sort();
                    Effect::Nothing
                },
                Key::Home | Key::Char('g') => {
                    self.select_first();
                    Effect::Nothing
                },
                Key::End | Key::Char('G') => {
                    self.select_last();
                    Effect::Nothing
                },
                _ => Effect::Nothing,
            },
            View::RepoDetail(_) => {
                match key {
                    Key::Esc | Key::Backspace => self.exit_detail(),
                    Key::Char('q') => self.should_quit = true,
                    Key::Char('c') if ctrl => self.should_quit = true,
                    Key::Tab => self.next_tab(),
                    Key::Char('1') => self.set_tab(DetailTab::Commits),
                    Key::Char('2') => self.set_tab(DetailTab::Changes),
                    Key::Char('3') => self.set_tab(DetailTab::Branches),
                    Key::Char('4') => self.set_tab(DetailTab::Stashes),
                    Key::Down | Key::Char('j') => self.detail_scroll_down(),
                    Key::Up | Key::Char('k') => self.detail_scroll_up(),
                    _ => {},
                }
                Effect::Nothing
            },
        }
    }

    /// A background fetch has finished: fetching stops and `repos` is the
    /// new scan.
    pub fn finish_fetch(&mut self, repos: Vec<RepoInfo>)
        ensures
            *final(self) == clamped(App { fetching: false, repos: repos, ..*old(self) }),
            final(self).selection_ok(),
    {
        self.fetching = false;
        self.rescan_status(repos);
    }
}

/// The tab after `t`, the first after the last.
pub open spec fn next_tab_of(t: DetailTab) -> DetailTab {
    match t {
        DetailTab::Commits => DetailTab::Changes,
        DetailTab::Changes => DetailTab::Branches,
        DetailTab::Branches => DetailTab::Stashes,
        DetailTab::Stashes => DetailTab::Commits,
    }
}

/// The sort order after `m`, the first after the last.
pub open spec fn next_sort_of(m: SortMode) -> SortMode {
    match m {
        SortMode::Name => SortMode::LastCommit,
        SortMode::LastCommit => SortMode::DirtyCount,
        SortMode::DirtyCount => SortMode::Name,
    }
}


/// Four steps through the tabs of the detail view come back to the start.
pub proof fn lemma_tabs_cycle(t: DetailTab)
    ensures
        next_tab_of(next_tab_of(next_tab_of(next_tab_of(t)))) == t,
        next_tab_of(t) != t,
{
}

/// Three steps through the sort orders come back to the start.
pub proof fn lemma_sort_modes_cycle(m: SortMode)
    ensures
        next_sort_of(next_sort_of(next_sort_of(m))) == m,
        next_sort_of(m) != m,
{
}

/// With an empty filter the list holds every repository.
pub proof fn lemma_empty_filter_matches_all(a: App)
    requires
        a.filter_text@.len() == 0,
    ensures
        a.matched() == a.repos@,
{
    let pred = |r: RepoInfo| passes_filter(r, a.filter_text@);
    assert forall|k: int| 0 <= k <= a.repos@.len() implies #[trigger] a.repos@.take(k).filter(pred)
        == a.repos@.take(k) by {
        lemma_filter_all(a.repos@, pred, k);
    }
    assert(a.repos@.take(a.repos@.len() as int) =~= a.repos@);
}

proof fn lemma_filter_all(s: Seq<RepoInfo>, pred: spec_fn(RepoInfo) -> bool, k: int)
    requires
        0 <= k <= s.len(),
        forall|r: RepoInfo| #[trigger] pred(r),
    ensures
        s.take(k).filter(pred) == s.take(k),
    decreases k,
{
    reveal(Seq::filter);
    if k > 0 {
        lemma_filter_all(s, pred, k - 1);
        assert(s.take(k).drop_last() =~= s.take(k - 1));
        assert(s.take(k - 1).push(s[k - 1]) =~= s.take(k));
    }
}

/// The list shows exactly the repositories that pass the filter, reordered
/// by a stable sort (a permutation of their positions) into the order of the
/// sort mode.
pub proof fn lemma_listed_is_the_sorted_matches(a: App)
    ensures
        is_stable_order(
            sort_keys(a.matched(), a.sort_mode),
            crate::order::the_stable_order(sort_keys(a.matched(), a.sort_mode)),
        ),
        a.listed().len() == a.shown_count(),
        forall|i: int, j: int|
            0 <= i < j < a.listed().len() ==> !key_lt(
                sort_key_of(a.sort_mode, #[trigger] a.listed()[j]),
                sort_key_of(a.sort_mode, #[trigger] a.listed()[i]),
            ),
        forall|i: int| 0 <= i < a.listed().len() ==> a.matched().contains(#[trigger] a.listed()[i]),
        forall|j: int| 0 <= j < a.shown_count() ==> a.listed().contains(#[trigger] a.matched()[j]),
        forall|i: int|
            0 <= i < a.listed().len() ==> passes_filter(#[trigger] a.listed()[i], a.filter_text@),
        forall|k: int|
            0 <= k < a.repos@.len() && passes_filter(a.repos@[k], a.filter_text@)
                ==> a.listed().contains(#[trigger] a.repos@[k]),
{
    let m = a.matched();
    let ks = sort_keys(m, a.sort_mode);
    crate::order::lemma_stable_order_exists(ks);
    let o = crate::order::the_stable_order(ks);
    let out = a.listed();
    assert(out == o.map_values(|k: int| m[k]));
    assert forall|i: int, j: int| 0 <= i < j < out.len() implies !key_lt(
        sort_key_of(a.sort_mode, #[trigger] out[j]),
        sort_key_of(a.sort_mode, #[trigger] out[i]),
    ) by {
        assert(!key_lt(ks[o[j]], ks[o[i]]));
    }
    assert forall|i: int| 0 <= i < out.len() implies m.contains(#[trigger] out[i]) by {
        assert(m[o[i]] == out[i]);
    }
    assert forall|j: int| 0 <= j < m.len() implies out.contains(#[trigger] m[j]) by {
        crate::order::lemma_stable_order_covers(ks, o, j);
        let x = choose|x: int| 0 <= x < o.len() && o[x] == j;
        assert(out[x] == m[j]);
    }
    let pred = |x: RepoInfo| passes_filter(x, a.filter_text@);
    assert forall|i: int| 0 <= i < out.len() implies passes_filter(
        #[trigger] out[i],
        a.filter_text@,
    ) by {
        a.repos@.lemma_filter_pred(pred, o[i]);
    }
    assert forall|k: int|
        0 <= k < a.repos@.len() && passes_filter(a.repos@[k], a.filter_text@) implies out.contains(
        #[trigger] a.repos@[k],
    ) by {
        a.repos@.lemma_filter_contains(pred, k);
        let j = choose|j: int| 0 <= j < m.len() && m[j] == a.repos@[k];
        crate::order::lemma_stable_order_covers(ks, o, j);
        let x = choose|x: int| 0 <= x < o.len() && o[x] == j;
        assert(out[x] == a.repos@[k]);
    }
}

/// Enter opens a repository that the list shows: a scanned repository whose
/// lower-cased name contains the lower-cased filter (any, for an empty
/// filter), namely the one at the selected position of the list; with the
/// selection outside the list nothing opens.
pub proof fn lemma_detail_target_is_shown(a: App)
    ensures
        detail_target_of(a) is Some <==> a.selected < a.listed().len(),
        detail_target_of(a) is Some ==> exists|k: int|
            0 <= k < a.repos@.len() && #[trigger] a.repos@[k].path == detail_target_of(a).unwrap()
                && (a.filter_text@.len() == 0 || contains_text(
                lowercase(a.repos@[k].name@),
                lowercase(a.filter_text@),
            )),
        detail_target_of(a) is Some ==> detail_target_of(a).unwrap() == a.listed()[a.selected as int].path,
{
    lemma_listed_is_the_sorted_matches(a);
    if a.selected < a.shown_count() {
        let i = a.selected as int;
        let r = a.listed()[i];
        assert(a.matched().contains(r));
        let pred = |x: RepoInfo| passes_filter(x, a.filter_text@);
        a.repos@.lemma_filter_contains_rev(pred, r);
        let k = choose|k: int| 0 <= k < a.repos@.len() && a.repos@[k] == r;
        assert(passes_filter(a.listed()[i], a.filter_text@));
        assert(a.repos@[k].path == detail_target_of(a).unwrap());
    }
}

/// The filter reads names only: a scanned repository is listed exactly when
/// the filter is empty or its lower-cased name contains the lower-cased
/// filter, so two repositories with the same name are listed or left out
/// together, whatever their paths.
pub proof fn lemma_filter_reads_names(a: App, k1: int, k2: int)
    requires
        0 <= k1 < a.repos@.len(),
        0 <= k2 < a.repos@.len(),
    ensures
        a.listed().contains(a.repos@[k1]) <==> (a.filter_text@.len() == 0 || contains_text(
            lowercase(a.repos@[k1].name@),
            lowercase(a.filter_text@),
        )),
        a.repos@[k1].name@ == a.repos@[k2].name@ ==> (a.listed().contains(a.repos@[k1])
            <==> a.listed().contains(a.repos@[k2])),
{
    lemma_listed_is_the_sorted_matches(a);
    if a.listed().contains(a.repos@[k1]) {
        let i = choose|i: int| 0 <= i < a.listed().len() && a.listed()[i] == a.repos@[k1];
        assert(passes_filter(a.listed()[i], a.filter_text@));
    }
    if a.listed().contains(a.repos@[k2]) {
        let i = choose|i: int| 0 <= i < a.listed().len() && a.listed()[i] == a.repos@[k2];
        assert(passes_filter(a.listed()[i], a.filter_text@));
    }
}

/// Each sort order lists what it promises first: by name, lower-cased
/// names in order (case does not decide); by last commit, the newest
/// first; by uncommitted changes, the most first.
pub proof fn lemma_sort_orders(a: App, i: int, j: int)
    requires
        0 <= i < j < a.listed().len(),
    ensures
        a.sort_mode == SortMode::Name ==> !crate::order::lex_lt(
            lowercase(a.listed()[j].name@),
            lowercase(a.listed()[i].name@),
        ),
        a.sort_mode == SortMode::LastCommit ==> a.listed()[i].last_commit_timestamp
            >= a.listed()[j].last_commit_timestamp,
        a.sort_mode == SortMode::DirtyCount ==> a.listed()[i].dirty_count
            >= a.listed()[j].dirty_count,
{
    lemma_listed_is_the_sorted_matches(a);
    assert(!key_lt(
        sort_key_of(a.sort_mode, a.listed()[j]),
        sort_key_of(a.sort_mode, a.listed()[i]),
    ));
}

/// Opening the filter prompt and applying it untouched keeps the filter.
pub proof fn lemma_filter_prompt_round_trip(a: App)
    ensures
        after_apply_filter(after_start_filter(a)).filter_text == a.filter_text,
        after_apply_filter(after_start_filter(a)).repos == a.repos,
        !after_apply_filter(after_start_filter(a)).filter_active,
{
}

/// Leaving the detail view after opening it comes back to the list with no
/// detail loaded, whatever was shown before.
pub proof fn lemma_exit_after_enter(a: App, d: RepoDetail)
    requires
        a.selected < a.shown_count(),
    ensures
        after_exit_detail(after_enter_detail(a, d)).view == View::RepoList,
        after_exit_detail(after_enter_detail(a, d)).detail is None,
        after_exit_detail(after_enter_detail(a, d)).selected == a.selected,
        after_exit_detail(after_enter_detail(a, d)).detail_tab == DetailTab::Commits,
{
}

/// Every operation on the dashboard keeps the selection within the list.
pub proof fn lemma_operations_keep_selection(a: App, d: RepoDetail, t: DetailTab)
    requires
        a.selection_ok(),
    ensures
        after_select_next(a).selection_ok(),
        after_select_prev(a).selection_ok(),
        after_select_last(a).selection_ok(),
        (App { selected: 0, ..a }).selection_ok(),
        after_enter_detail(a, d).selection_ok(),
        after_exit_detail(a).selection_ok(),
        after_set_tab(a, t).selection_ok(),
        after_start_filter(a).selection_ok(),
        after_apply_filter(a).selection_ok(),
        after_scroll_down(a).selection_ok(),
        after_scroll_up(a).selection_ok(),
        clamped(a).selection_ok(),
{
}

/// The list and the open tab hold no more entries than a `usize` counts.
proof fn lemma_counts_fit(a: App)
    ensures
        a.shown_count() <= usize::MAX,
        a.detail_count() <= usize::MAX,
{
    broadcast use vstd::std_specs::vec::axiom_spec_len;

    assert(a.repos.len() == a.repos@.len());
    a.repos@.lemma_filter_len(|x: RepoInfo| passes_filter(x, a.filter_text@));
    match a.detail {
        Some(d) => {
            assert(d.commits.len() == d.commits@.len());
            assert(d.changed_files.len() == d.changed_files@.len());
            assert(d.branches.len() == d.branches@.len());
            assert(d.stashes.len() == d.stashes@.len());
        },
        None => {},
    }
}

/// What the keys of the repository list do (prompt closed): `q` and Ctrl-C
/// quit; Down/`j` and Up/`k` move the selection one entry, staying in the
/// list; Home/`g` and End/`G` jump to the first and last entry; Enter asks to
/// open the selected repository when there is one; `f` starts a fetch unless
/// one runs; `r` asks for a rescan; `/` opens the prompt on the current
/// filter; `s` switches to another order. None of them changes what was
/// scanned or the filter.
pub proof fn lemma_list_keys(pre: App, key: Key, ctrl: bool, post: App, effect: Effect)
    requires
        key_step(pre, key, ctrl, post, effect),
        !pre.filter_active,
        pre.view is RepoList,
    ensures
        post.repos == pre.repos,
        post.filter_text == pre.filter_text,
        key == Key::Char('q') ==> post.should_quit,
        key == Key::Char('c') && ctrl ==> post.should_quit,
        (key == Key::Down || key == Key::Char('j')) && pre.selected + 1 < pre.shown_count()
            ==> post.selected == pre.selected + 1,
        (key == Key::Down || key == Key::Char('j')) && pre.selected + 1 >= pre.shown_count()
            && pre.shown_count() > 0 ==> post.selected == pre.shown_count() - 1,
        (key == Key::Up || key == Key::Char('k')) && pre.selected > 0 ==> post.selected
            == pre.selected - 1,
        (key == Key::Up || key == Key::Char('k')) && pre.selected == 0 ==> post.selected == 0,
        key == Key::Home || key == Key::Char('g') ==> post.selected == 0,
        (key == Key::End || key == Key::Char('G')) && pre.shown_count() > 0 ==> post.selected
            == pre.shown_count() - 1,
        key == Key::Enter ==> post == pre && (effect is OpenDetail <==> pre.selected
            < pre.shown_count()),
        key == Key::Char('f') && !pre.fetching ==> post.fetching && effect is Fetch,
        key == Key::Char('f') && pre.fetching ==> post == pre && effect is Nothing,
        key == Key::Char('r') ==> post == pre && effect is Refresh,
        key == Key::Char('/') ==> post.filter_active && post.filter_input == pre.filter_text,
        key == Key::Char('s') ==> post.sort_mode != pre.sort_mode && post.shown_count()
            == pre.shown_count(),
{
    lemma_counts_fit(pre);
    if key == Key::Char('s') {
        lemma_sort_modes_cycle(pre.sort_mode);
    }
}

/// What the keys of the detail view do (prompt closed): Esc and Backspace
/// both go back to the list, dropping the detail; Tab goes to another tab and
/// `1`..`4` to the commits, changes, branches and stashes tab, each scrolled
/// to the top; Down/`j` and Up/`k` scroll one item, staying in the tab;
/// `q` and Ctrl-C quit.
pub proof fn lemma_detail_keys(pre: App, key: Key, ctrl: bool, post: App, effect: Effect)
    requires
        key_step(pre, key, ctrl, post, effect),
        !pre.filter_active,
        pre.view is RepoDetail,
    ensures
        effect is Nothing,
        post.repos == pre.repos,
        post.selected == pre.selected,
        post.filter_text == pre.filter_text,
        key == Key::Esc || key == Key::Backspace ==> post.view == View::RepoList
            && post.detail is None && post.detail_scroll == 0,
        key == Key::Char('q') ==> post.should_quit,
        key == Key::Char('c') && ctrl ==> post.should_quit,
        key == Key::Tab ==> post.detail_tab != pre.detail_tab && post.detail_scroll == 0,
        key == Key::Char('1') ==> post.detail_tab == DetailTab::Commits && post.detail_scroll == 0,
        key == Key::Char('2') ==> post.detail_tab == DetailTab::Changes && post.detail_scroll == 0,
        key == Key::Char('3') ==> post.detail_tab == DetailTab::Branches && post.detail_scroll
            == 0,
        key == Key::Char('4') ==> post.detail_tab == DetailTab::Stashes && post.detail_scroll == 0,
        (key == Key::Down || key == Key::Char('j')) && pre.detail_scroll + 1 < pre.detail_count()
            ==> post.detail_scroll == pre.detail_scroll + 1,
        (key == Key::Down || key == Key::Char('j')) && pre.detail_scroll + 1
            >= pre.detail_count() && pre.detail_count() > 0 ==> post.detail_scroll
            == pre.detail_count() - 1,
        (key == Key::Up || key == Key::Char('k')) && pre.detail_scroll > 0 ==> post.detail_scroll
            == pre.detail_scroll - 1,
{
    lemma_counts_fit(pre);
    lemma_tabs_cycle(pre.detail_tab);
}

/// Backspace in the detail view does what Esc does.
pub proof fn lemma_backspace_is_esc(
    pre: App,
    ctrl: bool,
    post1: App,
    effect1: Effect,
    post2: App,
    effect2: Effect,
)
    requires
        !pre.filter_active,
        pre.view is RepoDetail,
        key_step(pre, Key::Backspace, ctrl, post1, effect1),
        key_step(pre, Key::Esc, ctrl, post2, effect2),
    ensures
        post1 == post2,
        post1.view == View::RepoList,
        post1.detail is None,
{
}

/// What the keys do while the filter prompt is open: a character is typed,
/// Backspace removes the last one typed, Enter makes the typed text the
/// filter and selects the first entry, Esc closes the prompt keeping the
/// filter; nothing else reaches the dashboard.
pub proof fn lemma_prompt_keys(pre: App, key: Key, ctrl: bool, post: App, effect: Effect)
    requires
        key_step(pre, key, ctrl, post, effect),
        pre.filter_active,
    ensures
        effect is Nothing,
        post.repos == pre.repos,
        post.should_quit == pre.should_quit,
        post.view == pre.view,
        key is Char ==> post.filter_input@ == pre.filter_input@.push(key->Char_0)
            && post.filter_text == pre.filter_text && post.filter_active,
        key == Key::Backspace && pre.filter_input@.len() > 0 ==> post.filter_input@
            == pre.filter_input@.drop_last() && post.filter_active,
        key == Key::Enter ==> post.filter_text == pre.filter_input && !post.filter_active
            && post.selected == 0,
        key == Key::Esc ==> post.filter_text == pre.filter_text && !post.filter_active
            && post.filter_input@.len() == 0,
{
}

/// The detail view is scrolled to an item it has, or to the top.
pub open spec fn scroll_ok(a: App) -> bool {
    a.detail_scroll == 0 || a.detail_scroll < a.detail_count()
}

/// No key press moves the selection out of the list or the detail view's
/// scroll past its items.
pub proof fn lemma_key_step_keeps_positions(
    pre: App,
    key: Key,
    ctrl: bool,
    post: App,
    effect: Effect,
)
    requires
        key_step(pre, key, ctrl, post, effect),
        pre.selection_ok(),
        scroll_ok(pre),
    ensures
        post.selection_ok(),
        scroll_ok(post),
{
    assert(post.shown_count() == post.matched().len());
}

} // verus!

use vstd::prelude::*;
use vstd::string::*;
use crate::app::{DetailTab, SortMode};
use crate::git::{BranchInfo, RepoInfo};
use crate::number::{decimal, push_decimal};
use crate::text::{string_from_chars, text_is};

verus! {

/// The first row to show of a list of `total` rows in a window of `visible`
/// rows, so that the row `selected` stays near the middle of the window.
pub open spec fn scroll_offset(selected: int, total: int, visible: int) -> int {
    let half = visible / 2;
    if total <= visible {
        0
    } else if selected < half {
        0
    } else if selected >= total - half {
        total - visible
    } else {
        selected - half
    }
}

/// Where a scrolled list starts: 0 when everything fits, otherwise a window
/// that keeps the selection centred, pinned to either end of the list.
pub fn compute_scroll_offset(selected: usize, total: usize, visible: usize) -> (offset: usize)
    ensures
        offset == scroll_offset(selected as int, total as int, visible as int),
        total > visible ==> offset + visible <= total,
        0 < visible && selected < total ==> offset <= selected < offset + visible,
{
    if total <= visible {
        return 0;
    }
    if selected < visible / 2 {
        0
    } else if selected >= total.saturating_sub(visible / 2) {
        total.saturating_sub(visible)
    } else {
        selected.saturating_sub(visible / 2)
    }
}


/// Seconds between automatic rescans of the repositories.
pub const AUTO_REFRESH_SECS: u64 = 30;

/// Milliseconds the event loop waits for a key before drawing again.
pub const TICK_MILLIS: u64 = 50;

/// Where a popup stands on the screen.
#[derive(Clone, Copy, Debug, PartialEq, Eq, Structural)]
pub struct PopupArea {
    pub x: u16,
    pub y: u16,
    pub width: u16,
    pub height: u16,
}

/// The filter prompt's box on a screen `area_width` by `area_height`: three
/// rows high, 40 columns wide or 4 fewer than the screen when that is less,
/// centred across and starting at the middle row.
pub fn filter_popup(area_width: u16, area_height: u16) -> (r: PopupArea)
    ensures
        r.width == (if area_width >= 44 {
            40
        } else if area_width >= 4 {
            area_width - 4
        } else {
            0
        }),
        r.x == (area_width - r.width) / 2,
        r.y == area_height / 2,
        r.height == 3,
{
    let room: u16 = if area_width >= 4 {
        area_width - 4
    } else {
        0
    };
    let width: u16 = if room < 40 {
        room
    } else {
        40
    };
    PopupArea { x: (area_width - width) / 2, y: area_height / 2, width, height: 3 }
}

/// A repository with nothing to commit, push or pull.
pub open spec fn is_clean(r: RepoInfo) -> bool {
    r.dirty_count == 0 && r.behind == 0 && r.ahead == 0
}

/// A repository with uncommitted changes.
pub open spec fn is_dirty(r: RepoInfo) -> bool {
    r.dirty_count > 0
}

/// A repository behind its upstream.
pub open spec fn is_behind(r: RepoInfo) -> bool {
    r.behind > 0
}

/// The uncommitted changes of all of `repos`.
pub open spec fn total_changes(repos: Seq<RepoInfo>) -> nat
    decreases repos.len(),
{
    if repos.len() == 0 {
        0
    } else {
        total_changes(repos.drop_last()) + repos.last().dirty_count as nat
    }
}

/// The counts in the summary bar.
#[derive(Clone, Copy, Debug, PartialEq, Eq, Structural)]
pub struct SummaryCounts {
    pub total: usize,
    pub clean: usize,
    pub dirty: usize,
    pub behind: usize,
    pub uncommitted: u32,
}

/// The summary bar's counts of `repos`: how many there are, are clean, are
/// dirty and are behind, and their uncommitted changes together.
pub fn summary_counts(repos: &Vec<RepoInfo>) -> (c: SummaryCounts)
    requires
        total_changes(repos@) <= u32::MAX,
    ensures
        c.total == repos@.len(),
        c.clean == repos@.filter(|r: RepoInfo| is_clean(r)).len(),
        c.dirty == repos@.filter(|r: RepoInfo| is_dirty(r)).len(),
        c.behind == repos@.filter(|r: RepoInfo| is_behind(r)).len(),
        c.uncommitted == total_changes(repos@),
        c.clean + c.dirty <= c.total,
        c.clean + c.behind <= c.total,
{
    let ghost clean_p = |r: RepoInfo| is_clean(r);
    let ghost dirty_p = |r: RepoInfo| is_dirty(r);
    let ghost behind_p = |r: RepoInfo| is_behind(r);
    let n = repos.len();
    let mut clean: usize = 0;
    let mut dirty: usize = 0;
    let mut behind: usize = 0;
    let mut uncommitted: u32 = 0;
    let mut k: usize = 0;
    reveal(Seq::filter);
    assert(repos@.take(0) =~= Seq::<RepoInfo>::empty());
    while k < n
        invariant
            k <= n == repos@.len(),
            total_changes(repos@) <= u32::MAX,
            clean_p == (|r: RepoInfo| is_clean(r)),
            dirty_p == (|r: RepoInfo| is_dirty(r)),
            behind_p == (|r: RepoInfo| is_behind(r)),
            clean == repos@.take(k as int).filter(clean_p).len(),
            dirty == repos@.take(k as int).filter(dirty_p).len(),
            behind == repos@.take(k as int).filter(behind_p).len(),
            uncommitted == total_changes(repos@.take(k as int)),
            clean + dirty <= k,
            clean + behind <= k,
        decreases n - k,
    {
        let r = &repos[k];
        let ghost t = repos@.take(k + 1);
        proof {
            reveal(Seq::filter);
            assert(t.drop_last() =~= repos@.take(k as int));
            assert(t.last() == *r);
            repos@.take(k as int).lemma_filter_len(clean_p);
            repos@.take(k as int).lemma_filter_len(dirty_p);
            repos@.take(k as int).lemma_filter_len(behind_p);
            lemma_total_changes_prefix(repos@, k + 1);
        }
        if r.dirty_count == 0 && r.behind == 0 && r.ahead == 0 {
            clean = clean + 1;
        }
        if r.dirty_count > 0 {
            dirty = dirty + 1;
        }
        if r.behind > 0 {
            behind = behind + 1;
        }
        uncommitted = uncommitted + r.dirty_count;
        k = k + 1;
    }
    assert(repos@.take(n as int) =~= repos@);
    SummaryCounts { total: n, clean, dirty, behind, uncommitted }
}

proof fn lemma_total_changes_prefix(repos: Seq<RepoInfo>, k: int)
    requires
        0 <= k <= repos.len(),
    ensures
        total_changes(repos.take(k)) <= total_changes(repos),
    decreases repos.len(),
{
    if k < repos.len() {
        assert(repos.drop_last().take(k) =~= repos.take(k));
        lemma_total_changes_prefix(repos.drop_last(), k);
    } else {
        assert(repos.take(k) =~= repos);
    }
}

/// How a repository's row is coloured, by what matters most about it.
#[derive(Clone, Copy, Debug, PartialEq, Eq, Structural)]
pub enum RowTone {
    /// Behind its upstream.
    Behind,
    /// Uncommitted changes.
    Dirty,
    /// Commits to push.
    Ahead,
    /// Nothing to do.
    Clean,
}

/// The tone of `r`'s row: behind before dirty before ahead.
pub open spec fn row_tone_of(r: RepoInfo) -> RowTone {
    if r.behind > 0 {
        RowTone::Behind
    } else if r.dirty_count > 0 {
        RowTone::Dirty
    } else if r.ahead > 0 {
        RowTone::Ahead
    } else {
        RowTone::Clean
    }
}

/// The tone of a repository's row.
pub fn row_tone(r: &RepoInfo) -> (t: RowTone)
    ensures
        t == row_tone_of(*r),
{
    if r.behind > 0 {
        RowTone::Behind
    } else if r.dirty_count > 0 {
        RowTone::Dirty
    } else if r.ahead > 0 {
        RowTone::Ahead
    } else {
        RowTone::Clean
    }
}

/// The ahead/behind cell: `↑a ↓b` when either is non-zero, else `—`.
pub open spec fn ahead_behind_cell(r: RepoInfo) -> Seq<char> {
    if r.ahead > 0 || r.behind > 0 {
        seq!['↑'] + decimal(r.ahead as nat) + seq![' ', '↓'] + decimal(r.behind as nat)
    } else {
        seq!['—']
    }
}

/// The text of a repository's ahead/behind cell.
pub fn ahead_behind_text(r: &RepoInfo) -> (s: String)
    ensures
        s@ == ahead_behind_cell(*r),
{
    let mut v: Vec<char> = Vec::new();
    if r.ahead > 0 || r.behind > 0 {
        v.push('↑');
        push_decimal(&mut v, r.ahead as u64);
        v.push(' ');
        v.push('↓');
        push_decimal(&mut v, r.behind as u64);
    } else {
        v.push('—');
    }
    assert(v@ =~= ahead_behind_cell(*r));
    string_from_chars(v.as_slice())
}

/// The dirty cell: the number of uncommitted changes, or `✓` for none.
pub open spec fn dirty_cell(r: RepoInfo) -> Seq<char> {
    if r.dirty_count > 0 {
        decimal(r.dirty_count as nat)
    } else {
        seq!['✓']
    }
}

/// The text of a repository's dirty cell.
pub fn dirty_text(r: &RepoInfo) -> (s: String)
    ensures
        s@ == dirty_cell(*r),
{
    let mut v: Vec<char> = Vec::new();
    if r.dirty_count > 0 {
        push_decimal(&mut v, r.dirty_count as u64);
    } else {
        v.push('✓');
    }
    assert(v@ =~= dirty_cell(*r));
    string_from_chars(v.as_slice())
}

/// The name of a sort order in the summary bar.
pub fn sort_label(mode: SortMode) -> (s: &'static str)
    ensures
        s@ == (match mode {
            SortMode::Name => "name"@,
            SortMode::LastCommit => "last commit"@,
            SortMode::DirtyCount => "dirty count"@,
        }),
{
    match mode {
        SortMode::Name => "name",
        SortMode::LastCommit => "last commit",
        SortMode::DirtyCount => "dirty count",
    }
}

/// The position of a tab in the tab bar.
pub fn tab_index(tab: DetailTab) -> (i: usize)
    ensures
        i == (match tab {
            DetailTab::Commits => 0usize,
            DetailTab::Changes => 1usize,
            DetailTab::Branches => 2usize,
            DetailTab::Stashes => 3usize,
        }),
{
    match tab {
        DetailTab::Commits => 0,
        DetailTab::Changes => 1,
        DetailTab::Branches => 2,
        DetailTab::Stashes => 3,
    }
}

/// The upstream note of a branch row: ` → upstream`, or nothing.
pub fn tracking_text(b: &BranchInfo) -> (s: String)
    ensures
        s@ == (match b.tracking {
            Some(t) => " → "@ + t@,
            None => Seq::<char>::empty(),
        }),
{
    match &b.tracking {
        Some(t) => {
            let mut s = String::from_str(" → ");
            s.append(t.as_str());
            s
        },
        None => String::new(),
    }
}

/// How a changed file's status code is coloured.
#[derive(Clone, Copy, Debug, PartialEq, Eq, Structural)]
pub enum StatusTone {
    Modified,
    Added,
    Deleted,
    Untracked,
    Other,
}

/// The tone of a status code: `M`, `A`, `D` and `??` have their own.
pub fn status_tone(status: &str) -> (t: StatusTone)
    ensures
        t == (if status@ == "M"@ {
            StatusTone::Modified
        } else if status@ == "A"@ {
            StatusTone::Added
        } else if status@ == "D"@ {
            StatusTone::Deleted
        } else if status@ == "??"@ {
            StatusTone::Untracked
        } else {
            StatusTone::Other
        }),
{
    if text_is(status, "M") {
        StatusTone::Modified
    } else if text_is(status, "A") {
        StatusTone::Added
    } else if text_is(status, "D") {
        StatusTone::Deleted
    } else if text_is(status, "??") {
        StatusTone::Untracked
    } else {
        StatusTone::Other
    }
}

} // verus!

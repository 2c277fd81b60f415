//! What the dashboard knows of a repository, and how it reads that from the
//! output of git's commands.
use vstd::prelude::*;
use vstd::string::*;
use crate::number::{
    all_digits, decimal, is_digit, lemma_decimal_digits, lemma_u32_round_trip, parse_i64,
    parse_i64_spec, parse_u32, parse_u32_spec, push_decimal,
};
use crate::text::{
    chars_at_byte, chars_in_bytes, chars_of, count_leading, filled_lines,
    filled_lines_of, find, find_char_from, find_from, first_word, first_word_of,
    is_white, lemma_find_from_props, lemma_find_skip, lemma_trim_end_at, lemma_trim_start_at,
    string_from_chars, strip_leading, sub_chars, trim, trim_bounds, views,
};

verus! {

/// Information about a single git repository.
#[derive(Debug)]
pub struct RepoInfo {
    pub path: String,
    pub name: String,
    pub branch: String,
    pub ahead: u32,
    pub behind: u32,
    pub dirty_count: u32,
    pub last_commit_age: String,
    pub last_commit_message: String,
    pub last_commit_timestamp: i64,
    pub error: Option<String>,
}

impl Clone for RepoInfo {
    fn clone(&self) -> (r: Self)
        ensures
            r == *self,
    {
        RepoInfo {
            path: self.path.clone(),
            name: self.name.clone(),
            branch: self.branch.clone(),
            ahead: self.ahead,
            behind: self.behind,
            dirty_count: self.dirty_count,
            last_commit_age: self.last_commit_age.clone(),
            last_commit_message: self.last_commit_message.clone(),
            last_commit_timestamp: self.last_commit_timestamp,
            error: match &self.error {
                Some(e) => Some(e.clone()),
                None => None,
            },
        }
    }
}

/// Detailed information on a single repository, for the detail view.
#[derive(Clone, Debug)]
pub struct RepoDetail {
    pub commits: Vec<CommitInfo>,
    pub changed_files: Vec<FileStatus>,
    pub branches: Vec<BranchInfo>,
    pub stashes: Vec<String>,
}

/// One commit of the log.
#[derive(Clone, Debug)]
pub struct CommitInfo {
    pub hash: String,
    pub author: String,
    pub date: String,
    pub message: String,
}

/// A commit as text: its four fields.
pub struct CommitView {
    pub hash: Seq<char>,
    pub author: Seq<char>,
    pub date: Seq<char>,
    pub message: Seq<char>,
}

impl View for CommitInfo {
    type V = CommitView;

    open spec fn view(&self) -> CommitView {
        CommitView {
            hash: self.hash@,
            author: self.author@,
            date: self.date@,
            message: self.message@,
        }
    }
}

/// One changed file of the working tree.
#[derive(Clone, Debug)]
pub struct FileStatus {
    pub status: String,
    pub path: String,
}

/// A changed file as text.
pub struct FileStatusView {
    pub status: Seq<char>,
    pub path: Seq<char>,
}

impl View for FileStatus {
    type V = FileStatusView;

    open spec fn view(&self) -> FileStatusView {
        FileStatusView { status: self.status@, path: self.path@ }
    }
}

/// One local branch.
#[derive(Clone, Debug)]
pub struct BranchInfo {
    pub name: String,
    pub is_current: bool,
    pub tracking: Option<String>,
}

/// A branch as text.
pub struct BranchView {
    pub name: Seq<char>,
    pub is_current: bool,
    pub tracking: Option<Seq<char>>,
}

impl View for BranchInfo {
    type V = BranchView;

    open spec fn view(&self) -> BranchView {
        BranchView {
            name: self.name@,
            is_current: self.is_current,
            tracking: match self.tracking {
                Some(t) => Some(t@),
                None => None,
            },
        }
    }
}

/// `s` split at its first tab: what comes before it and what comes after it.
pub open spec fn split_tab(s: Seq<char>) -> Option<(Seq<char>, Seq<char>)> {
    match find(s, '\t') {
        Some(i) => Some((s.take(i), s.skip(i + 1))),
        None => None,
    }
}

/// The fields of a `%h\t%an\t%cr\t%s` line of `git log`: split at the first
/// three tabs, as `splitn(4, '\t')` does; `None` when there are fewer.
pub open spec fn commit_fields(l: Seq<char>) -> Option<CommitView> {
    match split_tab(l) {
        Some((hash, r1)) => match split_tab(r1) {
            Some((author, r2)) => match split_tab(r2) {
                Some((date, message)) => Some(
                    CommitView { hash: hash, author: author, date: date, message: message },
                ),
                None => None,
            },
            None => None,
        },
        None => None,
    }
}

/// The string of the characters `s[start..end]`.
fn string_of_range(s: &[char], start: usize, end: usize) -> (r: String)
    requires
        start <= end <= s@.len(),
    ensures
        r@ == s@.subrange(start as int, end as int),
{
    let v = sub_chars(s, start, end);
    string_from_chars(v.as_slice())
}

/// A commit from the characters of a line of `git log`.
pub fn commit_from_chars(l: &[char]) -> (r: Option<CommitInfo>)
    ensures
        r is Some <==> commit_fields(l@) is Some,
        r is Some ==> r.unwrap()@ == commit_fields(l@).unwrap(),
{
    let n = l.len();
    proof {
        lemma_find_from_props(l@, '\t', 0);
    }
    let t1 = match find_char_from(l, '\t', 0) {
        Some(i) => i,
        None => return None,
    };
    proof {
        lemma_find_skip(l@, '\t', t1 + 1);
        lemma_find_from_props(l@, '\t', t1 + 1);
        assert(l@.skip(t1 + 1).skip(0) =~= l@.skip(t1 + 1));
    }
    let t2 = match find_char_from(l, '\t', t1 + 1) {
        Some(i) => i,
        None => return None,
    };
    proof {
        lemma_find_skip(l@, '\t', t2 + 1);
        lemma_find_from_props(l@, '\t', t2 + 1);
        assert(l@.skip(t1 + 1).skip(t2 - t1) =~= l@.skip(t2 + 1));
        assert(l@.skip(t1 + 1).take(t2 - t1 - 1) =~= l@.subrange(t1 + 1, t2 as int));
    }
    let t3 = match find_char_from(l, '\t', t2 + 1) {
        Some(i) => i,
        None => return None,
    };
    proof {
        assert(l@.skip(t2 + 1).skip(t3 - t2) =~= l@.skip(t3 + 1));
        assert(l@.skip(t2 + 1).take(t3 - t2 - 1) =~= l@.subrange(t2 + 1, t3 as int));
        assert(l@.take(t1 as int) =~= l@.subrange(0, t1 as int));
        assert(l@.skip(t3 + 1) =~= l@.subrange(t3 + 1, n as int));
    }
    Some(
        CommitInfo {
            hash: string_of_range(l, 0, t1),
            author: string_of_range(l, t1 + 1, t2),
            date: string_of_range(l, t2 + 1, t3),
            message: string_of_range(l, t3 + 1, n),
        },
    )
}

/// Parses a `%h\t%an\t%cr\t%s`-formatted line of `git log` into a
/// [`CommitInfo`]; tabs after the third stay in the subject.
pub fn parse_commit_line(line: &str) -> (r: Option<CommitInfo>)
    ensures
        r is Some <==> commit_fields(line@) is Some,
        r is Some ==> r.unwrap()@ == commit_fields(line@).unwrap(),
{
    let chars = chars_of(line);
    commit_from_chars(chars.as_slice())
}


/// The fields of a line of `git status --porcelain`: the status code is the
/// first two bytes, trimmed (`??` when the line is shorter or they do not end
/// on a character boundary); the path is everything from the fourth byte on
/// (empty in the same cases).
pub open spec fn status_fields(l: Seq<char>) -> FileStatusView {
    FileStatusView {
        status: match chars_at_byte(l, 2) {
            Some(k) => trim(l.take(k)),
            None => "??"@,
        },
        path: match chars_at_byte(l, 3) {
            Some(k) => l.skip(k),
            None => seq![],
        },
    }
}

/// The trimmed characters `s[start..end]` as a string.
fn trimmed_string(s: &[char], start: usize, end: usize) -> (r: String)
    requires
        start <= end <= s@.len(),
    ensures
        r@ == trim(s@.subrange(start as int, end as int)),
{
    let v = sub_chars(s, start, end);
    let (a, b) = trim_bounds(v.as_slice());
    string_of_range(v.as_slice(), a, b)
}

/// A changed file from the characters of a line of `git status --porcelain`.
pub fn status_from_chars(l: &[char]) -> (r: FileStatus)
    ensures
        r@ == status_fields(l@),
{
    let n = l.len();
    let status = match chars_in_bytes(l, 2) {
        Some(k) => {
            proof {
                crate::text::lemma_chars_at_byte_bound(l@, 2);
            }
            assert(l@.take(k as int) =~= l@.subrange(0, k as int));
            trimmed_string(l, 0, k)
        },
        None => String::from_str("??"),
    };
    let path = match chars_in_bytes(l, 3) {
        Some(k) => {
            proof {
                crate::text::lemma_chars_at_byte_bound(l@, 3);
            }
            assert(l@.skip(k as int) =~= l@.subrange(k as int, n as int));
            string_of_range(l, k, n)
        },
        None => String::new(),
    };
    FileStatus { status, path }
}

/// Parses a single line of `git status --porcelain` into a [`FileStatus`].
pub fn parse_status_line(line: &str) -> (r: FileStatus)
    ensures
        r@ == status_fields(line@),
{
    let chars = chars_of(line);
    status_from_chars(chars.as_slice())
}

/// The text between the first `[` and the first `]` of `t`, when the `[`
/// comes first.
pub open spec fn bracketed(t: Seq<char>) -> Option<Seq<char>> {
    match (find(t, '['), find(t, ']')) {
        (Some(open), Some(close)) => if open < close {
            Some(t.subrange(open + 1, close))
        } else {
            None
        },
        _ => None,
    }
}

/// The fields of a line of `git branch -vv`: a leading `*` marks the current
/// branch; after the `*`s and white space are stripped, the name is the first
/// word and the upstream is what stands in the first brackets.
pub open spec fn branch_fields(l: Seq<char>) -> BranchView {
    let t = trim(strip_leading(l, '*'));
    BranchView {
        name: first_word(t),
        is_current: l.len() > 0 && l[0] == '*',
        tracking: bracketed(t),
    }
}

/// A branch from the characters of a line of `git branch -vv`.
pub fn branch_from_chars(l: &[char]) -> (r: BranchInfo)
    ensures
        r@ == branch_fields(l@),
{
    let n = l.len();
    let is_current = n > 0 && l[0] == '*';
    let stars = count_leading(l, '*');
    let rest = sub_chars(l, stars, n);
    assert(rest@ == l@.skip(stars as int));
    let (a, b) = trim_bounds(rest.as_slice());
    let t = sub_chars(rest.as_slice(), a, b);
    let name_chars = first_word_of(t.as_slice());
    let name = string_from_chars(name_chars.as_slice());
    proof {
        lemma_find_from_props(t@, '[', 0);
        lemma_find_from_props(t@, ']', 0);
    }
    let tracking = match find_char_from(t.as_slice(), '[', 0) {
        Some(open) => match find_char_from(t.as_slice(), ']', 0) {
            Some(close) => if open < close {
                Some(string_of_range(t.as_slice(), open + 1, close))
            } else {
                None
            },
            None => None,
        },
        None => None,
    };
    BranchInfo { name, is_current, tracking }
}

/// Parses a single line of `git branch -vv` output into a [`BranchInfo`].
pub fn parse_branch_line(line: &str) -> (r: BranchInfo)
    ensures
        r@ == branch_fields(line@),
{
    let chars = chars_of(line);
    branch_from_chars(chars.as_slice())
}

/// A count as `.parse().unwrap_or(0)` reads it.
pub open spec fn count_or_zero(s: Seq<char>) -> u32 {
    match parse_u32_spec(s) {
        Some(v) => v,
        None => 0,
    }
}

/// The ahead and behind counts that `git rev-list --left-right --count`
/// printed: the trimmed output must be exactly two tab-separated fields,
/// each read as a count with 0 for what does not read; anything else is
/// `(0, 0)`.
pub open spec fn ahead_behind_of(output: Seq<char>) -> (u32, u32) {
    let t = trim(output);
    match find(t, '\t') {
        Some(i) => if find_from(t, '\t', i + 1) is None {
            (count_or_zero(t.take(i)), count_or_zero(t.skip(i + 1)))
        } else {
            (0, 0)
        },
        None => (0, 0),
    }
}

/// A count read from `s[start..end]`, 0 when it does not read.
fn count_in(s: &[char], start: usize, end: usize) -> (r: u32)
    requires
        start <= end <= s@.len(),
    ensures
        r == count_or_zero(s@.subrange(start as int, end as int)),
{
    let v = sub_chars(s, start, end);
    match parse_u32(v.as_slice()) {
        Some(x) => x,
        None => 0,
    }
}

/// Parses the tab-separated output of `git rev-list --left-right --count`.
pub fn parse_ahead_behind(output: &str) -> (r: (u32, u32))
    ensures
        r == ahead_behind_of(output@),
{
    let chars = chars_of(output);
    let (a, b) = trim_bounds(chars.as_slice());
    let t = sub_chars(chars.as_slice(), a, b);
    let n = t.len();
    proof {
        lemma_find_from_props(t@, '\t', 0);
    }
    match find_char_from(t.as_slice(), '\t', 0) {
        Some(i) => match find_char_from(t.as_slice(), '\t', i + 1) {
            Some(_) => (0, 0),
            None => {
                assert(t@.take(i as int) =~= t@.subrange(0, i as int));
                assert(t@.skip(i + 1) =~= t@.subrange(i + 1, n as int));
                (count_in(t.as_slice(), 0, i), count_in(t.as_slice(), i + 1, n))
            },
        },
        None => (0, 0),
    }
}


/// A commit subject cut to fit the list: one of more than 60 characters
/// keeps its first 57 characters and gets `...`; a shorter one stays.
pub open spec fn truncated(msg: Seq<char>) -> Seq<char> {
    if msg.len() > 60 {
        msg.take(57) + "..."@
    } else {
        msg
    }
}

/// `truncate_message` on the characters of a subject.
fn truncate_chars(msg: &[char]) -> (r: String)
    ensures
        r@ == truncated(msg@),
{
    if msg.len() <= 60 {
        string_from_chars(msg)
    } else {
        let mut r = string_of_range(msg, 0, 57);
        assert(msg@.subrange(0, 57) =~= msg@.take(57));
        r.append("...");
        r
    }
}

/// Truncates a commit subject to about 60 characters, adding an ellipsis.
pub fn truncate_message(msg: &str) -> (r: String)
    ensures
        r@ == truncated(msg@),
{
    let chars = chars_of(msg);
    truncate_chars(chars.as_slice())
}

/// How long ago `then` was, seen at `now` (both in seconds since the Unix
/// epoch): "future", "just now", or the whole minutes, hours, days, weeks or
/// 30-day months, the largest unit that applies. The difference is taken
/// modulo 2^64, as two's complement arithmetic gives it.
pub open spec fn age_label(now: i64, then: i64) -> Seq<char> {
    let diff = now.wrapping_sub(then);
    let minutes = diff / 60;
    let hours = minutes / 60;
    let days = hours / 24;
    let weeks = days / 7;
    let months = days / 30;
    if diff < 0 {
        "future"@
    } else if minutes < 1 {
        "just now"@
    } else if minutes < 60 {
        decimal(minutes as nat) + "m ago"@
    } else if hours < 24 {
        decimal(hours as nat) + "h ago"@
    } else if days < 7 {
        decimal(days as nat) + "d ago"@
    } else if weeks < 5 {
        decimal(weeks as nat) + "w ago"@
    } else {
        decimal(months as nat) + "mo ago"@
    }
}

/// `n` in decimal followed by `unit`.
fn count_with_unit(n: i64, unit: &str) -> (r: String)
    requires
        n >= 0,
    ensures
        r@ == decimal(n as nat) + unit@,
{
    let mut digits: Vec<char> = Vec::new();
    push_decimal(&mut digits, n as u64);
    assert(digits@ =~= decimal(n as nat));
    let mut r = string_from_chars(digits.as_slice());
    r.append(unit);
    r
}

/// How long ago `unix_ts` was, seen at `now`.
pub fn format_age_at(now: i64, unix_ts: i64) -> (r: String)
    ensures
        r@ == age_label(now, unix_ts),
{
    let diff = now.wrapping_sub(unix_ts);
    if diff < 0 {
        return String::from_str("future");
    }
    let minutes = diff / 60;
    let hours = minutes / 60;
    let days = hours / 24;
    let weeks = days / 7;
    let months = days / 30;
    if minutes < 1 {
        String::from_str("just now")
    } else if minutes < 60 {
        count_with_unit(minutes, "m ago")
    } else if hours < 24 {
        count_with_unit(hours, "h ago")
    } else if days < 7 {
        count_with_unit(days, "d ago")
    } else if weeks < 5 {
        count_with_unit(weeks, "w ago")
    } else {
        count_with_unit(months, "mo ago")
    }
}

/// The system clock's type.
#[verifier::external_type_specification]
#[verifier::external_body]
pub struct ExSystemTime(std::time::SystemTime);

/// Calls `SystemTime::now`: a reading of the system clock, of which nothing
/// is claimed.
#[verifier::external_body]
fn clock_now() -> (t: std::time::SystemTime) {
    std::time::SystemTime::now()
}

/// Calls `SystemTime::duration_since(UNIX_EPOCH)` and keeps the whole seconds
/// (`Duration::as_secs`), `None` when `t` is before the epoch; nothing is
/// claimed of the number, which depends on the clock.
#[verifier::external_body]
fn seconds_since_epoch(t: &std::time::SystemTime) -> (r: Option<u64>) {
    t.duration_since(std::time::UNIX_EPOCH).ok().map(|d| d.as_secs())
}

/// The current time in seconds since the Unix epoch, as an `i64`, and 0 when
/// the clock reads earlier than the epoch.
pub fn unix_now() -> (r: i64) {
    let t = clock_now();
    match seconds_since_epoch(&t) {
        Some(secs) => secs as i64,
        None => 0,
    }
}

/// How long ago `unix_ts` was, seen now.
pub fn format_age(unix_ts: i64) -> (r: String)
    ensures
        exists|now: i64| r@ == age_label(now, unix_ts),
{
    format_age_at(unix_now(), unix_ts)
}

/// What `git log -1 --format=%ct\t%s` printed, read at `now`: the age of the
/// commit, its truncated subject and its timestamp (0 when it does not read
/// as one). Output without a tab means there are no commits.
pub open spec fn last_commit_of(output: Seq<char>, now: i64) -> (Seq<char>, Seq<char>, i64) {
    let t = trim(output);
    match split_tab(t) {
        Some((ts_text, msg)) => {
            let ts = match parse_i64_spec(ts_text) {
                Some(v) => v,
                None => 0,
            };
            (age_label(now, ts), truncated(msg), ts)
        },
        None => ("never"@, "no commits"@, 0),
    }
}

/// Parses the `%ct\t%s`-formatted output of `git log -1`, with the age seen
/// at `now`.
pub fn parse_last_commit_at(output: &str, now: i64) -> (r: (String, String, i64))
    ensures
        (r.0@, r.1@, r.2) == last_commit_of(output@, now),
{
    let chars = chars_of(output);
    let (a, b) = trim_bounds(chars.as_slice());
    let t = sub_chars(chars.as_slice(), a, b);
    let n = t.len();
    proof {
        lemma_find_from_props(t@, '\t', 0);
    }
    match find_char_from(t.as_slice(), '\t', 0) {
        Some(i) => {
            let ts_chars = sub_chars(t.as_slice(), 0, i);
            let msg_chars = sub_chars(t.as_slice(), i + 1, n);
            assert(ts_chars@ =~= t@.take(i as int));
            assert(msg_chars@ =~= t@.skip(i + 1));
            let ts: i64 = match parse_i64(ts_chars.as_slice()) {
                Some(v) => v,
                None => 0,
            };
            (format_age_at(now, ts), truncate_chars(msg_chars.as_slice()), ts)
        },
        None => (String::from_str("never"), String::from_str("no commits"), 0),
    }
}

/// Parses the `%ct\t%s`-formatted output of `git log -1`, with the age seen
/// by the system clock.
pub fn parse_last_commit(output: &str) -> (r: (String, String, i64))
    ensures
        exists|now: i64| (r.0@, r.1@, r.2) == last_commit_of(output@, now),
        r.1@ == last_commit_of(output@, 0).1,
        r.2 == last_commit_of(output@, 0).2,
{
    parse_last_commit_at(output, unix_now())
}


/// The views of a list of commits.
pub open spec fn commit_views(v: Seq<CommitInfo>) -> Seq<CommitView> {
    v.map_values(|c: CommitInfo| c@)
}

/// The views of a list of changed files.
pub open spec fn status_views(v: Seq<FileStatus>) -> Seq<FileStatusView> {
    v.map_values(|f: FileStatus| f@)
}

/// The views of a list of branches.
pub open spec fn branch_views(v: Seq<BranchInfo>) -> Seq<BranchView> {
    v.map_values(|b: BranchInfo| b@)
}

/// The views of a list of strings.
pub open spec fn string_views(v: Seq<String>) -> Seq<Seq<char>> {
    v.map_values(|s: String| s@)
}

/// The commits that `git log --format=%h\t%an\t%cr\t%s` printed: one per
/// non-empty line that has the four fields, in order; none when the command
/// failed.
pub fn commits_from_log(output: Option<&str>) -> (r: Vec<CommitInfo>)
    ensures
        commit_views(r@) == match output {
            Some(s) => filled_lines(s@).filter_map(|l: Seq<char>| commit_fields(l)),
            None => Seq::<CommitView>::empty(),
        },
{
    let mut r: Vec<CommitInfo> = Vec::new();
    if let Some(s) = output {
        let ls = filled_lines_of(s);
        let ghost f = |l: Seq<char>| commit_fields(l);
        let ghost all = views(ls@);
        let mut k: usize = 0;
        assert(all.take(0) =~= Seq::<Seq<char>>::empty());
        assert(commit_views(r@) =~= Seq::<CommitView>::empty());
        while k < ls.len()
            invariant
                k <= ls@.len() == all.len(),
                all == views(ls@),
                f == (|l: Seq<char>| commit_fields(l)),
                commit_views(r@) == all.take(k as int).filter_map(f),
            decreases ls@.len() - k,
        {
            proof {
                all.lemma_filter_map_take_succ(f, k as int);
            }
            let ghost before = r@;
            match commit_from_chars(ls[k].as_slice()) {
                Some(c) => {
                    r.push(c);
                    assert(commit_views(r@) =~= commit_views(before) + seq![c@]);
                },
                None => {},
            }
            k = k + 1;
        }
        assert(all.take(ls@.len() as int) =~= all);
    }
    r
}

/// The changed files that `git status --porcelain` printed: one per
/// non-empty line, in order; none when the command failed.
pub fn changed_files_from_status(output: Option<&str>) -> (r: Vec<FileStatus>)
    ensures
        status_views(r@) == match output {
            Some(s) => filled_lines(s@).map_values(|l: Seq<char>| status_fields(l)),
            None => Seq::<FileStatusView>::empty(),
        },
{
    let mut r: Vec<FileStatus> = Vec::new();
    if let Some(s) = output {
        let ls = filled_lines_of(s);
        let ghost all = views(ls@);
        let mut k: usize = 0;
        while k < ls.len()
            invariant
                k <= ls@.len() == all.len(),
                all == views(ls@),
                r@.len() == k,
                forall|j: int| 0 <= j < k ==> (#[trigger] r@[j])@ == status_fields(all[j]),
            decreases ls@.len() - k,
        {
            let f = status_from_chars(ls[k].as_slice());
            r.push(f);
            k = k + 1;
        }
        assert(status_views(r@) =~= all.map_values(|l: Seq<char>| status_fields(l)));
    } else {
        assert(status_views(r@) =~= Seq::<FileStatusView>::empty());
    }
    r
}

/// The branches that `git branch -vv` printed: one per non-empty line, in
/// order; none when the command failed.
pub fn branches_from_listing(output: Option<&str>) -> (r: Vec<BranchInfo>)
    ensures
        branch_views(r@) == match output {
            Some(s) => filled_lines(s@).map_values(|l: Seq<char>| branch_fields(l)),
            None => Seq::<BranchView>::empty(),
        },
{
    let mut r: Vec<BranchInfo> = Vec::new();
    if let Some(s) = output {
        let ls = filled_lines_of(s);
        let ghost all = views(ls@);
        let mut k: usize = 0;
        while k < ls.len()
            invariant
                k <= ls@.len() == all.len(),
                all == views(ls@),
                r@.len() == k,
                forall|j: int| 0 <= j < k ==> (#[trigger] r@[j])@ == branch_fields(all[j]),
            decreases ls@.len() - k,
        {
            let b = branch_from_chars(ls[k].as_slice());
            r.push(b);
            k = k + 1;
        }
        assert(branch_views(r@) =~= all.map_values(|l: Seq<char>| branch_fields(l)));
    } else {
        assert(branch_views(r@) =~= Seq::<BranchView>::empty());
    }
    r
}

/// The stashes that `git stash list` printed: its non-empty lines, in order;
/// none when the command failed.
pub fn stashes_from_list(output: Option<&str>) -> (r: Vec<String>)
    ensures
        string_views(r@) == match output {
            Some(s) => filled_lines(s@),
            None => Seq::<Seq<char>>::empty(),
        },
{
    let mut r: Vec<String> = Vec::new();
    if let Some(s) = output {
        let ls = filled_lines_of(s);
        let ghost all = views(ls@);
        let mut k: usize = 0;
        while k < ls.len()
            invariant
                k <= ls@.len() == all.len(),
                all == views(ls@),
                r@.len() == k,
                forall|j: int| 0 <= j < k ==> (#[trigger] r@[j])@ == all[j],
            decreases ls@.len() - k,
        {
            r.push(string_from_chars(ls[k].as_slice()));
            k = k + 1;
        }
        assert(string_views(r@) =~= all);
    } else {
        assert(string_views(r@) =~= Seq::<Seq<char>>::empty());
    }
    r
}

/// The number of uncommitted changes that `git status --porcelain` printed:
/// its non-empty lines, counted modulo 2^32; 0 when the command failed.
pub fn dirty_count_from_status(output: Option<&str>) -> (r: u32)
    ensures
        r == match output {
            Some(s) => filled_lines(s@).len() as u32,
            None => 0u32,
        },
{
    match output {
        Some(s) => {
            let ls = filled_lines_of(s);
            assert(views(ls@).len() == ls@.len());
            ls.len() as u32
        },
        None => 0,
    }
}

/// The branch that `git rev-parse --abbrev-ref HEAD` printed, trimmed; `???`
/// when the command failed.
pub open spec fn branch_of(output: Option<Seq<char>>) -> Seq<char> {
    match output {
        Some(s) => trim(s),
        None => "???"@,
    }
}

/// The branch name from the output of `git rev-parse --abbrev-ref HEAD`.
pub fn branch_from_head(output: Option<&str>) -> (r: String)
    ensures
        r@ == branch_of(match output {
            Some(s) => Some(s@),
            None => None,
        }),
{
    match output {
        Some(s) => {
            let chars = chars_of(s);
            assert(chars@.subrange(0, chars@.len() as int) =~= chars@);
            trimmed_string(chars.as_slice(), 0, chars.len())
        },
        None => String::from_str("???"),
    }
}

/// The detail view of a repository from the outputs of `git log -20`,
/// `git status --porcelain`, `git branch -vv` and `git stash list` (`None`
/// for a command that failed).
pub fn repo_detail_from_outputs(
    log: Option<&str>,
    status: Option<&str>,
    branches: Option<&str>,
    stashes: Option<&str>,
) -> (r: RepoDetail)
    ensures
        commit_views(r.commits@) == match log {
            Some(s) => filled_lines(s@).filter_map(|l: Seq<char>| commit_fields(l)),
            None => Seq::<CommitView>::empty(),
        },
        status_views(r.changed_files@) == match status {
            Some(s) => filled_lines(s@).map_values(|l: Seq<char>| status_fields(l)),
            None => Seq::<FileStatusView>::empty(),
        },
        branch_views(r.branches@) == match branches {
            Some(s) => filled_lines(s@).map_values(|l: Seq<char>| branch_fields(l)),
            None => Seq::<BranchView>::empty(),
        },
        string_views(r.stashes@) == match stashes {
            Some(s) => filled_lines(s@),
            None => Seq::<Seq<char>>::empty(),
        },
{
    RepoDetail {
        commits: commits_from_log(log),
        changed_files: changed_files_from_status(status),
        branches: branches_from_listing(branches),
        stashes: stashes_from_list(stashes),
    }
}

/// The summary of a repository from its path and name and the outputs of
/// `git rev-parse --abbrev-ref HEAD`, `git rev-list --left-right --count
/// HEAD...@{upstream}`, `git status --porcelain` and `git log -1
/// --format=%ct\t%s` (`None` for a command that failed), with ages seen at
/// `now`.
pub fn repo_info_from_outputs(
    path: String,
    name: String,
    head: Option<&str>,
    counts: Option<&str>,
    status: Option<&str>,
    last_log: Option<&str>,
    now: i64,
) -> (r: RepoInfo)
    ensures
        r.path == path,
        r.name == name,
        r.branch@ == branch_of(match head {
            Some(s) => Some(s@),
            None => None,
        }),
        (r.ahead, r.behind) == match counts {
            Some(s) => ahead_behind_of(s@),
            None => (0u32, 0u32),
        },
        r.dirty_count == match status {
            Some(s) => filled_lines(s@).len() as u32,
            None => 0u32,
        },
        (r.last_commit_age@, r.last_commit_message@, r.last_commit_timestamp) == match last_log {
            Some(s) => last_commit_of(s@, now),
            None => ("never"@, "no commits"@, 0i64),
        },
        r.error is None,
{
    let branch = branch_from_head(head);
    let (ahead, behind) = match counts {
        Some(s) => parse_ahead_behind(s),
        None => (0, 0),
    };
    let dirty_count = dirty_count_from_status(status);
    let (last_commit_age, last_commit_message, last_commit_timestamp) = match last_log {
        Some(s) => parse_last_commit_at(s, now),
        None => (String::from_str("never"), String::from_str("no commits"), 0),
    };
    RepoInfo {
        path,
        name,
        branch,
        ahead,
        behind,
        dirty_count,
        last_commit_age,
        last_commit_message,
        last_commit_timestamp,
        error: None,
    }
}


/// A line of `git log --format=%h\t%an\t%cr\t%s` for the commit `v`.
pub open spec fn commit_line(v: CommitView) -> Seq<char> {
    v.hash + seq!['\t'] + v.author + seq!['\t'] + v.date + seq!['\t'] + v.message
}

proof fn lemma_split_tab_of_join(a: Seq<char>, b: Seq<char>)
    requires
        !a.contains('\t'),
    ensures
        split_tab(a + seq!['\t'] + b) == Some((a, b)),
{
    let s = a + seq!['\t'] + b;
    assert(s[a.len() as int] == '\t');
    assert forall|k: int| 0 <= k < a.len() implies s[k] != '\t' by {
        assert(s[k] == a[k]);
    }
    crate::text::lemma_find_from_some(s, '\t', 0, a.len() as int);
    assert(s.take(a.len() as int) =~= a);
    assert(s.skip(a.len() as int + 1) =~= b);
}

proof fn lemma_split_tab_parts(s: Seq<char>)
    requires
        split_tab(s) is Some,
    ensures
        s == split_tab(s).unwrap().0 + seq!['\t'] + split_tab(s).unwrap().1,
        !split_tab(s).unwrap().0.contains('\t'),
{
    lemma_find_from_props(s, '\t', 0);
    let i = find(s, '\t').unwrap();
    assert(s =~= s.take(i) + seq!['\t'] + s.skip(i + 1));
    assert forall|k: int| 0 <= k < i implies s.take(i)[k] != '\t' by {}
}

/// Reading a `git log` line gives back the commit that was written, when
/// hash, author and date hold no tab; and every line that reads is such a
/// commit written out.
pub proof fn lemma_commit_line_round_trip(v: CommitView, l: Seq<char>)
    ensures
        !v.hash.contains('\t') && !v.author.contains('\t') && !v.date.contains('\t')
            ==> commit_fields(commit_line(v)) == Some(v),
        commit_fields(l) is Some ==> l == commit_line(commit_fields(l).unwrap()),
{
    if !v.hash.contains('\t') && !v.author.contains('\t') && !v.date.contains('\t') {
        let r2 = v.date + seq!['\t'] + v.message;
        let r1 = v.author + seq!['\t'] + r2;
        assert(commit_line(v) =~= v.hash + seq!['\t'] + r1);
        lemma_split_tab_of_join(v.hash, r1);
        lemma_split_tab_of_join(v.author, r2);
        lemma_split_tab_of_join(v.date, v.message);
    }
    if commit_fields(l) is Some {
        lemma_split_tab_parts(l);
        let r1 = split_tab(l).unwrap().1;
        lemma_split_tab_parts(r1);
        let r2 = split_tab(r1).unwrap().1;
        lemma_split_tab_parts(r2);
        assert(l =~= commit_line(commit_fields(l).unwrap()));
    }
}

proof fn lemma_digits_not_white(d: Seq<char>)
    requires
        all_digits(d),
    ensures
        forall|k: int| 0 <= k < d.len() ==> !is_white(#[trigger] d[k]) && d[k] != '\t',
{
    assert forall|k: int| 0 <= k < d.len() implies !is_white(#[trigger] d[k]) && d[k] != '\t' by {
        assert(is_digit(d[k]));
    }
}

/// The counts that `git rev-list --left-right --count` prints read back as
/// themselves.
pub proof fn lemma_ahead_behind_round_trip(ahead: u32, behind: u32)
    ensures
        ahead_behind_of(decimal(ahead as nat) + seq!['\t'] + decimal(behind as nat) + seq!['\n'])
            == (ahead, behind),
{
    let d1 = decimal(ahead as nat);
    let d2 = decimal(behind as nat);
    lemma_decimal_digits(ahead as nat);
    lemma_decimal_digits(behind as nat);
    lemma_digits_not_white(d1);
    lemma_digits_not_white(d2);
    let t = d1 + seq!['\t'] + d2;
    let s = t + seq!['\n'];
    assert(s[0] == d1[0]);
    lemma_trim_start_at(s, 0);
    assert(s.subrange(0, s.len() as int) =~= s);
    assert(s[s.len() - 2] == d2[d2.len() - 1]);
    lemma_trim_end_at(s, s.len() - 1);
    assert(s.subrange(0, s.len() - 1) =~= t);
    assert(trim(s) == t);
    lemma_split_tab_of_join(d1, d2);
    let i = d1.len() as int;
    lemma_find_from_props(t, '\t', 0);
    assert forall|k: int| i + 1 <= k < t.len() implies t[k] != '\t' by {
        assert(t[k] == d2[k - i - 1]);
    }
    crate::text::lemma_find_from_none(t, '\t', i + 1);
    lemma_u32_round_trip(ahead);
    lemma_u32_round_trip(behind);
}

/// A truncated subject never has more than 60 characters, one that fits is
/// left as it is, and a longer one keeps its beginning.
pub proof fn lemma_truncated_fits(msg: Seq<char>)
    ensures
        truncated(msg).len() <= 60,
        msg.len() <= 60 ==> truncated(msg) == msg,
        msg.len() > 60 ==> truncated(msg).len() == 60 && truncated(msg).take(57) == msg.take(57),
{
    if msg.len() > 60 {
        reveal_strlit("...");
        assert((msg.take(57) + "..."@).take(57) =~= msg.take(57));
    }
}

/// The age label in whole units of the time since the commit, counted in
/// seconds: under a minute "just now", then whole minutes below an hour,
/// whole hours below a day, whole days below a week, whole weeks below 35
/// days, and whole 30-day months after that; a commit after `now` is in the
/// future. The number shown is never 0.
pub proof fn lemma_age_buckets(now: i64, then: i64)
    requires
        i64::MIN <= now - then <= i64::MAX,
    ensures
        now - then < 0 ==> age_label(now, then) == "future"@,
        0 <= now - then < 60 ==> age_label(now, then) == "just now"@,
        60 <= now - then < 3600 ==> age_label(now, then) == decimal(((now - then) / 60) as nat)
            + "m ago"@ && 1 <= (now - then) / 60 < 60,
        3600 <= now - then < 86400 ==> age_label(now, then) == decimal(
            ((now - then) / 3600) as nat,
        ) + "h ago"@ && 1 <= (now - then) / 3600 < 24,
        86400 <= now - then < 604800 ==> age_label(now, then) == decimal(
            ((now - then) / 86400) as nat,
        ) + "d ago"@ && 1 <= (now - then) / 86400 < 7,
        604800 <= now - then < 3024000 ==> age_label(now, then) == decimal(
            ((now - then) / 604800) as nat,
        ) + "w ago"@ && 1 <= (now - then) / 604800 < 5,
        3024000 <= now - then ==> age_label(now, then) == decimal(
            ((now - then) / 2592000) as nat,
        ) + "mo ago"@ && 1 <= (now - then) / 2592000,
{
    let d = now - then;
    assert(now.wrapping_sub(then) == d);
    if d >= 0 {
        vstd::arithmetic::div_mod::lemma_div_denominator(d, 60, 60);
        vstd::arithmetic::div_mod::lemma_div_denominator(d, 3600, 24);
        vstd::arithmetic::div_mod::lemma_div_denominator(d, 86400, 7);
        vstd::arithmetic::div_mod::lemma_div_denominator(d, 86400, 30);
        assert(d / 60 / 60 == d / 3600);
        assert(d / 60 / 60 / 24 == d / 86400);
        assert(d / 86400 / 7 == d / 604800);
        assert(d / 86400 / 30 == d / 2592000);
        assert(d / 60 < 1 <==> d < 60);
        assert(d / 60 < 60 <==> d < 3600);
        assert(d / 3600 < 24 <==> d < 86400);
        assert(d / 86400 < 7 <==> d < 604800);
        assert(d / 604800 < 5 <==> d < 3024000);
        assert(d >= 3600 ==> d / 3600 >= 1);
        assert(d >= 86400 ==> d / 86400 >= 1);
        assert(d >= 604800 ==> d / 604800 >= 1);
        assert(d >= 3024000 ==> d / 2592000 >= 1);
    }
}

/// A commit made at `now` is "just now".
pub proof fn lemma_age_of_now(now: i64)
    ensures
        age_label(now, now) == "just now"@,
{
}

/// A line `XY path` of `git status --porcelain`, with an ASCII status code
/// `XY`, reads as the trimmed code and the path.
pub proof fn lemma_status_line_fields(code: Seq<char>, path: Seq<char>)
    requires
        code.len() == 2,
        (code[0] as u32) < 0x80,
        (code[1] as u32) < 0x80,
    ensures
        status_fields(code + seq![' '] + path) == (FileStatusView {
            status: trim(code),
            path: path,
        }),
{
    let s = code + seq![' '] + path;
    reveal_with_fuel(chars_at_byte, 4);
    assert(s.drop_first().drop_first().drop_first() =~= path);
    assert(chars_at_byte(s, 2) == Some(2int));
    assert(chars_at_byte(s, 3) == Some(3int));
    assert(s.take(2) =~= code);
    assert(s.skip(3) =~= path);
}


/// The order in which discovered repositories are listed: their paths
/// stably sorted by their file names with ASCII letters lower-cased.
pub open spec fn discovery_order(paths: Seq<String>, names: Seq<String>) -> Seq<String> {
    crate::order::stably_sorted(
        paths,
        names.map_values(|n: String| crate::order::KeyModel::Text(crate::text::ascii_lower(n@))),
    )
}

/// Sorts the discovered repository paths by their file names (`names[i]` is
/// the file name of `paths[i]`), ASCII case ignored, ties kept in the order
/// the directory listed them.
pub fn sort_discovered(paths: Vec<String>, names: Vec<String>) -> (r: Vec<String>)
    requires
        paths@.len() == names@.len(),
    ensures
        r@ == discovery_order(paths@, names@),
{
    let n = names.len();
    let mut keys: Vec<crate::order::SortKey> = Vec::new();
    let mut k: usize = 0;
    while k < n
        invariant
            k <= n == names@.len(),
            keys@.len() == k,
            forall|j: int| 0 <= j < k ==> (#[trigger] keys@[j])@ == crate::order::KeyModel::Text(
                crate::text::ascii_lower(names@[j]@),
            ),
        decreases n - k,
    {
        keys.push(crate::order::SortKey::Text(crate::text::ascii_lower_chars(names[k].as_str())));
        k = k + 1;
    }
    let ghost ks = names@.map_values(
        |n: String| crate::order::KeyModel::Text(crate::text::ascii_lower(n@)),
    );
    assert(crate::order::key_models(keys@) =~= ks);
    let ord = crate::order::stable_order(&keys);
    proof {
        crate::order::lemma_is_the_stable_order(ks, crate::order::positions(ord@));
    }
    let mut out: Vec<String> = Vec::new();
    let mut k: usize = 0;
    while k < n
        invariant
            k <= n == ord@.len() == paths@.len(),
            crate::order::is_stable_order(ks, crate::order::positions(ord@)),
            ks.len() == n,
            out@.len() == k,
            forall|j: int| 0 <= j < k ==> #[trigger] out@[j] == paths@[ord@[j] as int],
        decreases n - k,
    {
        assert(crate::order::positions(ord@)[k as int] == ord@[k as int] as int);
        let i = ord[k];
        out.push(paths[i].clone());
        k = k + 1;
    }
    assert(out@ =~= crate::order::positions(ord@).map_values(|i: int| paths@[i]));
    out
}

} // verus!

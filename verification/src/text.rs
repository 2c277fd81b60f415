//! Character-level text handling: the view of a string as a sequence of
//! `char`s, Unicode white space, trimming, searching and line splitting.
use vstd::prelude::*;
use vstd::string::*;
use vstd::utf8::*;

verus! {

broadcast use vstd::string::group_string_axioms;

/// The characters of `s`, in order.
pub fn chars_of(s: &str) -> (v: Vec<char>)
    ensures
        v@ == s@,
{
    let mut v: Vec<char> = Vec::new();
    for c in it: s.chars()
        invariant
            it.seq() == s@,
            v@ == it.seq().take(it.index() as int),
    {
        v.push(c);
    }
    v
}

/// A `String` made of the given characters. Collects them with
/// `FromIterator<&char>` for `String` (`Iterator::collect`), which the
/// contract claims keeps exactly these characters in this order.
#[verifier::external_body]
pub(crate) fn string_from_chars(v: &[char]) -> (s: String)
    ensures
        s@ == v@,
{
    v.iter().collect::<String>()
}


/// The characters that Unicode gives the White_Space property, which is
/// what `char::is_whitespace` tests.
pub open spec fn is_white(c: char) -> bool {
    let u = c as u32;
    ||| 0x09 <= u <= 0x0D
    ||| u == 0x20
    ||| u == 0x85
    ||| u == 0xA0
    ||| u == 0x1680
    ||| 0x2000 <= u <= 0x200A
    ||| u == 0x2028
    ||| u == 0x2029
    ||| u == 0x202F
    ||| u == 0x205F
    ||| u == 0x3000
}

/// Whether `c` is Unicode white space.
pub fn is_white_char(c: char) -> (b: bool)
    ensures
        b == is_white(c),
{
    let u = c as u32;
    (0x09 <= u && u <= 0x0D) || u == 0x20 || u == 0x85 || u == 0xA0 || u == 0x1680 || (0x2000
        <= u && u <= 0x200A) || u == 0x2028 || u == 0x2029 || u == 0x202F || u == 0x205F || u
        == 0x3000
}

/// `s` without its leading white space.
pub open spec fn trim_start(s: Seq<char>) -> Seq<char>
    decreases s.len(),
{
    if s.len() > 0 && is_white(s[0]) {
        trim_start(s.drop_first())
    } else {
        s
    }
}

/// `s` without its trailing white space.
pub open spec fn trim_end(s: Seq<char>) -> Seq<char>
    decreases s.len(),
{
    if s.len() > 0 && is_white(s.last()) {
        trim_end(s.drop_last())
    } else {
        s
    }
}

/// `s` without its leading and trailing white space, as `str::trim` gives it.
pub open spec fn trim(s: Seq<char>) -> Seq<char> {
    trim_end(trim_start(s))
}

pub proof fn lemma_trim_start_at(s: Seq<char>, i: int)
    requires
        0 <= i <= s.len(),
        forall|k: int| 0 <= k < i ==> is_white(#[trigger] s[k]),
        i == s.len() || !is_white(s[i]),
    ensures
        trim_start(s) == s.subrange(i, s.len() as int),
    decreases i,
{
    if i > 0 {
        lemma_trim_start_at(s.drop_first(), i - 1);
        assert(s.drop_first().subrange(i - 1, s.len() - 1) =~= s.subrange(i, s.len() as int));
    } else {
        assert(s.subrange(0, s.len() as int) =~= s);
    }
}

pub proof fn lemma_trim_end_at(s: Seq<char>, j: int)
    requires
        0 <= j <= s.len(),
        forall|k: int| j <= k < s.len() ==> is_white(#[trigger] s[k]),
        j == 0 || !is_white(s[j - 1]),
    ensures
        trim_end(s) == s.subrange(0, j),
    decreases s.len() - j,
{
    if j < s.len() {
        lemma_trim_end_at(s.drop_last(), j);
        assert(s.drop_last().subrange(0, j) =~= s.subrange(0, j));
    } else {
        assert(s.subrange(0, j) =~= s);
    }
}

/// The bounds `(start, end)` of `trim(s)` within `s`.
pub fn trim_bounds(s: &[char]) -> (r: (usize, usize))
    ensures
        r.0 <= r.1 <= s@.len(),
        trim(s@) == s@.subrange(r.0 as int, r.1 as int),
{
    let n = s.len();
    let mut i: usize = 0;
    while i < n && is_white_char(s[i])
        invariant
            i <= n == s@.len(),
            forall|k: int| 0 <= k < i ==> is_white(#[trigger] s@[k]),
        decreases n - i,
    {
        i = i + 1;
    }
    let mut j: usize = n;
    while j > i && is_white_char(s[j - 1])
        invariant
            i <= j <= n == s@.len(),
            forall|k: int| j <= k < n ==> is_white(#[trigger] s@[k]),
        decreases j,
    {
        j = j - 1;
    }
    proof {
        lemma_trim_start_at(s@, i as int);
        let t = s@.subrange(i as int, n as int);
        assert forall|k: int| j - i <= k < t.len() implies is_white(#[trigger] t[k]) by {
            assert(t[k] == s@[k + i]);
        }
        lemma_trim_end_at(t, j - i);
        assert(t.subrange(0, j - i) =~= s@.subrange(i as int, j as int));
    }
    (i, j)
}

/// The characters of `s` from `start` up to `end`.
pub fn sub_chars(s: &[char], start: usize, end: usize) -> (v: Vec<char>)
    requires
        start <= end <= s@.len(),
    ensures
        v@ == s@.subrange(start as int, end as int),
{
    let mut v: Vec<char> = Vec::new();
    let mut k = start;
    while k < end
        invariant
            start <= k <= end <= s@.len(),
            v@ == s@.subrange(start as int, k as int),
        decreases end - k,
    {
        v.push(s[k]);
        k = k + 1;
        assert(v@ =~= s@.subrange(start as int, k as int));
    }
    v
}

/// The index of the first `c` in `s` at or after `from`, if there is one.
pub open spec fn find_from(s: Seq<char>, c: char, from: int) -> Option<int>
    decreases s.len() - from,
{
    if from < 0 || from >= s.len() {
        None
    } else if s[from] == c {
        Some(from)
    } else {
        find_from(s, c, from + 1)
    }
}

/// The index of the first `c` in `s`, if there is one.
pub open spec fn find(s: Seq<char>, c: char) -> Option<int> {
    find_from(s, c, 0)
}

pub proof fn lemma_find_from_none(s: Seq<char>, c: char, from: int)
    requires
        0 <= from <= s.len(),
        forall|k: int| from <= k < s.len() ==> s[k] != c,
    ensures
        find_from(s, c, from) is None,
    decreases s.len() - from,
{
    if from < s.len() {
        lemma_find_from_none(s, c, from + 1);
    }
}

pub proof fn lemma_find_from_some(s: Seq<char>, c: char, from: int, at: int)
    requires
        0 <= from <= at < s.len(),
        s[at] == c,
        forall|k: int| from <= k < at ==> s[k] != c,
    ensures
        find_from(s, c, from) == Some(at),
    decreases at - from,
{
    if from < at {
        lemma_find_from_some(s, c, from + 1, at);
    }
}

/// What `find_from` gives: the first occurrence at or after `from`, or none.
pub proof fn lemma_find_from_props(s: Seq<char>, c: char, from: int)
    requires
        0 <= from,
    ensures
        match find_from(s, c, from) {
            Some(i) => from <= i < s.len() && s[i] == c && forall|k: int|
                from <= k < i ==> s[k] != c,
            None => forall|k: int| from <= k < s.len() ==> s[k] != c,
        },
    decreases s.len() - from,
{
    if from < s.len() && s[from] != c {
        lemma_find_from_props(s, c, from + 1);
    }
}

/// Searching a suffix is searching the whole from where the suffix starts.
pub proof fn lemma_find_skip(s: Seq<char>, c: char, p: int)
    requires
        0 <= p <= s.len(),
    ensures
        find(s.skip(p), c) == (match find_from(s, c, p) {
            Some(i) => Some(i - p),
            None => None,
        }),
{
    let t = s.skip(p);
    lemma_find_from_props(s, c, p);
    match find_from(s, c, p) {
        Some(i) => {
            assert forall|k: int| 0 <= k < i - p implies t[k] != c by {
                assert(t[k] == s[k + p]);
            }
            lemma_find_from_some(t, c, 0, i - p);
        },
        None => {
            assert forall|k: int| 0 <= k < t.len() implies t[k] != c by {
                assert(t[k] == s[k + p]);
            }
            lemma_find_from_none(t, c, 0);
        },
    }
}

/// The index of the first `c` in `s` at or after `from`, as `find_from` has it.
pub fn find_char_from(s: &[char], c: char, from: usize) -> (r: Option<usize>)
    requires
        from <= s@.len(),
    ensures
        match r {
            Some(i) => find_from(s@, c, from as int) == Some(i as int),
            None => find_from(s@, c, from as int) is None,
        },
{
    let n = s.len();
    let mut k = from;
    while k < n
        invariant
            from <= k <= n == s@.len(),
            forall|j: int| from <= j < k ==> s@[j] != c,
        decreases n - k,
    {
        if s[k] == c {
            proof {
                lemma_find_from_some(s@, c, from as int, k as int);
            }
            return Some(k);
        }
        k = k + 1;
    }
    proof {
        lemma_find_from_none(s@, c, from as int);
    }
    None
}


/// `l` without one trailing carriage return.
pub open spec fn strip_cr(l: Seq<char>) -> Seq<char> {
    if l.len() > 0 && l.last() == '\r' {
        l.drop_last()
    } else {
        l
    }
}

/// The lines of `s` as `str::lines` yields them: split at each `\n`, a `\r`
/// right before the `\n` dropped, and no empty line after a final `\n`.
pub open spec fn lines(s: Seq<char>) -> Seq<Seq<char>>
    decreases s.len(),
{
    if s.len() == 0 {
        seq![]
    } else {
        match find(s, '\n') {
            Some(i) => {
                proof {
                    lemma_find_from_props(s, '\n', 0);
                }
                seq![strip_cr(s.take(i))] + lines(s.skip(i + 1))
            },
            None => seq![s],
        }
    }
}

/// Whether a line holds anything at all.
pub open spec fn is_filled(l: Seq<char>) -> bool {
    l.len() > 0
}

/// The lines of `s` that are not empty, in order.
pub open spec fn filled_lines(s: Seq<char>) -> Seq<Seq<char>> {
    lines(s).filter(|l: Seq<char>| is_filled(l))
}

/// The view of a list of character vectors.
pub open spec fn views(v: Seq<Vec<char>>) -> Seq<Seq<char>> {
    v.map_values(|l: Vec<char>| l@)
}

/// A final line ending adds no line: `s` followed by `\n` has the same
/// non-empty lines as `s`, unless `s` ends in a carriage return (which the
/// `\n` then turns into a line ending).
pub proof fn lemma_final_newline_adds_no_line(s: Seq<char>)
    requires
        s.len() == 0 || s.last() != '\r',
    ensures
        filled_lines(s + seq!['\n']) == filled_lines(s),
    decreases s.len(),
{
    let keep = |l: Seq<char>| is_filled(l);
    let t = s + seq!['\n'];
    lemma_find_from_props(s, '\n', 0);
    lemma_find_from_props(t, '\n', 0);
    if s.len() == 0 {
        assert(t.take(0) =~= Seq::<char>::empty());
        assert(t.skip(1) =~= Seq::<char>::empty());
        assert(lines(t) == seq![Seq::<char>::empty()] + lines(Seq::<char>::empty()));
        Seq::<Seq<char>>::empty().lemma_filter_prepend(Seq::<char>::empty(), keep);
        reveal(Seq::filter);
    } else {
        match find(s, '\n') {
            Some(i) => {
                assert(t[i] == '\n');
                assert forall|k: int| 0 <= k < i implies t[k] != '\n' by {
                    assert(t[k] == s[k]);
                }
                lemma_find_from_some(t, '\n', 0, i);
                assert(t.take(i) =~= s.take(i));
                let rest = s.skip(i + 1);
                assert(t.skip(i + 1) =~= rest + seq!['\n']);
                if rest.len() > 0 {
                    assert(rest.last() == s.last());
                }
                lemma_final_newline_adds_no_line(rest);
                let first = strip_cr(s.take(i));
                lines(rest + seq!['\n']).lemma_filter_prepend(first, keep);
                lines(rest).lemma_filter_prepend(first, keep);
            },
            None => {
                assert(t[s.len() as int] == '\n');
                lemma_find_from_some(t, '\n', 0, s.len() as int);
                assert(t.take(s.len() as int) =~= s);
                assert(t.skip(s.len() as int + 1) =~= Seq::<char>::empty());
                assert(strip_cr(s) == s);
                assert(lines(t) =~= seq![s] + lines(Seq::<char>::empty()));
                assert(lines(s) == seq![s]);
                assert(seq![s] + Seq::<Seq<char>>::empty() =~= seq![s]);
            },
        }
    }
}

/// The non-empty lines of `s`, each as its characters.
pub fn filled_lines_of(s: &str) -> (v: Vec<Vec<char>>)
    ensures
        views(v@) == filled_lines(s@),
{
    let chars = chars_of(s);
    let n = chars.len();
    let mut out: Vec<Vec<char>> = Vec::new();
    let mut pos: usize = 0;
    let ghost keep = |l: Seq<char>| is_filled(l);
    assert(chars@.skip(0) =~= chars@);
    while pos < n
        invariant
            pos <= n == chars@.len(),
            chars@ == s@,
            keep == (|l: Seq<char>| is_filled(l)),
            filled_lines(s@) == views(out@) + lines(chars@.skip(pos as int)).filter(keep),
        decreases n - pos,
    {
        let ghost rest = chars@.skip(pos as int);
        let ghost old_out = out@;
        proof {
            lemma_find_from_props(chars@, '\n', pos as int);
            lemma_find_from_props(rest, '\n', 0);
        }
        match find_char_from(&chars, '\n', pos) {
            Some(j) => {
                let mut line = sub_chars(&chars, pos, j);
                if line.len() > 0 && line[line.len() - 1] == '\r' {
                    line.pop();
                }
                proof {
                    assert(rest[j - pos] == '\n');
                    assert forall|k: int| 0 <= k < j - pos implies rest[k] != '\n' by {
                        assert(rest[k] == chars@[k + pos]);
                    }
                    lemma_find_from_some(rest, '\n', 0, j - pos);
                    assert(rest.take(j - pos) =~= chars@.subrange(pos as int, j as int));
                    assert(rest.skip(j - pos + 1) =~= chars@.skip(j + 1));
                    assert(line@ == strip_cr(rest.take(j - pos)));
                    assert(lines(rest) == seq![line@] + lines(chars@.skip(j + 1)));
                    lines(chars@.skip(j + 1)).lemma_filter_prepend(line@, keep);
                }
                if line.len() > 0 {
                    out.push(line);
                }
                proof {
                    assert(views(out@) =~= views(old_out) + (if keep(line@) {
                        seq![line@]
                    } else {
                        Seq::<Seq<char>>::empty()
                    }));
                }
                pos = j + 1;
            },
            None => {
                let line = sub_chars(&chars, pos, n);
                proof {
                    assert forall|k: int| 0 <= k < rest.len() implies rest[k] != '\n' by {
                        assert(rest[k] == chars@[k + pos]);
                    }
                    lemma_find_from_none(rest, '\n', 0);
                    assert(line@ =~= rest);
                    assert(lines(rest) == seq![line@]);
                    Seq::<Seq<char>>::empty().lemma_filter_prepend(line@, keep);
                    assert(seq![line@] + Seq::<Seq<char>>::empty() =~= seq![line@]);
                    assert(chars@.skip(n as int) =~= Seq::<char>::empty());
                }
                if line.len() > 0 {
                    out.push(line);
                }
                proof {
                    assert(views(out@) =~= views(old_out) + (if keep(line@) {
                        seq![line@]
                    } else {
                        Seq::<Seq<char>>::empty()
                    }));
                }
                pos = n;
            },
        }
    }
    proof {
        assert(chars@.skip(n as int) =~= Seq::<char>::empty());
        assert(views(out@) + Seq::<Seq<char>>::empty() =~= views(out@));
    }
    out
}


/// How many bytes UTF-8 takes for `c`.
pub open spec fn utf8_width(c: char) -> nat {
    let u = c as u32;
    if u < 0x80 {
        1
    } else if u < 0x800 {
        2
    } else if u < 0x10000 {
        3
    } else {
        4
    }
}

/// How many bytes UTF-8 takes for `s`: what `str::len` returns.
pub open spec fn utf8_len(s: Seq<char>) -> nat
    decreases s.len(),
{
    if s.len() == 0 {
        0
    } else {
        utf8_width(s[0]) + utf8_len(s.drop_first())
    }
}

/// The byte length of a concatenation is the sum of the byte lengths.
pub proof fn lemma_utf8_len_concat(a: Seq<char>, b: Seq<char>)
    ensures
        utf8_len(a + b) == utf8_len(a) + utf8_len(b),
    decreases a.len(),
{
    if a.len() > 0 {
        lemma_utf8_len_concat(a.drop_first(), b);
        assert((a + b).drop_first() =~= a.drop_first() + b);
    } else {
        assert(a + b =~= b);
    }
}

/// `utf8_len` is the length of the UTF-8 encoding of `s`.
pub proof fn lemma_utf8_len_is_encoding_len(s: Seq<char>)
    ensures
        encode_utf8(s).len() == utf8_len(s),
    decreases s.len(),
{
    broadcast use vstd::utf8::char_is_scalar;

    if s.len() > 0 {
        lemma_utf8_len_is_encoding_len(s.drop_first());
        vstd::utf8::char_is_scalar(s[0]);
    }
}

proof fn lemma_utf8_len_take_step(s: Seq<char>, k: int)
    requires
        0 <= k < s.len(),
    ensures
        utf8_len(s.take(k + 1)) == utf8_len(s.take(k)) + utf8_width(s[k]),
{
    lemma_utf8_len_concat(s.take(k), seq![s[k]]);
    assert(s.take(k + 1) =~= s.take(k) + seq![s[k]]);
    assert(seq![s[k]].drop_first() =~= Seq::<char>::empty());
    assert(utf8_len(Seq::<char>::empty()) == 0);
    assert(utf8_len(seq![s[k]]) == utf8_width(s[k]));
}

proof fn lemma_utf8_len_take_grows(s: Seq<char>, j: int, k: int)
    requires
        0 <= j < k <= s.len(),
    ensures
        utf8_len(s.take(j)) < utf8_len(s.take(k)),
    decreases k - j,
{
    lemma_utf8_len_take_step(s, k - 1);
    if j < k - 1 {
        lemma_utf8_len_take_grows(s, j, k - 1);
    }
}

/// How many bytes UTF-8 takes for `c`.
pub fn char_utf8_width(c: char) -> (w: usize)
    ensures
        w == utf8_width(c),
{
    let u = c as u32;
    if u < 0x80 {
        1
    } else if u < 0x800 {
        2
    } else if u < 0x10000 {
        3
    } else {
        4
    }
}

/// The number of leading characters of `s` whose encoding is exactly `b`
/// bytes long, if `b` falls on a character boundary of `s`.
pub open spec fn chars_at_byte(s: Seq<char>, b: int) -> Option<int>
    decreases s.len(),
{
    if b == 0 {
        Some(0)
    } else if b < 0 || s.len() == 0 {
        None
    } else {
        match chars_at_byte(s.drop_first(), b - utf8_width(s[0])) {
            Some(k) => Some(k + 1),
            None => None,
        }
    }
}

proof fn lemma_chars_at_byte(s: Seq<char>, b: int)
    ensures
        match chars_at_byte(s, b) {
            Some(k) => 0 <= k <= s.len() && utf8_len(s.take(k)) == b,
            None => forall|k: int| 0 <= k <= s.len() ==> utf8_len(#[trigger] s.take(k)) != b,
        },
    decreases s.len(),
{
    if b == 0 {
        assert(s.take(0) =~= Seq::<char>::empty());
    } else if b < 0 || s.len() == 0 {
        assert forall|k: int| 0 <= k <= s.len() implies utf8_len(#[trigger] s.take(k)) != b by {
            if s.len() == 0 {
                assert(s.take(k) =~= Seq::<char>::empty());
            }
        }
    } else {
        let t = s.drop_first();
        let w = utf8_width(s[0]);
        lemma_chars_at_byte(t, b - w);
        assert forall|k: int| 1 <= k <= s.len() implies utf8_len(#[trigger] s.take(k)) == w
            + utf8_len(t.take(k - 1)) by {
            assert(s.take(k).drop_first() =~= t.take(k - 1));
        }
        match chars_at_byte(t, b - w) {
            Some(k) => {
                assert(utf8_len(s.take(k + 1)) == w + utf8_len(t.take(k)));
            },
            None => {
                assert forall|k: int| 0 <= k <= s.len() implies utf8_len(#[trigger] s.take(k))
                    != b by {
                    if k == 0 {
                        assert(s.take(0) =~= Seq::<char>::empty());
                    } else {
                        assert(utf8_len(s.take(k)) == w + utf8_len(t.take(k - 1)));
                    }
                }
            },
        }
    }
}

/// A boundary found by `chars_at_byte` lies within `s`.
pub proof fn lemma_chars_at_byte_bound(s: Seq<char>, b: int)
    ensures
        chars_at_byte(s, b) is Some ==> 0 <= chars_at_byte(s, b).unwrap() <= s.len(),
{
    lemma_chars_at_byte(s, b);
}

/// `chars_at_byte(s, b)`: how many characters the first `b` bytes of `s`
/// hold, if they end on a character boundary.
pub fn chars_in_bytes(s: &[char], b: usize) -> (r: Option<usize>)
    ensures
        match r {
            Some(k) => chars_at_byte(s@, b as int) == Some(k as int),
            None => chars_at_byte(s@, b as int) is None,
        },
{
    let n = s.len();
    let mut k: usize = 0;
    let mut off: usize = 0;
    assert(s@.take(0) =~= Seq::<char>::empty());
    proof {
        lemma_chars_at_byte(s@, b as int);
    }
    while k < n && off < b
        invariant
            k <= n == s@.len(),
            off == utf8_len(s@.take(k as int)),
            off <= b,
            forall|j: int| 0 <= j < k ==> utf8_len(#[trigger] s@.take(j)) < b,
        decreases n - k,
    {
        proof {
            lemma_utf8_len_take_step(s@, k as int);
        }
        let w = char_utf8_width(s[k]);
        if w > b - off {
            proof {
                assert forall|j: int| 0 <= j <= n implies utf8_len(#[trigger] s@.take(j)) != b by {
                    if j > k + 1 {
                        lemma_utf8_len_take_grows(s@, k + 1, j);
                    }
                }
                lemma_chars_at_byte(s@, b as int);
            }
            return None;
        }
        off = off + w;
        k = k + 1;
    }
    proof {
        if off != b {
            assert(k == n);
            assert forall|j: int| 0 <= j <= n implies utf8_len(#[trigger] s@.take(j)) != b by {
                if j < k {
                } else if j > k {
                    lemma_utf8_len_take_grows(s@, k as int, j);
                }
            }
        } else {
            match chars_at_byte(s@, b as int) {
                Some(k2) => {
                    if k2 < k {
                        lemma_utf8_len_take_grows(s@, k2, k as int);
                    } else if k2 > k {
                        lemma_utf8_len_take_grows(s@, k as int, k2);
                    }
                },
                None => {
                    assert(utf8_len(s@.take(k as int)) == b);
                },
            }
        }
    }
    if off == b {
        Some(k)
    } else {
        None
    }
}

/// The index of the first white space in `s` at or after `from`, or the
/// length of `s` if there is none.
pub open spec fn white_from(s: Seq<char>, from: int) -> int
    decreases s.len() - from,
{
    if from < 0 || from >= s.len() {
        s.len() as int
    } else if is_white(s[from]) {
        from
    } else {
        white_from(s, from + 1)
    }
}

proof fn lemma_white_from(s: Seq<char>, from: int, at: int)
    requires
        0 <= from <= at <= s.len(),
        forall|k: int| from <= k < at ==> !is_white(#[trigger] s[k]),
        at == s.len() || is_white(s[at]),
    ensures
        white_from(s, from) == at,
    decreases at - from,
{
    if from < at {
        lemma_white_from(s, from + 1, at);
    }
}

/// The first word of `s`, as `s.split_whitespace().next().unwrap_or("")`
/// gives it.
pub open spec fn first_word(s: Seq<char>) -> Seq<char> {
    let t = trim_start(s);
    t.take(white_from(t, 0))
}

/// `s` with every leading `c` removed, as `str::trim_start_matches(c)` does.
pub open spec fn strip_leading(s: Seq<char>, c: char) -> Seq<char>
    decreases s.len(),
{
    if s.len() > 0 && s[0] == c {
        strip_leading(s.drop_first(), c)
    } else {
        s
    }
}

proof fn lemma_strip_leading_at(s: Seq<char>, c: char, i: int)
    requires
        0 <= i <= s.len(),
        forall|k: int| 0 <= k < i ==> #[trigger] s[k] == c,
        i == s.len() || s[i] != c,
    ensures
        strip_leading(s, c) == s.skip(i),
    decreases i,
{
    if i > 0 {
        lemma_strip_leading_at(s.drop_first(), c, i - 1);
        assert(s.drop_first().skip(i - 1) =~= s.skip(i));
    } else {
        assert(s.skip(0) =~= s);
    }
}

/// How many characters `c` begin `s`: `strip_leading(s, c)` starts there.
pub fn count_leading(s: &[char], c: char) -> (i: usize)
    ensures
        i <= s@.len(),
        strip_leading(s@, c) == s@.skip(i as int),
{
    let n = s.len();
    let mut i: usize = 0;
    while i < n && s[i] == c
        invariant
            i <= n == s@.len(),
            forall|k: int| 0 <= k < i ==> #[trigger] s@[k] == c,
        decreases n - i,
    {
        i = i + 1;
    }
    proof {
        lemma_strip_leading_at(s@, c, i as int);
    }
    i
}

/// The characters of `first_word(s)`.
pub fn first_word_of(s: &[char]) -> (w: Vec<char>)
    ensures
        w@ == first_word(s@),
{
    let n = s.len();
    let mut i: usize = 0;
    while i < n && is_white_char(s[i])
        invariant
            i <= n == s@.len(),
            forall|k: int| 0 <= k < i ==> is_white(#[trigger] s@[k]),
        decreases n - i,
    {
        i = i + 1;
    }
    let mut j: usize = i;
    while j < n && !is_white_char(s[j])
        invariant
            i <= j <= n == s@.len(),
            forall|k: int| i <= k < j ==> !is_white(#[trigger] s@[k]),
        decreases n - j,
    {
        j = j + 1;
    }
    proof {
        lemma_trim_start_at(s@, i as int);
        let t = s@.subrange(i as int, n as int);
        assert forall|k: int| 0 <= k < j - i implies !is_white(#[trigger] t[k]) by {
            assert(t[k] == s@[k + i]);
        }
        if j < n {
            assert(t[j - i] == s@[j as int]);
        }
        lemma_white_from(t, 0, j - i);
        assert(t.take(j - i) =~= s@.subrange(i as int, j as int));
    }
    sub_chars(s, i, j)
}


/// The lower-case form of `s` that `str::to_lowercase` gives, by Unicode's
/// case mapping.
pub uninterp spec fn lowercase(s: Seq<char>) -> Seq<char>;

/// Calls `str::to_lowercase`; claims only that the result is the function
/// `lowercase` of the input's characters, which the Unicode tables of std
/// decide and which is not written out here.
#[verifier::external_body]
pub(crate) fn to_lowercase(s: &str) -> (r: String)
    ensures
        r@ == lowercase(s@),
{
    s.to_lowercase()
}

/// Whether `needle` occurs in `hay` at index `i`.
pub open spec fn occurs_at(hay: Seq<char>, needle: Seq<char>, i: int) -> bool {
    0 <= i && i + needle.len() <= hay.len() && hay.subrange(i, i + needle.len()) == needle
}

/// Whether `needle` occurs somewhere in `hay`, as `str::contains` tests.
pub open spec fn contains_text(hay: Seq<char>, needle: Seq<char>) -> bool {
    exists|i: int| occurs_at(hay, needle, i)
}

/// Whether `needle` occurs at index `i` of `hay`.
fn matches_at(hay: &[char], needle: &[char], i: usize) -> (b: bool)
    requires
        i + needle@.len() <= hay@.len(),
    ensures
        b == occurs_at(hay@, needle@, i as int),
{
    let m = needle.len();
    let n = hay.len();
    let mut k: usize = 0;
    while k < m
        invariant
            k <= m == needle@.len(),
            n == hay@.len(),
            i + m <= n,
            forall|j: int| 0 <= j < k ==> hay@[i + j] == needle@[j],
        decreases m - k,
    {
        if hay[i + k] != needle[k] {
            assert(hay@.subrange(i as int, i + m)[k as int] != needle@[k as int]);
            return false;
        }
        k = k + 1;
    }
    assert(hay@.subrange(i as int, i + m) =~= needle@);
    true
}

/// Whether `needle` occurs in `hay`.
pub fn contains_chars(hay: &[char], needle: &[char]) -> (b: bool)
    ensures
        b == contains_text(hay@, needle@),
{
    let n = hay.len();
    let m = needle.len();
    if m > n {
        return false;
    }
    if m == 0 {
        assert(hay@.subrange(0, 0) =~= needle@);
        assert(occurs_at(hay@, needle@, 0));
        return true;
    }
    let mut i: usize = 0;
    while i <= n - m
        invariant
            0 < m <= n == hay@.len(),
            m == needle@.len(),
            forall|j: int| 0 <= j < i ==> !occurs_at(hay@, needle@, j),
        decreases n - m + 1 - i,
    {
        if matches_at(hay, needle, i) {
            return true;
        }
        i = i + 1;
    }
    assert forall|j: int| !occurs_at(hay@, needle@, j) by {
        if 0 <= j < i {
        }
    }
    false
}


/// `c` with ASCII upper case turned to lower case, as
/// `char::to_ascii_lowercase` does.
pub open spec fn ascii_lower_char(c: char) -> char {
    if 'A' <= c && c <= 'Z' {
        ((c as u32) + 32) as char
    } else {
        c
    }
}

/// `s` with ASCII upper case turned to lower case, as `to_ascii_lowercase`
/// does.
pub open spec fn ascii_lower(s: Seq<char>) -> Seq<char> {
    s.map_values(|c: char| ascii_lower_char(c))
}

/// The characters of `s` with ASCII upper case turned to lower case.
pub fn ascii_lower_chars(s: &str) -> (v: Vec<char>)
    ensures
        v@ == ascii_lower(s@),
{
    let chars = chars_of(s);
    let n = chars.len();
    let mut v: Vec<char> = Vec::new();
    let mut k: usize = 0;
    while k < n
        invariant
            k <= n == chars@.len(),
            chars@ == s@,
            v@.len() == k,
            forall|j: int| 0 <= j < k ==> #[trigger] v@[j] == ascii_lower_char(chars@[j]),
        decreases n - k,
    {
        let c = chars[k];
        let lower = if 'A' <= c && c <= 'Z' {
            let code = ((c as u32) + 32) as u8;
            code as char
        } else {
            c
        };
        v.push(lower);
        k = k + 1;
    }
    assert(v@ =~= ascii_lower(s@));
    v
}

/// Whether `s` reads exactly `lit`.
pub fn text_is(s: &str, lit: &str) -> (b: bool)
    ensures
        b == (s@ == lit@),
{
    let a = chars_of(s);
    let c = chars_of(lit);
    if a.len() != c.len() {
        return false;
    }
    let n = a.len();
    let mut k: usize = 0;
    while k < n
        invariant
            k <= n == a@.len() == c@.len(),
            a@ == s@,
            c@ == lit@,
            forall|j: int| 0 <= j < k ==> a@[j] == c@[j],
        decreases n - k,
    {
        if a[k] != c[k] {
            assert(a@[k as int] != c@[k as int]);
            return false;
        }
        k = k + 1;
    }
    assert(a@ =~= c@);
    true
}

} // verus!

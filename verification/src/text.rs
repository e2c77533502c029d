//! Character-level text utilities for the output parser.
//!
//! The external command's report is ASCII, so whitespace is modeled as the
//! ASCII whitespace characters. Everything here is stated over `Seq<char>`
//! views and proved against the executable scanners.

use vstd::prelude::*;

verus! {

/// The whitespace characters of the command-output format.
pub open spec fn is_ws(c: char) -> bool {
    c == ' ' || c == '\t' || c == '\n' || c == '\r' || c == '\u{b}' || c == '\u{c}'
}

/// Length of the longest prefix of `s` whose characters all satisfy `keep`.
pub open spec fn run_len(s: Seq<char>, keep: spec_fn(char) -> bool) -> nat
    decreases s.len(),
{
    if s.len() == 0 {
        0
    } else if !keep(s[0]) {
        0
    } else {
        1 + run_len(s.drop_first(), keep)
    }
}

/// `run_len` is pinned down by its two boundary properties: everything
/// before it satisfies `keep`, and the character at it (if any) does not.
pub proof fn lemma_run_len_unique(s: Seq<char>, keep: spec_fn(char) -> bool, i: int)
    requires
        0 <= i <= s.len(),
        forall|j: int| 0 <= j < i ==> keep(s[j]),
        i < s.len() ==> !keep(s[i]),
    ensures
        run_len(s, keep) == i,
    decreases s.len(),
{
    if i == 0 {
    } else {
        assert(keep(s[0]));
        lemma_run_len_unique(s.drop_first(), keep, i - 1);
    }
}

/// `run_len` never exceeds the length of the text.
pub proof fn lemma_run_len_le(s: Seq<char>, keep: spec_fn(char) -> bool)
    ensures
        run_len(s, keep) <= s.len(),
    decreases s.len(),
{
    if s.len() > 0 && keep(s[0]) {
        lemma_run_len_le(s.drop_first(), keep);
    }
}

/// The text with its leading whitespace removed.
pub open spec fn trim_start(s: Seq<char>) -> Seq<char> {
    s.subrange(run_len(s, |c: char| is_ws(c)) as int, s.len() as int)
}

/// The text with its trailing whitespace removed.
pub open spec fn trim_end(s: Seq<char>) -> Seq<char>
    decreases s.len(),
{
    if s.len() == 0 {
        s
    } else if is_ws(s.last()) {
        trim_end(s.drop_last())
    } else {
        s
    }
}

/// The text with leading and trailing whitespace removed.
pub open spec fn trimmed(s: Seq<char>) -> Seq<char> {
    trim_end(trim_start(s))
}

/// `trim_end` keeps exactly the prefix before the trailing whitespace run.
pub proof fn lemma_trim_end_unique(s: Seq<char>, h: int)
    requires
        0 <= h <= s.len(),
        forall|j: int| h <= j < s.len() ==> is_ws(s[j]),
        h > 0 ==> !is_ws(s[h - 1]),
    ensures
        trim_end(s) == s.subrange(0, h),
    decreases s.len(),
{
    if h == s.len() {
        if s.len() == 0 {
            assert(s.subrange(0, 0) =~= s);
        } else {
            assert(!is_ws(s.last()));
            assert(s.subrange(0, h) =~= s);
        }
    } else {
        assert(is_ws(s.last()));
        lemma_trim_end_unique(s.drop_last(), h);
        assert(s.drop_last().subrange(0, h) =~= s.subrange(0, h));
    }
}

/// The first line of the text: everything before the first newline, or the
/// whole text when it has none.
pub open spec fn first_line(s: Seq<char>) -> Seq<char> {
    s.subrange(0, run_len(s, |c: char| c != '\n') as int)
}

/// The whitespace-separated tokens of the text, in order.
pub open spec fn tokens_of(s: Seq<char>) -> Seq<Seq<char>>
    decreases s.len(),
    via tokens_of_decreases
{
    if s.len() == 0 {
        Seq::empty()
    } else if is_ws(s[0]) {
        tokens_of(s.drop_first())
    } else {
        seq![s.subrange(0, token_run(s) as int)] + tokens_of(
            s.subrange(token_run(s) as int, s.len() as int),
        )
    }
}

/// Length of the token at the head of the text (zero when it starts with
/// whitespace).
pub open spec fn token_run(s: Seq<char>) -> nat {
    run_len(s, |c: char| !is_ws(c))
}

#[via_fn]
proof fn tokens_of_decreases(s: Seq<char>) {
    if s.len() > 0 && !is_ws(s[0]) {
        lemma_run_len_le(s, |c: char| !is_ws(c));
        assert(token_run(s) >= 1);
    }
}

/// Whether `c` is whitespace of the output format.
pub fn ws_char(c: char) -> (r: bool)
    ensures
        r == is_ws(c),
{
    c == ' ' || c == '\t' || c == '\n' || c == '\r' || c == '\u{b}' || c == '\u{c}'
}

/// Character-for-character equality of two text slices.
pub fn eq_str(a: &str, b: &str) -> (r: bool)
    ensures
        r == (a@ == b@),
{
    let n = a.unicode_len();
    if n != b.unicode_len() {
        return false;
    }
    let mut i: usize = 0;
    while i < n
        invariant
            n == a@.len(),
            n == b@.len(),
            0 <= i <= n,
            forall|j: int| 0 <= j < i ==> a@[j] == b@[j],
        decreases n - i,
    {
        if a.get_char(i) != b.get_char(i) {
            assert(a@[i as int] != b@[i as int]);
            return false;
        }
        i = i + 1;
    }
    proof {
        assert(a@ =~= b@);
    }
    true
}

/// Extracts the report line: the text is trimmed of surrounding whitespace
/// and cut at its first newline.
pub fn report_line<'a>(s: &'a str) -> (r: &'a str)
    ensures
        r@ == first_line(trimmed(s@)),
{
    let n = s.unicode_len();
    let mut lo: usize = 0;
    while lo < n && ws_char(s.get_char(lo))
        invariant
            n == s@.len(),
            0 <= lo <= n,
            forall|j: int| 0 <= j < lo ==> is_ws(s@[j]),
        decreases n - lo,
    {
        lo = lo + 1;
    }
    let mut hi: usize = n;
    while hi > lo && ws_char(s.get_char(hi - 1))
        invariant
            n == s@.len(),
            lo <= hi <= n,
            forall|j: int| hi <= j < n ==> is_ws(s@[j]),
        decreases hi,
    {
        hi = hi - 1;
    }
    let mut end: usize = lo;
    while end < hi && s.get_char(end) != '\n'
        invariant
            n == s@.len(),
            lo <= end <= hi <= n,
            forall|j: int| lo <= j < end ==> s@[j] != '\n',
        decreases hi - end,
    {
        end = end + 1;
    }
    proof {
        lemma_run_len_unique(s@, |c: char| is_ws(c), lo as int);
        let t = s@.subrange(lo as int, n as int);
        assert(trim_start(s@) == t);
        assert forall|j: int| hi - lo <= j < t.len() implies is_ws(t[j]) by {
            assert(t[j] == s@[lo + j]);
        }
        if hi > lo {
            assert(!is_ws(s@[hi - 1]));
            assert(t[hi - lo - 1] == s@[hi - 1]);
        }
        lemma_trim_end_unique(t, hi - lo);
        let t2 = t.subrange(0, hi - lo);
        assert(t2 =~= s@.subrange(lo as int, hi as int));
        assert(trimmed(s@) == t2);
        assert forall|j: int| 0 <= j < end - lo implies (|c: char| c != '\n')(t2[j]) by {
            assert(t2[j] == s@[lo + j]);
        }
        if end < hi {
            assert(s@[end as int] == '\n');
            assert(t2[end - lo] == '\n');
        }
        lemma_run_len_unique(t2, |c: char| c != '\n', end - lo);
        assert(first_line(t2) =~= s@.subrange(lo as int, end as int));
    }
    s.substring_char(lo, end)
}

/// The views of a list of owned strings.
pub open spec fn views_of(v: Seq<String>) -> Seq<Seq<char>> {
    v.map_values(|t: String| t@)
}

/// Splits the text into its whitespace-separated tokens.
pub fn split_tokens(s: &str) -> (r: Vec<String>)
    ensures
        views_of(r@) == tokens_of(s@),
{
    let n = s.unicode_len();
    let mut v: Vec<String> = Vec::new();
    let mut i: usize = 0;
    proof {
        assert(s@.subrange(0, n as int) =~= s@);
        assert(views_of(v@) =~= Seq::<Seq<char>>::empty());
        assert(views_of(v@) + tokens_of(s@) =~= tokens_of(s@));
    }
    while i < n
        invariant
            n == s@.len(),
            0 <= i <= n,
            tokens_of(s@) == views_of(v@) + tokens_of(s@.subrange(i as int, n as int)),
        decreases n - i,
    {
        if ws_char(s.get_char(i)) {
            proof {
                let suf = s@.subrange(i as int, n as int);
                assert(suf[0] == s@[i as int]);
                assert(suf.drop_first() =~= s@.subrange(i + 1, n as int));
            }
            i = i + 1;
        } else {
            let start = i;
            let mut j: usize = i + 1;
            while j < n && !ws_char(s.get_char(j))
                invariant
                    n == s@.len(),
                    i < j <= n,
                    !is_ws(s@[i as int]),
                    forall|k: int| i <= k < j ==> !is_ws(s@[k]),
                decreases n - j,
            {
                j = j + 1;
            }
            let tok = String::from_str(s.substring_char(start, j));
            v.push(tok);
            proof {
                let suf = s@.subrange(i as int, n as int);
                assert forall|k: int| 0 <= k < j - i implies (|c: char| !is_ws(c))(suf[k]) by {
                    assert(suf[k] == s@[i + k]);
                }
                if j < n {
                    assert(is_ws(s@[j as int]));
                    assert(suf[j - i] == s@[j as int]);
                }
                lemma_run_len_unique(suf, |c: char| !is_ws(c), j - i);
                assert(token_run(suf) == j - i);
                assert(!is_ws(suf[0]));
                assert(suf.subrange(0, j - i) =~= s@.subrange(start as int, j as int));
                assert(suf.subrange(j - i, suf.len() as int) =~= s@.subrange(
                    j as int,
                    n as int,
                ));
                assert(tokens_of(suf) == seq![s@.subrange(start as int, j as int)] + tokens_of(
                    s@.subrange(j as int, n as int),
                ));
                assert(views_of(v@) =~= views_of(v@.drop_last()).push(tok@));
                assert(views_of(v@) + tokens_of(s@.subrange(j as int, n as int)) =~= (views_of(
                    v@.drop_last(),
                ) + tokens_of(suf)));
            }
            i = j;
        }
    }
    proof {
        assert(tokens_of(s@.subrange(n as int, n as int)) =~= Seq::<Seq<char>>::empty());
        assert(tokens_of(s@) =~= views_of(v@));
    }
    v
}

} // verus!

//! Character-level primitives shared by the directive grammar: whitespace and
//! word-character classes, scanning helpers, and the split of a source text
//! into lines (a line break is `\n`; a `\r` directly before the `\n` is not
//! part of the line; a final line needs no terminator).

use vstd::prelude::*;

verus! {

/// Whitespace characters tolerated inside directive lines.
pub open spec fn is_space(c: char) -> bool {
    c == ' ' || c == '\t' || c == '\r' || c == '\u{b}' || c == '\u{c}'
}

/// Characters a definition flag name may consist of.
pub open spec fn is_word_char(c: char) -> bool {
    ('a' <= c && c <= 'z') || ('A' <= c && c <= 'Z') || ('0' <= c && c <= '9') || c == '_'
}

/// First index at or after `i` that holds a non-whitespace character, or the length.
pub open spec fn skip_ws(s: Seq<char>, i: int) -> int
    decreases s.len() - i,
{
    if i < 0 || i >= s.len() {
        s.len() as int
    } else if is_space(s[i]) {
        skip_ws(s, i + 1)
    } else {
        i
    }
}

pub proof fn lemma_skip_ws(s: Seq<char>, i: int)
    requires
        0 <= i <= s.len(),
    ensures
        i <= skip_ws(s, i) <= s.len(),
        skip_ws(s, i) < s.len() ==> !is_space(s[skip_ws(s, i)]),
        forall|j: int| i <= j < skip_ws(s, i) ==> is_space(#[trigger] s[j]),
    decreases s.len() - i,
{
    if i < s.len() && is_space(s[i]) {
        lemma_skip_ws(s, i + 1);
    }
}

/// First index at or after `i` that holds a non-word character, or the length.
pub open spec fn word_end(s: Seq<char>, i: int) -> int
    decreases s.len() - i,
{
    if i < 0 || i >= s.len() {
        s.len() as int
    } else if is_word_char(s[i]) {
        word_end(s, i + 1)
    } else {
        i
    }
}

pub proof fn lemma_word_end(s: Seq<char>, i: int)
    requires
        0 <= i <= s.len(),
    ensures
        i <= word_end(s, i) <= s.len(),
    decreases s.len() - i,
{
    if i < s.len() && is_word_char(s[i]) {
        lemma_word_end(s, i + 1);
    }
}

/// First index at or after `i` holding `\n`, or the length.
pub open spec fn find_nl(s: Seq<char>, i: int) -> int
    decreases s.len() - i,
{
    if i < 0 || i >= s.len() {
        s.len() as int
    } else if s[i] == '\n' {
        i
    } else {
        find_nl(s, i + 1)
    }
}

pub proof fn lemma_find_nl(s: Seq<char>, i: int)
    requires
        0 <= i <= s.len(),
    ensures
        i <= find_nl(s, i) <= s.len(),
        find_nl(s, i) < s.len() ==> s[find_nl(s, i)] == '\n',
        forall|j: int| i <= j < find_nl(s, i) ==> #[trigger] s[j] != '\n',
    decreases s.len() - i,
{
    if i < s.len() && s[i] != '\n' {
        lemma_find_nl(s, i + 1);
    }
}

/// A position `j` with no newline between `i` and `j`, and a newline (or the
/// end of the text) at `j`, is where the scan from `i` stops.
pub proof fn lemma_find_nl_char(s: Seq<char>, i: int, j: int)
    requires
        0 <= i <= j <= s.len(),
        forall|t: int| i <= t < j ==> #[trigger] s[t] != '\n',
        j == s.len() || s[j] == '\n',
    ensures
        find_nl(s, i) == j,
    decreases j - i,
{
    if i < j {
        lemma_find_nl_char(s, i + 1, j);
    }
}

/// Largest index below `end` holding `"`, or `-1` if there is none.
pub open spec fn last_quote(s: Seq<char>, end: int) -> int
    decreases end,
{
    if end <= 0 {
        -1
    } else if s[end - 1] == '"' {
        end - 1
    } else {
        last_quote(s, end - 1)
    }
}

pub proof fn lemma_last_quote(s: Seq<char>, end: int)
    requires
        0 <= end <= s.len(),
    ensures
        -1 <= last_quote(s, end) < end,
        last_quote(s, end) >= 0 ==> s[last_quote(s, end)] == '"',
    decreases end,
{
    if end > 0 && s[end - 1] != '"' {
        lemma_last_quote(s, end - 1);
    }
}

/// First index `e` at or below `end` such that everything from `e` up to `end`
/// is whitespace and (if `e > 0`) the character before `e` is not.
pub open spec fn rskip_ws(s: Seq<char>, end: int) -> int
    decreases end,
{
    if end <= 0 {
        0
    } else if is_space(s[end - 1]) {
        rskip_ws(s, end - 1)
    } else {
        end
    }
}

pub proof fn lemma_rskip_ws(s: Seq<char>, end: int)
    requires
        0 <= end <= s.len(),
    ensures
        0 <= rskip_ws(s, end) <= end,
    decreases end,
{
    if end > 0 && is_space(s[end - 1]) {
        lemma_rskip_ws(s, end - 1);
    }
}

/// Whether `kw` occurs in `s` starting at index `i`.
pub open spec fn has_at(s: Seq<char>, i: int, kw: Seq<char>) -> bool {
    0 <= i && i + kw.len() <= s.len() && s.subrange(i, i + kw.len()) == kw
}

/// A line as split out of a newline-terminated segment: one trailing `\r` is
/// not part of the line.
pub open spec fn strip_cr(l: Seq<char>) -> Seq<char> {
    if l.len() > 0 && l[l.len() - 1] == '\r' {
        l.drop_last()
    } else {
        l
    }
}

/// The lines of a text, in order. Every `\n` ends a line (with a `\r` directly
/// before it not counted); a non-empty final segment without `\n` is a line of
/// its own, kept verbatim.
pub open spec fn lines_of(s: Seq<char>) -> Seq<Seq<char>>
    decreases s.len(),
{
    if s.len() == 0 {
        Seq::empty()
    } else {
        let i = find_nl(s, 0);
        if 0 <= i && i < s.len() {
            seq![strip_cr(s.subrange(0, i))] + lines_of(s.subrange(i + 1, s.len() as int))
        } else {
            seq![s]
        }
    }
}

// ---------------------------------------------------------------------------
// Executable counterparts.
// ---------------------------------------------------------------------------

pub fn is_space_exec(c: char) -> (r: bool)
    ensures
        r == is_space(c),
{
    c == ' ' || c == '\t' || c == '\r' || c == '\u{b}' || c == '\u{c}'
}

pub fn is_word_char_exec(c: char) -> (r: bool)
    ensures
        r == is_word_char(c),
{
    ('a' <= c && c <= 'z') || ('A' <= c && c <= 'Z') || ('0' <= c && c <= '9') || c == '_'
}

/// Scans past whitespace; `n` must be the character length of `s`.
pub fn skip_ws_exec(s: &str, i: usize, n: usize) -> (r: usize)
    requires
        n == s@.len(),
        i <= n,
    ensures
        r == skip_ws(s@, i as int),
        i <= r <= n,
{
    let mut j = i;
    while j < n && is_space_exec(s.get_char(j))
        invariant
            n == s@.len(),
            i <= j <= n,
            skip_ws(s@, j as int) == skip_ws(s@, i as int),
        decreases n - j,
    {
        j = j + 1;
    }
    proof {
        lemma_skip_ws(s@, i as int);
    }
    j
}

/// Scans past word characters; `n` must be the character length of `s`.
pub fn word_end_exec(s: &str, i: usize, n: usize) -> (r: usize)
    requires
        n == s@.len(),
        i <= n,
    ensures
        r == word_end(s@, i as int),
        i <= r <= n,
{
    let mut j = i;
    while j < n && is_word_char_exec(s.get_char(j))
        invariant
            n == s@.len(),
            i <= j <= n,
            word_end(s@, j as int) == word_end(s@, i as int),
        decreases n - j,
    {
        j = j + 1;
    }
    proof {
        lemma_word_end(s@, i as int);
    }
    j
}

/// Finds the next newline at or after `i`; `n` must be the character length of `s`.
pub fn find_nl_exec(s: &str, i: usize, n: usize) -> (r: usize)
    requires
        n == s@.len(),
        i <= n,
    ensures
        r == find_nl(s@, i as int),
        i <= r <= n,
{
    let mut j = i;
    while j < n && s.get_char(j) != '\n'
        invariant
            n == s@.len(),
            i <= j <= n,
            find_nl(s@, j as int) == find_nl(s@, i as int),
        decreases n - j,
    {
        j = j + 1;
    }
    proof {
        lemma_find_nl(s@, i as int);
    }
    j
}

/// Finds the last `"` before index `end`; `n` must be the character length of `s`.
pub fn last_quote_exec(s: &str, end: usize, n: usize) -> (r: Option<usize>)
    requires
        n == s@.len(),
        end <= n,
    ensures
        match r {
            Some(l) => l == last_quote(s@, end as int) && l < end,
            None => last_quote(s@, end as int) == -1,
        },
{
    let mut j = end;
    while j > 0 && s.get_char(j - 1) != '"'
        invariant
            n == s@.len(),
            j <= end <= n,
            last_quote(s@, j as int) == last_quote(s@, end as int),
        decreases j,
    {
        j = j - 1;
    }
    if j == 0 {
        None
    } else {
        Some(j - 1)
    }
}

/// Trims trailing whitespace down from `end`; `n` must be the character length of `s`.
pub fn rskip_ws_exec(s: &str, end: usize, n: usize) -> (r: usize)
    requires
        n == s@.len(),
        end <= n,
    ensures
        r == rskip_ws(s@, end as int),
        r <= end,
{
    let mut j = end;
    while j > 0 && is_space_exec(s.get_char(j - 1))
        invariant
            n == s@.len(),
            j <= end <= n,
            rskip_ws(s@, j as int) == rskip_ws(s@, end as int),
        decreases j,
    {
        j = j - 1;
    }
    j
}

/// Whether `kw` occurs in `s` at character index `i`; `n` and `m` must be the
/// character lengths of `s` and `kw`.
pub fn has_at_exec(s: &str, n: usize, i: usize, kw: &str, m: usize) -> (r: bool)
    requires
        n == s@.len(),
        m == kw@.len(),
        i <= n,
    ensures
        r == has_at(s@, i as int, kw@),
{
    if m > n - i {
        assert(!has_at(s@, i as int, kw@));
        return false;
    }
    let mut k: usize = 0;
    while k < m
        invariant
            n == s@.len(),
            m == kw@.len(),
            i <= n,
            i + m <= n,
            k <= m,
            forall|t: int| 0 <= t < k ==> s@[i + t] == kw@[t],
        decreases m - k,
    {
        if s.get_char(i + k) != kw.get_char(k) {
            assert(s@.subrange(i as int, i + m) != kw@) by {
                assert(s@.subrange(i as int, i + m)[k as int] == s@[i + k]);
            }
            return false;
        }
        k = k + 1;
    }
    assert(s@.subrange(i as int, i + m) =~= kw@);
    true
}

} // verus!

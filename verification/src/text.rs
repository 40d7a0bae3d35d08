//! Character-level text primitives shared by the parser and the
//! reconstruction stage: character classes, whitespace trimming, substring
//! matching and searching, and line splitting and joining.
//!
//! All specifications are stated over `Seq<char>`, the view of `&str` and
//! `String`. Whitespace means ASCII whitespace; lines are split at `'\n'`,
//! with one trailing `'\r'` stripped from a line that ended in `"\r\n"` and
//! a final empty segment dropped, so that splitting agrees with how the
//! rest of the crate counts lines.

use vstd::prelude::*;
use vstd::string::StrSliceExecFns;

verus! {

/// ASCII whitespace, the characters the parser treats as blank space.
pub open spec fn is_space(c: char) -> bool {
    c == ' ' || c == '\t' || c == '\n' || c == '\r' || c == '\u{b}' || c == '\u{c}'
}

/// Characters allowed in an alias word: ASCII letters, digits and underscore.
pub open spec fn is_word_char(c: char) -> bool {
    ('a' <= c && c <= 'z') || ('A' <= c && c <= 'Z') || ('0' <= c && c <= '9') || c == '_'
}

/// A string quote: double or single.
pub open spec fn is_quote(c: char) -> bool {
    c == '"' || c == '\''
}

pub fn is_space_exec(c: char) -> (r: bool)
    ensures
        r == is_space(c),
{
    c == ' ' || c == '\t' || c == '\n' || c == '\r' || c == '\u{b}' || c == '\u{c}'
}

pub fn is_word_char_exec(c: char) -> (r: bool)
    ensures
        r == is_word_char(c),
{
    ('a' <= c && c <= 'z') || ('A' <= c && c <= 'Z') || ('0' <= c && c <= '9') || c == '_'
}

pub fn is_quote_exec(c: char) -> (r: bool)
    ensures
        r == is_quote(c),
{
    c == '"' || c == '\''
}

/// First index at or after `i` holding a non-space character, or `s.len()`.
pub open spec fn skip_spaces(s: Seq<char>, i: int) -> int
    decreases s.len() - i,
{
    if i < 0 || i >= s.len() {
        i
    } else if is_space(s[i]) {
        skip_spaces(s, i + 1)
    } else {
        i
    }
}

pub proof fn lemma_skip_spaces_bounds(s: Seq<char>, i: int)
    requires
        0 <= i <= s.len(),
    ensures
        i <= skip_spaces(s, i) <= s.len(),
        skip_spaces(s, i) < s.len() ==> !is_space(s[skip_spaces(s, i)]),
        forall|j: int| i <= j < skip_spaces(s, i) ==> is_space(s[j]),
    decreases s.len() - i,
{
    if i < s.len() && is_space(s[i]) {
        lemma_skip_spaces_bounds(s, i + 1);
    }
}

pub fn skip_spaces_exec(s: &str, i: usize) -> (r: usize)
    requires
        i <= s@.len(),
    ensures
        r == skip_spaces(s@, i as int),
        i <= r <= s@.len(),
{
    proof {
        lemma_skip_spaces_bounds(s@, i as int);
    }
    let n = s.unicode_len();
    let mut j = i;
    while j < n && is_space_exec(s.get_char(j))
        invariant
            i <= j <= n,
            n == s@.len(),
            skip_spaces(s@, i as int) == skip_spaces(s@, j as int),
        decreases n - j,
    {
        j = j + 1;
    }
    j
}

/// First index at or after `i` where `s` holds the character `c`, or `s.len()`.
pub open spec fn find_from(s: Seq<char>, i: int, c: char) -> int
    decreases s.len() - i,
{
    if i < 0 || i >= s.len() {
        i
    } else if s[i] == c {
        i
    } else {
        find_from(s, i + 1, c)
    }
}

pub proof fn lemma_find_from_bounds(s: Seq<char>, i: int, c: char)
    requires
        0 <= i <= s.len(),
    ensures
        i <= find_from(s, i, c) <= s.len(),
        find_from(s, i, c) < s.len() ==> s[find_from(s, i, c)] == c,
        forall|j: int| i <= j < find_from(s, i, c) ==> s[j] != c,
    decreases s.len() - i,
{
    if i < s.len() && s[i] != c {
        lemma_find_from_bounds(s, i + 1, c);
    }
}

pub fn find_from_exec(s: &str, i: usize, c: char) -> (r: usize)
    requires
        i <= s@.len(),
    ensures
        r == find_from(s@, i as int, c),
        i <= r <= s@.len(),
{
    proof {
        lemma_find_from_bounds(s@, i as int, c);
    }
    let n = s.unicode_len();
    let mut j = i;
    while j < n && s.get_char(j) != c
        invariant
            i <= j <= n,
            n == s@.len(),
            find_from(s@, i as int, c) == find_from(s@, j as int, c),
        decreases n - j,
    {
        j = j + 1;
    }
    j
}

/// First index at or after `i` holding a quote character, or `s.len()`.
pub open spec fn find_quote(s: Seq<char>, i: int) -> int
    decreases s.len() - i,
{
    if i < 0 || i >= s.len() {
        i
    } else if is_quote(s[i]) {
        i
    } else {
        find_quote(s, i + 1)
    }
}

pub proof fn lemma_find_quote_bounds(s: Seq<char>, i: int)
    requires
        0 <= i <= s.len(),
    ensures
        i <= find_quote(s, i) <= s.len(),
        find_quote(s, i) < s.len() ==> is_quote(s[find_quote(s, i)]),
        forall|j: int| i <= j < find_quote(s, i) ==> !is_quote(s[j]),
    decreases s.len() - i,
{
    if i < s.len() && !is_quote(s[i]) {
        lemma_find_quote_bounds(s, i + 1);
    }
}

pub fn find_quote_exec(s: &str, i: usize) -> (r: usize)
    requires
        i <= s@.len(),
    ensures
        r == find_quote(s@, i as int),
        i <= r <= s@.len(),
{
    proof {
        lemma_find_quote_bounds(s@, i as int);
    }
    let n = s.unicode_len();
    let mut j = i;
    while j < n && !is_quote_exec(s.get_char(j))
        invariant
            i <= j <= n,
            n == s@.len(),
            find_quote(s@, i as int) == find_quote(s@, j as int),
        decreases n - j,
    {
        j = j + 1;
    }
    j
}

/// First index at or after `i` holding a non-word character, or `s.len()`.
pub open spec fn scan_word(s: Seq<char>, i: int) -> int
    decreases s.len() - i,
{
    if i < 0 || i >= s.len() {
        i
    } else if is_word_char(s[i]) {
        scan_word(s, i + 1)
    } else {
        i
    }
}

pub proof fn lemma_scan_word_bounds(s: Seq<char>, i: int)
    requires
        0 <= i <= s.len(),
    ensures
        i <= scan_word(s, i) <= s.len(),
        scan_word(s, i) < s.len() ==> !is_word_char(s[scan_word(s, i)]),
        forall|j: int| i <= j < scan_word(s, i) ==> is_word_char(s[j]),
    decreases s.len() - i,
{
    if i < s.len() && is_word_char(s[i]) {
        lemma_scan_word_bounds(s, i + 1);
    }
}

pub fn scan_word_exec(s: &str, i: usize) -> (r: usize)
    requires
        i <= s@.len(),
    ensures
        r == scan_word(s@, i as int),
        i <= r <= s@.len(),
{
    proof {
        lemma_scan_word_bounds(s@, i as int);
    }
    let n = s.unicode_len();
    let mut j = i;
    while j < n && is_word_char_exec(s.get_char(j))
        invariant
            i <= j <= n,
            n == s@.len(),
            scan_word(s@, i as int) == scan_word(s@, j as int),
        decreases n - j,
    {
        j = j + 1;
    }
    j
}

/// `pat` occurs in `s` starting exactly at index `i`.
pub open spec fn match_at(s: Seq<char>, i: int, pat: Seq<char>) -> bool {
    0 <= i && i + pat.len() <= s.len() && s.subrange(i, i + pat.len()) == pat
}

pub fn match_at_exec(s: &str, i: usize, pat: &str) -> (r: bool)
    requires
        i <= s@.len(),
    ensures
        r == match_at(s@, i as int, pat@),
{
    let n = s.unicode_len();
    let m = pat.unicode_len();
    if m > n - i {
        proof {
            assert(!match_at(s@, i as int, pat@));
        }
        return false;
    }
    let mut k: usize = 0;
    while k < m
        invariant
            0 <= k <= m,
            m == pat@.len(),
            n == s@.len(),
            i + m <= n,
            forall|j: int| 0 <= j < k ==> s@[i + j] == pat@[j],
        decreases m - k,
    {
        if s.get_char(i + k) != pat.get_char(k) {
            proof {
                assert(s@.subrange(i as int, i + pat@.len())[k as int] != pat@[k as int]);
            }
            return false;
        }
        k = k + 1;
    }
    proof {
        assert(s@.subrange(i as int, i + pat@.len()) =~= pat@);
    }
    true
}

/// `pat` occurs somewhere in `s` as a contiguous run.
pub open spec fn contains_seq(s: Seq<char>, pat: Seq<char>) -> bool {
    exists|i: int| match_at(s, i, pat)
}

pub fn contains_exec(s: &str, pat: &str) -> (r: bool)
    ensures
        r == contains_seq(s@, pat@),
{
    let n = s.unicode_len();
    let m = pat.unicode_len();
    if m > n {
        proof {
            assert(forall|i: int| !match_at(s@, i, pat@));
        }
        return false;
    }
    if m == 0 {
        proof {
            assert(s@.subrange(0, 0) =~= pat@);
            assert(match_at(s@, 0, pat@));
        }
        return true;
    }
    let mut i: usize = 0;
    while i <= n - m
        invariant
            0 <= i,
            i <= n - m + 1,
            1 <= m <= n,
            n == s@.len(),
            m == pat@.len(),
            forall|j: int| 0 <= j < i ==> !match_at(s@, j, pat@),
        decreases n - i,
    {
        if match_at_exec(s, i, pat) {
            return true;
        }
        i = i + 1;
    }
    proof {
        assert forall|j: int| !(#[trigger] match_at(s@, j, pat@)) by {
            if j >= i {
                assert(j + pat@.len() > s@.len());
            }
        }
    }
    false
}

/// Index of the first non-space character of `s`, or `s.len()`.
pub open spec fn trim_start_idx(s: Seq<char>) -> int {
    skip_spaces(s, 0)
}

/// One past the last non-space character at or after `lo`, counting down
/// from `i`; stops at `lo`.
pub open spec fn trim_end_from(s: Seq<char>, lo: int, i: int) -> int
    decreases i,
{
    if i > lo && 0 < i <= s.len() && is_space(s[i - 1]) {
        trim_end_from(s, lo, i - 1)
    } else {
        i
    }
}

pub proof fn lemma_trim_end_from_bounds(s: Seq<char>, lo: int, i: int)
    requires
        0 <= lo <= i <= s.len(),
    ensures
        lo <= trim_end_from(s, lo, i) <= i,
        forall|j: int| trim_end_from(s, lo, i) <= j < i ==> is_space(s[j]),
        trim_end_from(s, lo, i) > lo ==> !is_space(s[trim_end_from(s, lo, i) - 1]),
    decreases i,
{
    if i > lo && is_space(s[i - 1]) {
        lemma_trim_end_from_bounds(s, lo, i - 1);
    }
}

/// `s` with leading and trailing whitespace removed.
pub open spec fn trim_spec(s: Seq<char>) -> Seq<char> {
    let lo = trim_start_idx(s);
    if lo == s.len() {
        Seq::empty()
    } else {
        s.subrange(lo, trim_end_from(s, lo, s.len() as int))
    }
}

pub fn trim_exec<'a>(s: &'a str) -> (r: &'a str)
    ensures
        r@ == trim_spec(s@),
{
    let n = s.unicode_len();
    let lo = skip_spaces_exec(s, 0);
    proof {
        lemma_skip_spaces_bounds(s@, 0);
    }
    if lo == n {
        let r = s.substring_char(n, n);
        proof {
            assert(r@ =~= trim_spec(s@));
        }
        return r;
    }
    proof {
        lemma_trim_end_from_bounds(s@, lo as int, n as int);
    }
    let mut hi = n;
    while hi > lo && is_space_exec(s.get_char(hi - 1))
        invariant
            lo <= hi <= n,
            n == s@.len(),
            lo == trim_start_idx(s@),
            lo < n,
            trim_end_from(s@, lo as int, n as int) == trim_end_from(s@, lo as int, hi as int),
        decreases hi,
    {
        hi = hi - 1;
    }
    s.substring_char(lo, hi)
}

pub fn str_eq_exec(a: &str, b: &str) -> (r: bool)
    ensures
        r == (a@ == b@),
{
    let n = a.unicode_len();
    if n != b.unicode_len() {
        return false;
    }
    let r = match_at_exec(a, 0, b);
    proof {
        assert(a@.subrange(0, a@.len() as int) =~= a@);
    }
    r
}

/// Drops one trailing carriage return, so a line that ended in `"\r\n"`
/// keeps no trace of its line ending.
pub open spec fn strip_cr(l: Seq<char>) -> Seq<char> {
    if l.len() > 0 && l[l.len() - 1] == '\r' {
        l.subrange(0, l.len() - 1)
    } else {
        l
    }
}

/// Splits `s` at `'\n'`, stripping one `'\r'` before each split point and
/// dropping a final empty segment, so `"a\r\nb\n"` yields `["a", "b"]`.
pub open spec fn split_lines(s: Seq<char>) -> Seq<Seq<char>>
    decreases s.len(),
{
    if s.len() == 0 {
        Seq::empty()
    } else {
        let i = find_from(s, 0, '\n');
        if 0 <= i && i < s.len() {
            seq![strip_cr(s.subrange(0, i))] + split_lines(s.subrange(i + 1, s.len() as int))
        } else {
            seq![s]
        }
    }
}

/// `find_from` looks through a suffix exactly as it looks through the
/// original sequence shifted by the suffix's start.
pub proof fn lemma_find_from_suffix(s: Seq<char>, pos: int, i: int, c: char)
    requires
        0 <= pos <= i <= s.len(),
    ensures
        find_from(s.subrange(pos, s.len() as int), i - pos, c) == find_from(s, i, c) - pos,
    decreases s.len() - i,
{
    let rem = s.subrange(pos, s.len() as int);
    if i < s.len() {
        if s[i] == c {
        } else {
            lemma_find_from_suffix(s, pos, i + 1, c);
        }
    }
}

pub fn split_lines_exec(s: &str) -> (r: Vec<String>)
    ensures
        r.deep_view() == split_lines(s@),
{
    let n = s.unicode_len();
    let mut out: Vec<String> = Vec::new();
    proof {
        assert(out.deep_view() =~= Seq::<Seq<char>>::empty());
        assert(s@.subrange(0, n as int) =~= s@);
    }
    let mut pos: usize = 0;
    while pos < n
        invariant
            0 <= pos <= n,
            n == s@.len(),
            split_lines(s@) == out.deep_view() + split_lines(s@.subrange(pos as int, n as int)),
        decreases n - pos,
    {
        let ghost rem = s@.subrange(pos as int, n as int);
        let i = find_from_exec(s, pos, '\n');
        proof {
            lemma_find_from_bounds(s@, pos as int, '\n');
            lemma_find_from_suffix(s@, pos as int, pos as int, '\n');
        }
        if i == n {
            let line = s.substring_char(pos, n).to_owned();
            proof {
                assert(split_lines(rem) =~= seq![rem]);
                assert(line@ =~= rem);
                assert(out.deep_view().push(line@) + Seq::<Seq<char>>::empty()
                    =~= out.deep_view().push(line@));
            }
            out.push(line);
            proof {
                assert(out.deep_view() =~= split_lines(s@));
                assert(split_lines(s@.subrange(n as int, n as int)) =~= Seq::<Seq<char>>::empty());
                assert(out.deep_view() + split_lines(s@.subrange(n as int, n as int))
                    =~= out.deep_view());
            }
            pos = n;
        } else {
            let mut end = i;
            if i > pos && s.get_char(i - 1) == '\r' {
                end = i - 1;
            }
            let line = s.substring_char(pos, end).to_owned();
            proof {
                let ri = (i - pos) as int;
                assert(find_from(rem, 0, '\n') == ri);
                assert(rem.subrange(0, ri) =~= s@.subrange(pos as int, i as int));
                assert(strip_cr(rem.subrange(0, ri)) =~= line@);
                assert(rem.subrange(ri + 1, rem.len() as int)
                    =~= s@.subrange(i + 1, n as int));
                assert(split_lines(rem) == seq![line@] + split_lines(
                    s@.subrange(i + 1, n as int)));
            }
            let ghost old_out = out.deep_view();
            out.push(line);
            proof {
                assert(out.deep_view() =~= old_out.push(line@));
                assert(old_out + split_lines(rem) =~= out.deep_view() + split_lines(
                    s@.subrange(i + 1, n as int)));
            }
            pos = i + 1;
        }
    }
    proof {
        assert(split_lines(s@.subrange(pos as int, n as int)) =~= Seq::<Seq<char>>::empty());
        assert(out.deep_view() + split_lines(s@.subrange(pos as int, n as int))
            =~= out.deep_view());
    }
    out
}

/// `s` nowhere holds the character `c`.
pub open spec fn lacks(s: Seq<char>, c: char) -> bool {
    forall|k: int| 0 <= k < s.len() ==> s[k] != c
}

/// `find_from` lands exactly on a known first occurrence.
pub proof fn lemma_find_from_at(s: Seq<char>, i: int, j: int, c: char)
    requires
        0 <= i <= j < s.len(),
        s[j] == c,
        forall|k: int| i <= k < j ==> s[k] != c,
    ensures
        find_from(s, i, c) == j,
{
    lemma_find_from_bounds(s, i, c);
    let f = find_from(s, i, c);
    if f < j {
        assert(s[f] == c);
    }
    if f > j {
        assert(s[j] != c);
    }
}

/// Every line that splitting yields is free of newlines.
pub proof fn lemma_split_lines_lack_newline(s: Seq<char>)
    ensures
        forall|i: int|
            0 <= i < split_lines(s).len() ==> lacks(#[trigger] split_lines(s)[i], '\n'),
    decreases s.len(),
{
    lemma_find_from_bounds(s, 0, '\n');
    if s.len() > 0 {
        let j = find_from(s, 0, '\n');
        if 0 <= j && j < s.len() {
            lemma_split_lines_lack_newline(s.subrange(j + 1, s.len() as int));
            assert forall|i: int|
                0 <= i < split_lines(s).len() implies lacks(
                #[trigger] split_lines(s)[i],
                '\n',
            ) by {
                if i == 0 {
                    assert(lacks(s.subrange(0, j), '\n'));
                    assert(lacks(strip_cr(s.subrange(0, j)), '\n'));
                } else {
                    assert(split_lines(s)[i] == split_lines(
                        s.subrange(j + 1, s.len() as int))[i - 1]);
                }
            }
        }
    }
}

/// The lines of `ls` joined with single `'\n'` separators, no trailing one.
pub open spec fn join_lines(ls: Seq<Seq<char>>) -> Seq<char>
    decreases ls.len(),
{
    if ls.len() == 0 {
        Seq::empty()
    } else if ls.len() == 1 {
        ls[0]
    } else {
        ls[0] + seq!['\n'] + join_lines(ls.drop_first())
    }
}

/// Appending one more line to a join appends a separator and the line.
pub proof fn lemma_join_lines_push(ls: Seq<Seq<char>>, l: Seq<char>)
    ensures
        ls.len() == 0 ==> join_lines(ls.push(l)) == l,
        ls.len() > 0 ==> join_lines(ls.push(l)) == join_lines(ls) + seq!['\n'] + l,
    decreases ls.len(),
{
    if ls.len() == 0 {
        assert(ls.push(l)[0] =~= l);
    } else if ls.len() == 1 {
        assert(ls.push(l).drop_first() =~= seq![l]);
        assert(ls.push(l)[0] == ls[0]);
        assert(join_lines(seq![l]) == l);
        assert(join_lines(ls.push(l)) == ls[0] + seq!['\n'] + l);
    } else {
        lemma_join_lines_push(ls.drop_first(), l);
        assert(ls.push(l).drop_first() =~= ls.drop_first().push(l));
        assert(join_lines(ls) + seq!['\n'] + l
            =~= ls[0] + seq!['\n'] + (join_lines(ls.drop_first()) + seq!['\n'] + l));
    }
}

/// `find_quote` lands exactly on a known first quote.
pub proof fn lemma_find_quote_at(s: Seq<char>, i: int, j: int)
    requires
        0 <= i <= j < s.len(),
        is_quote(s[j]),
        forall|k: int| i <= k < j ==> !is_quote(s[k]),
    ensures
        find_quote(s, i) == j,
{
    lemma_find_quote_bounds(s, i);
    let f = find_quote(s, i);
    if f < j {
        assert(is_quote(s[f]));
    }
    if f > j {
        assert(!is_quote(s[j]));
    }
}

/// A character absent from both halves is absent from their concatenation.
pub proof fn lemma_lacks_concat(a: Seq<char>, b: Seq<char>, c: char)
    requires
        lacks(a, c),
        lacks(b, c),
    ensures
        lacks(a + b, c),
{
    assert forall|k: int| 0 <= k < (a + b).len() implies (a + b)[k] != c by {
        if k < a.len() {
            assert((a + b)[k] == a[k]);
        } else {
            assert((a + b)[k] == b[k - a.len()]);
        }
    }
}

/// A sequence that starts and ends with non-space characters trims to
/// itself.
pub proof fn lemma_trim_identity(s: Seq<char>)
    requires
        s.len() > 0,
        !is_space(s[0]),
        !is_space(s[s.len() - 1]),
    ensures
        trim_spec(s) == s,
{
    assert(skip_spaces(s, 0) == 0);
    assert(trim_end_from(s, 0, s.len() as int) == s.len());
    assert(s.subrange(0, s.len() as int) =~= s);
}

/// Splitting undoes joining: for lines free of newlines and of trailing
/// carriage returns, joining them plus one empty line and splitting again
/// gives the lines back.
pub proof fn lemma_split_of_join(ls: Seq<Seq<char>>)
    requires
        forall|i: int| 0 <= i < ls.len() ==> lacks(#[trigger] ls[i], '\n'),
        forall|i: int|
            0 <= i < ls.len() ==> (#[trigger] ls[i].len() == 0 || ls[i][ls[i].len() - 1] != '\r'),
    ensures
        split_lines(join_lines(ls.push(Seq::empty()))) == ls,
    decreases ls.len(),
{
    if ls.len() == 0 {
        assert(join_lines(ls.push(Seq::empty())) == Seq::<char>::empty());
        assert(split_lines(Seq::<char>::empty()) =~= ls);
    } else {
        let l0 = ls[0];
        let rest = ls.drop_first();
        assert(ls.push(Seq::empty()).drop_first() =~= rest.push(Seq::empty()));
        let tail = join_lines(rest.push(Seq::empty()));
        let joined = join_lines(ls.push(Seq::empty()));
        assert(ls.push(Seq::empty())[0] == l0);
        assert(joined == l0 + seq!['\n'] + tail);
        assert(forall|i: int| 0 <= i < rest.len() ==> rest[i] == ls[i + 1]);
        lemma_split_of_join(rest);
        assert(joined[l0.len() as int] == '\n');
        assert forall|k: int| 0 <= k < l0.len() implies joined[k] != '\n' by {
            assert(joined[k] == l0[k]);
        }
        lemma_find_from_at(joined, 0, l0.len() as int, '\n');
        assert(joined.subrange(0, l0.len() as int) =~= l0);
        assert(strip_cr(l0) == l0);
        assert(joined.subrange(l0.len() as int + 1, joined.len() as int) =~= tail);
        assert(split_lines(joined) == seq![l0] + split_lines(tail));
        assert(seq![l0] + ls.drop_first() =~= ls);
    }
}

pub fn join_lines_exec(ls: &Vec<String>) -> (r: String)
    ensures
        r@ == join_lines(ls.deep_view()),
{
    let mut res = String::new();
    let mut k: usize = 0;
    proof {
        assert(ls.deep_view().take(0) =~= Seq::<Seq<char>>::empty());
    }
    while k < ls.len()
        invariant
            0 <= k <= ls.len(),
            ls.deep_view().len() == ls.len(),
            res@ == join_lines(ls.deep_view().take(k as int)),
        decreases ls.len() - k,
    {
        if k > 0 {
            res.append("\n");
            proof {
                reveal_strlit("\n");
                assert("\n"@ =~= seq!['\n']);
            }
        }
        res.append(ls[k].as_str());
        proof {
            lemma_join_lines_push(ls.deep_view().take(k as int), ls.deep_view()[k as int]);
            assert(ls.deep_view().take(k + 1) =~= ls.deep_view().take(k as int).push(
                ls.deep_view()[k as int]));
        }
        k = k + 1;
    }
    proof {
        assert(ls.deep_view().take(ls.len() as int) =~= ls.deep_view());
    }
    res
}

} // verus!

//! Character-level string operations with exact specifications.

use vstd::prelude::*;
use crate::table::views;

verus! {

pub open spec fn has_prefix(s: Seq<char>, p: Seq<char>) -> bool {
    p.len() <= s.len() && s.subrange(0, p.len() as int) == p
}

pub open spec fn has_suffix(s: Seq<char>, p: Seq<char>) -> bool {
    p.len() <= s.len() && s.subrange(s.len() - p.len(), s.len() as int) == p
}

pub open spec fn occurs_at(s: Seq<char>, p: Seq<char>, i: int) -> bool {
    0 <= i && i + p.len() <= s.len() && s.subrange(i, i + p.len()) == p
}

pub open spec fn has_infix(s: Seq<char>, p: Seq<char>) -> bool {
    exists|i: int| occurs_at(s, p, i)
}

/// Unicode White_Space, the set that `char::is_whitespace` tests.
pub open spec fn is_ws(c: char) -> bool {
    ('\u{9}' <= c && c <= '\u{d}') || c == ' ' || c == '\u{85}' || c == '\u{a0}' || c == '\u{1680}'
        || ('\u{2000}' <= c && c <= '\u{200a}') || c == '\u{2028}' || c == '\u{2029}'
        || c == '\u{202f}' || c == '\u{205f}' || c == '\u{3000}'
}

pub open spec fn trim_start(s: Seq<char>) -> Seq<char>
    decreases s.len(),
{
    if s.len() > 0 && is_ws(s[0]) {
        trim_start(s.drop_first())
    } else {
        s
    }
}

pub open spec fn trim_end(s: Seq<char>) -> Seq<char>
    decreases s.len(),
{
    if s.len() > 0 && is_ws(s.last()) {
        trim_end(s.drop_last())
    } else {
        s
    }
}

/// What `str::trim` leaves: leading and trailing white space removed.
pub open spec fn trimmed(s: Seq<char>) -> Seq<char> {
    trim_end(trim_start(s))
}

/// A line without its trailing carriage return, if any.
pub open spec fn strip_cr(l: Seq<char>) -> Seq<char> {
    if l.len() > 0 && l.last() == '\r' {
        l.drop_last()
    } else {
        l
    }
}

/// The lines of `s` from position `i` on, the current line having begun at `start`:
/// lines end at '\n', and an empty last segment is no line.
pub open spec fn lines_from(s: Seq<char>, i: int, start: int) -> Seq<Seq<char>>
    decreases s.len() - i,
{
    if i >= s.len() {
        if start < s.len() {
            seq![strip_cr(s.subrange(start, s.len() as int))]
        } else {
            Seq::empty()
        }
    } else if s[i] == '\n' {
        seq![strip_cr(s.subrange(start, i))].add(lines_from(s, i + 1, i + 1))
    } else {
        lines_from(s, i + 1, start)
    }
}

/// The lines of a text, as `str::lines` yields them.
pub open spec fn lines_of(s: Seq<char>) -> Seq<Seq<char>> {
    lines_from(s, 0, 0)
}

pub fn is_whitespace(c: char) -> (r: bool)
    ensures
        r == is_ws(c),
{
    ('\u{9}' <= c && c <= '\u{d}') || c == ' ' || c == '\u{85}' || c == '\u{a0}' || c == '\u{1680}'
        || ('\u{2000}' <= c && c <= '\u{200a}') || c == '\u{2028}' || c == '\u{2029}'
        || c == '\u{202f}' || c == '\u{205f}' || c == '\u{3000}'
}

/// Whether `p` occurs in `s` at character position `i`.
fn matches_at(s: &str, sl: usize, p: &str, pl: usize, i: usize) -> (r: bool)
    requires
        sl == s@.len(),
        pl == p@.len(),
        i + pl <= sl,
    ensures
        r == (s@.subrange(i as int, i + pl) == p@),
{
    let mut j: usize = 0;
    while j < pl
        invariant
            sl == s@.len(),
            pl == p@.len(),
            i + pl <= sl,
            j <= pl,
            forall|k: int| 0 <= k < j ==> s@[i + k] == p@[k],
        decreases pl - j,
    {
        if s.get_char(i + j) != p.get_char(j) {
            assert(s@.subrange(i as int, i + pl)[j as int] != p@[j as int]);
            return false;
        }
        j = j + 1;
    }
    assert(s@.subrange(i as int, i + pl) =~= p@);
    true
}

pub fn starts_with(s: &str, p: &str) -> (r: bool)
    ensures
        r == has_prefix(s@, p@),
{
    let sl = s.unicode_len();
    let pl = p.unicode_len();
    pl <= sl && matches_at(s, sl, p, pl, 0)
}

pub fn ends_with(s: &str, p: &str) -> (r: bool)
    ensures
        r == has_suffix(s@, p@),
{
    let sl = s.unicode_len();
    let pl = p.unicode_len();
    pl <= sl && matches_at(s, sl, p, pl, sl - pl)
}

pub fn contains(s: &str, p: &str) -> (r: bool)
    ensures
        r == has_infix(s@, p@),
{
    let sl = s.unicode_len();
    let pl = p.unicode_len();
    if pl > sl {
        assert(!has_infix(s@, p@));
        return false;
    }
    let mut i: usize = 0;
    loop
        invariant
            sl == s@.len(),
            pl == p@.len(),
            i + pl <= sl,
            forall|k: int| 0 <= k < i ==> !occurs_at(s@, p@, k),
        decreases sl - i,
    {
        if matches_at(s, sl, p, pl, i) {
            assert(occurs_at(s@, p@, i as int));
            return true;
        }
        if i + pl == sl {
            assert forall|k: int| !occurs_at(s@, p@, k) by {
                if 0 <= k && k + pl <= sl && k != i {
                    assert(k < i);
                }
            }
            return false;
        }
        i = i + 1;
    }
}

/// `s` with leading and trailing white space removed.
pub fn trim(s: &str) -> (r: String)
    ensures
        r@ == trimmed(s@),
{
    let n = s.unicode_len();
    let mut a: usize = 0;
    assert(s@.subrange(0, n as int) =~= s@);
    while a < n && is_whitespace(s.get_char(a))
        invariant
            n == s@.len(),
            a <= n,
            trim_start(s@.subrange(a as int, n as int)) == trim_start(s@),
        decreases n - a,
    {
        assert(s@.subrange(a as int, n as int).drop_first() =~= s@.subrange(a + 1, n as int));
        a = a + 1;
    }
    assert(trim_start(s@.subrange(a as int, n as int)) == s@.subrange(a as int, n as int));
    let t = s.substring_char(a, n);
    let m = n - a;
    let mut b: usize = m;
    assert(t@.subrange(0, m as int) =~= t@);
    while b > 0 && is_whitespace(t.get_char(b - 1))
        invariant
            m == t@.len(),
            b <= m,
            trim_end(t@.subrange(0, b as int)) == trim_end(t@),
        decreases b,
    {
        assert(t@.subrange(0, b as int).drop_last() =~= t@.subrange(0, b - 1));
        b = b - 1;
    }
    assert(t@ =~= t@.subrange(0, m as int));
    let u = t.substring_char(0, b);
    String::from_str(u)
}

/// The lines of `s`, as `str::lines` yields them.
pub fn split_lines(s: &str) -> (r: Vec<String>)
    ensures
        views(r@) == lines_of(s@),
{
    let n = s.unicode_len();
    let mut out: Vec<String> = Vec::new();
    let mut start: usize = 0;
    let mut i: usize = 0;
    while i < n
        invariant
            n == s@.len(),
            start <= i <= n,
            views(out@) + lines_from(s@, i as int, start as int) == lines_of(s@),
        decreases n - i,
    {
        if s.get_char(i) == '\n' {
            let line = cut_cr(s.substring_char(start, i));
            let ghost prev = out@;
            out.push(line);
            assert(views(out@) =~= views(prev).push(line@));
            assert(views(out@) + lines_from(s@, i + 1, i + 1) =~= views(prev)
                + lines_from(s@, i as int, start as int));
            start = i + 1;
        }
        i = i + 1;
    }
    if start < n {
        let line = cut_cr(s.substring_char(start, n));
        let ghost prev = out@;
        out.push(line);
        assert(views(out@) =~= views(prev).push(line@));
        assert(views(out@) =~= views(prev) + lines_from(s@, i as int, start as int));
    } else {
        assert(views(out@) =~= views(out@) + lines_from(s@, i as int, start as int));
    }
    out
}

fn cut_cr(l: &str) -> (r: String)
    ensures
        r@ == strip_cr(l@),
{
    let n = l.unicode_len();
    if n > 0 && l.get_char(n - 1) == '\r' {
        String::from_str(l.substring_char(0, n - 1))
    } else {
        assert(l@.subrange(0, n as int) =~= l@);
        String::from_str(l)
    }
}

/// `a` followed by `b`.
pub fn join2(a: &str, b: &str) -> (r: String)
    ensures
        r@ == a@ + b@,
{
    let mut r = String::from_str(a);
    r.append(b);
    r
}

/// The characters of `s` from `from` to `to`.
pub fn slice(s: &str, from: usize, to: usize) -> (r: String)
    requires
        from <= to <= s@.len(),
    ensures
        r@ == s@.subrange(from as int, to as int),
{
    String::from_str(s.substring_char(from, to))
}

} // verus!

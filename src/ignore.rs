//! The ignore filter: which working-tree paths are never staged or reported.

use vstd::prelude::*;
use crate::table::views;
use crate::text::{
    contains, ends_with, has_infix, has_prefix, has_suffix, lines_of, split_lines, starts_with,
    trim, trimmed,
};

verus! {

/// Whether `path` lies inside the metadata directory: it is that directory,
/// or has it as a path segment.
pub open spec fn in_meta_dir(path: Seq<char>) -> bool {
    path == ".bloc"@ || has_prefix(path, ".bloc/"@) || has_prefix(path, "./.bloc/"@)
        || has_infix(path, "/.bloc/"@) || has_suffix(path, "/.bloc"@)
}

/// Whether one (trimmed, non-comment) pattern excludes `path`.
pub open spec fn pattern_hits(path: Seq<char>, pat: Seq<char>) -> bool {
    if pat.len() > 0 && pat.last() == '/' {
        let d = pat.drop_last();
        has_prefix(path, d) || has_prefix(path, seq!['.', '/'] + d) || has_infix(path, seq!['/'] + d)
    } else if pat.len() >= 2 && pat[0] == '*' && pat.last() == '*' {
        has_infix(path, pat.subrange(1, pat.len() - 1))
    } else if pat.len() >= 1 && pat[0] == '*' {
        has_suffix(path, pat.drop_first())
    } else if pat.len() >= 1 && pat.last() == '*' {
        has_prefix(path, pat.drop_last())
    } else {
        has_infix(path, pat)
    }
}

/// Whether a line of the ignore file is a pattern: not blank, not a comment.
pub open spec fn is_pattern_line(line: Seq<char>) -> bool {
    trimmed(line).len() > 0 && trimmed(line)[0] != '#'
}

/// Whether some pattern of the ignore file text excludes `path`.
pub open spec fn listed(path: Seq<char>, file: Seq<char>) -> bool {
    exists|i: int|
        0 <= i < lines_of(file).len() && is_pattern_line(#[trigger] lines_of(file)[i])
            && pattern_hits(path, trimmed(lines_of(file)[i]))
}

/// Whether `path` is excluded: never in a bare repository; otherwise when it
/// lies inside the metadata directory, or a pattern of the ignore file matches it.
pub open spec fn excluded(path: Seq<char>, bare: bool, file: Option<Seq<char>>) -> bool {
    !bare && (in_meta_dir(path) || (match file {
        Some(f) => listed(path, f),
        None => false,
    }))
}

fn pattern_matches(path: &str, pat: &str) -> (r: bool)
    ensures
        r == pattern_hits(path@, pat@),
{
    let n = pat.unicode_len();
    if n > 0 && pat.get_char(n - 1) == '/' {
        let d = pat.substring_char(0, n - 1);
        proof {
            reveal_strlit("./");
            reveal_strlit("/");
        }
        let dot = crate::text::join2("./", d);
        let slash = crate::text::join2("/", d);
        assert(d@ =~= pat@.drop_last());
        assert(dot@ =~= seq!['.', '/'] + d@);
        assert(slash@ =~= seq!['/'] + d@);
        starts_with(path, d) || starts_with(path, dot.as_str()) || contains(path, slash.as_str())
    } else if n >= 2 && pat.get_char(0) == '*' && pat.get_char(n - 1) == '*' {
        contains(path, pat.substring_char(1, n - 1))
    } else if n >= 1 && pat.get_char(0) == '*' {
        let s = pat.substring_char(1, n);
        assert(s@ =~= pat@.drop_first());
        ends_with(path, s)
    } else if n >= 1 && pat.get_char(n - 1) == '*' {
        let s = pat.substring_char(0, n - 1);
        assert(s@ =~= pat@.drop_last());
        starts_with(path, s)
    } else {
        contains(path, pat)
    }
}

/// Whether some pattern line of `file` excludes `path`.
pub fn listed_in(path: &str, file: &str) -> (r: bool)
    ensures
        r == listed(path@, file@),
{
    let lines = split_lines(file);
    let mut i: usize = 0;
    while i < lines.len()
        invariant
            views(lines@) == lines_of(file@),
            i <= lines@.len(),
            forall|j: int| 0 <= j < i ==> !(is_pattern_line(#[trigger] lines_of(file@)[j])
                && pattern_hits(path@, trimmed(lines_of(file@)[j]))),
        decreases lines@.len() - i,
    {
        let p = trim(lines[i].as_str());
        assert(lines@[i as int]@ == lines_of(file@)[i as int]);
        if p.unicode_len() > 0 && p.as_str().get_char(0) != '#' && pattern_matches(path, p.as_str()) {
            return true;
        }
        i = i + 1;
    }
    false
}

/// Whether `path` lies inside the metadata directory.
pub fn in_metadata_dir(path: &str) -> (r: bool)
    ensures
        r == in_meta_dir(path@),
{
    String::from_str(path) == String::from_str(".bloc") || starts_with(path, ".bloc/")
        || starts_with(path, "./.bloc/") || contains(path, "/.bloc/") || ends_with(path, "/.bloc")
}

/// Whether `path` is excluded from staging and status.
pub fn is_excluded(path: &str, bare: bool, file: Option<&str>) -> (r: bool)
    ensures
        r == excluded(path@, bare, match file { Some(f) => Some(f@), None => None }),
        file.is_none() ==> r == (!bare && in_meta_dir(path@)),
{
    if bare {
        return false;
    }
    if in_metadata_dir(path) {
        return true;
    }
    match file {
        Some(f) => listed_in(path, f),
        None => false,
    }
}

} // verus!

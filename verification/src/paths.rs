//! Paths as texts, with the separators of the machine that they belong to.
use crate::text;
use vstd::prelude::*;
use vstd::slice::slice_subrange;
use vstd::string::*;

verus! {

/// A character that separates the parts of a path; on Windows the backslash too.
pub open spec fn separates(c: char, windows: bool) -> bool {
    c == '/' || (windows && c == '\\')
}

/// The path begins with a drive of Windows.
pub open spec fn has_drive(p: Seq<char>) -> bool {
    &&& p.len() >= 2
    &&& ('a' <= p[0] && p[0] <= 'z') || ('A' <= p[0] && p[0] <= 'Z')
    &&& p[1] == ':'
}

/// The path begins like one of a share of Windows.
pub open spec fn is_share(p: Seq<char>) -> bool {
    p.len() >= 2 && separates(p[0], true) && separates(p[1], true)
}

/// The first position at or after `i` of a separator of Windows, or the end.
pub open spec fn part_end(p: Seq<char>, i: int) -> int
    decreases p.len() - i,
{
    if 0 <= i < p.len() && !separates(p[i], true) {
        part_end(p, i + 1)
    } else {
        i
    }
}

/// The length of the drive, or of the server and share, that a path of Windows begins with.
pub open spec fn prefix_len(p: Seq<char>) -> int {
    if has_drive(p) {
        2
    } else if is_share(p) {
        let server = part_end(p, 2);
        let share = part_end(p, server + 1);
        if 2 < server < p.len() && server + 1 < share {
            share
        } else {
            0
        }
    } else {
        0
    }
}

/// What a path keeps where another one that begins with a separator is put under it: on Windows its
/// drive or share.
pub open spec fn kept_prefix(base: Seq<char>, windows: bool) -> Seq<char> {
    if windows {
        base.subrange(0, prefix_len(base))
    } else {
        Seq::empty()
    }
}

/// `rel` under the directory `base`, with the separator of the machine: `rel` alone where it is
/// absolute or `base` is empty. On Windows a `rel` with a drive or a share stands alone too, and one
/// that begins with a separator stays on the drive or share of `base`.
///
/// The paths of Windows are those with a drive, with a share, or with neither; a prefix `\\?\` is
/// read as the server of a share.
pub open spec fn joined(base: Seq<char>, rel: Seq<char>, windows: bool) -> Seq<char> {
    if base.len() == 0 || (windows && prefix_len(rel) > 0) {
        rel
    } else if rel.len() > 0 && separates(rel[0], windows) {
        kept_prefix(base, windows) + rel
    } else if separates(base.last(), windows) || (windows && has_drive(base) && base.len() == 2) {
        base + rel
    } else if windows {
        base + "\\"@ + rel
    } else {
        base + "/"@ + rel
    }
}

fn is_separator(c: char, windows: bool) -> (r: bool)
    ensures
        r == separates(c, windows),
{
    c == '/' || (windows && c == '\\')
}

fn begins_with_drive(p: &[char]) -> (r: bool)
    ensures
        r == has_drive(p@),
{
    p.len() >= 2 && (('a' <= p[0] && p[0] <= 'z') || ('A' <= p[0] && p[0] <= 'Z')) && p[1] == ':'
}

fn begins_like_share(p: &[char]) -> (r: bool)
    ensures
        r == is_share(p@),
{
    p.len() >= 2 && is_separator(p[0], true) && is_separator(p[1], true)
}

fn end_of_part(p: &[char], from: usize) -> (r: usize)
    requires
        from <= p@.len(),
    ensures
        r == part_end(p@, from as int),
        from <= r <= p@.len(),
{
    let mut i: usize = from;
    while i < p.len() && !is_separator(p[i], true)
        invariant
            from <= i <= p@.len(),
            part_end(p@, from as int) == part_end(p@, i as int),
        decreases p@.len() - i,
    {
        i = i + 1;
    }
    i
}

fn length_of_prefix(p: &[char]) -> (r: usize)
    ensures
        r == prefix_len(p@),
        r <= p@.len(),
{
    if begins_with_drive(p) {
        return 2;
    }
    if !begins_like_share(p) {
        return 0;
    }
    let server = end_of_part(p, 2);
    if server == 2 || server >= p.len() {
        return 0;
    }
    let share = end_of_part(p, server + 1);
    if server + 1 < share {
        share
    } else {
        0
    }
}

/// Puts `rel` under the directory `base`.
pub fn join(base: &str, rel: &str, windows: bool) -> (r: String)
    ensures
        r@ == joined(base@, rel@, windows),
{
    let b = text::to_chars(base);
    let c = text::to_chars(rel);
    if b.len() == 0 || (windows && length_of_prefix(c.as_slice()) > 0) {
        return rel.to_owned();
    }
    if c.len() > 0 && is_separator(c[0], windows) {
        let n: usize = if windows {
            length_of_prefix(b.as_slice())
        } else {
            0
        };
        let prefix = text::to_text(slice_subrange(b.as_slice(), 0, n));
        assert(prefix@ == kept_prefix(base@, windows));
        return text::plus(prefix, rel);
    }
    if is_separator(b[b.len() - 1], windows) || (windows && b.len() == 2 && begins_with_drive(
        b.as_slice(),
    )) {
        text::plus(base.to_owned(), rel)
    } else if windows {
        text::plus(text::plus(base.to_owned(), "\\"), rel)
    } else {
        text::plus(text::plus(base.to_owned(), "/"), rel)
    }
}

/// A path without its drive or share.
pub open spec fn without_prefix(p: Seq<char>, windows: bool) -> Seq<char> {
    if windows {
        p.subrange(prefix_len(p), p.len() as int)
    } else {
        p
    }
}

/// The path without separators, and without `.` parts, at its end.
pub open spec fn stripped(p: Seq<char>, windows: bool) -> Seq<char>
    decreases p.len(),
{
    if p.len() > 0 && separates(p.last(), windows) {
        stripped(p.subrange(0, p.len() - 1), windows)
    } else if p.len() > 1 && p.last() == '.' && separates(p[p.len() - 2], windows) {
        stripped(p.subrange(0, p.len() - 2), windows)
    } else {
        p
    }
}

/// What stands behind the last separator before position `n`.
pub open spec fn part_start(p: Seq<char>, windows: bool, n: int) -> int
    decreases n,
{
    if n <= 0 || n > p.len() || separates(p[n - 1], windows) {
        n
    } else {
        part_start(p, windows, n - 1)
    }
}

/// The last part of a path; none where that is empty, `.` or `..`. A drive or a share is no part.
pub open spec fn last_part(p: Seq<char>, windows: bool) -> Option<Seq<char>> {
    let s = stripped(without_prefix(p, windows), windows);
    let name = s.subrange(part_start(s, windows, s.len() as int), s.len() as int);
    if name.len() == 0 || name == "."@ || name == ".."@ {
        None
    } else {
        Some(name)
    }
}

/// The last part of a path.
pub fn file_name(p: &str, windows: bool) -> (r: Option<String>)
    ensures
        text::opt_text(r) == last_part(p@, windows),
{
    let all = text::to_chars(p);
    let from: usize = if windows {
        length_of_prefix(all.as_slice())
    } else {
        0
    };
    let chars = slice_subrange(all.as_slice(), from, all.len());
    assert(chars@ =~= without_prefix(p@, windows));
    let mut n: usize = chars.len();
    assert(chars@.subrange(0, n as int) == chars@);
    loop
        invariant
            n <= chars@.len(),
            stripped(chars@, windows) == stripped(chars@.subrange(0, n as int), windows),
        ensures
            n <= chars@.len(),
            stripped(chars@, windows) == chars@.subrange(0, n as int),
        decreases n,
    {
        let ghost cur = chars@.subrange(0, n as int);
        if n > 0 && is_separator(chars[n - 1], windows) {
            assert(cur.subrange(0, n - 1) == chars@.subrange(0, n - 1));
            n = n - 1;
        } else if n > 1 && chars[n - 1] == '.' && is_separator(chars[n - 2], windows) {
            assert(cur.subrange(0, n - 2) == chars@.subrange(0, n - 2));
            n = n - 2;
        } else {
            break ;
        }
    }
    let s = slice_subrange(chars, 0, n);
    let mut k: usize = n;
    while k > 0 && !is_separator(s[k - 1], windows)
        invariant
            k <= n,
            s@.len() == n,
            part_start(s@, windows, n as int) == part_start(s@, windows, k as int),
        decreases k,
    {
        k = k - 1;
    }
    let name = text::to_text(slice_subrange(s, k, n));
    if name.as_str().is_empty() || text::same_text(name.as_str(), ".") || text::same_text(
        name.as_str(),
        "..",
    ) {
        None
    } else {
        Some(name)
    }
}

} // verus!

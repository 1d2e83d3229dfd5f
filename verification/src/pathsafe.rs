//! Containment rules for filesystem path components built from untrusted input.
//!
//! Rejecting `.`, `..` and separators is not sufficient on Windows:
//!
//! - Win32 strips trailing dots and spaces from a path component, so any component that
//!   ends in `.` or ` ` must go.
//! - A component containing `:` opens an alternate data stream or names a drive, and
//!   joining it to a root discards the root.
//!
//! The rule: derive a safe name, then assert containment against the canonicalized root.
//! A path is a list of components here; canonicalizing is up to the caller.

use vstd::prelude::*;
use vstd::utf8::encode_utf8;

use crate::text::{chars_of, same, views};

verus! {

/// Longest single path component accepted, in bytes.
pub const MAX_SEGMENT: usize = 128;

/// Unicode's control characters.
pub open spec fn control_char(c: char) -> bool {
    c <= '\u{1f}' || '\u{7f}' <= c <= '\u{9f}'
}

/// A character that no single path component may hold.
pub open spec fn unsafe_char(c: char) -> bool {
    c == '/' || c == '\\' || c == ':' || control_char(c)
}

/// Safe as exactly one path component.
pub open spec fn is_safe_segment(s: Seq<char>) -> bool {
    &&& s.len() > 0
    &&& encode_utf8(s).len() <= MAX_SEGMENT
    &&& forall|i: int| 0 <= i < s.len() ==> !unsafe_char(#[trigger] s[i])
    &&& s.last() != '.'
    &&& s.last() != ' '
}

/// True when `s` is safe to use as exactly one path component.
///
/// Rejects: empty, `.`, `..`, anything holding `/` `\` or `:`, control characters, a
/// trailing dot or space, and anything past [`MAX_SEGMENT`].
pub fn safe_segment(s: &str) -> (r: bool)
    ensures
        r == is_safe_segment(s@),
{
    let v = chars_of(s);
    if v.len() == 0 || s.as_bytes().len() > MAX_SEGMENT {
        return false;
    }
    let mut i: usize = 0;
    while i < v.len()
        invariant
            i <= v.len(),
            v.len() > 0,
            v@ == s@,
            encode_utf8(s@).len() <= MAX_SEGMENT,
            forall|j: int| 0 <= j < i ==> !unsafe_char(#[trigger] s@[j]),
        decreases v.len() - i,
    {
        let c = v[i];
        if c == '/' || c == '\\' || c == ':' || c <= '\u{1f}' || ('\u{7f}' <= c && c <= '\u{9f}') {
            assert(unsafe_char(s@[i as int]));
            return false;
        }
        i += 1;
    }
    v[v.len() - 1] != '.' && v[v.len() - 1] != ' '
}

/// `path` begins with the components of `root`.
pub open spec fn within(root: Seq<Seq<char>>, path: Seq<Seq<char>>) -> bool {
    root.len() <= path.len() && path.take(root.len() as int) == root
}

fn starts_with_path(root: &Vec<String>, path: &Vec<String>) -> (r: bool)
    ensures
        r == within(views(root@), views(path@)),
{
    if root.len() > path.len() {
        return false;
    }
    let mut i: usize = 0;
    while i < root.len()
        invariant
            i <= root.len() <= path.len(),
            forall|j: int| 0 <= j < i ==> root@[j]@ == path@[j]@,
        decreases root.len() - i,
    {
        if !same(root[i].as_str(), path[i].as_str()) {
            assert(views(path@).take(root@.len() as int)[i as int] != views(root@)[i as int]);
            return false;
        }
        i += 1;
    }
    assert(views(path@).take(root@.len() as int) =~= views(root@));
    true
}

/// Assert that a path about to be written resolves inside `root`: `parent` is its parent
/// directory, both canonicalized, each `None` where that failed. Fails closed.
pub fn is_contained(root: Option<&Vec<String>>, parent: Option<&Vec<String>>) -> (r: bool)
    ensures
        r == (root is Some && parent is Some && within(views(root->0@), views(parent->0@))),
{
    match (root, parent) {
        (Some(root), Some(parent)) => starts_with_path(root, parent),
        _ => false,
    }
}

/// Assert that an already canonicalized `path` is inside `root`, canonicalized, `None`
/// where that failed. Fails closed.
pub fn is_contained_resolved(root: Option<&Vec<String>>, path: &Vec<String>) -> (r: bool)
    ensures
        r == (root is Some && within(views(root->0@), views(path@))),
{
    match root {
        Some(root) => starts_with_path(root, path),
        None => false,
    }
}

/// A safe segment is neither empty nor a step to the same or the parent directory.
pub proof fn law_safe_segment_is_no_step(s: Seq<char>)
    requires
        is_safe_segment(s),
    ensures
        s != Seq::<char>::empty(),
        s != "."@,
        s != ".."@,
{
    reveal_strlit(".");
    reveal_strlit("..");
    if s == "."@ {
        assert(s.last() == '.');
    }
    if s == ".."@ {
        assert(s.last() == '.');
    }
}

/// Components appended to a root stay within it.
pub proof fn law_appended_stays_within(root: Seq<Seq<char>>, more: Seq<Seq<char>>)
    ensures
        within(root, root + more),
{
    assert((root + more).take(root.len() as int) =~= root);
}

/// A segment is safe exactly where it is not empty, has at most a hundred and twenty-eight
/// bytes, holds no slash of either kind, no colon and no control character, and ends in
/// neither a dot nor a blank.
pub proof fn law_safe_segments(s: Seq<char>)
    ensures
        is_safe_segment(s) <==> {
            &&& 0 < s.len()
            &&& encode_utf8(s).len() <= 128
            &&& !s.contains('/') && !s.contains('\\') && !s.contains(':')
            &&& forall|i: int|
                0 <= i < s.len() ==> ' ' <= #[trigger] s[i] && !('\u{7f}' <= s[i] <= '\u{9f}')
            &&& s[s.len() - 1] != '.' && s[s.len() - 1] != ' '
        },
{
    if is_safe_segment(s) {
        assert forall|i: int| 0 <= i < s.len() implies ' ' <= #[trigger] s[i] && !('\u{7f}' <= s[i] <= '\u{9f}') by {
            assert(!unsafe_char(s[i]));
        }
        assert forall|i: int| 0 <= i < s.len() implies s[i] != '/' && s[i] != '\\' && s[i]
            != ':' by {
            assert(!unsafe_char(s[i]));
        }
    }
    if !s.contains('/') && !s.contains('\\') && !s.contains(':') && (forall|i: int|
        0 <= i < s.len() ==> ' ' <= #[trigger] s[i] && !('\u{7f}' <= s[i] <= '\u{9f}')) {
        assert forall|i: int| 0 <= i < s.len() implies !unsafe_char(#[trigger] s[i]) by {
            assert(s.contains(s[i]));
            assert(' ' <= s[i] && !('\u{7f}' <= s[i] <= '\u{9f}'));
        }
    }
}

/// A path lies within a root exactly where it is the root and something more, or the root
/// itself.
pub proof fn law_within(root: Seq<Seq<char>>, path: Seq<Seq<char>>)
    ensures
        within(root, path) <==> exists|more: Seq<Seq<char>>| path == #[trigger] (root + more),
        within(root, root),
        within(Seq::empty(), path),
{
    assert(root.take(root.len() as int) =~= root);
    assert(path.take(0) =~= Seq::empty());
    if within(root, path) {
        assert(path =~= root + path.skip(root.len() as int));
    }
    if exists|more: Seq<Seq<char>>| path == #[trigger] (root + more) {
        let more = choose|more: Seq<Seq<char>>| path == #[trigger] (root + more);
        assert(path.take(root.len() as int) =~= root);
    }
}

/// What lies within a path that lies within a root lies within the root too.
pub proof fn law_within_is_transitive(
    a: Seq<Seq<char>>,
    b: Seq<Seq<char>>,
    c: Seq<Seq<char>>,
)
    requires
        within(a, b),
        within(b, c),
    ensures
        within(a, c),
{
    assert(c.take(a.len() as int) =~= b.take(a.len() as int));
}

} // verus!

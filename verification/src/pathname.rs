//! File names in paths: the last component, its stem and its extension, after the rules of
//! the system that the paths belong to.

use vstd::prelude::*;
use vstd::string::StringExecFns;

use crate::text::{chars_of, find_last_char, last_char, string_of_range};

verus! {

/// Whose rules a path follows.
#[derive(Debug, Clone, Copy, PartialEq, Eq, Structural)]
pub enum PathStyle {
    /// `/` alone parts components.
    Unix,
    /// Both slashes part components, and a drive, share or device may stand in front.
    Windows,
}

/// Which characters part the components of a path.
#[derive(Debug, Clone, Copy, PartialEq, Eq, Structural)]
pub enum Separators {
    Slash,
    Either,
    /// A verbatim path: nothing but `\` parts it, and a `.` in it is a component.
    Backslash,
}

/// A slash of either kind.
pub open spec fn is_slash(c: char) -> bool {
    c == '/' || c == '\\'
}

/// The character parts components.
pub open spec fn separates(k: Separators, c: char) -> bool {
    match k {
        Separators::Slash => c == '/',
        Separators::Either => is_slash(c),
        Separators::Backslash => c == '\\',
    }
}

/// What stands in front of a path's components: how long it is, and what parts them.
pub struct PathHead {
    pub len: int,
    pub separators: Separators,
}

/// Where the first separator from `i` on stands, or the end of the text.
pub open spec fn separator_from(s: Seq<char>, i: int, k: Separators) -> int
    decreases s.len() - i,
{
    if i < 0 || i >= s.len() {
        s.len() as int
    } else if separates(k, s[i]) {
        i
    } else {
        separator_from(s, i + 1, k)
    }
}

/// A drive letter and its colon stand at `i`.
pub open spec fn drive_at(s: Seq<char>, i: int) -> bool {
    0 <= i && i + 1 < s.len() && ('a' <= s[i] <= 'z' || 'A' <= s[i] <= 'Z') && s[i + 1] == ':'
}

/// Where the share behind the server that begins at `i` ends, if there is one.
pub open spec fn share_end(s: Seq<char>, i: int, k: Separators) -> Option<int> {
    let server = separator_from(s, i, k);
    let share = separator_from(s, server + 1, k);
    if server < s.len() && share > server + 1 {
        Some(share)
    } else {
        None
    }
}

/// A verbatim path begins with `\\?\`.
pub open spec fn is_verbatim(s: Seq<char>) -> bool {
    s.len() >= 4 && s[0] == '\\' && s[1] == '\\' && s[2] == '?' && s[3] == '\\'
}

/// Where the prefix of a verbatim path ends: behind a server and its share, a drive, or one
/// name.
pub open spec fn verbatim_end(s: Seq<char>) -> int {
    if s.len() >= 8 && s[4] == 'U' && s[5] == 'N' && s[6] == 'C' && is_slash(s[7]) {
        match share_end(s, 8, Separators::Backslash) {
            Some(end) => end,
            None => separator_from(s, 8, Separators::Backslash),
        }
    } else if drive_at(s, 4) && (s.len() == 6 || is_slash(s[6])) {
        6
    } else {
        separator_from(s, 4, Separators::Backslash)
    }
}

/// Where the prefix of a path that begins with two slashes ends: behind a device, or a
/// server and its share; 0 where it names neither.
pub open spec fn share_prefix_end(s: Seq<char>) -> int {
    if s.len() >= 4 && s[2] == '.' && is_slash(s[3]) {
        separator_from(s, 4, Separators::Either)
    } else if separator_from(s, 2, Separators::Either) > 2 {
        match share_end(s, 2, Separators::Either) {
            Some(end) => end,
            None => 0,
        }
    } else {
        0
    }
}

/// What stands in front of a path's components.
pub open spec fn head_of(style: PathStyle, s: Seq<char>) -> PathHead {
    if style is Unix {
        PathHead { len: 0, separators: Separators::Slash }
    } else if is_verbatim(s) {
        PathHead { len: verbatim_end(s), separators: Separators::Backslash }
    } else if s.len() >= 2 && is_slash(s[0]) && is_slash(s[1]) {
        PathHead { len: share_prefix_end(s), separators: Separators::Either }
    } else if drive_at(s, 0) {
        PathHead { len: 2, separators: Separators::Either }
    } else {
        PathHead { len: 0, separators: Separators::Either }
    }
}

/// Where the last component of a path ends, among the first `end` characters: before
/// trailing separators and, but for a verbatim path, `.` components.
pub open spec fn component_end(s: Seq<char>, h: PathHead, end: int) -> int
    decreases end - h.len,
{
    if end <= h.len || end > s.len() {
        h.len
    } else if separates(h.separators, s[end - 1]) {
        component_end(s, h, end - 1)
    } else if s[end - 1] == '.' && !(h.separators is Backslash) && end - 2 >= h.len && separates(
        h.separators,
        s[end - 2],
    ) {
        component_end(s, h, end - 1)
    } else {
        end
    }
}

/// Where the last component of a path begins: behind the last separator among the first
/// `end` characters.
pub open spec fn component_start(s: Seq<char>, h: PathHead, end: int) -> int
    decreases end - h.len,
{
    if end <= h.len || end > s.len() {
        h.len
    } else if separates(h.separators, s[end - 1]) {
        end
    } else {
        component_start(s, h, end - 1)
    }
}

/// The last component of a path. Trailing separators and `.` components do not count.
pub open spec fn base_name(style: PathStyle, s: Seq<char>) -> Seq<char> {
    let h = head_of(style, s);
    let end = component_end(s, h, s.len() as int);
    s.subrange(component_start(s, h, end), end)
}

/// A component that names a file: neither nothing nor a step to the same or the parent
/// directory.
pub open spec fn names_file(name: Seq<char>) -> bool {
    name.len() > 0 && name != seq!['.'] && name != seq!['.', '.']
}

/// Where a file name's extension is parted off, if it has one: at its last dot, unless
/// that is its first character or the name is `..`.
pub open spec fn extension_dot(name: Seq<char>) -> Option<int> {
    match last_char(name, '.', name.len() as int) {
        Some(i) => if i == 0 || name == seq!['.', '.'] {
            None
        } else {
            Some(i)
        },
        None => None,
    }
}

/// A file name without its extension; `.` and `..` name no file.
pub open spec fn stem_of(name: Seq<char>) -> Seq<char> {
    if !names_file(name) {
        Seq::empty()
    } else {
        match extension_dot(name) {
            Some(i) => name.take(i),
            None => name,
        }
    }
}

/// A file name's extension, or the empty text.
pub open spec fn extension_of(name: Seq<char>) -> Seq<char> {
    match extension_dot(name) {
        Some(i) => name.skip(i + 1),
        None => Seq::empty(),
    }
}

/// A path with its file name's extension replaced, or added where it has none. A path
/// without a file name stays as it is.
pub open spec fn extension_replaced(style: PathStyle, s: Seq<char>, ext: Seq<char>) -> Seq<char> {
    let h = head_of(style, s);
    let end = component_end(s, h, s.len() as int);
    let name = base_name(style, s);
    if !names_file(name) {
        s
    } else {
        match extension_dot(name) {
            Some(i) => s.take(component_start(s, h, end) + i) + "."@ + ext,
            None => s.take(end) + "."@ + ext,
        }
    }
}

fn char_is_slash(c: char) -> (r: bool)
    ensures
        r == is_slash(c),
{
    c == '/' || c == '\\'
}

fn is_separator(k: Separators, c: char) -> (r: bool)
    ensures
        r == separates(k, c),
{
    match k {
        Separators::Slash => c == '/',
        Separators::Either => char_is_slash(c),
        Separators::Backslash => c == '\\',
    }
}

fn find_separator(v: &Vec<char>, from: usize, k: Separators) -> (r: usize)
    requires
        from <= v.len(),
    ensures
        r == separator_from(v@, from as int, k),
        from <= r <= v.len(),
{
    let mut i: usize = from;
    while i < v.len()
        invariant
            from <= i <= v.len(),
            separator_from(v@, from as int, k) == separator_from(v@, i as int, k),
        decreases v.len() - i,
    {
        if is_separator(k, v[i]) {
            return i;
        }
        i += 1;
    }
    i
}

fn has_drive(v: &Vec<char>, i: usize) -> (r: bool)
    requires
        i < usize::MAX,
    ensures
        r == drive_at(v@, i as int),
{
    i + 1 < v.len() && (('a' <= v[i] && v[i] <= 'z') || ('A' <= v[i] && v[i] <= 'Z')) && v[i + 1]
        == ':'
}

fn find_share_end(v: &Vec<char>, i: usize, k: Separators) -> (r: Option<usize>)
    requires
        i <= v.len(),
    ensures
        r is Some == share_end(v@, i as int, k) is Some,
        r is Some ==> share_end(v@, i as int, k) == Some(r->0 as int) && r->0 <= v.len(),
{
    let server: usize = find_separator(v, i, k);
    if server >= v.len() {
        return None;
    }
    let share: usize = find_separator(v, server + 1, k);
    if share > server + 1 {
        Some(share)
    } else {
        None
    }
}

fn find_verbatim_end(v: &Vec<char>) -> (r: usize)
    requires
        v.len() >= 4,
    ensures
        r == verbatim_end(v@),
        r <= v.len(),
{
    if v.len() >= 8 && v[4] == 'U' && v[5] == 'N' && v[6] == 'C' && char_is_slash(v[7]) {
        match find_share_end(v, 8, Separators::Backslash) {
            Some(end) => end,
            None => find_separator(v, 8, Separators::Backslash),
        }
    } else if has_drive(v, 4) && (v.len() == 6 || char_is_slash(v[6])) {
        6
    } else {
        find_separator(v, 4, Separators::Backslash)
    }
}

fn find_share_prefix_end(v: &Vec<char>) -> (r: usize)
    requires
        v.len() >= 2,
    ensures
        r == share_prefix_end(v@),
        r <= v.len(),
{
    if v.len() >= 4 && v[2] == '.' && char_is_slash(v[3]) {
        find_separator(v, 4, Separators::Either)
    } else if find_separator(v, 2, Separators::Either) > 2 {
        match find_share_end(v, 2, Separators::Either) {
            Some(end) => end,
            None => 0,
        }
    } else {
        0
    }
}

fn find_head(style: PathStyle, v: &Vec<char>) -> (r: (usize, Separators))
    ensures
        head_of(style, v@) == (PathHead { len: r.0 as int, separators: r.1 }),
        r.0 <= v.len(),
{
    match style {
        PathStyle::Unix => (0, Separators::Slash),
        PathStyle::Windows => {
            if v.len() >= 4 && v[0] == '\\' && v[1] == '\\' && v[2] == '?' && v[3] == '\\' {
                (find_verbatim_end(v), Separators::Backslash)
            } else if v.len() >= 2 && char_is_slash(v[0]) && char_is_slash(v[1]) {
                (find_share_prefix_end(v), Separators::Either)
            } else if has_drive(v, 0) {
                (2, Separators::Either)
            } else {
                (0, Separators::Either)
            }
        },
    }
}

/// Where the last component of a path begins and ends.
fn find_component(style: PathStyle, v: &Vec<char>) -> (r: (usize, usize))
    ensures
        ({
            let h = head_of(style, v@);
            &&& r.1 == component_end(v@, h, v@.len() as int)
            &&& r.0 == component_start(v@, h, r.1 as int)
        }),
        r.0 <= r.1 <= v.len(),
{
    let (lo, k) = find_head(style, v);
    let ghost h = head_of(style, v@);
    let mut end: usize = v.len();
    while end > lo && (is_separator(k, v[end - 1]) || (v[end - 1] == '.' && k
        != Separators::Backslash && end >= 2 && end - 2 >= lo && is_separator(k, v[end - 2])))
        invariant
            lo <= end <= v.len(),
            h == (PathHead { len: lo as int, separators: k }),
            component_end(v@, h, v@.len() as int) == component_end(v@, h, end as int),
        decreases end,
    {
        end -= 1;
    }
    let mut start: usize = end;
    while start > lo && !is_separator(k, v[start - 1])
        invariant
            lo <= start <= end <= v.len(),
            h == (PathHead { len: lo as int, separators: k }),
            component_start(v@, h, end as int) == component_start(v@, h, start as int),
        decreases start,
    {
        start -= 1;
    }
    (start, end)
}

fn is_dot_dot(v: &Vec<char>) -> (r: bool)
    ensures
        r == (v@ == seq!['.', '.']),
{
    let r = v.len() == 2 && v[0] == '.' && v[1] == '.';
    if r {
        assert(v@ =~= seq!['.', '.']);
    }
    r
}

fn is_file_name(v: &Vec<char>) -> (r: bool)
    ensures
        r == names_file(v@),
{
    let dot = v.len() == 1 && v[0] == '.';
    if dot {
        assert(v@ =~= seq!['.']);
    }
    v.len() > 0 && !dot && !is_dot_dot(v)
}

fn find_extension_dot(v: &Vec<char>) -> (r: Option<usize>)
    ensures
        r is Some == extension_dot(v@) is Some,
        r is Some ==> extension_dot(v@) == Some(r->0 as int) && r->0 < v.len(),
{
    match find_last_char(v, '.') {
        Some(i) => if i == 0 || is_dot_dot(v) {
            None
        } else {
            Some(i)
        },
        None => None,
    }
}

/// The last component of a path. Trailing separators and `.` components do not count.
pub fn file_name_of(style: PathStyle, path: &str) -> (r: String)
    ensures
        r@ == base_name(style, path@),
{
    let v = chars_of(path);
    let (start, end) = find_component(style, &v);
    string_of_range(&v, start, end)
}

/// A file name's extension, or the empty text.
pub fn name_extension(name: &str) -> (r: String)
    ensures
        r@ == extension_of(name@),
{
    let v = chars_of(name);
    match find_extension_dot(&v) {
        Some(i) => {
            let r = string_of_range(&v, i + 1, v.len());
            assert(r@ =~= name@.skip(i + 1));
            r
        },
        None => String::new(),
    }
}

/// Whether a file name has an extension.
pub fn has_extension(name: &str) -> (r: bool)
    ensures
        r == extension_dot(name@) is Some,
{
    let v = chars_of(name);
    find_extension_dot(&v).is_some()
}

/// A file name without its extension; `.` and `..` name no file.
pub fn name_stem(name: &str) -> (r: String)
    ensures
        r@ == stem_of(name@),
{
    let v = chars_of(name);
    if !is_file_name(&v) {
        return String::new();
    }
    match find_extension_dot(&v) {
        Some(i) => {
            let r = string_of_range(&v, 0, i);
            assert(r@ =~= name@.take(i as int));
            r
        },
        None => name.to_owned(),
    }
}

/// The extension of a path's last component, or the empty text.
pub fn extension(style: PathStyle, path: &str) -> (r: String)
    ensures
        r@ == extension_of(base_name(style, path@)),
{
    let name = file_name_of(style, path);
    name_extension(name.as_str())
}

/// A path with its file name's extension replaced, or added where it has none.
pub fn replace_extension(style: PathStyle, path: &str, ext: &str) -> (r: String)
    ensures
        r@ == extension_replaced(style, path@, ext@),
{
    let v = chars_of(path);
    let (start, end) = find_component(style, &v);
    let base = string_of_range(&v, start, end);
    let name = chars_of(base.as_str());
    if !is_file_name(&name) {
        return path.to_owned();
    }
    let stop: usize = match find_extension_dot(&name) {
        Some(i) => start + i,
        None => end,
    };
    let mut r = string_of_range(&v, 0, stop);
    assert(r@ =~= path@.take(stop as int));
    r.append(".");
    r.append(ext);
    r
}

/// A name without separators, in a place without a drive, is its own last component: how a
/// directory lists a file is how the file is named.
pub proof fn law_bare_names_are_base_names(style: PathStyle, name: Seq<char>)
    requires
        forall|i: int| 0 <= i < name.len() ==> !is_slash(#[trigger] name[i]),
        !drive_at(name, 0),
    ensures
        base_name(style, name) == name,
{
    let h = head_of(style, name);
    let n = name.len() as int;
    if n > 0 {
        assert(!is_slash(name[0]));
        assert(!is_slash(name[n - 1]));
        if n > 1 {
            assert(!is_slash(name[n - 2]));
        }
        lemma_no_separator(name, h, n);
    }
    assert(name.subrange(0, n) =~= name);
}

proof fn lemma_no_separator(name: Seq<char>, h: PathHead, end: int)
    requires
        forall|i: int| 0 <= i < name.len() ==> !is_slash(#[trigger] name[i]),
        h.len == 0,
        0 <= end <= name.len(),
    ensures
        component_start(name, h, end) == 0,
    decreases end,
{
    if end > 0 {
        assert(!is_slash(name[end - 1]));
        lemma_no_separator(name, h, end - 1);
    }
}

proof fn lemma_last_char_at(s: Seq<char>, c: char, end: int, at: int)
    requires
        0 <= at < end <= s.len(),
        s[at] == c,
        forall|i: int| at < i < end ==> #[trigger] s[i] != c,
    ensures
        last_char(s, c, end) == Some(at),
    decreases end,
{
    if end - 1 > at {
        lemma_last_char_at(s, c, end - 1, at);
    }
}

/// A character that is nowhere has no last place.
pub proof fn lemma_no_last_char(s: Seq<char>, c: char, end: int)
    requires
        end <= s.len(),
        forall|i: int| 0 <= i < end ==> #[trigger] s[i] != c,
    ensures
        last_char(s, c, end) is None,
    decreases end,
{
    if end > 0 {
        lemma_no_last_char(s, c, end - 1);
    }
}

/// A name parts at its last dot into a stem and an extension; a name without a dot, or with
/// its only dot in front, is a stem alone.
pub proof fn law_names_part_at_the_last_dot(stem: Seq<char>, ext: Seq<char>)
    requires
        stem.len() > 0,
        forall|i: int| 0 <= i < ext.len() ==> #[trigger] ext[i] != '.',
        !(stem =~= seq!['.'] && ext.len() == 0),
    ensures
        extension_of(stem.push('.') + ext) == ext,
        stem_of(stem.push('.') + ext) == stem,
        ext.len() > 0 ==> extension_of(ext).len() == 0,
        ext.len() > 0 ==> stem_of(ext) == ext,
        ext.len() > 0 ==> extension_of(seq!['.'] + ext).len() == 0,
        ext.len() > 0 ==> stem_of(seq!['.'] + ext) == seq!['.'] + ext,
{
    let name = stem.push('.') + ext;
    let n = name.len() as int;
    let at = stem.len() as int;
    assert(name[at] == '.');
    assert forall|i: int| at < i < n implies #[trigger] name[i] != '.' by {
        assert(name[i] == ext[i - at - 1]);
    }
    lemma_last_char_at(name, '.', n, at);
    assert(name.skip(at + 1) =~= ext);
    assert(name.take(at) =~= stem);
    if name == seq!['.', '.'] {
        assert(stem[0] == name[0]);
        assert(stem =~= seq!['.']);
        assert(false);
    }
    assert(name.len() >= 2);
    assert(name != seq!['.']) by {
        assert(seq!['.'].len() == 1);
    }
    assert(names_file(name));
    if ext.len() > 0 {
        lemma_no_last_char(ext, '.', ext.len() as int);
        assert(ext[0] != '.');
        assert(seq!['.'][0] == '.' && seq!['.', '.'][0] == '.');
        let dotted = seq!['.'] + ext;
        assert forall|i: int| 0 < i < dotted.len() implies #[trigger] dotted[i] != '.' by {
            assert(dotted[i] == ext[i - 1]);
        }
        lemma_last_char_at(dotted, '.', dotted.len() as int, 0);
        assert(dotted[1] == ext[0]);
        assert(seq!['.', '.'][1] == '.');
        assert(dotted.len() >= 2);
    }
}

/// A name without a slash of either kind, and without a dot at its end.
pub open spec fn plain_name(name: Seq<char>) -> bool {
    name.len() > 0 && name.last() != '.' && forall|i: int|
        0 <= i < name.len() ==> #[trigger] name[i] != '/' && name[i] != '\\'
}

proof fn lemma_start(s: Seq<char>, h: PathHead, end: int, at: int)
    requires
        0 <= h.len <= at <= end <= s.len(),
        forall|i: int| at <= i < end ==> !separates(h.separators, #[trigger] s[i]),
        at > h.len ==> separates(h.separators, s[at - 1]),
    ensures
        component_start(s, h, end) == at,
    decreases end - at,
{
    if end > at {
        assert(!separates(h.separators, s[end - 1]));
        lemma_start(s, h, end - 1, at);
    }
}

/// On Unix the base name is what stands behind the last slash; slashes and single dots
/// behind it do not count, and a backslash is a character like any other.
pub proof fn law_unix_base_names(dir: Seq<char>, name: Seq<char>)
    requires
        name.len() > 0,
        name != seq!['.'],
        forall|i: int| 0 <= i < name.len() ==> #[trigger] name[i] != '/',
    ensures
        base_name(PathStyle::Unix, name) == name,
        base_name(PathStyle::Unix, dir.push('/') + name) == name,
        base_name(PathStyle::Unix, dir.push('/') + name.push('/')) == name,
        base_name(PathStyle::Unix, dir.push('/') + name.push('/').push('.')) == name,
{
    let h = PathHead { len: 0, separators: Separators::Slash };
    let d = dir.push('/');
    let k = d.len() as int;
    let n = name.len() as int;
    let s0 = name;
    let s1 = d + name;
    let s2 = d + name.push('/');
    let s3 = d + name.push('/').push('.');
    assert(s0.subrange(0, n) =~= name);
    assert(s1.subrange(k, k + n) =~= name);
    lemma_unix_end(s0, h, 0, n);
    lemma_unix_end(s1, h, k, k + n);
    assert forall|i: int| k <= i < k + n implies s2[i] == name[i - k] && s3[i] == name[i - k] by {}
    assert(s2[k - 1] == '/' && s3[k - 1] == '/');
    assert(s2[k + n] == '/' && s3[k + n] == '/' && s3[k + n + 1] == '.');
    assert(s2.subrange(k, k + n) =~= name);
    assert(s3.subrange(k, k + n) =~= name);
    lemma_unix_end(s2, h, k, k + n);
    lemma_unix_end(s3, h, k, k + n);
    assert(component_end(s2, h, k + n + 1) == component_end(s2, h, k + n));
    assert(component_end(s3, h, k + n + 1) == component_end(s3, h, k + n));
    assert(component_end(s3, h, k + n + 2) == component_end(s3, h, k + n + 1));
}

/// Where a component stands between two places, its end and its start are found.
proof fn lemma_unix_end(s: Seq<char>, h: PathHead, at: int, end: int)
    requires
        0 <= h.len <= at < end <= s.len(),
        forall|i: int| at <= i < end ==> !separates(h.separators, #[trigger] s[i]),
        at > h.len ==> separates(h.separators, s[at - 1]),
        s.subrange(at, end) != seq!['.'],
    ensures
        component_end(s, h, end) == end,
        component_start(s, h, end) == at,
{
    assert(!separates(h.separators, s[end - 1]));
    if s[end - 1] == '.' && end - 2 >= h.len && separates(h.separators, s[end - 2]) {
        if end - 2 >= at {
            assert(!separates(h.separators, s[end - 2]));
        }
        assert(s.subrange(at, end) =~= seq!['.']);
    }
    lemma_start(s, h, end, at);
}

/// On Windows either slash parts names, behind a drive too: the base name is what stands
/// behind the last of them.
pub proof fn law_windows_base_names(drive: char, dir: Seq<char>, sep: char, name: Seq<char>)
    requires
        plain_name(name),
        'a' <= drive <= 'z' || 'A' <= drive <= 'Z',
        sep == '/' || sep == '\\',
    ensures
        base_name(PathStyle::Windows, seq![drive, ':'] + dir.push(sep) + name) == name,
        base_name(PathStyle::Windows, seq![drive, ':'] + name) == name,
        base_name(PathStyle::Windows, seq![drive, ':'] + dir.push(sep) + name.push('/')) == name,
        base_name(PathStyle::Windows, seq![drive, ':'] + dir.push(sep) + name.push('\\')) == name,
{
    let h = PathHead { len: 2, separators: Separators::Either };
    let d = seq![drive, ':'] + dir.push(sep);
    let e = seq![drive, ':'];
    let k = d.len() as int;
    let n = name.len() as int;
    let s0 = e + name;
    let s1 = d + name;
    let s2 = d + name.push('/');
    let s3 = d + name.push('\\');
    assert(s0[0] == drive && s0[1] == ':');
    assert(s1[0] == drive && s1[1] == ':');
    assert(s2[0] == drive && s2[1] == ':');
    assert(s3[0] == drive && s3[1] == ':');
    assert(drive != '\\' && drive != '/');
    assert(d[k - 1] == sep);
    assert(s1[k - 1] == sep && s2[k - 1] == sep && s3[k - 1] == sep);
    assert forall|i: int| k <= i < k + n implies s1[i] == name[i - k] && s2[i] == name[i - k]
        && s3[i] == name[i - k] by {}
    assert forall|i: int| 2 <= i < 2 + n implies s0[i] == name[i - 2] by {}
    assert(s0.subrange(2, 2 + n) =~= name);
    assert(s1.subrange(k, k + n) =~= name);
    assert(s2.subrange(k, k + n) =~= name);
    assert(s3.subrange(k, k + n) =~= name);
    assert(name != seq!['.']) by {
        assert(seq!['.'].last() == '.');
    }
    lemma_unix_end(s0, h, 2, 2 + n);
    lemma_unix_end(s1, h, k, k + n);
    lemma_unix_end(s2, h, k, k + n);
    lemma_unix_end(s3, h, k, k + n);
    assert(s2[k + n] == '/' && s3[k + n] == '\\');
    assert(component_end(s2, h, k + n + 1) == component_end(s2, h, k + n));
    assert(component_end(s3, h, k + n + 1) == component_end(s3, h, k + n));
}

/// Behind a verbatim drive prefix a backslash alone parts names.
pub proof fn law_verbatim_base_names(drive: char, dir: Seq<char>, name: Seq<char>)
    requires
        name.len() > 0,
        name.last() != '.',
        forall|i: int| 0 <= i < name.len() ==> #[trigger] name[i] != '\\',
        'a' <= drive <= 'z' || 'A' <= drive <= 'Z',
    ensures
        base_name(
            PathStyle::Windows,
            seq!['\\', '\\', '?', '\\', drive, ':', '\\'] + dir.push('\\') + name,
        ) == name,
{
    let h = PathHead { len: 6, separators: Separators::Backslash };
    let pre = seq!['\\', '\\', '?', '\\', drive, ':', '\\'];
    let d = pre + dir.push('\\');
    let k = d.len() as int;
    let n = name.len() as int;
    let s = d + name;
    assert(s[0] == pre[0] && s[1] == pre[1] && s[2] == pre[2] && s[3] == pre[3]);
    assert(s[4] == pre[4] && s[5] == pre[5] && s[6] == pre[6]);
    assert(s[k - 1] == '\\');
    assert forall|i: int| k <= i < k + n implies s[i] == name[i - k] by {}
    assert(s.subrange(k, k + n) =~= name);
    assert(name != seq!['.']) by {
        assert(seq!['.'].last() == '.');
    }
    lemma_unix_end(s, h, k, k + n);
}

/// The base name of a Unix path stands behind the directory, and ends the path.
proof fn lemma_unix_places(dir: Seq<char>, name: Seq<char>)
    requires
        name.len() > 0,
        name[0] != '.',
        forall|i: int| 0 <= i < name.len() ==> #[trigger] name[i] != '/',
    ensures
        ({
            let s = dir.push('/') + name;
            let h = head_of(PathStyle::Unix, s);
            let end = component_end(s, h, s.len() as int);
            end == s.len() && component_start(s, h, end) == dir.len() + 1
        }),
{
    let h = PathHead { len: 0, separators: Separators::Slash };
    let d = dir.push('/');
    let k = d.len() as int;
    let s = d + name;
    assert(s[k - 1] == '/');
    assert(s.subrange(k, k + name.len()) =~= name);
    assert(seq!['.'][0] == '.');
    assert forall|i: int| k <= i < k + name.len() implies s[i] == name[i - k] by {}
    lemma_unix_end(s, h, k, k + name.len());
}

/// On Unix an extension that was not there is added behind the name.
pub proof fn law_added_extensions(dir: Seq<char>, stem: Seq<char>, ext: Seq<char>)
    requires
        stem.len() > 0,
        forall|i: int| 0 <= i < stem.len() ==> #[trigger] stem[i] != '/' && stem[i] != '.',
    ensures
        extension_replaced(PathStyle::Unix, dir.push('/') + stem, ext) == dir.push('/') + (
        stem.push('.') + ext),
{
    reveal_strlit(".");
    assert(stem[0] != '.');
    assert(seq!['.'][0] == '.' && seq!['.', '.'][0] == '.');
    law_unix_base_names(dir, stem);
    lemma_unix_places(dir, stem);
    lemma_no_last_char(stem, '.', stem.len() as int);
    let t = dir.push('/') + stem;
    assert(t.take(t.len() as int) + "."@ + ext =~= dir.push('/') + (stem.push('.') + ext));
}

/// On Unix an extension that is replaced stands where the old one stood; the rest of the
/// path stays.
pub proof fn law_replaced_extensions(
    dir: Seq<char>,
    stem: Seq<char>,
    was: Seq<char>,
    ext: Seq<char>,
)
    requires
        stem.len() > 0,
        stem[0] != '.',
        forall|i: int| 0 <= i < stem.len() ==> #[trigger] stem[i] != '/',
        forall|i: int| 0 <= i < was.len() ==> #[trigger] was[i] != '/' && was[i] != '.',
    ensures
        extension_replaced(PathStyle::Unix, dir.push('/') + (stem.push('.') + was), ext)
            == dir.push('/') + (stem.push('.') + ext),
{
    let name = stem.push('.') + was;
    let n = name.len() as int;
    reveal_strlit(".");
    assert(seq!['.'][0] == '.' && seq!['.', '.'][0] == '.');
    assert(name[0] == stem[0]);
    assert forall|i: int| 0 <= i < name.len() implies #[trigger] name[i] != '/' by {
        if i > stem.len() {
            assert(name[i] == was[i - stem.len() - 1]);
        } else if i < stem.len() {
            assert(name[i] == stem[i]);
        }
    }
    law_unix_base_names(dir, name);
    lemma_unix_places(dir, name);
    assert forall|i: int| stem.len() < i < n implies #[trigger] name[i] != '.' by {
        assert(name[i] == was[i - stem.len() - 1]);
    }
    lemma_last_char_at(name, '.', n, stem.len() as int);
    let s = dir.push('/') + name;
    assert(s.take(dir.len() as int + 1 + stem.len()) + "."@ + ext =~= dir.push('/') + (stem.push('.')
        + ext));
}

proof fn lemma_separator_from(s: Seq<char>, i: int, k: Separators, at: int)
    requires
        0 <= i <= at <= s.len(),
        forall|j: int| i <= j < at ==> !separates(k, #[trigger] s[j]),
        at < s.len() ==> separates(k, s[at]),
    ensures
        separator_from(s, i, k) == at,
    decreases at - i,
{
    if i < at {
        assert(!separates(k, s[i]));
        lemma_separator_from(s, i + 1, k, at);
    }
}

/// The name of a share, `server` and `share` behind two slashes, is no file's name: on
/// Windows its base name is empty, and what stands behind it is named as behind a drive.
pub proof fn law_share_base_names(
    server: Seq<char>,
    share: Seq<char>,
    dir: Seq<char>,
    sep: char,
    name: Seq<char>,
)
    requires
        plain_name(name),
        sep == '/' || sep == '\\',
        server.len() > 0,
        share.len() > 0,
        server != seq!['?'],
        server != seq!['.'],
        forall|i: int| 0 <= i < server.len() ==> !is_slash(#[trigger] server[i]),
        forall|i: int| 0 <= i < share.len() ==> !is_slash(#[trigger] share[i]),
    ensures
        base_name(PathStyle::Windows, seq!['\\', '\\'] + server.push('\\') + share).len() == 0,
        base_name(
            PathStyle::Windows,
            seq!['\\', '\\'] + server.push('\\') + share + seq!['\\'] + dir.push(sep) + name,
        ) == name,
{
    let root = seq!['\\', '\\'] + server.push('\\') + share;
    let e = root.len() as int;
    assert(root.take(e) =~= root);
    lemma_share_head(root, server, share);
    assert(base_name(PathStyle::Windows, root) =~= Seq::empty());
    let mid = root + seq!['\\'] + dir.push(sep);
    let s = mid + name;
    let k = mid.len() as int;
    let n = name.len() as int;
    assert(s.take(e) =~= root);
    assert(s[e] == '\\');
    lemma_share_head(s, server, share);
    let h = PathHead { len: e, separators: Separators::Either };
    assert(s[k - 1] == sep);
    assert forall|i: int| k <= i < k + n implies s[i] == name[i - k] by {}
    assert(s.subrange(k, k + n) =~= name);
    assert(name != seq!['.']) by {
        assert(seq!['.'].last() == '.');
    }
    lemma_unix_end(s, h, k, k + n);
}

/// The head of a path on a share is the share.
proof fn lemma_share_head(s: Seq<char>, server: Seq<char>, share: Seq<char>)
    requires
        server.len() > 0,
        share.len() > 0,
        server != seq!['?'],
        server != seq!['.'],
        forall|i: int| 0 <= i < server.len() ==> !is_slash(#[trigger] server[i]),
        forall|i: int| 0 <= i < share.len() ==> !is_slash(#[trigger] share[i]),
        ({
            let root = seq!['\\', '\\'] + server.push('\\') + share;
            &&& root.len() <= s.len()
            &&& s.take(root.len() as int) == root
            &&& root.len() < s.len() ==> is_slash(s[root.len() as int])
        }),
    ensures
        head_of(PathStyle::Windows, s) == (PathHead {
            len: 3 + server.len() as int + share.len(),
            separators: Separators::Either,
        }),
{
    let root = seq!['\\', '\\'] + server.push('\\') + share;
    let e = root.len() as int;
    let k1 = 2 + server.len() as int;
    assert forall|i: int| 0 <= i < e implies s[i] == root[i] by {
        assert(s.take(e)[i] == s[i]);
    }
    assert(s[0] == '\\' && s[1] == '\\');
    assert(s[k1] == '\\');
    assert forall|i: int| 2 <= i < k1 implies !is_slash(#[trigger] s[i]) by {
        assert(s[i] == root[i]);
        assert(root[i] == server[i - 2]);
    }
    assert forall|i: int| k1 + 1 <= i < e implies !is_slash(#[trigger] s[i]) by {
        assert(s[i] == root[i]);
        assert(root[i] == share[i - k1 - 1]);
    }
    assert(s[2] == server[0]) by {
        assert(root[2] == server[0]);
    }
    if is_slash(s[3]) {
        assert(k1 == 3);
        assert(server =~= seq![s[2]]);
        assert(s[2] != '?' && s[2] != '.');
    }
    lemma_separator_from(s, 2, Separators::Either, k1);
    lemma_separator_from(s, k1 + 1, Separators::Either, e);
}

/// Behind a verbatim share prefix a backslash alone parts names.
pub proof fn law_verbatim_share_base_names(
    server: Seq<char>,
    share: Seq<char>,
    dir: Seq<char>,
    name: Seq<char>,
)
    requires
        name.len() > 0,
        name.last() != '.',
        forall|i: int| 0 <= i < name.len() ==> #[trigger] name[i] != '\\',
        server.len() > 0,
        share.len() > 0,
        forall|i: int| 0 <= i < server.len() ==> #[trigger] server[i] != '\\',
        forall|i: int| 0 <= i < share.len() ==> #[trigger] share[i] != '\\',
    ensures
        base_name(
            PathStyle::Windows,
            seq!['\\', '\\', '?', '\\', 'U', 'N', 'C', '\\'] + server.push('\\') + share + seq!['\\']
                + dir.push('\\') + name,
        ) == name,
        base_name(
            PathStyle::Windows,
            seq!['\\', '\\', '?', '\\', 'U', 'N', 'C', '\\'] + server.push('\\') + share,
        ).len() == 0,
{
    let pre = seq!['\\', '\\', '?', '\\', 'U', 'N', 'C', '\\'];
    let root = pre + server.push('\\') + share;
    let e = root.len() as int;
    let mid = root + seq!['\\'] + dir.push('\\');
    let s = mid + name;
    let k = mid.len() as int;
    let n = name.len() as int;
    assert(root.take(e) =~= root);
    lemma_verbatim_share_head(root, server, share);
    assert(base_name(PathStyle::Windows, root) =~= Seq::empty());
    assert(s.take(e) =~= root);
    assert(s[e] == '\\');
    lemma_verbatim_share_head(s, server, share);
    let h = PathHead { len: e, separators: Separators::Backslash };
    assert(s[k - 1] == '\\');
    assert forall|i: int| k <= i < k + n implies s[i] == name[i - k] by {}
    assert(s.subrange(k, k + n) =~= name);
    assert(name != seq!['.']) by {
        assert(seq!['.'].last() == '.');
    }
    lemma_unix_end(s, h, k, k + n);
}

proof fn lemma_verbatim_share_head(s: Seq<char>, server: Seq<char>, share: Seq<char>)
    requires
        server.len() > 0,
        share.len() > 0,
        forall|i: int| 0 <= i < server.len() ==> #[trigger] server[i] != '\\',
        forall|i: int| 0 <= i < share.len() ==> #[trigger] share[i] != '\\',
        ({
            let root = seq!['\\', '\\', '?', '\\', 'U', 'N', 'C', '\\'] + server.push('\\') + share;
            &&& root.len() <= s.len()
            &&& s.take(root.len() as int) == root
            &&& root.len() < s.len() ==> s[root.len() as int] == '\\'
        }),
    ensures
        head_of(PathStyle::Windows, s) == (PathHead {
            len: 9 + server.len() as int + share.len(),
            separators: Separators::Backslash,
        }),
{
    let pre = seq!['\\', '\\', '?', '\\', 'U', 'N', 'C', '\\'];
    let root = pre + server.push('\\') + share;
    let e = root.len() as int;
    let k1 = 8 + server.len() as int;
    assert forall|i: int| 0 <= i < e implies s[i] == root[i] by {
        assert(s.take(e)[i] == s[i]);
    }
    assert forall|i: int| 0 <= i < 8 implies s[i] == pre[i] by {
        assert(s[i] == root[i]);
    }
    assert(s[0] == '\\' && s[1] == '\\' && s[2] == '?' && s[3] == '\\');
    assert(s[4] == 'U' && s[5] == 'N' && s[6] == 'C' && s[7] == '\\');
    assert(s[k1] == '\\');
    assert forall|i: int| 8 <= i < k1 implies !separates(Separators::Backslash, #[trigger] s[i]) by {
        assert(s[i] == root[i]);
        assert(root[i] == server[i - 8]);
    }
    assert forall|i: int| k1 + 1 <= i < e implies !separates(
        Separators::Backslash,
        #[trigger] s[i],
    ) by {
        assert(s[i] == root[i]);
        assert(root[i] == share[i - k1 - 1]);
    }
    lemma_separator_from(s, 8, Separators::Backslash, k1);
    lemma_separator_from(s, k1 + 1, Separators::Backslash, e);
}

/// Behind a device prefix, two slashes, a dot and a slash, the device is no file's name, and
/// what stands behind it is named as behind a drive.
pub proof fn law_device_base_names(device: Seq<char>, dir: Seq<char>, sep: char, name: Seq<char>)
    requires
        plain_name(name),
        sep == '/' || sep == '\\',
        device.len() > 0,
        forall|i: int| 0 <= i < device.len() ==> !is_slash(#[trigger] device[i]),
    ensures
        base_name(PathStyle::Windows, seq!['\\', '\\', '.', '\\'] + device).len() == 0,
        base_name(
            PathStyle::Windows,
            seq!['\\', '\\', '.', '\\'] + device + seq!['\\'] + dir.push(sep) + name,
        ) == name,
{
    let pre = seq!['\\', '\\', '.', '\\'];
    let root = pre + device;
    let e = root.len() as int;
    let mid = root + seq!['\\'] + dir.push(sep);
    let s = mid + name;
    let k = mid.len() as int;
    let n = name.len() as int;
    assert(root[0] == '\\' && root[1] == '\\' && root[2] == '.' && root[3] == '\\');
    assert(s[0] == '\\' && s[1] == '\\' && s[2] == '.' && s[3] == '\\');
    assert forall|i: int| 4 <= i < e implies !separates(Separators::Either, #[trigger] root[i]) by {
        assert(root[i] == device[i - 4]);
    }
    assert forall|i: int| 4 <= i < e implies !separates(Separators::Either, #[trigger] s[i]) by {
        assert(s[i] == device[i - 4]);
    }
    assert(s[e] == '\\');
    lemma_separator_from(root, 4, Separators::Either, e);
    lemma_separator_from(s, 4, Separators::Either, e);
    assert(base_name(PathStyle::Windows, root) =~= Seq::empty());
    let h = PathHead { len: e, separators: Separators::Either };
    assert(s[k - 1] == sep);
    assert forall|i: int| k <= i < k + n implies s[i] == name[i - k] by {}
    assert(s.subrange(k, k + n) =~= name);
    assert(name != seq!['.']) by {
        assert(seq!['.'].last() == '.');
    }
    lemma_unix_end(s, h, k, k + n);
}

} // verus!

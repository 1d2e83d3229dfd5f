//! Store-layer media path resolution, shared by the index build, the sync apply phase,
//! the media endpoints and the export.
//!
//! The layout is `<root>/<qq>/nt_qq/nt_db/nt_msg.db`; relative "45812" local cache paths
//! resolve against `<root>/<qq>/nt_qq/nt_data`.
//!
//! Most recorded paths die when the cache is cleared, while many of those rows still
//! have a file named by its md5 (or file-name md5) somewhere under the media root.
//! `scan_cache_index` indexes the media directories; `fallback_candidate` turns a store
//! key back into a cache path.
//!
//! Nothing here touches the file system: what it says is handed in as plain values.

use vstd::prelude::*;

use crate::parser::types::{
    is_hex32, is_md5_hex, md5_from_file_name, md5_of_name, MediaInfo, MediaModel, MsgType,
};
use crate::pathname::{
    base_name, extension, extension_of, file_name_of, name_stem, stem_of, PathStyle,
};
use crate::pathsafe::{is_contained_resolved, within};
use crate::strmap::{assoc, law_put_then_get, StrMap};
use crate::text::{
    char_is_alnum, char_is_digit, chars_of, clone_strings, has_string, is_alnum, is_digit,
    lemma_seq_le_antisymmetric, lemma_seq_le_transitive, lower_ascii, lower_ascii_char, lower_char,
    lower_seq, opt_view, same, seq_le, string_of, text_le, views,
};

verus! {

/// Depth cap for the cache walk.
pub const MAX_SCAN_DEPTH: usize = 6;

/// File-count cap for the cache walk: past it no further directory is entered.
pub const MAX_SCAN_FILES: usize = 300000;

/// Snapshot of the account's media cache, keyed by file stem. Built once per
/// registration and refreshed on manual sync.
pub struct CacheIndex {
    /// Lowercased file stem -> absolute paths (md5 / file-name tiers).
    pub by_stem: StrMap<Vec<String>>,
    /// Alphanumeric-normalized stem -> paths (uuid tier; only stems with at least 8
    /// alphanumeric characters are indexed).
    pub by_alnum: StrMap<Vec<String>>,
    /// Whose rules the paths follow.
    pub style: PathStyle,
}

/// The paths filed under a key.
pub open spec fn paths_at(m: StrMap<Vec<String>>, k: Seq<char>) -> Seq<Seq<char>> {
    match assoc(m@, k) {
        Some(v) => views(v@),
        None => Seq::empty(),
    }
}

impl CacheIndex {
    /// Both maps are well formed.
    pub open spec fn wf(&self) -> bool {
        self.by_stem.wf() && self.by_alnum.wf()
    }
}

/// The stem of a path's last component, in small letters.
pub open spec fn stem_key(style: PathStyle, name: Seq<char>) -> Seq<char> {
    lower_seq(stem_of(base_name(style, name)))
}

/// The ASCII letters and digits of a text, in small letters.
pub open spec fn alnum_key(s: Seq<char>) -> Seq<char>
    decreases s.len(),
{
    if s.len() == 0 {
        s
    } else if is_alnum(s.last()) {
        alnum_key(s.drop_last()).push(lower_char(s.last()))
    } else {
        alnum_key(s.drop_last())
    }
}

/// The lowercased stem of a path's last component.
pub fn stem_lower(style: PathStyle, name: &str) -> (r: String)
    ensures
        r@ == stem_key(style, name@),
{
    let base = file_name_of(style, name);
    let stem = name_stem(base.as_str());
    lower_ascii(stem.as_str())
}

/// The ASCII letters and digits of a text, lowercased.
pub fn alnum_lower(s: &str) -> (r: String)
    ensures
        r@ == alnum_key(s@),
{
    let v = chars_of(s);
    let mut out: Vec<char> = Vec::new();
    let mut i: usize = 0;
    assert(v@.take(0) =~= Seq::<char>::empty());
    while i < v.len()
        invariant
            i <= v.len(),
            out@ == alnum_key(v@.take(i as int)),
        decreases v.len() - i,
    {
        if char_is_alnum(v[i]) {
            out.push(lower_ascii_char(v[i]));
        }
        i += 1;
        assert(v@.take(i as int).drop_last() =~= v@.take(i - 1));
    }
    assert(v@.take(v@.len() as int) =~= v@);
    string_of(&out)
}

/// What stands at a place of the cache directory tree.
#[derive(Debug, Clone, Copy, PartialEq, Eq, Structural)]
pub enum NodeKind {
    File,
    Dir,
    Symlink,
    Other,
}

/// One entry of a directory, with what was found below it.
#[derive(Debug)]
pub struct TreeNode {
    pub name: String,
    pub path: String,
    pub kind: NodeKind,
    pub children: Vec<TreeNode>,
}

/// One directory directly under the media root.
#[derive(Debug)]
pub struct TopDir {
    pub name: String,
    pub entries: Vec<TreeNode>,
}

/// The regular files that the walk meets in the first `n` entries of a directory at
/// `depth`, after `met` files before them. Links are not followed. A directory below the
/// depth cap, or after the file cap, is not entered.
pub open spec fn walked(entries: Vec<TreeNode>, n: nat, depth: nat, met: nat) -> Seq<
    (Seq<char>, Seq<char>),
>
    decreases entries, n,
{
    if n == 0 || n > entries@.len() {
        Seq::empty()
    } else {
        let before = walked(entries, (n - 1) as nat, depth, met);
        let e = entries@[n - 1];
        if e.kind is File {
            before.push((e.name@, e.path@))
        } else if e.kind is Dir {
            before + walked_dir(e, depth + 1, met + before.len())
        } else {
            before
        }
    }
}

/// The regular files that the walk meets in a directory at `depth`.
pub open spec fn walked_dir(dir: TreeNode, depth: nat, met: nat) -> Seq<(Seq<char>, Seq<char>)>
    decreases dir,
{
    if depth > MAX_SCAN_DEPTH || met > MAX_SCAN_FILES {
        Seq::empty()
    } else {
        walked(dir.children, dir.children@.len(), depth, met)
    }
}

/// The top-level directories that hold message media.
pub open spec fn media_dirs() -> Seq<Seq<char>> {
    seq!["Pic"@, "Ptt"@, "Video"@, "Emoji"@, "File"@]
}

/// The first directory of that name, or its absence.
pub open spec fn top_dir(dirs: Seq<TopDir>, name: Seq<char>) -> Option<TopDir>
    decreases dirs.len(),
{
    if dirs.len() == 0 {
        None
    } else {
        match top_dir(dirs.drop_last(), name) {
            Some(d) => Some(d),
            None => if dirs.last().name@ == name {
                Some(dirs.last())
            } else {
                None
            },
        }
    }
}

/// The files met in the first `n` media directories.
pub open spec fn scanned(dirs: Seq<TopDir>, n: nat) -> Seq<(Seq<char>, Seq<char>)>
    decreases n,
{
    if n == 0 {
        Seq::empty()
    } else {
        let before = scanned(dirs, (n - 1) as nat);
        match top_dir(dirs, media_dirs()[n - 1]) {
            Some(d) => if before.len() > MAX_SCAN_FILES {
                before
            } else {
                before + walked(d.entries, d.entries@.len(), 0, before.len())
            },
            None => before,
        }
    }
}

/// The paths of the files whose stem is `k`, in the order in which they were met.
pub open spec fn paths_with_stem(
    style: PathStyle,
    found: Seq<(Seq<char>, Seq<char>)>,
    k: Seq<char>,
) -> Seq<Seq<char>>
    decreases found.len(),
{
    if found.len() == 0 {
        Seq::empty()
    } else if stem_key(style, found.last().0) == k && k.len() > 0 {
        paths_with_stem(style, found.drop_last(), k).push(found.last().1)
    } else {
        paths_with_stem(style, found.drop_last(), k)
    }
}

/// The paths of the files whose stem has the letters and digits `k`, at least eight.
pub open spec fn paths_with_alnum(
    style: PathStyle,
    found: Seq<(Seq<char>, Seq<char>)>,
    k: Seq<char>,
) -> Seq<Seq<char>>
    decreases found.len(),
{
    if found.len() == 0 {
        Seq::empty()
    } else if alnum_key(stem_key(style, found.last().0)) == k && k.len() >= 8 {
        paths_with_alnum(style, found.drop_last(), k).push(found.last().1)
    } else {
        paths_with_alnum(style, found.drop_last(), k)
    }
}

impl CacheIndex {
    /// The index files exactly the files that were met.
    pub open spec fn indexes(&self, found: Seq<(Seq<char>, Seq<char>)>) -> bool {
        &&& forall|k: Seq<char>| #[trigger]
            paths_at(self.by_stem, k) == paths_with_stem(self.style, found, k)
        &&& forall|k: Seq<char>| #[trigger]
            paths_at(self.by_alnum, k) == paths_with_alnum(self.style, found, k)
    }
}

/// Files a path under a key.
fn file_under(m: &mut StrMap<Vec<String>>, k: String, path: &str)
    requires
        old(m).wf(),
    ensures
        final(m).wf(),
        forall|q: Seq<char>| #[trigger]
            paths_at(*final(m), q) == if q == k@ {
                paths_at(*old(m), q).push(path@)
            } else {
                paths_at(*old(m), q)
            },
{
    let ghost before = m@;
    let mut list = match m.get(k.as_str()) {
        Some(v) => clone_strings(v),
        None => none_listed(),
    };
    let ghost listed = list@;
    list.push(path.to_owned());
    proof {
        assert(views(list@) =~= views(listed).push(path@));
        law_put_then_get(before, k@, list);
    }
    m.insert(k, list);
}

/// Registers one regular file under its stem.
fn index_file(
    ci: &mut CacheIndex,
    name: &str,
    path: &str,
    Ghost(found): Ghost<Seq<(Seq<char>, Seq<char>)>>,
)
    requires
        old(ci).wf(),
        old(ci).indexes(found),
    ensures
        final(ci).wf(),
        final(ci).style == old(ci).style,
        final(ci).indexes(found.push((name@, path@))),
{
    let ghost now = found.push((name@, path@));
    assert(now.drop_last() =~= found);
    let stem = stem_lower(ci.style, name);
    let al = alnum_lower(stem.as_str());
    let ghost sv = stem@;
    let ghost av = al@;
    if !stem.as_str().is_empty() {
        file_under(&mut ci.by_stem, stem, path);
    }
    let av_chars = chars_of(al.as_str());
    if av_chars.len() >= 8 {
        file_under(&mut ci.by_alnum, al, path);
    }
    proof {
        assert forall|k: Seq<char>| #[trigger] paths_at(ci.by_stem, k) == paths_with_stem(ci.style, now, k) by {
            assert(paths_at(old(ci).by_stem, k) == paths_with_stem(ci.style, found, k));
        }
        assert forall|k: Seq<char>| #[trigger]
            paths_at(ci.by_alnum, k) == paths_with_alnum(ci.style, now, k) by {
            assert(paths_at(old(ci).by_alnum, k) == paths_with_alnum(ci.style, found, k));
        }
    }
}

/// Read-only walk over a directory's entries: links are skipped, directories recurse
/// within the caps, regular files register their stems.
fn walk(
    entries: &Vec<TreeNode>,
    depth: usize,
    ci: &mut CacheIndex,
    files: &mut usize,
    Ghost(found): Ghost<Seq<(Seq<char>, Seq<char>)>>,
) -> (r: Ghost<Seq<(Seq<char>, Seq<char>)>>)
    requires
        old(ci).wf(),
        old(ci).indexes(found),
        depth <= MAX_SCAN_DEPTH,
        *old(files) == found.len() || (found.len() > MAX_SCAN_FILES && *old(files)
            > MAX_SCAN_FILES),
    ensures
        final(ci).wf(),
        final(ci).style == old(ci).style,
        r@ == found + walked(*entries, entries@.len(), depth as nat, found.len()),
        final(ci).indexes(r@),
        *final(files) == r@.len() || (r@.len() > MAX_SCAN_FILES && *final(files) > MAX_SCAN_FILES),
    decreases *entries,
{
    let ghost mut now = found;
    let mut i: usize = 0;
    assert(found + walked(*entries, 0, depth as nat, found.len()) =~= found);
    while i < entries.len()
        invariant
            i <= entries.len(),
            depth <= MAX_SCAN_DEPTH,
            ci.wf(),
            ci.style == old(ci).style,
            now == found + walked(*entries, i as nat, depth as nat, found.len()),
            ci.indexes(now),
            *files == now.len() || (now.len() > MAX_SCAN_FILES && *files > MAX_SCAN_FILES),
        decreases entries.len() - i,
    {
        let e = &entries[i];
        let ghost before = walked(*entries, i as nat, depth as nat, found.len());
        match e.kind {
            NodeKind::File => {
                if *files <= MAX_SCAN_FILES {
                    *files += 1;
                }
                index_file(ci, e.name.as_str(), e.path.as_str(), Ghost(now));
                proof {
                    assert(now.push((e.name@, e.path@)) =~= found + before.push(
                        (e.name@, e.path@),
                    ));
                    now = now.push((e.name@, e.path@));
                }
            },
            NodeKind::Dir => {
                if depth < MAX_SCAN_DEPTH && *files <= MAX_SCAN_FILES {
                    assert(decreases_to!(*entries => entries@[i as int]));
                    let more = walk(&e.children, depth + 1, ci, files, Ghost(now));
                    proof {
                        assert(more@ =~= found + (before + walked_dir(
                            *e,
                            (depth + 1) as nat,
                            now.len(),
                        )));
                        now = more@;
                    }
                } else {
                    assert(before + Seq::<(Seq<char>, Seq<char>)>::empty() =~= before);
                }
            },
            _ => {},
        }
        i += 1;
    }
    Ghost(now)
}

/// The top-level directories that hold message media.
pub fn media_scan_dirs() -> (r: Vec<&'static str>)
    ensures
        r@.map_values(|s: &str| s@) == media_dirs(),
{
    let r = vec!["Pic", "Ptt", "Video", "Emoji", "File"];
    assert(r@.map_values(|s: &str| s@) =~= media_dirs());
    r
}

fn find_top_dir<'a>(dirs: &'a Vec<TopDir>, name: &str) -> (r: Option<&'a TopDir>)
    ensures
        r is Some == top_dir(dirs@, name@) is Some,
        r is Some ==> *(r->0) == top_dir(dirs@, name@)->0,
{
    let mut i: usize = 0;
    let mut r: Option<&'a TopDir> = None;
    while i < dirs.len()
        invariant
            i <= dirs.len(),
            r is Some == top_dir(dirs@.take(i as int), name@) is Some,
            r is Some ==> *(r->0) == top_dir(dirs@.take(i as int), name@)->0,
        decreases dirs.len() - i,
    {
        assert(dirs@.take(i + 1).drop_last() =~= dirs@.take(i as int));
        if r.is_none() && same(dirs[i].name.as_str(), name) {
            r = Some(&dirs[i]);
        }
        i += 1;
    }
    assert(dirs@.take(dirs@.len() as int) =~= dirs@);
    r
}

/// Index the file stems of the media directories under the account's cache root. `None`
/// when the root is missing or unreadable: there is no fallback.
pub fn scan_cache_index(style: PathStyle, root: Option<&Vec<TopDir>>) -> (r: Option<CacheIndex>)
    ensures
        r is Some == root is Some,
        r is Some ==> r->0.style == style && r->0.wf() && r->0.indexes(scanned(root->0@, media_dirs().len())),
{
    match root {
        None => None,
        Some(dirs) => {
            let mut ci = CacheIndex { by_stem: StrMap::new(), by_alnum: StrMap::new(), style };
            let mut files: usize = 0;
            let names = media_scan_dirs();
            let ghost mut found: Seq<(Seq<char>, Seq<char>)> = Seq::empty();
            let mut i: usize = 0;
            while i < names.len()
                invariant
                    i <= names.len(),
                    names@.map_values(|s: &str| s@) == media_dirs(),
                    ci.wf(),
                    ci.style == style,
                    ci.indexes(found),
                    found == scanned(dirs@, i as nat),
                    files == found.len() || (found.len() > MAX_SCAN_FILES && files
                        > MAX_SCAN_FILES),
                decreases names.len() - i,
            {
                assert(names@.map_values(|s: &str| s@)[i as int] == names@[i as int]@);
                match find_top_dir(dirs, names[i]) {
                    Some(d) => {
                        if files <= MAX_SCAN_FILES {
                            let more = walk(&d.entries, 0, &mut ci, &mut files, Ghost(found));
                            proof {
                                found = more@;
                            }
                        }
                    },
                    None => {},
                }
                i += 1;
            }
            Some(ci)
        },
    }
}

/// The extensions that fit a media kind.
pub open spec fn family_of(msg_type: MsgType) -> Seq<Seq<char>> {
    match msg_type {
        MsgType::Image => seq!["jpg"@, "jpeg"@, "png"@, "gif"@, "bmp"@, "webp"@, "dng"@],
        MsgType::Voice => seq!["amr"@, "silk"@, "ptt"@],
        MsgType::Video => seq!["mp4"@, "mov"@, "flv"@, "mkv"@, "webm"@],
        _ => Seq::empty(),
    }
}

/// Preferred extensions per media kind. Extension-less files (downloads in progress) are
/// still allowed, they just score zero.
pub fn ext_family(msg_type: MsgType) -> (r: Vec<&'static str>)
    ensures
        r@.map_values(|s: &str| s@) == family_of(msg_type),
{
    let r: Vec<&'static str> = match msg_type {
        MsgType::Image => vec!["jpg", "jpeg", "png", "gif", "bmp", "webp", "dng"],
        MsgType::Voice => vec!["amr", "silk", "ptt"],
        MsgType::Video => vec!["mp4", "mov", "flv", "mkv", "webm"],
        _ => Vec::new(),
    };
    assert(r@.map_values(|s: &str| s@) =~= family_of(msg_type));
    r
}

fn in_family(family: &Vec<&'static str>, ext: &str) -> (r: bool)
    ensures
        r == family@.map_values(|s: &str| s@).contains(ext@),
{
    let mut i: usize = 0;
    while i < family.len()
        invariant
            i <= family.len(),
            forall|j: int| 0 <= j < i ==> family@[j]@ != ext@,
        decreases family.len() - i,
    {
        if same(family[i], ext) {
            assert(family@.map_values(|s: &str| s@)[i as int] == ext@);
            return true;
        }
        i += 1;
    }
    false
}

/// Metadata of one file.
#[derive(Debug, Clone, Copy)]
pub struct FileMeta {
    /// Size in bytes.
    pub len: i64,
    /// Modification time in seconds since the epoch; 0 where it is not known.
    pub mtime: i64,
}

/// What the file system said of the paths that registration asks about. A path that is
/// not listed is taken to be gone.
pub struct Disk {
    /// Local cache path -> whether it resolved (see [`resolve_local_path`]).
    pub resolving: StrMap<bool>,
    /// Cache file path -> its metadata.
    pub files: StrMap<FileMeta>,
}

impl Disk {
    /// Both maps are well formed.
    pub open spec fn wf(&self) -> bool {
        self.resolving.wf() && self.files.wf()
    }

    /// The local cache path resolved.
    pub open spec fn resolves(&self, path: Seq<char>) -> bool {
        assoc(self.resolving@, path) == Some(true)
    }

    /// The file's metadata.
    pub open spec fn meta(&self, path: Seq<char>) -> Option<FileMeta> {
        assoc(self.files@, path)
    }

    /// A file system with nothing on it.
    pub fn new() -> (r: Self)
        ensures
            r.wf(),
            forall|p: Seq<char>| !#[trigger] r.resolves(p),
            forall|p: Seq<char>| #[trigger] r.meta(p) is None,
    {
        Disk { resolving: StrMap::new(), files: StrMap::new() }
    }

    /// Whether the local cache path resolved.
    pub fn is_live(&self, path: &str) -> (r: bool)
        requires
            self.wf(),
        ensures
            r == self.resolves(path@),
    {
        match self.resolving.get(path) {
            Some(b) => *b,
            None => false,
        }
    }
}

/// How well a file fits: extension of the kind's family, exact size, modification time.
pub struct Score {
    pub family: bool,
    pub size: bool,
    pub mtime: i64,
}

/// The score of a file.
pub open spec fn score_of(
    style: PathStyle,
    path: Seq<char>,
    meta: FileMeta,
    msg_type: MsgType,
    want_size: Option<i64>,
) -> Score {
    Score {
        family: family_of(msg_type).contains(lower_seq(extension_of(base_name(style, path)))),
        size: want_size == Some(meta.len),
        mtime: meta.mtime,
    }
}

/// `a` scores higher than `b`.
pub open spec fn scores_higher(a: Score, b: Score) -> bool {
    if a.family != b.family {
        a.family
    } else if a.size != b.size {
        a.size
    } else {
        a.mtime > b.mtime
    }
}

/// The first file is preferred to the second: by score, then by path.
pub open spec fn preferred(
    style: PathStyle,
    disk: Disk,
    p: Seq<char>,
    q: Seq<char>,
    msg_type: MsgType,
    want_size: Option<i64>,
) -> bool {
    let a = score_of(style, p, disk.meta(p)->0, msg_type, want_size);
    let b = score_of(style, q, disk.meta(q)->0, msg_type, want_size);
    scores_higher(a, b) || (a == b && seq_le(p, q) && p != q)
}

/// The preferred one among the files that still are there.
pub open spec fn best_candidate(
    style: PathStyle,
    disk: Disk,
    paths: Seq<Seq<char>>,
    msg_type: MsgType,
    want_size: Option<i64>,
) -> Option<Seq<char>>
    decreases paths.len(),
{
    if paths.len() == 0 {
        None
    } else {
        let best = best_candidate(style, disk, paths.drop_last(), msg_type, want_size);
        let p = paths.last();
        if disk.meta(p) is Some && (best is None || preferred(
            style,
            disk,
            p,
            best->0,
            msg_type,
            want_size,
        )) {
            Some(p)
        } else {
            best
        }
    }
}

/// The best candidate is one of the files, is still there, and no other file that is
/// there is preferred to it.
pub proof fn law_best_candidate(
    style: PathStyle,
    disk: Disk,
    paths: Seq<Seq<char>>,
    msg_type: MsgType,
    want_size: Option<i64>,
)
    ensures
        match best_candidate(style, disk, paths, msg_type, want_size) {
            Some(b) => {
                &&& paths.contains(b)
                &&& disk.meta(b) is Some
                &&& forall|q: Seq<char>|
                    #[trigger] paths.contains(q) && disk.meta(q) is Some ==> !preferred(
                        style,
                        disk,
                        q,
                        b,
                        msg_type,
                        want_size,
                    )
            },
            None => forall|q: Seq<char>| #[trigger] paths.contains(q) ==> disk.meta(q) is None,
        },
    decreases paths.len(),
{
    if paths.len() > 0 {
        let before = paths.drop_last();
        let p = paths.last();
        law_best_candidate(style, disk, before, msg_type, want_size);
        assert(paths.contains(p));
        assert forall|q: Seq<char>| paths.contains(q) implies before.contains(q) || q == p by {
            let i = paths.index_of(q);
            if i < before.len() {
                assert(before[i] == q);
            }
        }
        assert forall|q: Seq<char>| before.contains(q) implies paths.contains(q) by {
            let i = before.index_of(q);
            assert(paths[i] == q);
        }
        let old_best = best_candidate(style, disk, before, msg_type, want_size);
        if disk.meta(p) is Some && old_best is Some && preferred(
            style,
            disk,
            p,
            old_best->0,
            msg_type,
            want_size,
        ) {
            let b = old_best->0;
            assert forall|q: Seq<char>|
                #[trigger] paths.contains(q) && disk.meta(q) is Some implies !preferred(
                style,
                disk,
                q,
                p,
                msg_type,
                want_size,
            ) by {
                if q != p && preferred(style, disk, q, p, msg_type, want_size) {
                    if seq_le(q, p) && seq_le(p, b) {
                        lemma_seq_le_transitive(q, p, b);
                        if q == b {
                            lemma_seq_le_antisymmetric(p, b);
                        }
                    }
                    assert(preferred(style, disk, q, b, msg_type, want_size));
                    assert(before.contains(q));
                }
            }
        }
    }
}

fn is_preferred(
    style: PathStyle,
    p: &str,
    pm: FileMeta,
    q: &str,
    qm: FileMeta,
    family: &Vec<&'static str>,
    want_size: Option<i64>,
    Ghost(disk): Ghost<Disk>,
    Ghost(msg_type): Ghost<MsgType>,
) -> (r: bool)
    requires
        family@.map_values(|s: &str| s@) == family_of(msg_type),
        disk.meta(p@) == Some(pm),
        disk.meta(q@) == Some(qm),
    ensures
        r == preferred(style, disk, p@, q@, msg_type, want_size),
{
    let pe = extension(style, p);
    let qe = extension(style, q);
    let pl = lower_ascii(pe.as_str());
    let ql = lower_ascii(qe.as_str());
    let pf = in_family(family, pl.as_str());
    let qf = in_family(family, ql.as_str());
    let ps = match want_size {
        Some(w) => w == pm.len,
        None => false,
    };
    let qs = match want_size {
        Some(w) => w == qm.len,
        None => false,
    };
    if pf != qf {
        pf
    } else if ps != qs {
        ps
    } else if pm.mtime != qm.mtime {
        pm.mtime > qm.mtime
    } else {
        text_le(p, q) && !same(p, q)
    }
}

/// Best candidate among same-stem files: kind-appropriate extension first, then exact
/// 45405 size, then newest mtime, then the lexicographically smallest path. Candidates
/// that are gone are dropped: registering a vanished file would advertise a guaranteed
/// 404.
fn pick_candidate(
    style: PathStyle,
    paths: &Vec<String>,
    msg_type: MsgType,
    want_size: Option<i64>,
    disk: &Disk,
) -> (r: Option<String>)
    requires
        disk.wf(),
    ensures
        opt_view(r) == best_candidate(style, *disk, views(paths@), msg_type, want_size),
{
    let family = ext_family(msg_type);
    let mut best: Option<(usize, FileMeta)> = None;
    let mut i: usize = 0;
    assert(views(paths@).take(0) =~= Seq::<Seq<char>>::empty());
    while i < paths.len()
        invariant
            i <= paths.len(),
            disk.wf(),
            family@.map_values(|s: &str| s@) == family_of(msg_type),
            match best {
                Some((b, meta)) => b < paths.len() && disk.meta(paths@[b as int]@) == Some(meta)
                    && best_candidate(style, *disk, views(paths@).take(i as int), msg_type, want_size)
                    == Some(paths@[b as int]@),
                None => best_candidate(
                    style,
                    *disk,
                    views(paths@).take(i as int),
                    msg_type,
                    want_size,
                ) is None,
            },
        decreases paths.len() - i,
    {
        proof {
            let now = views(paths@).take(i + 1);
            assert(now.drop_last() =~= views(paths@).take(i as int));
            assert(now.last() == paths@[i as int]@);
        }
        match disk.files.get(paths[i].as_str()) {
            Some(meta) => {
                let better = match best {
                    None => true,
                    Some((b, bm)) => is_preferred(
                        style,
                        paths[i].as_str(),
                        *meta,
                        paths[b].as_str(),
                        bm,
                        &family,
                        want_size,
                        Ghost(*disk),
                        Ghost(msg_type),
                    ),
                };
                if better {
                    best = Some((i, *meta));
                }
            },
            None => {},
        }
        i += 1;
    }
    assert(views(paths@).take(paths@.len() as int) =~= views(paths@));
    match best {
        Some((b, _meta)) => Some(paths[b].clone()),
        None => None,
    }
}

/// Some character is an ASCII letter.
pub open spec fn has_letter(s: Seq<char>) -> bool {
    exists|i: int| 0 <= i < s.len() && is_alnum(#[trigger] s[i]) && !is_digit(s[i])
}

/// The files named after the store key: by md5 stem, or by the letters and digits of a
/// uuid (at least eight, a letter among them: digit-only uuids are emoji-package ids and
/// never file names).
pub open spec fn key_paths(ci: CacheIndex, key: Seq<char>) -> Seq<Seq<char>> {
    if is_md5_hex(key) {
        paths_at(ci.by_stem, key)
    } else if alnum_key(key).len() >= 8 && has_letter(alnum_key(key)) {
        paths_at(ci.by_alnum, alnum_key(key))
    } else {
        Seq::empty()
    }
}

/// The files named after the md5 in the medium's file name, where it is not the key.
pub open spec fn name_md5_paths(ci: CacheIndex, file_name: Option<Seq<char>>, key: Seq<char>) -> Seq<
    Seq<char>,
> {
    match md5_of_name(file_name) {
        Some(f) => if f != key {
            paths_at(ci.by_stem, f)
        } else {
            Seq::empty()
        },
        None => Seq::empty(),
    }
}

/// The files with the stem of the medium's file name, where that is no md5.
pub open spec fn name_stem_paths(ci: CacheIndex, file_name: Option<Seq<char>>) -> Seq<Seq<char>> {
    match file_name {
        Some(n) => if stem_key(ci.style, n).len() > 0 && !is_md5_hex(stem_key(ci.style, n)) {
            paths_at(ci.by_stem, stem_key(ci.style, n))
        } else {
            Seq::empty()
        },
        None => Seq::empty(),
    }
}

/// The cache file that stands in for a medium: of the key's files the best, else of those
/// named after the file name's md5, else of those with the file name's stem.
pub open spec fn fallback_file(
    ci: CacheIndex,
    m: MediaModel,
    key: Seq<char>,
    msg_type: MsgType,
    disk: Disk,
) -> Option<Seq<char>> {
    let by_key = best_candidate(ci.style, disk, key_paths(ci, key), msg_type, m.size);
    let by_md5 = best_candidate(ci.style, disk, name_md5_paths(ci, m.file_name, key), msg_type, m.size);
    let by_stem = best_candidate(ci.style, disk, name_stem_paths(ci, m.file_name), msg_type, m.size);
    if by_key is Some {
        by_key
    } else if by_md5 is Some {
        by_md5
    } else {
        by_stem
    }
}

fn contains_letter(s: &str) -> (r: bool)
    ensures
        r == has_letter(s@),
{
    let v = chars_of(s);
    let mut i: usize = 0;
    while i < v.len()
        invariant
            i <= v.len(),
            v@ == s@,
            forall|j: int| 0 <= j < i ==> !(is_alnum(#[trigger] s@[j]) && !is_digit(s@[j])),
        decreases v.len() - i,
    {
        if char_is_alnum(v[i]) && !char_is_digit(v[i]) {
            assert(is_alnum(s@[i as int]) && !is_digit(s@[i as int]));
            return true;
        }
        i += 1;
    }
    false
}

fn listed(m: &StrMap<Vec<String>>, k: &str) -> (r: Vec<String>)
    requires
        m.wf(),
    ensures
        views(r@) == paths_at(*m, k@),
{
    match m.get(k) {
        Some(v) => clone_strings(v),
        None => {
            let r: Vec<String> = Vec::new();
            assert(views(r@) =~= Seq::empty());
            r
        },
    }
}

fn none_listed() -> (r: Vec<String>)
    ensures
        views(r@) == Seq::<Seq<char>>::empty(),
{
    let r: Vec<String> = Vec::new();
    assert(views(r@) =~= Seq::empty());
    r
}

fn list_key_paths(ci: &CacheIndex, key: &str) -> (r: Vec<String>)
    requires
        ci.wf(),
    ensures
        views(r@) == key_paths(*ci, key@),
{
    if is_hex32(key) {
        return listed(&ci.by_stem, key);
    }
    let al = alnum_lower(key);
    let n: usize = chars_of(al.as_str()).len();
    if n >= 8 && contains_letter(al.as_str()) {
        listed(&ci.by_alnum, al.as_str())
    } else {
        none_listed()
    }
}

fn list_name_md5_paths(ci: &CacheIndex, m: &MediaInfo, key: &str) -> (r: Vec<String>)
    requires
        ci.wf(),
    ensures
        views(r@) == name_md5_paths(*ci, m@.file_name, key@),
{
    let name: Option<&str> = match &m.file_name {
        Some(n) => Some(n.as_str()),
        None => None,
    };
    match md5_from_file_name(name) {
        Some(f) => if same(f.as_str(), key) {
            none_listed()
        } else {
            listed(&ci.by_stem, f.as_str())
        },
        None => none_listed(),
    }
}

fn list_name_stem_paths(ci: &CacheIndex, m: &MediaInfo) -> (r: Vec<String>)
    requires
        ci.wf(),
    ensures
        views(r@) == name_stem_paths(*ci, m@.file_name),
{
    match &m.file_name {
        Some(n) => {
            let stem = stem_lower(ci.style, n.as_str());
            if !stem.as_str().is_empty() && !is_hex32(stem.as_str()) {
                listed(&ci.by_stem, stem.as_str())
            } else {
                none_listed()
            }
        },
        None => none_listed(),
    }
}

/// Fallback lookup for media whose own "45812" is absent or dead: a cache file named
/// after the media's identifiers. Registration keeps the original store key; the returned
/// path is what goes into the entry.
pub fn fallback_candidate(
    ci: &CacheIndex,
    m: &MediaInfo,
    key: &str,
    msg_type: MsgType,
    disk: &Disk,
) -> (r: Option<String>)
    requires
        ci.wf(),
        disk.wf(),
    ensures
        opt_view(r) == fallback_file(*ci, m@, key@, msg_type, *disk),
{
    let r = pick_candidate(ci.style, &list_key_paths(ci, key), msg_type, m.size, disk);
    if r.is_some() {
        return r;
    }
    let r = pick_candidate(ci.style, &list_name_md5_paths(ci, m, key), msg_type, m.size, disk);
    if r.is_some() {
        return r;
    }
    pick_candidate(ci.style, &list_name_stem_paths(ci, m), msg_type, m.size, disk)
}

/// The cache files whose metadata [`fallback_candidate`] looks at.
pub fn candidate_paths(ci: &CacheIndex, m: &MediaInfo, key: &str) -> (r: Vec<String>)
    requires
        ci.wf(),
    ensures
        views(r@) == key_paths(*ci, key@) + name_md5_paths(*ci, m@.file_name, key@)
            + name_stem_paths(*ci, m@.file_name),
{
    let mut r = list_key_paths(ci, key);
    let mut a = list_name_md5_paths(ci, m, key);
    let mut b = list_name_stem_paths(ci, m);
    let ghost rv = r@;
    let ghost av = a@;
    let ghost bv = b@;
    r.append(&mut a);
    r.append(&mut b);
    assert(views(r@) =~= views(rv) + views(av) + views(bv));
    r
}

proof fn lemma_best_candidate_same_meta(
    style: PathStyle,
    a: Disk,
    b: Disk,
    paths: Seq<Seq<char>>,
    msg_type: MsgType,
    want_size: Option<i64>,
)
    requires
        forall|p: Seq<char>| #[trigger] paths.contains(p) ==> a.meta(p) == b.meta(p),
    ensures
        best_candidate(style, a, paths, msg_type, want_size) == best_candidate(
            style,
            b,
            paths,
            msg_type,
            want_size,
        ),
    decreases paths.len(),
{
    if paths.len() > 0 {
        let before = paths.drop_last();
        assert forall|p: Seq<char>| #[trigger] before.contains(p) implies a.meta(p) == b.meta(p) by {
            let i = before.index_of(p);
            assert(paths[i] == p);
            assert(paths.contains(p));
        }
        lemma_best_candidate_same_meta(style, a, b, before, msg_type, want_size);
        law_best_candidate(style, a, before, msg_type, want_size);
        assert(paths.contains(paths.last()));
        match best_candidate(style, a, before, msg_type, want_size) {
            Some(q) => {
                assert(a.meta(q) == b.meta(q));
            },
            None => {},
        }
    }
}

/// The fallback file rests on the metadata of the candidate paths alone.
pub proof fn law_fallback_reads_candidates_only(
    ci: CacheIndex,
    m: MediaModel,
    key: Seq<char>,
    msg_type: MsgType,
    a: Disk,
    b: Disk,
)
    requires
        forall|p: Seq<char>|
            #[trigger] (key_paths(ci, key) + name_md5_paths(ci, m.file_name, key) + name_stem_paths(
                ci,
                m.file_name,
            )).contains(p) ==> a.meta(p) == b.meta(p),
    ensures
        fallback_file(ci, m, key, msg_type, a) == fallback_file(ci, m, key, msg_type, b),
{
    let x = key_paths(ci, key);
    let y = name_md5_paths(ci, m.file_name, key);
    let z = name_stem_paths(ci, m.file_name);
    let all = x + y + z;
    assert forall|p: Seq<char>| #[trigger] x.contains(p) implies a.meta(p) == b.meta(p) by {
        assert(all[x.index_of(p)] == p);
        assert(all.contains(p));
    }
    assert forall|p: Seq<char>| #[trigger] y.contains(p) implies a.meta(p) == b.meta(p) by {
        assert(all[x.len() + y.index_of(p)] == p);
        assert(all.contains(p));
    }
    assert forall|p: Seq<char>| #[trigger] z.contains(p) implies a.meta(p) == b.meta(p) by {
        assert(all[x.len() + y.len() + z.index_of(p)] == p);
        assert(all.contains(p));
    }
    lemma_best_candidate_same_meta(ci.style, a, b, x, msg_type, m.size);
    lemma_best_candidate_same_meta(ci.style, a, b, y, msg_type, m.size);
    lemma_best_candidate_same_meta(ci.style, a, b, z, msg_type, m.size);
}

/// Derive the account's media root from the source database directory:
/// `<root>/<qq>/nt_qq/nt_db` -> `<root>/<qq>/nt_qq/nt_data`, both as lists of
/// components. The first `anchors` components are a drive or the root of the file system:
/// a path of nothing else, or of nothing, has no parent.
pub fn media_root_of(db_dir: &Vec<String>, anchors: usize) -> (r: Option<Vec<String>>)
    ensures
        r is Some == (db_dir@.len() > anchors),
        r is Some ==> views(r->0@) == views(db_dir@).drop_last().push("nt_data"@),
{
    if db_dir.len() <= anchors {
        return None;
    }
    let mut r = clone_strings(db_dir);
    r.truncate(db_dir.len() - 1);
    let ghost parent = r@;
    r.push("nt_data".to_owned());
    proof {
        assert(views(parent) =~= views(db_dir@).drop_last());
        assert(views(r@) =~= views(parent).push("nt_data"@));
    }
    Some(r)
}

/// The path that a local cache path means: itself where it is absolute, else below the
/// media root. A relative path with a parent step means none.
pub fn local_path_target(
    absolute: bool,
    parts: &Vec<String>,
    media_root: Option<&Vec<String>>,
) -> (r: Option<Vec<String>>)
    ensures
        absolute ==> r is Some && views(r->0@) == views(parts@),
        !absolute ==> (r is Some == (media_root is Some && !views(parts@).contains(".."@))),
        !absolute && r is Some ==> views(r->0@) == views(media_root->0@) + views(parts@),
{
    if absolute {
        return Some(clone_strings(parts));
    }
    match media_root {
        None => None,
        Some(root) => {
            if has_string(parts, "..") {
                return None;
            }
            let mut r = clone_strings(root);
            let mut more = clone_strings(parts);
            let ghost a = r@;
            let ghost b = more@;
            r.append(&mut more);
            assert(views(r@) =~= views(a) + views(b));
            Some(r)
        },
    }
}

/// Resolve a local cache path: its canonical path (`None` where the file is missing or
/// the path means none), where that stays inside the canonical media root. Without a
/// media root nothing resolves.
pub fn resolve_local_path(
    canonical: Option<Vec<String>>,
    media_root: Option<&Vec<String>>,
) -> (r: Option<Vec<String>>)
    ensures
        r is Some == (canonical is Some && media_root is Some && within(
            views(media_root->0@),
            views(canonical->0@),
        )),
        r is Some ==> r == canonical,
{
    match canonical {
        Some(path) => if is_contained_resolved(media_root, &path) {
            Some(path)
        } else {
            None
        },
        None => None,
    }
}

/// The letters and digits of a text, in small letters, in their order; nothing else of it.
pub proof fn law_alnum_keys(s: Seq<char>)
    ensures
        alnum_key(s) == lower_seq(
            s.filter(|c: char| '0' <= c <= '9' || 'a' <= c <= 'z' || 'A' <= c <= 'Z'),
        ),
    decreases s.len(),
{
    reveal(Seq::filter);
    let p = |c: char| '0' <= c <= '9' || 'a' <= c <= 'z' || 'A' <= c <= 'Z';
    if s.len() > 0 {
        law_alnum_keys(s.drop_last());
        let before = s.drop_last().filter(p);
        if p(s.last()) {
            assert(lower_seq(before.push(s.last())) =~= lower_seq(before).push(
                lower_char(s.last()),
            ));
        }
    } else {
        assert(lower_seq(s.filter(p)) =~= Seq::empty());
    }
}

/// A file is known by its name's stem in small letters, wherever it lies.
pub proof fn law_stem_keys(dir: Seq<char>, stem: Seq<char>, ext: Seq<char>)
    requires
        stem.len() > 0,
        forall|i: int| 0 <= i < stem.len() ==> #[trigger] stem[i] != '/' && stem[i] != '.',
        forall|i: int| 0 <= i < ext.len() ==> #[trigger] ext[i] != '/' && ext[i] != '.',
    ensures
        stem_key(PathStyle::Unix, stem.push('.') + ext) == lower_seq(stem),
        stem_key(PathStyle::Unix, dir.push('/') + (stem.push('.') + ext)) == lower_seq(stem),
        stem_key(PathStyle::Unix, stem) == lower_seq(stem),
{
    let name = stem.push('.') + ext;
    assert(stem[0] != '.');
    assert(name[0] == stem[0]);
    assert(seq!['.'][0] == '.' && seq!['.', '.'][0] == '.');
    assert forall|i: int| 0 <= i < name.len() implies #[trigger] name[i] != '/' by {
        if i > stem.len() {
            assert(name[i] == ext[i - stem.len() - 1]);
        } else if i < stem.len() {
            assert(name[i] == stem[i]);
        }
    }
    crate::pathname::law_unix_base_names(dir, name);
    crate::pathname::law_unix_base_names(dir, stem);
    crate::pathname::law_names_part_at_the_last_dot(stem, ext);
    crate::pathname::law_names_part_at_the_last_dot(stem, stem);
}

/// The media kept under the five top directories is looked at, in this order.
pub proof fn law_scanned_directories(dirs: Seq<TopDir>)
    ensures
        media_dirs().len() == 5,
        media_dirs()[0] == "Pic"@,
        media_dirs()[1] == "Ptt"@,
        media_dirs()[2] == "Video"@,
        media_dirs()[3] == "Emoji"@,
        media_dirs()[4] == "File"@,
        scanned(dirs, 0).len() == 0,
        (forall|i: int|
            0 <= i < dirs.len() ==> !media_dirs().contains((#[trigger] dirs[i]).name@)) ==> scanned(
            dirs,
            5,
        ).len() == 0,
{
    if forall|i: int| 0 <= i < dirs.len() ==> !media_dirs().contains((#[trigger] dirs[i]).name@) {
        lemma_no_top_dirs(dirs, 5);
    }
}

proof fn lemma_no_top_dirs(dirs: Seq<TopDir>, n: nat)
    requires
        n <= 5,
        forall|i: int| 0 <= i < dirs.len() ==> !media_dirs().contains((#[trigger] dirs[i]).name@),
    ensures
        scanned(dirs, n).len() == 0,
    decreases n,
{
    if n > 0 {
        lemma_no_top_dirs(dirs, (n - 1) as nat);
        lemma_top_dir(dirs, media_dirs()[n - 1]);
        assert(media_dirs().contains(media_dirs()[n - 1]));
    }
}

proof fn lemma_top_dir(dirs: Seq<TopDir>, name: Seq<char>)
    ensures
        match top_dir(dirs, name) {
            Some(d) => d.name@ == name && exists|i: int|
                0 <= i < dirs.len() && #[trigger] dirs[i] == d && forall|j: int|
                    0 <= j < i ==> (#[trigger] dirs[j]).name@ != name,
            None => forall|i: int| 0 <= i < dirs.len() ==> (#[trigger] dirs[i]).name@ != name,
        },
    decreases dirs.len(),
{
    if dirs.len() > 0 {
        let front = dirs.drop_last();
        lemma_top_dir(front, name);
        match top_dir(front, name) {
            Some(d) => {
                let i = choose|i: int|
                    0 <= i < front.len() && #[trigger] front[i] == d && forall|j: int|
                        0 <= j < i ==> (#[trigger] front[j]).name@ != name;
                assert(dirs[i] == d);
                assert forall|j: int| 0 <= j < i implies (#[trigger] dirs[j]).name@ != name by {
                    assert(front[j] == dirs[j]);
                }
            },
            None => {
                assert forall|j: int| 0 <= j < front.len() implies (#[trigger] dirs[j]).name@
                    != name by {
                    assert(front[j] == dirs[j]);
                }
                assert(dirs[dirs.len() - 1] == dirs.last());
            },
        }
    }
}

/// A directory of plain files hands out all of them, in order, at any depth; links and other
/// things in it are passed over.
pub proof fn law_files_are_walked(entries: Vec<TreeNode>, n: nat, depth: nat, met: nat)
    requires
        n <= entries@.len(),
        forall|i: int| 0 <= i < n ==> !((#[trigger] entries@[i]).kind is Dir),
    ensures
        walked(entries, n, depth, met) == entries@.take(n as int).filter(
            |e: TreeNode| e.kind is File,
        ).map_values(|e: TreeNode| (e.name@, e.path@)),
    decreases n,
{
    reveal(Seq::filter);
    let p = |e: TreeNode| e.kind is File;
    let f = |e: TreeNode| (e.name@, e.path@);
    if n == 0 {
        assert(entries@.take(0).filter(p).map_values(f) =~= Seq::empty());
    } else {
        law_files_are_walked(entries, (n - 1) as nat, depth, met);
        let front = entries@.take(n as int);
        assert(front.drop_last() =~= entries@.take(n - 1));
        let e = entries@[n - 1];
        assert(front.last() == e);
        if e.kind is File {
            assert(front.filter(p) == front.drop_last().filter(p).push(e));
            assert(front.filter(p).map_values(f) =~= front.drop_last().filter(p).map_values(f).push(
                f(e),
            ));
        }
    }
}

/// A directory is entered down to six levels below a top directory, and only while no more
/// than three hundred thousand files were met; then what is in it stands where it stands.
pub proof fn law_directories_are_entered(dir: TreeNode, depth: nat, met: nat)
    ensures
        depth > 6 ==> walked_dir(dir, depth, met).len() == 0,
        met > 300000 ==> walked_dir(dir, depth, met).len() == 0,
        depth <= 6 && met <= 300000 ==> walked_dir(dir, depth, met) == walked(
            dir.children,
            dir.children@.len(),
            depth,
            met,
        ),
{
}

/// What is below a directory counts one level deeper, and what was met before it counts.
pub proof fn law_walks_go_deeper(entries: Vec<TreeNode>, depth: nat, met: nat)
    requires
        entries@.len() == 2,
        entries@[0].kind is File,
        entries@[1].kind is Dir,
    ensures
        walked(entries, 2, depth, met) == seq![(entries@[0].name@, entries@[0].path@)] + walked_dir(
            entries@[1],
            depth + 1,
            met + 1,
        ),
{
    reveal_with_fuel(walked, 3);
    assert(walked(entries, 0, depth, met) =~= Seq::empty());
    assert(walked(entries, 1, depth, met) =~= seq![(entries@[0].name@, entries@[0].path@)]);
}

/// The files of a stem are those whose name has it, in the order in which they were found;
/// those of an alphanumeric key likewise, where it has eight characters or more.
pub proof fn law_indexed_paths(
    style: PathStyle,
    found: Seq<(Seq<char>, Seq<char>)>,
    k: Seq<char>,
)
    ensures
        k.len() > 0 ==> paths_with_stem(style, found, k) == found.filter(
            |f: (Seq<char>, Seq<char>)| stem_key(style, f.0) == k,
        ).map_values(|f: (Seq<char>, Seq<char>)| f.1),
        k.len() == 0 ==> paths_with_stem(style, found, k).len() == 0,
        k.len() >= 8 ==> paths_with_alnum(style, found, k) == found.filter(
            |f: (Seq<char>, Seq<char>)| alnum_key(stem_key(style, f.0)) == k,
        ).map_values(|f: (Seq<char>, Seq<char>)| f.1),
        k.len() < 8 ==> paths_with_alnum(style, found, k).len() == 0,
    decreases found.len(),
{
    reveal(Seq::filter);
    let p = |f: (Seq<char>, Seq<char>)| stem_key(style, f.0) == k;
    let q = |f: (Seq<char>, Seq<char>)| alnum_key(stem_key(style, f.0)) == k;
    let second = |f: (Seq<char>, Seq<char>)| f.1;
    if found.len() > 0 {
        let front = found.drop_last();
        let f = found.last();
        law_indexed_paths(style, front, k);
        if p(f) {
            assert(found.filter(p) == front.filter(p).push(f));
            assert(found.filter(p).map_values(second) =~= front.filter(p).map_values(second).push(
                f.1,
            ));
        }
        if q(f) {
            assert(found.filter(q) == front.filter(q).push(f));
            assert(found.filter(q).map_values(second) =~= front.filter(q).map_values(second).push(
                f.1,
            ));
        }
    } else {
        assert(found.filter(p).map_values(second) =~= Seq::empty());
        assert(found.filter(q).map_values(second) =~= Seq::empty());
    }
}

/// The extensions of each kind of media.
pub proof fn law_families(ext: Seq<char>)
    ensures
        family_of(MsgType::Image).contains(ext) <==> ext == "jpg"@ || ext == "jpeg"@ || ext
            == "png"@ || ext == "gif"@ || ext == "bmp"@ || ext == "webp"@ || ext == "dng"@,
        family_of(MsgType::Voice).contains(ext) <==> ext == "amr"@ || ext == "silk"@ || ext
            == "ptt"@,
        family_of(MsgType::Video).contains(ext) <==> ext == "mp4"@ || ext == "mov"@ || ext
            == "flv"@ || ext == "mkv"@ || ext == "webm"@,
        !family_of(MsgType::Text).contains(ext),
        !family_of(MsgType::System).contains(ext),
        !family_of(MsgType::Recall).contains(ext),
        !family_of(MsgType::Other).contains(ext),
{
    let i = family_of(MsgType::Image);
    assert(i[0] == "jpg"@ && i[1] == "jpeg"@ && i[2] == "png"@ && i[3] == "gif"@);
    assert(i[4] == "bmp"@ && i[5] == "webp"@ && i[6] == "dng"@);
    let v = family_of(MsgType::Voice);
    assert(v[0] == "amr"@ && v[1] == "silk"@ && v[2] == "ptt"@);
    let w = family_of(MsgType::Video);
    assert(w[0] == "mp4"@ && w[1] == "mov"@ && w[2] == "flv"@ && w[3] == "mkv"@ && w[4] == "webm"@);
}

/// Of two files that are there, one whose extension is of the message's kind goes before
/// one whose is not; then one of the told size before one that is not; then the one written
/// later; then the one whose path stands first in the dictionary's order.
pub proof fn law_preferences(
    style: PathStyle,
    disk: Disk,
    p: Seq<char>,
    q: Seq<char>,
    msg_type: MsgType,
    want_size: Option<i64>,
)
    requires
        disk.meta(p) is Some,
        disk.meta(q) is Some,
    ensures
        ({
            let fp = family_of(msg_type).contains(lower_seq(extension_of(base_name(style, p))));
            let fq = family_of(msg_type).contains(lower_seq(extension_of(base_name(style, q))));
            let sp = want_size is Some && want_size->0 == disk.meta(p)->0.len;
            let sq = want_size is Some && want_size->0 == disk.meta(q)->0.len;
            let tp = disk.meta(p)->0.mtime;
            let tq = disk.meta(q)->0.mtime;
            let better = preferred(style, disk, p, q, msg_type, want_size);
            &&& fp && !fq ==> better
            &&& !fp && fq ==> !better
            &&& fp == fq && sp && !sq ==> better
            &&& fp == fq && !sp && sq ==> !better
            &&& fp == fq && sp == sq && tp > tq ==> better
            &&& fp == fq && sp == sq && tp < tq ==> !better
            &&& fp == fq && sp == sq && tp == tq && p != q ==> better == seq_le(p, q)
            &&& p == q ==> !better
        }),
{
}

/// A lone file that is there is found, one that is not there is not; of two the preferred
/// one is found.
pub proof fn law_best_of_two(
    style: PathStyle,
    disk: Disk,
    p: Seq<char>,
    q: Seq<char>,
    msg_type: MsgType,
    want_size: Option<i64>,
)
    requires
        disk.meta(p) is Some,
    ensures
        best_candidate(style, disk, seq![p], msg_type, want_size) == Some(p),
        disk.meta(q) is None ==> best_candidate(style, disk, seq![q], msg_type, want_size) is None,
        disk.meta(q) is None ==> best_candidate(style, disk, seq![p, q], msg_type, want_size)
            == Some(p),
        disk.meta(q) is Some && preferred(style, disk, q, p, msg_type, want_size)
            ==> best_candidate(style, disk, seq![p, q], msg_type, want_size) == Some(q),
        disk.meta(q) is Some && !preferred(style, disk, q, p, msg_type, want_size)
            ==> best_candidate(style, disk, seq![p, q], msg_type, want_size) == Some(p),
{
    reveal_with_fuel(best_candidate, 3);
    assert(seq![p].drop_last() =~= Seq::empty());
    assert(seq![q].drop_last() =~= Seq::empty());
    assert(seq![p, q].drop_last() =~= seq![p]);
}

/// The files of a media key: by stem for an md5, by the alphanumeric key for another one
/// that has eight letters or digits and a letter among them, else none.
pub proof fn law_key_paths(ci: CacheIndex, key: Seq<char>)
    ensures
        is_md5_hex(key) ==> key_paths(ci, key) == paths_at(ci.by_stem, key),
        !is_md5_hex(key) && alnum_key(key).len() < 8 ==> key_paths(ci, key).len() == 0,
        !is_md5_hex(key) && (forall|i: int|
            0 <= i < alnum_key(key).len() ==> '0' <= #[trigger] alnum_key(key)[i] <= '9')
            ==> key_paths(ci, key).len() == 0,
        !is_md5_hex(key) && alnum_key(key).len() >= 8 && (exists|i: int|
            0 <= i < alnum_key(key).len() && 'a' <= #[trigger] alnum_key(key)[i] <= 'z')
            ==> key_paths(ci, key) == paths_at(ci.by_alnum, alnum_key(key)),
{
    if exists|i: int| 0 <= i < alnum_key(key).len() && 'a' <= #[trigger] alnum_key(key)[i] <= 'z' {
        let i = choose|i: int|
            0 <= i < alnum_key(key).len() && 'a' <= #[trigger] alnum_key(key)[i] <= 'z';
        assert(is_alnum(alnum_key(key)[i]) && !is_digit(alnum_key(key)[i]));
    }
}

/// A file is looked for by the key; where none is there, by the md5 that the file name
/// spells; where none is there either, by the file name's stem.
pub proof fn law_fallback_tiers(
    ci: CacheIndex,
    m: MediaModel,
    key: Seq<char>,
    msg_type: MsgType,
    disk: Disk,
)
    ensures
        ({
            let got = fallback_file(ci, m, key, msg_type, disk);
            let a = key_paths(ci, key);
            let b = name_md5_paths(ci, m.file_name, key);
            let c = name_stem_paths(ci, m.file_name);
            let there = |ps: Seq<Seq<char>>|
                exists|p: Seq<char>| #[trigger] ps.contains(p) && disk.meta(p) is Some;
            &&& there(a) ==> got is Some && a.contains(got->0) && disk.meta(got->0) is Some
            &&& !there(a) && there(b) ==> got is Some && b.contains(got->0) && disk.meta(
                got->0,
            ) is Some
            &&& !there(a) && !there(b) && there(c) ==> got is Some && c.contains(got->0)
                && disk.meta(got->0) is Some
            &&& !there(a) && !there(b) && !there(c) ==> got is None
        }),
{
    law_best_candidate(ci.style, disk, key_paths(ci, key), msg_type, m.size);
    law_best_candidate(ci.style, disk, name_md5_paths(ci, m.file_name, key), msg_type, m.size);
    law_best_candidate(ci.style, disk, name_stem_paths(ci, m.file_name), msg_type, m.size);
}

/// A file name is looked for by its stem, unless that is an md5: then it is looked for by
/// that md5 in small letters, unless that is the key itself.
pub proof fn law_name_paths(ci: CacheIndex, name: Seq<char>, key: Seq<char>)
    ensures
        name_md5_paths(ci, None, key).len() == 0,
        name_stem_paths(ci, None).len() == 0,
        crate::parser::types::md5_of_name(Some(name)) == Some(key) ==> name_md5_paths(
            ci,
            Some(name),
            key,
        ).len() == 0,
        crate::parser::types::md5_of_name(Some(name)) is Some && crate::parser::types::md5_of_name(
            Some(name),
        )->0 != key ==> name_md5_paths(ci, Some(name), key) == paths_at(
            ci.by_stem,
            crate::parser::types::md5_of_name(Some(name))->0,
        ),
        is_md5_hex(stem_key(ci.style, name)) ==> name_stem_paths(ci, Some(name)).len() == 0,
        stem_key(ci.style, name).len() > 0 && !is_md5_hex(stem_key(ci.style, name))
            ==> name_stem_paths(ci, Some(name)) == paths_at(ci.by_stem, stem_key(ci.style, name)),
{
}

/// An index leads from a stem, and from an alphanumeric key, to the files that were found
/// under it.
pub proof fn law_index_lookups(ci: CacheIndex, found: Seq<(Seq<char>, Seq<char>)>, k: Seq<char>)
    requires
        ci.indexes(found),
    ensures
        paths_at(ci.by_stem, k) == paths_with_stem(ci.style, found, k),
        paths_at(ci.by_alnum, k) == paths_with_alnum(ci.style, found, k),
{
}

} // verus!

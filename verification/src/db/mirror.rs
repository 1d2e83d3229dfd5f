//! Mirror directory: a per-account workspace with `main.db`, the source without its
//! header, and `main.db-wal`, the source's log as it is. A changed length or time of the
//! source main file tells of a checkpoint, and the mirror is rebuilt.

use vstd::prelude::*;

use crate::db::scan::{DbInfo, CUSTOM_HEADER_LEN};
use crate::db::vfs::stripped;
use crate::pathname::{extension_replaced, replace_extension, PathStyle};
use crate::text::{clone_strings, views};

verus! {

/// Paths of a mirror and the source main file as it was last copied.
#[derive(Debug)]
pub struct Mirror {
    pub src_main: String,
    pub src_wal: String,
    /// The mirror's own paths: each part joined to those before it.
    pub mirror_dir: Vec<String>,
    pub main_path: Vec<String>,
    pub wal_path: Vec<String>,
    pub src_len: u64,
    /// Modification time of the source, in milliseconds.
    pub src_mtime: u64,
}

/// What a sync of the mirror takes.
#[derive(Debug, Clone, Copy, PartialEq, Eq, Structural)]
pub enum MirrorStep {
    /// The source main file changed: copy everything.
    Rebuild,
    /// Copy the log only.
    CopyWal,
}

impl Mirror {
    /// The mirror of a database under a root directory: nothing is copied yet.
    pub fn new(style: PathStyle, info: &DbInfo, mirror_root: &str) -> (r: Self)
        ensures
            r.src_main@ == info.path@,
            r.src_wal@ == extension_replaced(style, info.path@, "db-wal"@),
            views(r.mirror_dir@) == seq![mirror_root@, info.qq@],
            views(r.main_path@) == seq![mirror_root@, info.qq@, "main.db"@],
            views(r.wal_path@) == seq![mirror_root@, info.qq@, "main.db-wal"@],
            r.src_len == 0,
            r.src_mtime == 0,
    {
        let src_wal = replace_extension(style, info.path.as_str(), "db-wal");
        let mut mirror_dir: Vec<String> = Vec::new();
        mirror_dir.push(mirror_root.to_owned());
        mirror_dir.push(info.qq.clone());
        let mut main_path = clone_strings(&mirror_dir);
        let ghost dir = views(main_path@);
        main_path.push("main.db".to_owned());
        let mut wal_path = clone_strings(&mirror_dir);
        wal_path.push("main.db-wal".to_owned());
        proof {
            assert(views(mirror_dir@) =~= seq![mirror_root@, info.qq@]);
            assert(views(main_path@) =~= dir.push("main.db"@));
            assert(views(wal_path@) =~= dir.push("main.db-wal"@));
            assert(views(main_path@) =~= seq![mirror_root@, info.qq@, "main.db"@]);
            assert(views(wal_path@) =~= seq![mirror_root@, info.qq@, "main.db-wal"@]);
        }
        Mirror {
            src_main: info.path.clone(),
            src_wal,
            mirror_dir,
            main_path,
            wal_path,
            src_len: 0,
            src_mtime: 0,
        }
    }

    /// What a sync takes, given the source main file's length and time.
    pub fn sync_step(&self, len: u64, mtime: u64) -> (r: MirrorStep)
        ensures
            r is Rebuild == (len != self.src_len || mtime != self.src_mtime),
    {
        if len != self.src_len || mtime != self.src_mtime {
            MirrorStep::Rebuild
        } else {
            MirrorStep::CopyWal
        }
    }

    /// The mirror was rebuilt from a source of that length and time.
    pub fn rebuilt(&mut self, len: u64, mtime: u64)
        ensures
            final(self).src_len == len,
            final(self).src_mtime == mtime,
            final(self).src_main == old(self).src_main,
            final(self).src_wal == old(self).src_wal,
            final(self).mirror_dir == old(self).mirror_dir,
            final(self).main_path == old(self).main_path,
            final(self).wal_path == old(self).wal_path,
    {
        self.src_len = len;
        self.src_mtime = mtime;
    }
}

/// The bytes behind the first `skip`.
pub fn read_skipping(bytes: &[u8], skip: u64) -> (r: Vec<u8>)
    ensures
        r@ == if skip < bytes@.len() {
            bytes@.skip(skip as int)
        } else {
            Seq::empty()
        },
{
    if skip < bytes.len() as u64 {
        let rest = vstd::slice::slice_subrange(bytes, skip as usize, bytes.len());
        let r = vstd::slice::slice_to_vec(rest);
        assert(r@ =~= bytes@.skip(skip as int));
        r
    } else {
        Vec::new()
    }
}

/// The mirror copy skips exactly the header.
pub fn strip_header(bytes: &[u8]) -> (r: Vec<u8>)
    ensures
        r@ == stripped(bytes@),
{
    read_skipping(bytes, CUSTOM_HEADER_LEN)
}

} // verus!

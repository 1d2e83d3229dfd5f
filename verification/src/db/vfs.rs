//! The header offset: a source database starts with a plaintext header of 1024 bytes, and
//! the real cipher structure begins after it. Reads of the main file are shifted past the
//! header; the `-wal`, `-shm` and `-journal` files carry none and pass through.

use vstd::prelude::*;

use crate::db::scan::CUSTOM_HEADER_LEN;
use crate::text::{ends_with, ends_with_seq, lower_ascii, lower_seq};

verus! {

/// Name of the registered file layer.
pub const VFS_NAME: &'static str = "qqflow-offset";

/// A main database file that gets the offset, by its name.
pub open spec fn offset_name(name: Seq<char>) -> bool {
    let lower = lower_seq(name);
    !ends_with_seq(lower, "-wal"@) && !ends_with_seq(lower, "-shm"@) && !ends_with_seq(
        lower,
        "-journal"@,
    ) && ends_with_seq(lower, ".db"@)
}

/// Only the main db file gets the offset: it is opened as one, and its name ends in `.db`,
/// whatever the letter case.
pub fn is_offset_main(name: &str, opened_as_main: bool) -> (r: bool)
    ensures
        r == (opened_as_main && offset_name(name@)),
{
    if !opened_as_main {
        return false;
    }
    let lower = lower_ascii(name);
    let n = lower.as_str();
    if ends_with(n, "-wal") || ends_with(n, "-shm") || ends_with(n, "-journal") {
        return false;
    }
    ends_with(n, ".db")
}

/// Where a logical offset lies in the file.
pub fn shifted_offset(offset: i64) -> (r: i64)
    requires
        0 <= offset <= i64::MAX - CUSTOM_HEADER_LEN,
    ensures
        r == offset + CUSTOM_HEADER_LEN,
{
    offset + CUSTOM_HEADER_LEN as i64
}

/// The logical size of a file.
pub open spec fn stripped_len(size: int) -> int {
    if size > CUSTOM_HEADER_LEN {
        size - CUSTOM_HEADER_LEN
    } else {
        0
    }
}

/// The logical (header-stripped) size of a file.
pub fn logical_size(size: i64) -> (r: i64)
    requires
        size >= 0,
    ensures
        r == stripped_len(size as int),
{
    if size > CUSTOM_HEADER_LEN as i64 {
        size - CUSTOM_HEADER_LEN as i64
    } else {
        0
    }
}

/// The size of a file object's allocation, rounded up to eight bytes.
pub fn aligned_size(size: usize) -> (r: usize)
    requires
        size <= usize::MAX - 7,
    ensures
        r % 8 == 0,
        size <= r < size + 8,
{
    (size + 7) / 8 * 8
}

/// A file without its header.
pub open spec fn stripped(file: Seq<u8>) -> Seq<u8> {
    if file.len() > CUSTOM_HEADER_LEN {
        file.skip(CUSTOM_HEADER_LEN as int)
    } else {
        Seq::empty()
    }
}

/// Reading at a shifted offset reads the stripped file, and the logical size is its
/// length.
pub proof fn law_shifted_reads(file: Seq<u8>, offset: int, n: int)
    requires
        0 <= offset,
        0 <= n,
        offset + n <= stripped(file).len(),
        n > 0,
    ensures
        stripped(file).len() == stripped_len(file.len() as int),
        stripped(file).subrange(offset, offset + n) == file.subrange(
            offset + CUSTOM_HEADER_LEN,
            offset + CUSTOM_HEADER_LEN + n,
        ),
{
    assert(stripped(file).subrange(offset, offset + n) =~= file.subrange(
        offset + CUSTOM_HEADER_LEN,
        offset + CUSTOM_HEADER_LEN + n,
    ));
}

/// A main database ends in `.db`, in letters of any size; the files beside it are no such
/// files.
pub proof fn law_offset_names(stem: Seq<char>, name: Seq<char>)
    ensures
        offset_name(name) <==> exists|a: Seq<char>| lower_seq(name) == #[trigger] (a + ".db"@),
        offset_name(stem + ".db"@),
        !offset_name(stem + ".db-wal"@),
        !offset_name(stem + ".db-shm"@),
        !offset_name(stem + ".db-journal"@),
{
    reveal_strlit(".db");
    reveal_strlit("-wal");
    reveal_strlit("-shm");
    reveal_strlit("-journal");
    reveal_strlit(".db-wal");
    reveal_strlit(".db-shm");
    reveal_strlit(".db-journal");
    lemma_db_ends(name);
    let a = stem + ".db"@;
    let b = stem + ".db-wal"@;
    let c = stem + ".db-shm"@;
    let d = stem + ".db-journal"@;
    lemma_db_ends(a);
    lemma_db_ends(b);
    lemma_db_ends(c);
    lemma_db_ends(d);
    assert(lower_seq(a) =~= lower_seq(stem) + ".db"@);
    assert(b.last() == 'l' && c.last() == 'm' && d.last() == 'l');
    assert(lower_seq(b).last() == 'l' && lower_seq(c).last() == 'm' && lower_seq(d).last() == 'l');
    crate::text::law_starts_and_ends(lower_seq(a), ".db"@);
}

proof fn lemma_db_ends(name: Seq<char>)
    ensures
        offset_name(name) <==> exists|a: Seq<char>| lower_seq(name) == #[trigger] (a + ".db"@),
        offset_name(name) ==> name.len() >= 3 && lower_seq(name).last() == 'b',
{
    reveal_strlit(".db");
    reveal_strlit("-wal");
    reveal_strlit("-shm");
    reveal_strlit("-journal");
    let lower = lower_seq(name);
    crate::text::law_starts_and_ends(lower, ".db"@);
    crate::text::law_starts_and_ends(lower, "-wal"@);
    crate::text::law_starts_and_ends(lower, "-shm"@);
    crate::text::law_starts_and_ends(lower, "-journal"@);
    if exists|a: Seq<char>| lower == #[trigger] (a + ".db"@) {
        let a = choose|a: Seq<char>| lower == #[trigger] (a + ".db"@);
        assert(lower.last() == 'b');
        if exists|x: Seq<char>| lower == #[trigger] (x + "-wal"@) {
            let x = choose|x: Seq<char>| lower == #[trigger] (x + "-wal"@);
            assert(lower.last() == 'l');
        }
        if exists|x: Seq<char>| lower == #[trigger] (x + "-shm"@) {
            let x = choose|x: Seq<char>| lower == #[trigger] (x + "-shm"@);
            assert(lower.last() == 'm');
        }
        if exists|x: Seq<char>| lower == #[trigger] (x + "-journal"@) {
            let x = choose|x: Seq<char>| lower == #[trigger] (x + "-journal"@);
            assert(lower.last() == 'l');
        }
    }
}

/// A file loses its first 1024 bytes and nothing else; one that has no more is empty.
pub proof fn law_stripped(head: Seq<u8>, body: Seq<u8>)
    ensures
        head.len() == 1024 ==> stripped(head + body) == body,
        head.len() <= 1024 ==> stripped(head).len() == 0,
        stripped_len(1024) == 0,
        stripped_len(1025) == 1,
        head.len() == 1024 ==> stripped_len((head + body).len() as int) == body.len(),
{
    if head.len() == 1024 {
        assert(stripped(head + body) =~= body);
    }
}

} // verus!

//! The settings that open a message database.
//!
//! Order and parameters follow the verified sequence for these databases (page size
//! before key, kdf_iter=4000, HMAC-SHA1 with PBKDF2-HMAC-SHA512 KDF, AES-256-CBC); where
//! the key does not verify, HMAC-SHA512 is tried.

use vstd::prelude::*;
use vstd::string::StringExecFns;

verus! {

pub const QQ_PAGE_SIZE: i64 = 4096;

pub const QQ_KDF_ITER: i64 = 4000;

/// A text with each quote doubled.
pub open spec fn escaped(s: Seq<char>) -> Seq<char>
    decreases s.len(),
{
    if s.len() == 0 {
        s
    } else if s.last() == '\'' {
        escaped(s.drop_last()).push('\'').push('\'')
    } else {
        escaped(s.drop_last()).push(s.last())
    }
}

/// Reads the inside of a quoted literal up to its closing quote: a doubled quote stands
/// for one. Second comes what follows the literal; none where it is not closed.
pub open spec fn literal(t: Seq<char>) -> (Seq<char>, Option<Seq<char>>)
    decreases t.len(),
{
    if t.len() == 0 {
        (Seq::empty(), None)
    } else if t[0] == '\'' {
        if t.len() > 1 && t[1] == '\'' {
            let (s, rest) = literal(t.skip(2));
            (seq!['\''] + s, rest)
        } else {
            (Seq::empty(), Some(t.drop_first()))
        }
    } else {
        let (s, rest) = literal(t.drop_first());
        (seq![t[0]] + s, rest)
    }
}

/// A key as the inside of a quoted literal.
pub fn escape_key(key: &str) -> (r: String)
    ensures
        r@ == escaped(key@),
{
    let mut r = String::new();
    assert(key@.take(0) =~= Seq::<char>::empty());
    for c in it: key.chars()
        invariant
            it.seq() == key@,
            r@ == escaped(it.seq().take(it.index() as int)),
    {
        if c == '\'' {
            r.push('\'');
        }
        r.push(c);
        assert(key@.take(it.index() + 1).drop_last() =~= key@.take(it.index() as int));
    }
    assert(key@.take(key@.len() as int) =~= key@);
    r
}

proof fn lemma_escaped_concat(s: Seq<char>, c: char, t: Seq<char>)
    ensures
        escaped(s.push(c)) + t == escaped(s) + (escaped(seq![c]) + t),
{
    assert(s.push(c).drop_last() =~= s);
    assert(seq![c].drop_last() =~= Seq::<char>::empty());
    assert(escaped(Seq::<char>::empty()) =~= Seq::<char>::empty());
    assert(escaped(s.push(c)) + t =~= escaped(s) + (escaped(seq![c]) + t));
}

proof fn lemma_literal_of_escaped(s: Seq<char>, t: Seq<char>)
    ensures
        literal(escaped(s) + t).1 == literal(t).1,
        literal(escaped(s) + t).0 == s + literal(t).0,
    decreases s.len(),
{
    if s.len() == 0 {
        assert(escaped(s) + t =~= t);
        assert(s + literal(t).0 =~= literal(t).0);
    } else {
        let c = s.last();
        let u = escaped(seq![c]) + t;
        assert(s.drop_last().push(c) =~= s);
        lemma_escaped_concat(s.drop_last(), c, t);
        lemma_literal_of_escaped(s.drop_last(), u);
        assert(seq![c].drop_last() =~= Seq::<char>::empty());
        if c == '\'' {
            assert(u.skip(2) =~= t);
        } else {
            assert(u.drop_first() =~= t);
        }
        assert(s + literal(t).0 =~= s.drop_last() + literal(u).0);
    }
}

/// An escaped key reads back as the key: no key ends its literal early.
pub proof fn law_escaped_key_reads_back(key: Seq<char>, rest: Seq<char>)
    requires
        rest.len() > 0 ==> rest[0] != '\'',
    ensures
        literal(escaped(key) + (seq!['\''] + rest)) == (key, Some(rest)),
{
    let t = seq!['\''] + rest;
    lemma_literal_of_escaped(key, t);
    assert(t.drop_first() =~= rest);
    assert(key + Seq::<char>::empty() =~= key);
}

/// The settings for a key and an HMAC algorithm.
pub open spec fn settings(key: Seq<char>, hmac: Seq<char>) -> Seq<char> {
    "PRAGMA cipher_page_size = 4096;\nPRAGMA key = '"@ + escaped(key)
        + "';\nPRAGMA kdf_iter = 4000;\nPRAGMA cipher_hmac_algorithm = "@ + hmac
        + ";\nPRAGMA cipher_default_kdf_algorithm = PBKDF2_HMAC_SHA512;\nPRAGMA cipher = 'aes-256-cbc';\n"@
}

/// The settings for a key and an HMAC algorithm.
pub fn pragma_suite(key: &str, hmac: &str) -> (r: String)
    ensures
        r@ == settings(key@, hmac@),
{
    let mut r = "PRAGMA cipher_page_size = 4096;\nPRAGMA key = '".to_owned();
    let k = escape_key(key);
    r.append(k.as_str());
    r.append("';\nPRAGMA kdf_iter = 4000;\nPRAGMA cipher_hmac_algorithm = ");
    r.append(hmac);
    r.append(
        ";\nPRAGMA cipher_default_kdf_algorithm = PBKDF2_HMAC_SHA512;\nPRAGMA cipher = 'aes-256-cbc';\n",
    );
    r
}

/// The algorithms that are tried, in order.
pub open spec fn algorithms() -> Seq<Seq<char>> {
    seq!["HMAC_SHA1"@, "HMAC_SHA512"@]
}

/// The HMAC algorithms in the order in which they are tried.
pub fn hmac_attempts() -> (r: Vec<&'static str>)
    ensures
        r@.map_values(|s: &str| s@) == algorithms(),
{
    let r: Vec<&'static str> = vec!["HMAC_SHA1", "HMAC_SHA512"];
    assert(r@.map_values(|s: &str| s@) =~= algorithms());
    r
}

/// Why a file is not worth opening.
#[derive(Debug, Clone, Copy, PartialEq, Eq, Structural)]
pub enum SourceError {
    /// There is no such file.
    Missing,
    /// The file is empty: opening it would create a database.
    Empty,
}

/// Whether a file of that length (`None` where there is none) may be opened.
pub fn check_source(len: Option<u64>) -> (r: Result<(), SourceError>)
    ensures
        r == (match len {
            None => Err(SourceError::Missing),
            Some(n) => if n == 0 {
                Err(SourceError::Empty)
            } else {
                Ok(())
            },
        }),
{
    match len {
        None => Err(SourceError::Missing),
        Some(n) => if n == 0 {
            Err(SourceError::Empty)
        } else {
            Ok(())
        },
    }
}

impl SourceError {
    /// What the error tells of a path.
    pub open spec fn text(self, path: Seq<char>) -> Seq<char> {
        match self {
            SourceError::Missing => "镜像数据库不存在: "@ + path,
            SourceError::Empty => "镜像数据库为空: "@ + path
                + "（源库小于 1024 字节自定义头或镜像损坏）"@,
        }
    }

    /// The message for the operator.
    pub fn message(self, path: &str) -> (r: String)
        ensures
            r@ == self.text(path@),
    {
        match self {
            SourceError::Missing => {
                let mut r = "镜像数据库不存在: ".to_owned();
                r.append(path);
                r
            },
            SourceError::Empty => {
                let mut r = "镜像数据库为空: ".to_owned();
                r.append(path);
                r.append("（源库小于 1024 字节自定义头或镜像损坏）");
                r
            },
        }
    }
}

/// What the operator is told where no attempt verified.
pub const KEY_REFUSED: &'static str =
    "数据库解密失败：请确认密钥正确（16 字节 ASCII，可先用 qq-win-db-key 重新提取）";

/// How an attempt to open a database with one algorithm went.
#[derive(Debug, Clone, Copy, PartialEq, Eq, Structural)]
pub enum Attempt {
    /// The key settings or the catalogue query failed.
    Failed,
    /// The catalogue could be read: how many entries it has.
    Read(i64),
}

/// What to do next in opening a database.
#[derive(Debug, Clone, Copy, PartialEq, Eq)]
pub enum OpenStep {
    /// Open it anew and try this algorithm.
    Try(&'static str),
    /// The connection of the last attempt is good.
    Use,
    /// The key is refused.
    Refuse,
}

/// What to do after `tried` attempts, the last of which went like `last` (`None` before
/// the first).
pub fn open_step(tried: usize, last: Option<Attempt>) -> (r: OpenStep)
    ensures
        last is Some && last->0 is Read && last->0->Read_0 > 0 ==> r is Use,
        !(last is Some && last->0 is Read && last->0->Read_0 > 0) ==> (match r {
            OpenStep::Try(hmac) => tried < algorithms().len() && hmac@ == algorithms()[tried as int],
            OpenStep::Use => false,
            OpenStep::Refuse => tried >= algorithms().len(),
        }),
{
    let good = match last {
        Some(Attempt::Read(n)) => verify(n),
        _ => false,
    };
    if good {
        return OpenStep::Use;
    }
    let names = hmac_attempts();
    if tried < names.len() {
        assert(names@.map_values(|s: &str| s@)[tried as int] == names@[tried as int]@);
        OpenStep::Try(names[tried])
    } else {
        OpenStep::Refuse
    }
}

/// Whether a key verified: the catalogue could be read and lists at least one table. An
/// empty database would trivially verify.
pub fn verify(tables: i64) -> (r: bool)
    ensures
        r == (tables > 0),
{
    tables > 0
}

/// The settings of a database name, in this order, its page size, the key as a quoted text
/// that reads back, the rounds of derivation, the hash of its pages, the hash of derivation
/// and the cipher.
pub proof fn law_settings(key: Seq<char>, hmac: Seq<char>)
    ensures
        ({
            let s = settings(key, hmac);
            let head = "PRAGMA cipher_page_size = 4096;\nPRAGMA key = '"@;
            let mid = "';\nPRAGMA kdf_iter = 4000;\nPRAGMA cipher_hmac_algorithm = "@;
            let tail =
                ";\nPRAGMA cipher_default_kdf_algorithm = PBKDF2_HMAC_SHA512;\nPRAGMA cipher = 'aes-256-cbc';\n"@;
            &&& s.take(head.len() as int) == head
            &&& literal(s.skip(head.len() as int)).0 == key
            &&& literal(s.skip(head.len() as int)).1 == Some((mid + hmac + tail).drop_first())
        }),
{
    let s = settings(key, hmac);
    let head = "PRAGMA cipher_page_size = 4096;\nPRAGMA key = '"@;
    let mid = "';\nPRAGMA kdf_iter = 4000;\nPRAGMA cipher_hmac_algorithm = "@;
    let tail =
        ";\nPRAGMA cipher_default_kdf_algorithm = PBKDF2_HMAC_SHA512;\nPRAGMA cipher = 'aes-256-cbc';\n"@;
    reveal_strlit("';\nPRAGMA kdf_iter = 4000;\nPRAGMA cipher_hmac_algorithm = ");
    assert(s.take(head.len() as int) =~= head);
    let rest = (mid + hmac + tail).drop_first();
    assert(mid[0] == '\'' && mid[1] == ';');
    assert(rest[0] == ';');
    assert(s.skip(head.len() as int) =~= escaped(key) + (seq!['\''] + rest));
    law_escaped_key_reads_back(key, rest);
}

/// A quote is written twice; everything else stays, in its order.
pub proof fn law_escaped(s: Seq<char>, c: char)
    ensures
        escaped(Seq::empty()).len() == 0,
        c != '\'' ==> escaped(s.push(c)) == escaped(s).push(c),
        c == '\'' ==> escaped(s.push(c)) == escaped(s) + seq!['\'', '\''],
{
    assert(s.push(c).drop_last() =~= s);
    if c == '\'' {
        assert(escaped(s).push('\'').push('\'') =~= escaped(s) + seq!['\'', '\'']);
    }
}

/// The two hashes are tried in this order.
pub proof fn law_algorithms()
    ensures
        algorithms().len() == 2,
        algorithms()[0] == "HMAC_SHA1"@,
        algorithms()[1] == "HMAC_SHA512"@,
{
}

/// What is said of a mirror that is not there, and of one that holds nothing.
pub proof fn law_source_texts(path: Seq<char>)
    ensures
        SourceError::Missing.text(path) == "镜像数据库不存在: "@ + path,
        SourceError::Empty.text(path) == "镜像数据库为空: "@ + path
            + "（源库小于 1024 字节自定义头或镜像损坏）"@,
{
}

} // verus!

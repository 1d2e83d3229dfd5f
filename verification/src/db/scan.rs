//! Locating per-account message databases. Directory listings come in as plain values.

use vstd::prelude::*;

use crate::order::{by_name, ints, law_sorted_places, lemma_name_order, name_leq, sort_texts};
use crate::text::{
    all_digits, char_is_digit, chars_of, contains, contains_seq, ends_with, ends_with_seq, is_digit,
    opt_view, starts_with_seq, string_of_range, to_lower, lowered, views,
};

verus! {

/// Message database file name.
pub const NT_MSG_DB: &'static str = "nt_msg.db";

/// Length of the header prepended to the database.
pub const CUSTOM_HEADER_LEN: u64 = 1024;

/// Where an account's message database is.
#[derive(Debug)]
pub struct DbInfo {
    pub qq: String,
    pub path: String,
}

/// What a [`DbInfo`] holds.
pub struct DbModel {
    pub qq: Seq<char>,
    pub path: Seq<char>,
}

impl View for DbInfo {
    type V = DbModel;

    open spec fn view(&self) -> DbModel {
        DbModel { qq: self.qq@, path: self.path@ }
    }
}

/// The locations of a list.
pub open spec fn db_views(v: Seq<DbInfo>) -> Seq<DbModel> {
    v.map_values(|d: DbInfo| d@)
}

/// The view of an optional location.
pub open spec fn opt_db(o: Option<DbInfo>) -> Option<DbModel> {
    match o {
        Some(d) => Some(d@),
        None => None,
    }
}

impl Clone for DbInfo {
    fn clone(&self) -> (r: Self)
        ensures
            r@ == self@,
    {
        DbInfo { qq: self.qq.clone(), path: self.path.clone() }
    }
}

/// The accounts' numbers.
pub open spec fn qqs_of(v: Seq<DbModel>) -> Seq<Seq<char>> {
    v.map_values(|d: DbModel| d.qq)
}

/// The locations by account number.
pub open spec fn sorted_by_qq(v: Seq<DbModel>) -> Seq<DbModel> {
    by_name(qqs_of(v)).map_values(|i: int| v[i])
}

/// Sorts locations by account number.
fn sort_by_qq(v: Vec<DbInfo>) -> (r: Vec<DbInfo>)
    ensures
        db_views(r@) == sorted_by_qq(db_views(v@)),
{
    let ghost all = db_views(v@);
    let mut qqs: Vec<String> = Vec::new();
    let mut i: usize = 0;
    while i < v.len()
        invariant
            i <= v.len(),
            qqs.len() == i,
            forall|k: int| 0 <= k < i ==> #[trigger] qqs@[k]@ == v@[k].qq@,
        decreases v.len() - i,
    {
        qqs.push(v[i].qq.clone());
        i += 1;
    }
    assert(views(qqs@) =~= qqs_of(all));
    let order = sort_texts(&qqs);
    let mut r: Vec<DbInfo> = Vec::new();
    let mut k: usize = 0;
    while k < order.len()
        invariant
            k <= order.len(),
            all == db_views(v@),
            forall|j: int| 0 <= j < order.len() ==> #[trigger] order@[j] < v.len(),
            r.len() == k,
            forall|j: int| 0 <= j < k ==> (#[trigger] r@[j])@ == all[order@[j] as int],
        decreases order.len() - k,
    {
        r.push(v[order[k]].clone());
        k += 1;
    }
    assert forall|j: int| 0 <= j < r@.len() implies #[trigger] db_views(r@)[j] == sorted_by_qq(
        all,
    )[j] by {
        assert(ints(order@)[j] == order@[j]);
        assert(by_name(qqs_of(all))[j] == order@[j]);
    }
    assert(db_views(r@) =~= sorted_by_qq(all));
    r
}

/// Sorting keeps every location and puts them in order.
pub proof fn law_sorted_by_qq(v: Seq<DbModel>)
    ensures
        sorted_by_qq(v).len() == v.len(),
        forall|i: int, j: int|
            0 <= i < j < v.len() ==> crate::text::seq_le(
                (#[trigger] sorted_by_qq(v)[i]).qq,
                (#[trigger] sorted_by_qq(v)[j]).qq,
            ),
        forall|d: DbModel| v.contains(d) ==> #[trigger] sorted_by_qq(v).contains(d),
{
    let names = qqs_of(v);
    let places = by_name(names);
    lemma_name_order(names);
    law_sorted_places(names.len(), name_leq(names));
    assert forall|i: int, j: int| 0 <= i < j < v.len() implies crate::text::seq_le(
        (#[trigger] sorted_by_qq(v)[i]).qq,
        (#[trigger] sorted_by_qq(v)[j]).qq,
    ) by {
        assert(name_leq(names)(places[i], places[j]));
        crate::text::lemma_seq_le_reflexive(names[places[i]]);
    }
    assert forall|d: DbModel| v.contains(d) implies #[trigger] sorted_by_qq(v).contains(d) by {
        let i = v.index_of(d);
        assert(places.contains(i));
        let j = places.index_of(i);
        assert(sorted_by_qq(v)[j] == d);
    }
}

/// An entry of an accounts directory: its name, and the path of the message database
/// below it where that is a file.
#[derive(Debug)]
pub struct AccountDir {
    pub name: String,
    pub db: Option<String>,
}

/// A name without anything but digits.
pub open spec fn account_dir_name(name: Seq<char>) -> bool {
    forall|i: int| 0 <= i < name.len() ==> is_digit(#[trigger] name[i])
}

/// The databases below the entries that are named like accounts.
pub open spec fn account_dbs(entries: Seq<AccountDir>) -> Seq<DbModel>
    decreases entries.len(),
{
    if entries.len() == 0 {
        Seq::empty()
    } else {
        let before = account_dbs(entries.drop_last());
        match entries.last().db {
            Some(path) => if account_dir_name(entries.last().name@) {
                before.push(DbModel { qq: entries.last().name@, path: path@ })
            } else {
                before
            },
            None => before,
        }
    }
}

fn only_digits(s: &str) -> (r: bool)
    ensures
        r == account_dir_name(s@),
{
    let v = chars_of(s);
    let mut i: usize = 0;
    while i < v.len()
        invariant
            i <= v.len(),
            v@ == s@,
            forall|j: int| 0 <= j < i ==> is_digit(#[trigger] s@[j]),
        decreases v.len() - i,
    {
        if !char_is_digit(v[i]) {
            assert(!is_digit(s@[i as int]));
            return false;
        }
        i += 1;
    }
    true
}

/// The accounts of a Tencent Files-style root: `<root>/<digits>/nt_qq/nt_db/nt_msg.db`,
/// by account number.
pub fn scan_root(entries: &Vec<AccountDir>) -> (r: Vec<DbInfo>)
    ensures
        db_views(r@) == sorted_by_qq(account_dbs(entries@)),
{
    let mut out: Vec<DbInfo> = Vec::new();
    let mut i: usize = 0;
    assert(entries@.take(0) =~= Seq::empty());
    assert(db_views(out@) =~= Seq::<DbModel>::empty());
    while i < entries.len()
        invariant
            i <= entries.len(),
            db_views(out@) == account_dbs(entries@.take(i as int)),
        decreases entries.len() - i,
    {
        let e = &entries[i];
        assert(entries@.take(i + 1).drop_last() =~= entries@.take(i as int));
        match &e.db {
            Some(path) => {
                if only_digits(e.name.as_str()) {
                    let ghost before = out@;
                    let d = DbInfo { qq: e.name.clone(), path: path.clone() };
                    let ghost added = d@;
                    out.push(d);
                    assert(db_views(out@) =~= db_views(before).push(added));
                }
            },
            None => {},
        }
        i += 1;
    }
    assert(entries@.take(entries@.len() as int) =~= entries@);
    sort_by_qq(out)
}

/// The nearest of the first `n` components that is a number.
pub open spec fn nearest_number(parts: Seq<Seq<char>>, n: int) -> Option<Seq<char>>
    decreases n,
{
    if n <= 0 || n > parts.len() {
        None
    } else if all_digits(parts[n - 1]) {
        Some(parts[n - 1])
    } else {
        nearest_number(parts, n - 1)
    }
}

/// Best-effort account number from a direct database path, as its components: the nearest
/// ancestor directory whose name is all digits.
pub fn nearest_digit_dir(parts: &Vec<String>) -> (r: Option<String>)
    ensures
        opt_view(r) == nearest_number(views(parts@), parts@.len() as int),
{
    let mut n: usize = parts.len();
    while n > 0
        invariant
            n <= parts.len(),
            nearest_number(views(parts@), parts@.len() as int) == nearest_number(
                views(parts@),
                n as int,
            ),
        decreases n,
    {
        assert(views(parts@)[n - 1] == parts@[n - 1]@);
        if crate::text::is_all_digits(parts[n - 1].as_str()) {
            return Some(parts[n - 1].clone());
        }
        n -= 1;
    }
    None
}

/// What stands at a path.
#[derive(Debug)]
pub enum PathTarget {
    File,
    /// A directory with these entries.
    Dir(Vec<AccountDir>),
    Missing,
}

/// Why a given path has no database.
#[derive(Debug, Clone, Copy, PartialEq, Eq, Structural)]
pub enum ScanError {
    /// The directory holds no account with a database.
    NoDatabase,
    /// There is nothing at the path.
    Missing,
}

/// A direct path: a file is the database itself, a directory a Tencent Files-style root.
pub fn scan_custom(path: &str, parts: &Vec<String>, target: &PathTarget) -> (r: Result<
    Vec<DbInfo>,
    ScanError,
>)
    ensures
        match target {
            PathTarget::File => r is Ok && db_views(r->Ok_0@) == seq![
                DbModel {
                    qq: match nearest_number(views(parts@), parts@.len() as int) {
                        Some(q) => q,
                        None => "custom"@,
                    },
                    path: path@,
                },
            ],
            PathTarget::Dir(entries) => if account_dbs(entries@).len() > 0 {
                r is Ok && db_views(r->Ok_0@) == sorted_by_qq(account_dbs(entries@))
            } else {
                r == Err::<Vec<DbInfo>, ScanError>(ScanError::NoDatabase)
            },
            PathTarget::Missing => r == Err::<Vec<DbInfo>, ScanError>(ScanError::Missing),
        },
{
    match target {
        PathTarget::File => {
            let qq = match nearest_digit_dir(parts) {
                Some(q) => q,
                None => "custom".to_owned(),
            };
            let mut out: Vec<DbInfo> = Vec::new();
            let d = DbInfo { qq, path: path.to_owned() };
            let ghost added = d@;
            out.push(d);
            assert(db_views(out@) =~= seq![added]);
            Ok(out)
        },
        PathTarget::Dir(entries) => {
            let out = scan_root(entries);
            proof {
                law_sorted_by_qq(account_dbs(entries@));
                assert(db_views(out@).len() == out@.len());
            }
            if out.len() == 0 {
                Err(ScanError::NoDatabase)
            } else {
                Ok(out)
            }
        },
        PathTarget::Missing => Err(ScanError::Missing),
    }
}

/// Resolve a registration's path: the file itself, or the account's database below a
/// Tencent Files-style root, where that is a file.
pub fn resolve_account(qq: &str, path: &str, is_file: bool, below: Option<String>) -> (r: Option<
    DbInfo,
>)
    ensures
        opt_db(r) == (if is_file {
            Some(DbModel { qq: qq@, path: path@ })
        } else {
            match below {
                Some(p) => Some(DbModel { qq: qq@, path: p@ }),
                None => None,
            }
        }),
{
    if is_file {
        return Some(DbInfo { qq: qq.to_owned(), path: path.to_owned() });
    }
    match below {
        Some(p) => Some(DbInfo { qq: qq.to_owned(), path: p }),
        None => None,
    }
}

/// A file of a database directory.
#[derive(Debug)]
pub struct DbFile {
    pub name: String,
    pub path: String,
    pub len: u64,
}

/// An account directory of a Unix layout: its name, the path of `nt_msg.db` where that is
/// a file, and the files of its database directory (`None` where there is no such
/// directory).
#[derive(Debug)]
pub struct UnixDir {
    pub name: String,
    pub exact: Option<String>,
    pub files: Option<Vec<DbFile>>,
}

/// A database file that holds messages, by its name.
pub open spec fn message_db_name(name: Seq<char>) -> bool {
    contains_seq(lowered(name), "msg"@) && ends_with_seq(lowered(name), ".db"@)
}

/// The first largest message database among the files.
pub open spec fn largest_message_db(files: Seq<DbFile>) -> Option<DbFile>
    decreases files.len(),
{
    if files.len() == 0 {
        None
    } else {
        let best = largest_message_db(files.drop_last());
        let f = files.last();
        if message_db_name(f.name@) && (best is None || f.len > best->0.len) {
            Some(f)
        } else {
            best
        }
    }
}

/// `s` without the prefixes "nt_qq_" at its front.
pub open spec fn without_prefix(s: Seq<char>) -> Seq<char>
    decreases s.len(),
{
    if "nt_qq_"@.len() > 0 && starts_with_seq(s, "nt_qq_"@) {
        without_prefix(s.skip("nt_qq_"@.len() as int))
    } else {
        s
    }
}

/// The account number of a Unix account directory.
pub open spec fn unix_qq(name: Seq<char>) -> Seq<char> {
    if without_prefix(name).len() == 0 {
        name
    } else {
        without_prefix(name)
    }
}

/// The database of a Unix account directory: `nt_msg.db`, else the largest message
/// database.
pub open spec fn unix_db(d: UnixDir) -> Option<DbModel> {
    match d.files {
        None => None,
        Some(files) => match d.exact {
            Some(p) => Some(DbModel { qq: unix_qq(d.name@), path: p@ }),
            None => match largest_message_db(files@) {
                Some(f) => Some(DbModel { qq: unix_qq(d.name@), path: f.path@ }),
                None => None,
            },
        },
    }
}

/// The databases of the account directories.
pub open spec fn unix_dbs(dirs: Seq<UnixDir>) -> Seq<DbModel>
    decreases dirs.len(),
{
    if dirs.len() == 0 {
        Seq::empty()
    } else {
        let before = unix_dbs(dirs.drop_last());
        match unix_db(dirs.last()) {
            Some(d) => before.push(d),
            None => before,
        }
    }
}

fn find_largest(files: &Vec<DbFile>) -> (r: Option<usize>)
    ensures
        r is Some == largest_message_db(files@) is Some,
        r is Some ==> r->0 < files.len() && files@[r->0 as int] == largest_message_db(files@)->0,
{
    let mut best: Option<usize> = None;
    let mut i: usize = 0;
    while i < files.len()
        invariant
            i <= files.len(),
            best is Some == largest_message_db(files@.take(i as int)) is Some,
            best is Some ==> best->0 < files.len() && files@[best->0 as int]
                == largest_message_db(files@.take(i as int))->0,
        decreases files.len() - i,
    {
        assert(files@.take(i + 1).drop_last() =~= files@.take(i as int));
        let lower = to_lower(files[i].name.as_str());
        let larger = match best {
            Some(b) => files[i].len > files[b].len,
            None => true,
        };
        if contains(lower.as_str(), "msg") && ends_with(lower.as_str(), ".db") && larger {
            best = Some(i);
        }
        i += 1;
    }
    assert(files@.take(files@.len() as int) =~= files@);
    best
}

fn account_of(name: &str) -> (r: String)
    ensures
        r@ == unix_qq(name@),
{
    let v = chars_of(name);
    let p = chars_of("nt_qq_");
    let mut from: usize = 0;
    proof {
        reveal_strlit("nt_qq_");
    }
    assert(v@.skip(0) =~= name@);
    while v.len() - from >= p.len()
        invariant
            from <= v.len(),
            p@ == "nt_qq_"@,
            p.len() == 6,
            v@ == name@,
            without_prefix(name@) == without_prefix(v@.skip(from as int)),
        ensures
            without_prefix(name@) == v@.skip(from as int),
        decreases v.len() - from,
    {
        let head = string_of_range(&v, from, from + p.len());
        let ghost s = v@.skip(from as int);
        assert(s.subrange(0, 6) =~= head@);
        if !crate::text::same(head.as_str(), "nt_qq_") {
            break;
        }
        from += 6;
        assert(s.skip(6) =~= v@.skip(from as int));
    }
    if from == v.len() {
        name.to_owned()
    } else {
        let r = string_of_range(&v, from, v.len());
        assert(r@ =~= v@.skip(from as int));
        r
    }
}

/// The accounts of a Unix layout, by account number.
pub fn scan_unix(dirs: &Vec<UnixDir>) -> (r: Vec<DbInfo>)
    ensures
        db_views(r@) == sorted_by_qq(unix_dbs(dirs@)),
{
    let mut out: Vec<DbInfo> = Vec::new();
    let mut i: usize = 0;
    assert(dirs@.take(0) =~= Seq::empty());
    assert(db_views(out@) =~= Seq::<DbModel>::empty());
    while i < dirs.len()
        invariant
            i <= dirs.len(),
            db_views(out@) == unix_dbs(dirs@.take(i as int)),
        decreases dirs.len() - i,
    {
        let d = &dirs[i];
        assert(dirs@.take(i + 1).drop_last() =~= dirs@.take(i as int));
        let chosen: Option<String> = match &d.files {
            Some(files) => match &d.exact {
                Some(p) => Some(p.clone()),
                None => match find_largest(files) {
                    Some(k) => Some(files[k].path.clone()),
                    None => None,
                },
            },
            None => None,
        };
        match chosen {
            Some(path) => {
                let ghost before = out@;
                let db = DbInfo { qq: account_of(d.name.as_str()), path };
                let ghost added = db@;
                out.push(db);
                assert(db_views(out@) =~= db_views(before).push(added));
            },
            None => {},
        }
        i += 1;
    }
    assert(dirs@.take(dirs@.len() as int) =~= dirs@);
    sort_by_qq(out)
}

/// The accounts of a root are its directories of digits that hold a database, each told by
/// its own name and its database's path, in their order.
pub proof fn law_account_directories(entries: Seq<AccountDir>)
    ensures
        account_dbs(entries) == entries.filter(
            |e: AccountDir|
                e.db is Some && forall|i: int|
                    0 <= i < e.name@.len() ==> '0' <= #[trigger] e.name@[i] <= '9',
        ).map_values(|e: AccountDir| DbModel { qq: e.name@, path: e.db->0@ }),
    decreases entries.len(),
{
    reveal(Seq::filter);
    let p = |e: AccountDir|
        e.db is Some && forall|i: int|
            0 <= i < e.name@.len() ==> '0' <= #[trigger] e.name@[i] <= '9';
    let f = |e: AccountDir| DbModel { qq: e.name@, path: e.db->0@ };
    if entries.len() == 0 {
        assert(entries.filter(p).map_values(f) =~= Seq::empty());
    } else {
        law_account_directories(entries.drop_last());
        let e = entries.last();
        if forall|i: int| 0 <= i < e.name@.len() ==> '0' <= #[trigger] e.name@[i] <= '9' {
            assert forall|i: int| 0 <= i < e.name@.len() implies is_digit(#[trigger] e.name@[i]) by {}
        } else {
            let i = choose|i: int| 0 <= i < e.name@.len() && !('0' <= #[trigger] e.name@[i] <= '9');
            assert(!is_digit(e.name@[i]));
        }
        if p(e) {
            assert(entries.filter(p) == entries.drop_last().filter(p).push(e));
            assert(entries.filter(p).map_values(f) =~= entries.drop_last().filter(p).map_values(
                f,
            ).push(f(e)));
        }
    }
}

/// The account of a path is its last part of digits alone.
pub proof fn law_nearest_number(parts: Seq<Seq<char>>)
    ensures
        match nearest_number(parts, parts.len() as int) {
            Some(q) => exists|i: int|
                0 <= i < parts.len() && #[trigger] parts[i] == q && all_digits(parts[i])
                    && forall|j: int| i < j < parts.len() ==> !all_digits(#[trigger] parts[j]),
            None => forall|i: int| 0 <= i < parts.len() ==> !all_digits(#[trigger] parts[i]),
        },
{
    lemma_nearest_number(parts, parts.len() as int);
}

proof fn lemma_nearest_number(parts: Seq<Seq<char>>, n: int)
    requires
        0 <= n <= parts.len(),
    ensures
        match nearest_number(parts, n) {
            Some(q) => exists|i: int|
                0 <= i < n && #[trigger] parts[i] == q && all_digits(parts[i]) && forall|j: int|
                    i < j < n ==> !all_digits(#[trigger] parts[j]),
            None => forall|i: int| 0 <= i < n ==> !all_digits(#[trigger] parts[i]),
        },
    decreases n,
{
    if n > 0 && !all_digits(parts[n - 1]) {
        lemma_nearest_number(parts, n - 1);
        match nearest_number(parts, n - 1) {
            Some(q) => {
                let i = choose|i: int|
                    0 <= i < n - 1 && #[trigger] parts[i] == q && all_digits(parts[i]) && forall|
                        j: int,
                    |
                        i < j < n - 1 ==> !all_digits(#[trigger] parts[j]);
                assert(parts[i] == q);
            },
            None => {},
        }
    } else if n > 0 {
        assert(parts[n - 1] == parts[n - 1]);
    }
}

/// A message database has `msg` in its name and `.db` at its end, in letters of any size.
pub proof fn law_message_db_names(name: Seq<char>)
    ensures
        message_db_name(name) <==> (exists|a: Seq<char>, b: Seq<char>|
            lowered(name) == #[trigger] (a + "msg"@ + b)) && (exists|a: Seq<char>|
            lowered(name) == #[trigger] (a + ".db"@)),
{
    crate::text::law_contains(lowered(name), "msg"@);
    crate::text::law_starts_and_ends(lowered(name), ".db"@);
}

/// Of several message databases the largest is taken, the first of several as large; where
/// no file is one, none is.
pub proof fn law_largest_message_db(files: Seq<DbFile>)
    ensures
        match largest_message_db(files) {
            Some(f) => exists|i: int|
                0 <= i < files.len() && #[trigger] files[i] == f && message_db_name(f.name@) && (
                forall|j: int|
                    0 <= j < files.len() && message_db_name((#[trigger] files[j]).name@)
                        ==> files[j].len <= f.len) && (forall|j: int|
                    0 <= j < i && message_db_name((#[trigger] files[j]).name@) ==> files[j].len
                        < f.len),
            None => forall|j: int|
                0 <= j < files.len() ==> !message_db_name((#[trigger] files[j]).name@),
        },
    decreases files.len(),
{
    if files.len() > 0 {
        let front = files.drop_last();
        let n = files.len() - 1;
        law_largest_message_db(front);
        assert forall|j: int| 0 <= j < front.len() implies front[j] == #[trigger] files[j] by {}
        match largest_message_db(front) {
            Some(f) => {
                let i = choose|i: int|
                    0 <= i < front.len() && #[trigger] front[i] == f && message_db_name(f.name@) && (
                    forall|j: int|
                        0 <= j < front.len() && message_db_name((#[trigger] front[j]).name@)
                            ==> front[j].len <= f.len) && (forall|j: int|
                        0 <= j < i && message_db_name((#[trigger] front[j]).name@) ==> front[j].len
                            < f.len);
                assert(files[i] == f);
                assert forall|j: int|
                    0 <= j < n && message_db_name((#[trigger] files[j]).name@) implies files[j].len
                    <= f.len by {
                    assert(front[j] == files[j]);
                }
                assert forall|j: int|
                    0 <= j < i && message_db_name((#[trigger] files[j]).name@) implies files[j].len
                    < f.len by {
                    assert(front[j] == files[j]);
                }
                assert(files[n] == files.last());
            },
            None => {
                assert forall|j: int| 0 <= j < n implies !message_db_name(
                    (#[trigger] files[j]).name@,
                ) by {
                    assert(front[j] == files[j]);
                }
                assert(files[n] == files.last());
            },
        }
    }
}

/// The account of a directory is its name without the `nt_qq_` in front, however often it
/// stands there; a name of that alone is the account.
pub proof fn law_unix_accounts(name: Seq<char>)
    ensures
        without_prefix("nt_qq_"@ + name) == without_prefix(name),
        (forall|rest: Seq<char>| name != #[trigger] ("nt_qq_"@ + rest)) ==> without_prefix(name)
            == name,
        name.len() > 0 && (forall|rest: Seq<char>| name != #[trigger] ("nt_qq_"@ + rest))
            ==> unix_qq("nt_qq_"@ + name) == name && unix_qq(name) == name,
        unix_qq("nt_qq_"@) == "nt_qq_"@,
{
    reveal_strlit("nt_qq_");
    let p = "nt_qq_"@;
    crate::text::law_starts_and_ends(p + name, p);
    crate::text::law_starts_and_ends(name, p);
    assert((p + name).skip(p.len() as int) =~= name);
    let e = Seq::<char>::empty();
    assert(p + e =~= p);
    crate::text::law_starts_and_ends(p, p);
    assert(p.skip(p.len() as int) =~= e);
    assert(without_prefix(e) == e);
    assert(without_prefix(p + name) == without_prefix(name));
    if forall|rest: Seq<char>| name != #[trigger] (p + rest) {
        assert(!starts_with_seq(name, p));
        assert(without_prefix(name) == name);
    }
}

/// A directory that can be listed is told by the database of the known name where it holds
/// that, else by its largest message database, and not at all without either.
pub proof fn law_unix_databases(d: UnixDir)
    ensures
        d.files is None ==> unix_db(d) is None,
        d.files is Some && d.exact is Some ==> unix_db(d) == Some(
            DbModel { qq: unix_qq(d.name@), path: d.exact->0@ },
        ),
        d.files is Some && d.exact is None ==> (unix_db(d) is Some <==> exists|j: int|
            0 <= j < d.files->0@.len() && message_db_name((#[trigger] d.files->0@[j]).name@)),
        unix_db(d) is Some ==> unix_db(d)->0.qq == unix_qq(d.name@),
        unix_db(d) is Some && d.exact is None ==> exists|j: int|
            0 <= j < d.files->0@.len() && (#[trigger] d.files->0@[j]).path@ == unix_db(d)->0.path
                && message_db_name(d.files->0@[j].name@),
{
    if d.files is Some {
        let files = d.files->0@;
        law_largest_message_db(files);
        match largest_message_db(files) {
            Some(f) => {
                let i = choose|i: int|
                    0 <= i < files.len() && #[trigger] files[i] == f && message_db_name(f.name@) && (
                    forall|j: int|
                        0 <= j < files.len() && message_db_name((#[trigger] files[j]).name@)
                            ==> files[j].len <= f.len) && (forall|j: int|
                        0 <= j < i && message_db_name((#[trigger] files[j]).name@) ==> files[j].len
                            < f.len);
                assert(message_db_name(files[i].name@));
            },
            None => {},
        }
    }
}

/// The databases of several directories are those of each, in order.
pub proof fn law_unix_directories(dirs: Seq<UnixDir>, d: UnixDir)
    ensures
        unix_dbs(Seq::empty()).len() == 0,
        unix_db(d) is Some ==> unix_dbs(dirs.push(d)) == unix_dbs(dirs).push(unix_db(d)->0),
        unix_db(d) is None ==> unix_dbs(dirs.push(d)) == unix_dbs(dirs),
{
    assert(dirs.push(d).drop_last() =~= dirs);
}

/// A database is seen as what its fields hold, each under its own name.
pub proof fn law_database_view(v: DbInfo)
    ensures
        v@.qq == v.qq@,
        v@.path == v.path@,
{
}

} // verus!

//! UID -> QQ number pairs of the known mapping tables ("48901" = uid, "40020" = qq
//! number). A best-effort reading: a table without these columns gives nothing.

use vstd::prelude::*;

use crate::store::index::{Cell, CellModel};
use crate::store::names::{
    cell_views, grid, lemma_table_named, opt_index, table_named, TableData,
};
use crate::text::{same, views};

verus! {

/// The place of a column from `from` on.
pub open spec fn column_named(names: Seq<Seq<char>>, name: Seq<char>, from: int) -> Option<int>
    decreases names.len() - from,
{
    if from < 0 || from >= names.len() {
        None
    } else if names[from] == name {
        Some(from)
    } else {
        column_named(names, name, from + 1)
    }
}

/// The text of a column, empty where it is no text.
pub open spec fn plain_text(row: Seq<CellModel>, i: int) -> Seq<char> {
    if 0 <= i < row.len() {
        match row[i] {
            CellModel::Text(s) => s,
            _ => Seq::empty(),
        }
    } else {
        Seq::empty()
    }
}

/// The pairs of the rows with both halves.
pub open spec fn pairs_in(rows: Seq<Seq<CellModel>>, uid: int, qq: int) -> Seq<
    (Seq<char>, Seq<char>),
>
    decreases rows.len(),
{
    if rows.len() == 0 {
        Seq::empty()
    } else {
        let before = pairs_in(rows.drop_last(), uid, qq);
        let a = plain_text(rows.last(), uid);
        let b = plain_text(rows.last(), qq);
        if a.len() > 0 && b.len() > 0 {
            before.push((a, b))
        } else {
            before
        }
    }
}

/// The first rows of a table, at most `limit`.
pub open spec fn limited(rows: Seq<Seq<CellModel>>, limit: nat) -> Seq<Seq<CellModel>> {
    if rows.len() <= limit {
        rows
    } else {
        rows.take(limit as int)
    }
}

/// The pairs of a table's first rows.
pub open spec fn table_pairs(t: TableData, limit: nat) -> Seq<(Seq<char>, Seq<char>)> {
    let names = views(t.columns@);
    match (column_named(names, "48901"@, 0), column_named(names, "40020"@, 0)) {
        (Some(uid), Some(qq)) => pairs_in(limited(grid(t.rows@), limit), uid, qq),
        _ => Seq::empty(),
    }
}

/// The mapping tables, in the order in which they are tried.
pub open spec fn mapping_tables() -> Seq<Seq<char>> {
    seq!["nt_uid_mapping_table"@, "uid_mapping"@, "buddy_mapping"@]
}

/// The pairs of the first mapping table that has any, from the `k`-th on.
pub open spec fn mapped_pairs(tables: Seq<TableData>, limit: nat, k: int) -> Seq<
    (Seq<char>, Seq<char>),
>
    decreases mapping_tables().len() - k,
{
    if k < 0 || k >= mapping_tables().len() {
        Seq::empty()
    } else {
        match table_named(tables, mapping_tables()[k], 0) {
            Some(i) => if table_pairs(tables[i], limit).len() > 0 {
                table_pairs(tables[i], limit)
            } else {
                mapped_pairs(tables, limit, k + 1)
            },
            None => mapped_pairs(tables, limit, k + 1),
        }
    }
}

/// The view of pairs.
pub open spec fn pair_views(v: Seq<(String, String)>) -> Seq<(Seq<char>, Seq<char>)> {
    v.map_values(|p: (String, String)| (p.0@, p.1@))
}

fn find_column(names: &Vec<String>, name: &str) -> (r: Option<usize>)
    ensures
        opt_index(r) == column_named(views(names@), name@, 0),
{
    let mut i: usize = 0;
    while i < names.len()
        invariant
            i <= names.len(),
            column_named(views(names@), name@, 0) == column_named(views(names@), name@, i as int),
        decreases names.len() - i,
    {
        assert(views(names@)[i as int] == names@[i as int]@);
        if same(names[i].as_str(), name) {
            return Some(i);
        }
        i += 1;
    }
    None
}

fn text_of(row: &Vec<Cell>, i: usize) -> (r: String)
    ensures
        r@ == plain_text(cell_views(row@), i as int),
{
    if i < row.len() {
        assert(cell_views(row@)[i as int] == row@[i as int]@);
        match &row[i] {
            Cell::Text(s) => s.clone(),
            _ => String::new(),
        }
    } else {
        String::new()
    }
}

fn read_pairs(t: &TableData, limit: usize) -> (r: Vec<(String, String)>)
    ensures
        pair_views(r@) == table_pairs(*t, limit as nat),
{
    let mut r: Vec<(String, String)> = Vec::new();
    assert(pair_views(r@) =~= Seq::empty());
    let uid = match find_column(&t.columns, "48901") {
        Some(i) => i,
        None => return r,
    };
    let qq = match find_column(&t.columns, "40020") {
        Some(i) => i,
        None => return r,
    };
    let n: usize = if t.rows.len() <= limit {
        t.rows.len()
    } else {
        limit
    };
    let ghost all = limited(grid(t.rows@), limit as nat);
    let mut i: usize = 0;
    assert(all.take(0) =~= Seq::empty());
    while i < n
        invariant
            i <= n <= t.rows.len(),
            n == all.len(),
            all == limited(grid(t.rows@), limit as nat),
            pair_views(r@) == pairs_in(all.take(i as int), uid as int, qq as int),
        decreases n - i,
    {
        proof {
            let now = all.take(i + 1);
            assert(now.drop_last() =~= all.take(i as int));
            assert(now.last() == cell_views(t.rows@[i as int]@));
        }
        let a = text_of(&t.rows[i], uid);
        let b = text_of(&t.rows[i], qq);
        if !a.as_str().is_empty() && !b.as_str().is_empty() {
            let ghost before = r@;
            let ghost added = (a@, b@);
            r.push((a, b));
            assert(pair_views(r@) =~= pair_views(before).push(added));
        }
        i += 1;
    }
    assert(all.take(all.len() as int) =~= all);
    r
}

/// The (uid, qq) pairs of the first known mapping table that has any among its first
/// `limit` rows.
pub fn load_uid_map(tables: &Vec<TableData>, limit: usize) -> (r: Vec<(String, String)>)
    ensures
        pair_views(r@) == mapped_pairs(tables@, limit as nat, 0),
{
    let names: Vec<&'static str> = vec!["nt_uid_mapping_table", "uid_mapping", "buddy_mapping"];
    let mut k: usize = 0;
    while k < names.len()
        invariant
            k <= names.len(),
            names@.len() == mapping_tables().len(),
            forall|j: int| 0 <= j < names@.len() ==> #[trigger] names@[j]@ == mapping_tables()[j],
            mapped_pairs(tables@, limit as nat, 0) == mapped_pairs(
                tables@,
                limit as nat,
                k as int,
            ),
        decreases names.len() - k,
    {
        assert(names@[k as int]@ == mapping_tables()[k as int]);
        let mut i: usize = 0;
        while i < tables.len() && !same(tables[i].name.as_str(), names[k])
            invariant
                i <= tables.len(),
                k < names.len(),
                table_named(tables@, names@[k as int]@, 0) == table_named(
                    tables@,
                    names@[k as int]@,
                    i as int,
                ),
            ensures
                opt_index(
                    if i < tables.len() {
                        Some(i)
                    } else {
                        None
                    },
                ) == table_named(tables@, names@[k as int]@, 0),
            decreases tables.len() - i,
        {
            i += 1;
        }
        if i < tables.len() {
            let pairs = read_pairs(&tables[i], limit);
            assert(pair_views(pairs@).len() == pairs@.len());
            if pairs.len() > 0 {
                return pairs;
            }
        }
        k += 1;
    }
    let none: Vec<(String, String)> = Vec::new();
    assert(pair_views(none@) =~= Seq::empty());
    none
}

proof fn lemma_column_named(names: Seq<Seq<char>>, name: Seq<char>, from: int)
    requires
        0 <= from,
    ensures
        match column_named(names, name, from) {
            Some(i) => from <= i < names.len() && names[i] == name && forall|j: int|
                from <= j < i ==> #[trigger] names[j] != name,
            None => forall|j: int| from <= j < names.len() ==> #[trigger] names[j] != name,
        },
    decreases names.len() - from,
{
    if from < names.len() && names[from] != name {
        lemma_column_named(names, name, from + 1);
    }
}

/// The pairs of rows are those of their two columns, from top to bottom, where both hold a
/// text that is not empty.
pub proof fn law_pairs_of_rows(rows: Seq<Seq<CellModel>>, uid: int, qq: int)
    ensures
        pairs_in(rows, uid, qq) == rows.filter(
            |r: Seq<CellModel>| plain_text(r, uid).len() > 0 && plain_text(r, qq).len() > 0,
        ).map_values(|r: Seq<CellModel>| (plain_text(r, uid), plain_text(r, qq))),
    decreases rows.len(),
{
    reveal(Seq::filter);
    let p = |r: Seq<CellModel>| plain_text(r, uid).len() > 0 && plain_text(r, qq).len() > 0;
    let f = |r: Seq<CellModel>| (plain_text(r, uid), plain_text(r, qq));
    if rows.len() == 0 {
        assert(rows.filter(p).map_values(f) =~= Seq::empty());
    } else {
        law_pairs_of_rows(rows.drop_last(), uid, qq);
        if p(rows.last()) {
            assert(rows.filter(p) == rows.drop_last().filter(p).push(rows.last()));
            assert(rows.filter(p).map_values(f) =~= rows.drop_last().filter(p).map_values(f).push(
                f(rows.last()),
            ));
        }
    }
}

/// Only a text cell holds a text; a number does not count as one.
pub proof fn law_plain_texts(row: Seq<CellModel>, i: int)
    ensures
        0 <= i < row.len() && row[i] is Text ==> plain_text(row, i) == row[i]->Text_0,
        0 <= i < row.len() && !(row[i] is Text) ==> plain_text(row, i).len() == 0,
        i < 0 || i >= row.len() ==> plain_text(row, i).len() == 0,
{
}

/// A mapping table tells pairs of its first columns 48901 and 40020, in this order, from as
/// many rows as asked for; a table that lacks either tells none.
pub proof fn law_table_pairs(t: TableData, limit: nat, u: int, q: int)
    requires
        0 <= u < t.columns@.len(),
        0 <= q < t.columns@.len(),
        t.columns@[u]@ == "48901"@,
        t.columns@[q]@ == "40020"@,
        forall|j: int| 0 <= j < u ==> (#[trigger] t.columns@[j])@ != "48901"@,
        forall|j: int| 0 <= j < q ==> (#[trigger] t.columns@[j])@ != "40020"@,
    ensures
        t.rows@.len() <= limit ==> table_pairs(t, limit) == pairs_in(grid(t.rows@), u, q),
        t.rows@.len() > limit ==> table_pairs(t, limit) == pairs_in(
            grid(t.rows@).take(limit as int),
            u,
            q,
        ),
{
    let names = views(t.columns@);
    lemma_column_named(names, "48901"@, 0);
    lemma_column_named(names, "40020"@, 0);
    assert(names[u] == "48901"@ && names[q] == "40020"@);
    assert forall|j: int| 0 <= j < u implies #[trigger] names[j] != "48901"@ by {
        assert(t.columns@[j]@ != "48901"@);
    }
    assert forall|j: int| 0 <= j < q implies #[trigger] names[j] != "40020"@ by {
        assert(t.columns@[j]@ != "40020"@);
    }
}

/// The mapping tables are tried in order: the first that tells a pair is read, and where
/// none does there are no pairs.
pub proof fn law_mapping_order(tables: Seq<TableData>, limit: nat, i: int)
    requires
        0 <= i < tables.len(),
        forall|j: int| 0 <= j < i ==> (#[trigger] tables[j]).name@ != tables[i].name@,
    ensures
        tables[i].name@ == "nt_uid_mapping_table"@ && table_pairs(tables[i], limit).len() > 0
            ==> mapped_pairs(tables, limit, 0) == table_pairs(tables[i], limit),
        tables.len() == 1 && (tables[i].name@ == "nt_uid_mapping_table"@ || tables[i].name@
            == "uid_mapping"@ || tables[i].name@ == "buddy_mapping"@) ==> mapped_pairs(
            tables,
            limit,
            0,
        ) == table_pairs(tables[i], limit),
        (forall|j: int| 0 <= j < tables.len() ==> table_pairs(#[trigger] tables[j], limit).len() == 0)
            ==> mapped_pairs(tables, limit, 0).len() == 0,
{
    let u = mapping_tables();
    lemma_table_named(tables, u[0], 0);
    lemma_table_named(tables, u[1], 0);
    lemma_table_named(tables, u[2], 0);
    reveal_with_fuel(mapped_pairs, 4);
    reveal_strlit("nt_uid_mapping_table");
    reveal_strlit("uid_mapping");
    reveal_strlit("buddy_mapping");
    if table_pairs(tables[i], limit).len() == 0 {
        assert(table_pairs(tables[i], limit) =~= Seq::empty());
    }
}

} // verus!

//! Best-effort harvest of uid and group name maps from the mapping sources.
//!
//! The sources have no documented stable schema: the uid mapping table maps `u_...` uids
//! to remark/nick/QQ data, and group names typically live in a sibling database. Column
//! classification is value-driven (`u_` ratio, all-digit ratio, Han ratio over a sample)
//! with column-name hints as a tie-breaker, and the group-id column is picked by overlap
//! with the group ids the index already knows. Group tables whose names merely drift are
//! only trusted after an agreement check: their name column must reproduce a group name
//! that a rename message told.
//!
//! Tables come in as plain values. Nothing here fails: a source that is not understood
//! leaves the maps as they were.

use vstd::prelude::*;

use crate::order::{by_name, ints, law_sorted_places, lemma_name_order, name_leq, sort_texts};
use crate::parser::han_count;
use crate::parser::types::{record_views, ChatType, MessageRecord, RecordModel};
use crate::pathname::{extension_of, name_extension};
use crate::store::index::{Cell, CellModel};
use crate::store::{
    text_get, text_put, texts, ConversationModel, NameMaps, NamesModel, Store, TextMap,
};
use crate::strmap::{assoc, law_put_then_get, place, put, StrMap};
use crate::text::{
    all_digits, chars_of, contains, contains_seq, decimal, decimal_i64, is_all_digits, opt_view,
    same, starts_with, starts_with_seq, to_lower, lowered, views,
};

verus! {

/// Sample size for column classification (first rows of a table).
pub const PROBE_LIMIT: usize = 1000;

/// Cap on sibling files that are opened without a known name.
pub const FALLBACK_SCAN_CAP: usize = 6;

/// One table of a source database: its columns and rows.
#[derive(Debug)]
pub struct TableData {
    pub name: String,
    pub columns: Vec<String>,
    pub rows: Vec<Vec<Cell>>,
}

/// The values of a row.
pub open spec fn cell_views(row: Seq<Cell>) -> Seq<CellModel> {
    row.map_values(|c: Cell| c@)
}

/// The rows of a table.
pub open spec fn grid(rows: Seq<Vec<Cell>>) -> Seq<Seq<CellModel>> {
    rows.map_values(|r: Vec<Cell>| cell_views(r@))
}

/// A text or integer value as text.
pub open spec fn value_text(c: CellModel) -> Option<Seq<char>> {
    match c {
        CellModel::Text(s) => Some(s),
        CellModel::Int(i) => Some(decimal(i as int)),
        _ => None,
    }
}

/// The text in column `i` of a row, or the empty text.
pub open spec fn row_text(row: Seq<CellModel>, i: int) -> Seq<char> {
    if 0 <= i < row.len() {
        match value_text(row[i]) {
            Some(s) => s,
            None => Seq::empty(),
        }
    } else {
        Seq::empty()
    }
}

/// The first rows of a table, as many as are looked at.
pub open spec fn sample(rows: Seq<Seq<CellModel>>) -> Seq<Seq<CellModel>> {
    if rows.len() <= PROBE_LIMIT {
        rows
    } else {
        rows.take(PROBE_LIMIT as int)
    }
}

/// The non-empty texts of column `i`, row by row.
pub open spec fn column_values(rows: Seq<Seq<CellModel>>, i: int) -> Seq<Seq<char>>
    decreases rows.len(),
{
    if rows.len() == 0 {
        Seq::empty()
    } else {
        let before = column_values(rows.drop_last(), i);
        let s = row_text(rows.last(), i);
        if s.len() > 0 {
            before.push(s)
        } else {
            before
        }
    }
}

/// A value that begins like a uid.
pub open spec fn uid_like(s: Seq<char>) -> bool {
    starts_with_seq(s, "u_"@)
}

/// A value that looks like an account or group number: five to twelve digits.
pub open spec fn number_like(s: Seq<char>) -> bool {
    5 <= s.len() <= 12 && all_digits(s)
}

/// A value of at least two characters, 60% of them or more common Han.
pub open spec fn han_like(s: Seq<char>) -> bool {
    s.len() >= 2 && 5 * han_count(s) >= 3 * s.len()
}

/// How many values begin like a uid.
pub open spec fn uid_count(values: Seq<Seq<char>>) -> nat
    decreases values.len(),
{
    if values.len() == 0 {
        0
    } else {
        uid_count(values.drop_last()) + if uid_like(values.last()) {
            1nat
        } else {
            0
        }
    }
}

/// How many values look like numbers.
pub open spec fn number_count(values: Seq<Seq<char>>) -> nat
    decreases values.len(),
{
    if values.len() == 0 {
        0
    } else {
        number_count(values.drop_last()) + if number_like(values.last()) {
            1nat
        } else {
            0
        }
    }
}

/// How many values are mostly Han.
pub open spec fn han_value_count(values: Seq<Seq<char>>) -> nat
    decreases values.len(),
{
    if values.len() == 0 {
        0
    } else {
        han_value_count(values.drop_last()) + if han_like(values.last()) {
            1nat
        } else {
            0
        }
    }
}

/// The distinct values.
pub open spec fn distinct_values(values: Seq<Seq<char>>) -> Seq<(Seq<char>, bool)>
    decreases values.len(),
{
    if values.len() == 0 {
        Seq::empty()
    } else {
        put(distinct_values(values.drop_last()), values.last(), true)
    }
}

/// How many of the distinct values are known.
pub open spec fn known_count(
    distinct: Seq<(Seq<char>, bool)>,
    known: Seq<(Seq<char>, bool)>,
) -> nat
    decreases distinct.len(),
{
    if distinct.len() == 0 {
        0
    } else {
        known_count(distinct.drop_last(), known) + if assoc(known, distinct.last().0) is Some {
            1nat
        } else {
            0
        }
    }
}

/// How many values of column `i` are texts or integers, empty ones included.
pub open spec fn readable_values(rows: Seq<Seq<CellModel>>, i: int) -> nat
    decreases rows.len(),
{
    if rows.len() == 0 {
        0
    } else {
        let row = rows.last();
        readable_values(rows.drop_last(), i) + if 0 <= i < row.len() && value_text(row[i]) is Some {
            1nat
        } else {
            0
        }
    }
}

/// A column of a table: its name, how many values of the sample are texts or integers, and
/// the non-empty texts among them.
pub struct ColModel {
    pub name: Seq<char>,
    pub total: nat,
    pub values: Seq<Seq<char>>,
}

impl ColModel {
    /// More than 80% of the values begin like uids.
    pub open spec fn mostly_uids(self) -> bool {
        self.values.len() > 0 && 5 * uid_count(self.values) > 4 * self.values.len()
    }

    /// More than 90% of the values look like numbers.
    pub open spec fn mostly_numbers(self) -> bool {
        self.values.len() > 0 && 10 * number_count(self.values) > 9 * self.values.len()
    }

    /// More than half of the values are mostly Han.
    pub open spec fn mostly_han(self) -> bool {
        self.values.len() > 0 && 2 * han_value_count(self.values) > self.values.len()
    }

    /// How many distinct values there are.
    pub open spec fn cardinality(self) -> nat {
        distinct_values(self.values).len()
    }

    /// The column's name in lower case holds `hint`.
    pub open spec fn hints(self, hint: Seq<char>) -> bool {
        contains_seq(lowered(self.name), hint)
    }
}

/// Column `i` of rows.
pub open spec fn column_of(name: Seq<char>, rows: Seq<Seq<CellModel>>, i: int) -> ColModel {
    ColModel { name, total: readable_values(rows, i), values: column_values(rows, i) }
}

/// The columns of a table over its sample.
pub open spec fn columns_of(names: Seq<Seq<char>>, rows: Seq<Seq<CellModel>>) -> Seq<ColModel> {
    Seq::new(
        names.len(),
        |i: int| column_of(names[i], sample(rows), i),
    )
}

/// The columns of a table.
pub open spec fn table_columns(t: TableData) -> Seq<ColModel> {
    columns_of(views(t.columns@), grid(t.rows@))
}

/// What a column is looked for as.
#[derive(Debug, Clone, Copy)]
pub enum Pick {
    /// Mostly uids.
    UidKey,
    /// Mostly numbers, named after account numbers.
    QqNamed,
    /// Mostly numbers, many of them distinct.
    QqWide,
    /// The non-empty column of a field id.
    FieldId(&'static str),
    /// Mostly Han, named after remarks.
    Remark,
    /// Mostly Han, named after nicknames.
    Nick,
    /// Mostly numbers, the field id of group ids.
    GroupId,
    /// Mostly Han, named after names.
    GroupName,
}

/// The column at `i` is one to pick. The key column is no value column.
pub open spec fn picks(pick: Pick, key: int, i: int, c: ColModel) -> bool {
    match pick {
        Pick::UidKey => c.mostly_uids(),
        Pick::QqNamed => i != key && c.mostly_numbers() && (c.hints("qq"@) || c.hints("uin"@)),
        Pick::QqWide => i != key && c.mostly_numbers() && c.cardinality() >= c.values.len() / 2,
        Pick::FieldId(id) => i != key && c.values.len() > 0 && c.name == id@,
        Pick::Remark => i != key && c.mostly_han() && remark_hint(c),
        Pick::Nick => i != key && c.mostly_han() && (c.hints("nick"@) || c.hints("昵称"@)
            || c.hints("name"@)),
        Pick::GroupId => c.mostly_numbers() && c.name == "60001"@,
        Pick::GroupName => i != key && c.mostly_han() && (c.hints("name"@) || c.hints("title"@)
            || c.hints("名"@)),
    }
}

/// The first column from `from` on to pick.
pub open spec fn first_col(cols: Seq<ColModel>, pick: Pick, key: int, from: int) -> Option<int>
    decreases cols.len() - from,
{
    if from < 0 || from >= cols.len() {
        None
    } else if picks(pick, key, from, cols[from]) {
        Some(from)
    } else {
        first_col(cols, pick, key, from + 1)
    }
}

/// The column that holds uids: the first with mostly `u_...` values.
pub open spec fn uid_key_col(cols: Seq<ColModel>) -> Option<int> {
    first_col(cols, Pick::UidKey, -1, 0)
}

/// The column whose distinct values hold most of the known keys among the first `n`; the
/// first such. None where no column holds any.
pub open spec fn overlap_col(
    cols: Seq<ColModel>,
    known: Seq<(Seq<char>, bool)>,
    n: int,
) -> Option<int>
    decreases n,
{
    if n <= 0 || n > cols.len() {
        None
    } else {
        let best = overlap_col(cols, known, n - 1);
        let here = known_count(distinct_values(cols[n - 1].values), known);
        let there = match best {
            Some(b) => known_count(distinct_values(cols[b].values), known),
            None => 0,
        };
        if here > there {
            Some(n - 1)
        } else {
            best
        }
    }
}

/// The column that holds account numbers: of those with mostly numbers one that is named
/// after them, else one with many distinct values.
pub open spec fn qq_col(cols: Seq<ColModel>, key: int) -> Option<int> {
    let hinted = first_col(cols, Pick::QqNamed, key, 0);
    if hinted is Some {
        hinted
    } else {
        first_col(cols, Pick::QqWide, key, 0)
    }
}

/// A column name that tells of remarks.
pub open spec fn remark_hint(c: ColModel) -> bool {
    c.hints("remark"@) || c.hints("note"@) || c.hints("alias"@) || c.hints("备注"@)
        || lowered(c.name) == "60026"@ || lowered(c.name) == "20003"@
}

/// The column that holds remarks: the field id of remarks, else a mostly-Han column that
/// is named after them.
pub open spec fn remark_col(cols: Seq<ColModel>, key: int) -> Option<int> {
    let by_id = first_col(cols, Pick::FieldId("20009"), key, 0);
    if by_id is Some {
        by_id
    } else {
        first_col(cols, Pick::Remark, key, 0)
    }
}

/// The column that holds nicknames: the field id of nicknames, else a mostly-Han column
/// that is named after them.
pub open spec fn nick_col(cols: Seq<ColModel>, key: int) -> Option<int> {
    let by_id = first_col(cols, Pick::FieldId("20002"), key, 0);
    if by_id is Some {
        by_id
    } else {
        first_col(cols, Pick::Nick, key, 0)
    }
}

/// Of the first `n` columns with mostly numbers the last with the most distinct values.
pub open spec fn widest_number_col(cols: Seq<ColModel>, n: int) -> Option<int>
    decreases n,
{
    if n <= 0 || n > cols.len() {
        None
    } else {
        let best = widest_number_col(cols, n - 1);
        let c = cols[n - 1];
        if c.mostly_numbers() && (best is None || c.cardinality() >= cols[best->0].cardinality()) {
            Some(n - 1)
        } else {
            best
        }
    }
}

/// The column that holds group ids: by overlap with the known ones, else the field id of
/// group ids, else the number column with the most distinct values.
pub open spec fn group_key_col(cols: Seq<ColModel>, group_ids: Seq<(Seq<char>, bool)>) -> Option<int> {
    let by_overlap = overlap_col(cols, group_ids, cols.len() as int);
    let by_id = first_col(cols, Pick::GroupId, -1, 0);
    if by_overlap is Some {
        by_overlap
    } else if by_id is Some {
        by_id
    } else {
        widest_number_col(cols, cols.len() as int)
    }
}

/// The Han ratio of `a` is at least that of `b`.
pub open spec fn han_ratio_ge(a: ColModel, b: ColModel) -> bool {
    han_value_count(a.values) * b.values.len() >= han_value_count(b.values) * a.values.len()
}

/// Of the first `n` mostly-Han columns other than `key` the last with the highest ratio.
pub open spec fn most_han_col(cols: Seq<ColModel>, key: int, n: int) -> Option<int>
    decreases n,
{
    if n <= 0 || n > cols.len() {
        None
    } else {
        let best = most_han_col(cols, key, n - 1);
        let c = cols[n - 1];
        if n - 1 != key && c.mostly_han() && (best is None || han_ratio_ge(c, cols[best->0])) {
            Some(n - 1)
        } else {
            best
        }
    }
}

/// The column that holds group names: the field id of group names, else a mostly-Han
/// column that is named after names, else the most-Han column.
pub open spec fn group_name_col(cols: Seq<ColModel>, key: int) -> Option<int> {
    let by_id = first_col(cols, Pick::FieldId("60007"), key, 0);
    let hinted = first_col(cols, Pick::GroupName, key, 0);
    if by_id is Some {
        by_id
    } else if hinted is Some {
        hinted
    } else {
        most_han_col(cols, key, cols.len() as int)
    }
}

/// The map with the (key, value) pairs of the rows: the first row wins per key, and what
/// is there already stays. Pairs with an empty half are skipped.
pub open spec fn filled(m: TextMap, rows: Seq<Seq<CellModel>>, key: int, val: int) -> TextMap
    decreases rows.len(),
{
    if rows.len() == 0 {
        m
    } else {
        let before = filled(m, rows.drop_last(), key, val);
        let k = row_text(rows.last(), key);
        let v = row_text(rows.last(), val);
        if k.len() > 0 && v.len() > 0 && assoc(before, k) is None {
            put(before, k, v)
        } else {
            before
        }
    }
}

/// [`filled`], where there is a value column.
pub open spec fn filled_if(
    m: TextMap,
    rows: Seq<Seq<CellModel>>,
    key: int,
    val: Option<int>,
) -> TextMap {
    match val {
        Some(v) => filled(m, rows, key, v),
        None => m,
    }
}

/// Value statistics of one column over the sample.
pub struct ColStats {
    pub name: String,
    /// Values that are texts or integers.
    pub total: usize,
    /// Non-empty values.
    pub nonempty: usize,
    /// Values starting with "u_".
    pub u: usize,
    /// All-digit values of 5 to 12 digits.
    pub digit: usize,
    /// Values that are mostly Han characters.
    pub cjk: usize,
    /// Distinct non-empty values.
    pub distinct: StrMap<bool>,
    /// The first non-empty value, or the empty text.
    pub sample: String,
}

impl ColStats {
    /// The statistics are those of the column.
    pub open spec fn holds(&self, c: ColModel) -> bool {
        &&& self.name@ == c.name
        &&& self.total == c.total
        &&& self.nonempty == c.values.len()
        &&& self.u == uid_count(c.values)
        &&& self.digit == number_count(c.values)
        &&& self.cjk == han_value_count(c.values)
        &&& self.distinct.wf()
        &&& self.distinct@ == distinct_values(c.values)
        &&& self.sample@ == if c.values.len() > 0 {
            c.values[0]
        } else {
            Seq::empty()
        }
    }
}

/// The statistics are those of the columns.
pub open spec fn stats_hold(stats: Seq<ColStats>, cols: Seq<ColModel>) -> bool {
    &&& stats.len() == cols.len()
    &&& forall|i: int|
        #![trigger stats[i]]
        #![trigger cols[i]]
        0 <= i < stats.len() ==> stats[i].holds(cols[i])
}

/// A text or integer value as text (account numbers may be stored as integers).
pub fn value_str(c: &Cell) -> (r: Option<String>)
    ensures
        opt_view(r) == value_text(c@),
{
    match c {
        Cell::Text(s) => Some(s.clone()),
        Cell::Int(i) => Some(decimal_i64(*i)),
        _ => None,
    }
}

/// The text in a column of a row, or the empty text.
fn text_in(row: &Vec<Cell>, i: usize) -> (r: String)
    ensures
        r@ == row_text(cell_views(row@), i as int),
{
    if i < row.len() {
        assert(cell_views(row@)[i as int] == row@[i as int]@);
        match value_str(&row[i]) {
            Some(s) => s,
            None => String::new(),
        }
    } else {
        String::new()
    }
}

/// Whether a column of a row holds a text or an integer.
fn is_readable(row: &Vec<Cell>, i: usize) -> (r: bool)
    ensures
        r == (i < row@.len() && value_text(cell_views(row@)[i as int]) is Some),
{
    if i < row.len() {
        assert(cell_views(row@)[i as int] == row@[i as int]@);
        match &row[i] {
            Cell::Text(_) | Cell::Int(_) => true,
            _ => false,
        }
    } else {
        false
    }
}

fn is_han_like(s: &str) -> (r: bool)
    ensures
        r == han_like(s@),
{
    let v = chars_of(s);
    let mut n: usize = 0;
    let mut i: usize = 0;
    while i < v.len()
        invariant
            i <= v.len(),
            n == han_count(v@.take(i as int)),
            n <= i,
        decreases v.len() - i,
    {
        let c = v[i];
        if '\u{4E00}' <= c && c <= '\u{9FA5}' {
            n += 1;
        }
        i += 1;
        assert(v@.take(i as int).drop_last() =~= v@.take(i - 1));
    }
    assert(v@.take(v@.len() as int) =~= v@);
    v.len() >= 2 && 5 * n as u128 >= 3 * v.len() as u128
}

fn is_number_like(s: &str) -> (r: bool)
    ensures
        r == number_like(s@),
{
    let n: usize = chars_of(s).len();
    5 <= n && n <= 12 && is_all_digits(s)
}

/// Statistics of one column.
fn probe_column(name: &String, rows: &Vec<Vec<Cell>>, i: usize) -> (r: ColStats)
    ensures
        r.holds(column_of(name@, sample(grid(rows@)), i as int)),
{
    let ghost all = sample(grid(rows@));
    let n: usize = if rows.len() <= PROBE_LIMIT {
        rows.len()
    } else {
        PROBE_LIMIT
    };
    let mut c = ColStats {
        name: name.clone(),
        total: 0,
        nonempty: 0,
        u: 0,
        digit: 0,
        cjk: 0,
        distinct: StrMap::new(),
        sample: String::new(),
    };
    let mut j: usize = 0;
    assert(all.take(0) =~= Seq::empty());
    while j < n
        invariant
            j <= n <= rows.len(),
            n == all.len(),
            all == sample(grid(rows@)),
            c.holds(column_of(name@, all.take(j as int), i as int)),
            c.total <= j,
            c.nonempty <= j,
            c.u <= j,
            c.digit <= j,
            c.cjk <= j,
        decreases n - j,
    {
        let ghost before = column_values(all.take(j as int), i as int);
        proof {
            let now = all.take(j + 1);
            assert(now.drop_last() =~= all.take(j as int));
            assert(now.last() == cell_views(rows@[j as int]@));
        }
        if is_readable(&rows[j], i) {
            c.total += 1;
        }
        let s = text_in(&rows[j], i);
        if !s.as_str().is_empty() {
            proof {
                assert(before.push(s@).drop_last() =~= before);
            }
            if c.nonempty == 0 {
                c.sample = s.clone();
            }
            c.nonempty += 1;
            if starts_with(s.as_str(), "u_") {
                c.u += 1;
            }
            if is_number_like(s.as_str()) {
                c.digit += 1;
            }
            if is_han_like(s.as_str()) {
                c.cjk += 1;
            }
            c.distinct.insert(s, true);
        }
        j += 1;
    }
    assert(all.take(all.len() as int) =~= all);
    c
}

/// Value statistics for every column of a table, over its first rows. `None` for a table
/// without columns.
pub fn probe_table(t: &TableData) -> (r: Option<Vec<ColStats>>)
    ensures
        r is Some == (t.columns@.len() > 0),
        r is Some ==> stats_hold(r->0@, table_columns(*t)),
{
    if t.columns.len() == 0 {
        return None;
    }
    let mut stats: Vec<ColStats> = Vec::new();
    let mut i: usize = 0;
    while i < t.columns.len()
        invariant
            i <= t.columns.len(),
            stats.len() == i,
            forall|k: int| 0 <= k < i ==> (#[trigger] stats@[k]).holds(table_columns(*t)[k]),
        decreases t.columns.len() - i,
    {
        let c = probe_column(&t.columns[i], &t.rows, i);
        assert(c.holds(table_columns(*t)[i as int]));
        stats.push(c);
        i += 1;
    }
    Some(stats)
}

fn mostly_uids(c: &ColStats) -> (r: bool)
    ensures
        forall|m: ColModel| c.holds(m) ==> r == m.mostly_uids(),
{
    c.nonempty > 0 && 5 * c.u as u128 > 4 * c.nonempty as u128
}

fn mostly_numbers(c: &ColStats) -> (r: bool)
    ensures
        forall|m: ColModel| c.holds(m) ==> r == m.mostly_numbers(),
{
    c.nonempty > 0 && 10 * c.digit as u128 > 9 * c.nonempty as u128
}

fn mostly_han(c: &ColStats) -> (r: bool)
    ensures
        forall|m: ColModel| c.holds(m) ==> r == m.mostly_han(),
{
    c.nonempty > 0 && 2 * c.cjk as u128 > c.nonempty as u128
}

fn hints(c: &ColStats, hint: &str) -> (r: bool)
    ensures
        forall|m: ColModel| c.holds(m) ==> r == m.hints(hint@),
{
    let lower = to_lower(c.name.as_str());
    contains(lower.as_str(), hint)
}

/// The view of an optional index.
pub open spec fn opt_index(o: Option<usize>) -> Option<int> {
    match o {
        Some(i) => Some(i as int),
        None => None,
    }
}

fn has_remark_hint(c: &ColStats) -> (r: bool)
    ensures
        forall|m: ColModel| c.holds(m) ==> r == remark_hint(m),
{
    let lower = to_lower(c.name.as_str());
    let n = lower.as_str();
    contains(n, "remark") || contains(n, "note") || contains(n, "alias") || contains(n, "备注")
        || same(n, "60026") || same(n, "20003")
}

/// Whether a column is one to pick, whichever place the key has among the others.
fn accepts(pick: Pick, is_key: bool, c: &ColStats) -> (r: bool)
    ensures
        forall|m: ColModel, key: int, i: int|
            c.holds(m) && is_key == (i == key) ==> r == #[trigger] picks(pick, key, i, m),
{
    match pick {
        Pick::UidKey => mostly_uids(c),
        Pick::QqNamed => !is_key && mostly_numbers(c) && (hints(c, "qq") || hints(c, "uin")),
        Pick::QqWide => !is_key && mostly_numbers(c) && c.distinct.len() >= c.nonempty / 2,
        Pick::FieldId(id) => !is_key && c.nonempty > 0 && same(c.name.as_str(), id),
        Pick::Remark => !is_key && mostly_han(c) && has_remark_hint(c),
        Pick::Nick => !is_key && mostly_han(c) && (hints(c, "nick") || hints(c, "昵称") || hints(
            c,
            "name",
        )),
        Pick::GroupId => mostly_numbers(c) && same(c.name.as_str(), "60001"),
        Pick::GroupName => !is_key && mostly_han(c) && (hints(c, "name") || hints(c, "title")
            || hints(c, "名")),
    }
}

/// The first column to pick.
fn find_col(
    stats: &Vec<ColStats>,
    pick: Pick,
    key: Option<usize>,
    Ghost(cols): Ghost<Seq<ColModel>>,
) -> (r: Option<usize>)
    requires
        stats_hold(stats@, cols),
    ensures
        opt_index(r) == first_col(cols, pick, key_or(key), 0),
        r is Some ==> r->0 < cols.len(),
{
    let mut i: usize = 0;
    while i < stats.len()
        invariant
            i <= stats.len(),
            stats_hold(stats@, cols),
            first_col(cols, pick, key_or(key), 0) == first_col(cols, pick, key_or(key), i as int),
        decreases stats.len() - i,
    {
        assert(stats@[i as int].holds(cols[i as int]));
        let is_key = match key {
            Some(k) => k == i,
            None => false,
        };
        let ok = accepts(pick, is_key, &stats[i]);
        assert(ok == picks(pick, key_or(key), i as int, cols[i as int]));
        if ok {
            return Some(i);
        }
        i += 1;
    }
    None
}

/// The place of the key column, or one that no column has.
spec fn key_or(key: Option<usize>) -> int {
    match key {
        Some(k) => k as int,
        None => -1,
    }
}

/// uid key column: mostly `u_...` values.
fn classify_uid_key(stats: &Vec<ColStats>, Ghost(cols): Ghost<Seq<ColModel>>) -> (r: Option<usize>)
    requires
        stats_hold(stats@, cols),
    ensures
        opt_index(r) == uid_key_col(cols),
        r is Some ==> r->0 < cols.len(),
{
    find_col(stats, Pick::UidKey, None, Ghost(cols))
}

/// How many of the distinct values are known.
fn count_known(distinct: &StrMap<bool>, known: &StrMap<bool>) -> (n: usize)
    requires
        distinct.wf(),
        known.wf(),
    ensures
        n == known_count(distinct@, known@),
{
    let mut n: usize = 0;
    let mut i: usize = 0;
    assert(distinct@.take(0) =~= Seq::empty());
    while i < distinct.len()
        invariant
            i <= distinct@.len(),
            known.wf(),
            n == known_count(distinct@.take(i as int), known@),
            n <= i,
        decreases distinct@.len() - i,
    {
        assert(distinct@.take(i + 1).drop_last() =~= distinct@.take(i as int));
        if known.contains_key(distinct.key_at(i).as_str()) {
            n += 1;
        }
        i += 1;
    }
    assert(distinct@.take(distinct@.len() as int) =~= distinct@);
    n
}

/// The column whose values hold most of the known keys.
fn classify_by_overlap(
    stats: &Vec<ColStats>,
    known: &StrMap<bool>,
    Ghost(cols): Ghost<Seq<ColModel>>,
) -> (r: Option<usize>)
    requires
        stats_hold(stats@, cols),
        known.wf(),
    ensures
        opt_index(r) == overlap_col(cols, known@, cols.len() as int),
        r is Some ==> r->0 < cols.len(),
{
    let mut best: Option<usize> = None;
    let mut best_overlap: usize = 0;
    let mut i: usize = 0;
    while i < stats.len()
        invariant
            i <= stats.len(),
            stats_hold(stats@, cols),
            known.wf(),
            opt_index(best) == overlap_col(cols, known@, i as int),
            best is Some ==> best->0 < cols.len(),
            best_overlap == (match best {
                Some(b) => known_count(distinct_values(cols[b as int].values), known@),
                None => 0,
            }),
        decreases stats.len() - i,
    {
        assert(stats@[i as int].holds(cols[i as int]));
        let overlap: usize = count_known(&stats[i].distinct, known);
        if overlap > best_overlap {
            best_overlap = overlap;
            best = Some(i);
        }
        i += 1;
    }
    best
}

/// QQ-number column: all-digit values; column-name hint (`qq`/`uin`) first, then a
/// high-cardinality fallback (a 0/1 "type" column has few distinct values).
fn classify_qq(stats: &Vec<ColStats>, key: usize, Ghost(cols): Ghost<Seq<ColModel>>) -> (r: Option<
    usize,
>)
    requires
        stats_hold(stats@, cols),
    ensures
        opt_index(r) == qq_col(cols, key as int),
        r is Some ==> r->0 < cols.len(),
{
    let first = find_col(stats, Pick::QqNamed, Some(key), Ghost(cols));
    if first.is_some() {
        return first;
    }
    find_col(stats, Pick::QqWide, Some(key), Ghost(cols))
}

/// Remark column: the known field id `20009` directly, whatever the script of its values;
/// else mostly-Han values and a column-name hint or known field id. Hint-only by design:
/// a most-Han fallback would take verification questions for remarks.
fn classify_remark(stats: &Vec<ColStats>, key: usize, Ghost(cols): Ghost<Seq<ColModel>>) -> (r: Option<
    usize,
>)
    requires
        stats_hold(stats@, cols),
    ensures
        opt_index(r) == remark_col(cols, key as int),
        r is Some ==> r->0 < cols.len(),
{
    let first = find_col(stats, Pick::FieldId("20009"), Some(key), Ghost(cols));
    if first.is_some() {
        return first;
    }
    find_col(stats, Pick::Remark, Some(key), Ghost(cols))
}

/// Nick column (uid tables): the known field id `20002` first (mixed-script nicks fail the
/// Han ratio), then `nick`/`昵称`/`name` hints.
fn classify_nick(stats: &Vec<ColStats>, key: usize, Ghost(cols): Ghost<Seq<ColModel>>) -> (r: Option<
    usize,
>)
    requires
        stats_hold(stats@, cols),
    ensures
        opt_index(r) == nick_col(cols, key as int),
        r is Some ==> r->0 < cols.len(),
{
    let first = find_col(stats, Pick::FieldId("20002"), Some(key), Ghost(cols));
    if first.is_some() {
        return first;
    }
    find_col(stats, Pick::Nick, Some(key), Ghost(cols))
}

/// The number column with the most distinct values.
fn widest_numbers(stats: &Vec<ColStats>, Ghost(cols): Ghost<Seq<ColModel>>) -> (r: Option<usize>)
    requires
        stats_hold(stats@, cols),
    ensures
        opt_index(r) == widest_number_col(cols, cols.len() as int),
        r is Some ==> r->0 < cols.len(),
{
    let mut best: Option<usize> = None;
    let mut i: usize = 0;
    while i < stats.len()
        invariant
            i <= stats.len(),
            stats_hold(stats@, cols),
            opt_index(best) == widest_number_col(cols, i as int),
            best is Some ==> best->0 < i,
        decreases stats.len() - i,
    {
        assert(stats@[i as int].holds(cols[i as int]));
        let wider = match best {
            Some(b) => {
                assert(stats@[b as int].holds(cols[b as int]));
                stats[i].distinct.len() >= stats[b].distinct.len()
            },
            None => true,
        };
        if mostly_numbers(&stats[i]) && wider {
            best = Some(i);
        }
        i += 1;
    }
    best
}

/// Group-id key column: overlap with the group ids the index already knows; then the
/// known field id `60001`; fallback is all-digit with the highest cardinality.
fn classify_group_key(
    stats: &Vec<ColStats>,
    group_ids: &StrMap<bool>,
    Ghost(cols): Ghost<Seq<ColModel>>,
) -> (r: Option<usize>)
    requires
        stats_hold(stats@, cols),
        group_ids.wf(),
    ensures
        opt_index(r) == group_key_col(cols, group_ids@),
        r is Some ==> r->0 < cols.len(),
{
    let by_overlap = classify_by_overlap(stats, group_ids, Ghost(cols));
    if by_overlap.is_some() {
        return by_overlap;
    }
    let by_id = find_col(stats, Pick::GroupId, None, Ghost(cols));
    if by_id.is_some() {
        return by_id;
    }
    widest_numbers(stats, Ghost(cols))
}

/// The most-Han column other than the key.
fn most_han(stats: &Vec<ColStats>, key: usize, Ghost(cols): Ghost<Seq<ColModel>>) -> (r: Option<usize>)
    requires
        stats_hold(stats@, cols),
    ensures
        opt_index(r) == most_han_col(cols, key as int, cols.len() as int),
        r is Some ==> r->0 < cols.len(),
{
    let mut best: Option<usize> = None;
    let mut i: usize = 0;
    while i < stats.len()
        invariant
            i <= stats.len(),
            stats_hold(stats@, cols),
            opt_index(best) == most_han_col(cols, key as int, i as int),
            best is Some ==> best->0 < i,
        decreases stats.len() - i,
    {
        assert(stats@[i as int].holds(cols[i as int]));
        let better = match best {
            Some(b) => {
                assert(stats@[b as int].holds(cols[b as int]));
                let x: u128 = product(stats[i].cjk, stats[b].nonempty);
                let y: u128 = product(stats[b].cjk, stats[i].nonempty);
                x >= y
            },
            None => true,
        };
        if i != key && mostly_han(&stats[i]) && better {
            best = Some(i);
        }
        i += 1;
    }
    best
}

fn product(a: usize, b: usize) -> (r: u128)
    ensures
        r == a * b,
{
    assert(a * b <= 0xffff_ffff_ffff_ffff * 0xffff_ffff_ffff_ffff) by (nonlinear_arith)
        requires
            a <= 0xffff_ffff_ffff_ffff,
            b <= 0xffff_ffff_ffff_ffff,
    ;
    a as u128 * b as u128
}

/// Group name column: the known field id `60007` first (names of technical groups often
/// have few Han characters), then a `name`/`title`/`名` hint, then the most-Han non-key
/// column.
fn classify_group_name(
    stats: &Vec<ColStats>,
    key: usize,
    Ghost(cols): Ghost<Seq<ColModel>>,
) -> (r: Option<usize>)
    requires
        stats_hold(stats@, cols),
    ensures
        opt_index(r) == group_name_col(cols, key as int),
        r is Some ==> r->0 < cols.len(),
{
    let by_id = find_col(stats, Pick::FieldId("60007"), Some(key), Ghost(cols));
    if by_id.is_some() {
        return by_id;
    }
    let hinted = find_col(stats, Pick::GroupName, Some(key), Ghost(cols));
    if hinted.is_some() {
        return hinted;
    }
    most_han(stats, key, Ghost(cols))
}

/// Fills a map with the (key, value) pairs of a table's rows. First row wins per key;
/// empty keys and values are skipped.
pub fn fill_map(
    rows: &Vec<Vec<Cell>>,
    key_idx: usize,
    val_idx: Option<usize>,
    map: &mut StrMap<String>,
)
    requires
        old(map).wf(),
    ensures
        final(map).wf(),
        texts(*final(map)) == filled_if(
            texts(*old(map)),
            grid(rows@),
            key_idx as int,
            opt_index(val_idx),
        ),
{
    let val = match val_idx {
        Some(v) => v,
        None => return ,
    };
    let ghost all = grid(rows@);
    let mut i: usize = 0;
    assert(all.take(0) =~= Seq::empty());
    while i < rows.len()
        invariant
            i <= rows.len(),
            all == grid(rows@),
            map.wf(),
            texts(*map) == filled(
                texts(*old(map)),
                all.take(i as int),
                key_idx as int,
                val as int,
            ),
        decreases rows.len() - i,
    {
        proof {
            let now = all.take(i + 1);
            assert(now.drop_last() =~= all.take(i as int));
            assert(now.last() == cell_views(rows@[i as int]@));
        }
        let k = text_in(&rows[i], key_idx);
        let v = text_in(&rows[i], val);
        if !k.as_str().is_empty() && !v.as_str().is_empty() && text_get(map, k.as_str()).is_none() {
            text_put(map, k, v);
        }
        i += 1;
    }
    assert(all.take(all.len() as int) =~= all);
}

/// Key sets derived from the built index: used to pick key columns by overlap, and to
/// verify group-name columns against the names that rename messages told.
pub struct KnownKeys {
    pub uids: StrMap<bool>,
    pub group_ids: StrMap<bool>,
    /// groupId -> name told by a rename message.
    pub group_names: StrMap<String>,
}

/// What [`KnownKeys`] hold.
pub struct KnownModel {
    pub uids: Seq<(Seq<char>, bool)>,
    pub group_ids: Seq<(Seq<char>, bool)>,
    pub group_names: TextMap,
}

impl View for KnownKeys {
    type V = KnownModel;

    open spec fn view(&self) -> KnownModel {
        KnownModel {
            uids: self.uids@,
            group_ids: self.group_ids@,
            group_names: texts(self.group_names),
        }
    }
}

/// Nothing known.
pub open spec fn nothing_known() -> KnownModel {
    KnownModel { uids: Seq::empty(), group_ids: Seq::empty(), group_names: Seq::empty() }
}

/// The uids with the senders of the messages joined.
pub open spec fn with_senders(uids: Seq<(Seq<char>, bool)>, msgs: Seq<RecordModel>) -> Seq<
    (Seq<char>, bool),
>
    decreases msgs.len(),
{
    if msgs.len() == 0 {
        uids
    } else {
        let before = with_senders(uids, msgs.drop_last());
        if msgs.last().from_uid.len() > 0 {
            put(before, msgs.last().from_uid, true)
        } else {
            before
        }
    }
}

/// What is known after one more conversation.
pub open spec fn known_after(k: KnownModel, c: ConversationModel) -> KnownModel {
    KnownModel {
        uids: with_senders(
            if c.chat_type is C2c {
                put(k.uids, c.talker, true)
            } else {
                k.uids
            },
            c.msgs,
        ),
        group_ids: if c.chat_type is Group {
            put(k.group_ids, c.talker, true)
        } else {
            k.group_ids
        },
        group_names: if c.chat_type is Group && c.name != c.talker && c.name.len() > 0 {
            put(k.group_names, c.talker, c.name)
        } else {
            k.group_names
        },
    }
}

/// What the conversations make known.
pub open spec fn known_of(convs: Seq<(Seq<char>, ConversationModel)>) -> KnownModel
    decreases convs.len(),
{
    if convs.len() == 0 {
        nothing_known()
    } else {
        known_after(known_of(convs.drop_last()), convs.last().1)
    }
}

impl KnownKeys {
    /// Every map is well formed.
    pub open spec fn wf(&self) -> bool {
        self.uids.wf() && self.group_ids.wf() && self.group_names.wf()
    }

    /// The keys that a store knows.
    pub fn from_store(store: &Store) -> (r: Self)
        requires
            store.wf(),
        ensures
            r.wf(),
            r@ == known_of(store@.convs),
    {
        let mut r = KnownKeys::default();
        let ghost convs = store@.convs;
        let mut i: usize = 0;
        assert(convs.take(0) =~= Seq::empty());
        while i < store.convs.len()
            invariant
                i <= convs.len(),
                convs == store@.convs,
                r.wf(),
                r@ == known_of(convs.take(i as int)),
            decreases convs.len() - i,
        {
            let c = store.convs.value_at(i);
            proof {
                let now = convs.take(i + 1);
                assert(now.drop_last() =~= convs.take(i as int));
                assert(now.last().1 == c@);
            }
            match c.chat_type {
                ChatType::Group => {
                    r.group_ids.insert(c.talker.clone(), true);
                    if !same(c.name.as_str(), c.talker.as_str()) && !c.name.as_str().is_empty() {
                        text_put(&mut r.group_names, c.talker.clone(), c.name.clone());
                    }
                },
                ChatType::C2c => {
                    r.uids.insert(c.talker.clone(), true);
                },
            }
            add_senders(&mut r.uids, &c.msgs);
            i += 1;
        }
        assert(convs.take(convs.len() as int) =~= convs);
        r
    }
}

impl Default for KnownKeys {
    fn default() -> (r: Self)
        ensures
            r.wf(),
            r@ == nothing_known(),
    {
        let r = KnownKeys {
            uids: StrMap::new(),
            group_ids: StrMap::new(),
            group_names: StrMap::new(),
        };
        assert(r@.group_names =~= Seq::empty());
        r
    }
}

/// Joins the senders of the messages.
pub fn add_senders(uids: &mut StrMap<bool>, msgs: &Vec<MessageRecord>)
    requires
        old(uids).wf(),
    ensures
        final(uids).wf(),
        final(uids)@ == with_senders(old(uids)@, record_views(msgs@)),
{
    let ghost all = record_views(msgs@);
    let mut i: usize = 0;
    assert(all.take(0) =~= Seq::<RecordModel>::empty());
    while i < msgs.len()
        invariant
            i <= msgs.len(),
            all == record_views(msgs@),
            uids.wf(),
            uids@ == with_senders(old(uids)@, all.take(i as int)),
        decreases msgs.len() - i,
    {
        proof {
            let now = all.take(i + 1);
            assert(now.drop_last() =~= all.take(i as int));
            assert(now.last() == msgs@[i as int]@);
        }
        if !msgs[i].from_uid.as_str().is_empty() {
            uids.insert(msgs[i].from_uid.clone(), true);
        }
        i += 1;
    }
    assert(all.take(all.len() as int) =~= all);
}

/// Which columns of a uid table are used.
#[derive(Debug, Clone, Copy)]
pub struct UidPlan {
    pub key: usize,
    pub remark: Option<usize>,
    pub nick: Option<usize>,
    pub qq: Option<usize>,
}

/// What a [`UidPlan`] holds.
pub struct UidPlanModel {
    pub key: int,
    pub remark: Option<int>,
    pub nick: Option<int>,
    pub qq: Option<int>,
}

impl View for UidPlan {
    type V = UidPlanModel;

    open spec fn view(&self) -> UidPlanModel {
        UidPlanModel {
            key: self.key as int,
            remark: opt_index(self.remark),
            nick: opt_index(self.nick),
            qq: opt_index(self.qq),
        }
    }
}

/// The columns of a uid table with the given key column, if there is anything to read.
pub open spec fn uid_plan_for(cols: Seq<ColModel>, key: Option<int>) -> Option<UidPlanModel> {
    match key {
        Some(k) => if remark_col(cols, k) is None && nick_col(cols, k) is None && qq_col(
            cols,
            k,
        ) is None {
            None
        } else {
            Some(
                UidPlanModel {
                    key: k,
                    remark: remark_col(cols, k),
                    nick: nick_col(cols, k),
                    qq: qq_col(cols, k),
                },
            )
        },
        None => None,
    }
}

/// The plan for a mapping table: its key column holds mostly uids.
pub open spec fn mapping_plan(t: TableData) -> Option<UidPlanModel> {
    uid_plan_for(table_columns(t), uid_key_col(table_columns(t)))
}

/// The plan for a profile table: its key column holds mostly uids, or else known ones.
pub open spec fn profile_plan(t: TableData, uids: Seq<(Seq<char>, bool)>) -> Option<UidPlanModel> {
    let cols = table_columns(t);
    uid_plan_for(
        cols,
        if uid_key_col(cols) is Some {
            uid_key_col(cols)
        } else {
            overlap_col(cols, uids, cols.len() as int)
        },
    )
}

/// The names with a uid table's rows read.
pub open spec fn with_uid_rows(n: NamesModel, t: TableData, plan: UidPlanModel) -> NamesModel {
    let rows = grid(t.rows@);
    NamesModel {
        uid_remark: filled_if(n.uid_remark, rows, plan.key, plan.remark),
        uid_nick: filled_if(n.uid_nick, rows, plan.key, plan.nick),
        uid_qq: filled_if(n.uid_qq, rows, plan.key, plan.qq),
        ..n
    }
}

fn plan_uid_columns(
    stats: &Vec<ColStats>,
    key: Option<usize>,
    Ghost(cols): Ghost<Seq<ColModel>>,
) -> (r: Option<UidPlan>)
    requires
        stats_hold(stats@, cols),
    ensures
        opt_uid_plan(r) == uid_plan_for(cols, opt_index(key)),
{
    match key {
        Some(k) => {
            let remark = classify_remark(stats, k, Ghost(cols));
            let nick = classify_nick(stats, k, Ghost(cols));
            let qq = classify_qq(stats, k, Ghost(cols));
            if remark.is_none() && nick.is_none() && qq.is_none() {
                None
            } else {
                Some(UidPlan { key: k, remark, nick, qq })
            }
        },
        None => None,
    }
}

/// The view of an optional plan.
pub open spec fn opt_uid_plan(o: Option<UidPlan>) -> Option<UidPlanModel> {
    match o {
        Some(p) => Some(p@),
        None => None,
    }
}

proof fn lemma_no_columns()
    ensures
        uid_key_col(Seq::empty()) is None,
        forall|known: Seq<(Seq<char>, bool)>| #[trigger]
            overlap_col(Seq::empty(), known, 0) is None,
        forall|known: Seq<(Seq<char>, bool)>| #[trigger]
            group_key_col(Seq::empty(), known) is None,
{
}

/// The plan for a mapping table.
pub fn plan_mapping(t: &TableData) -> (r: Option<UidPlan>)
    ensures
        opt_uid_plan(r) == mapping_plan(*t),
{
    let ghost cols = table_columns(*t);
    match probe_table(t) {
        Some(stats) => {
            let key = classify_uid_key(&stats, Ghost(cols));
            plan_uid_columns(&stats, key, Ghost(cols))
        },
        None => {
            proof {
                assert(cols =~= Seq::empty());
                lemma_no_columns();
            }
            None
        },
    }
}

/// The plan for a profile table.
pub fn plan_profile(t: &TableData, known: &KnownKeys) -> (r: Option<UidPlan>)
    requires
        known.wf(),
    ensures
        opt_uid_plan(r) == profile_plan(*t, known@.uids),
{
    let ghost cols = table_columns(*t);
    match probe_table(t) {
        Some(stats) => {
            let mut key = classify_uid_key(&stats, Ghost(cols));
            if key.is_none() {
                key = classify_by_overlap(&stats, &known.uids, Ghost(cols));
            }
            plan_uid_columns(&stats, key, Ghost(cols))
        },
        None => {
            proof {
                assert(cols =~= Seq::empty());
                lemma_no_columns();
                assert(overlap_col(Seq::empty(), known@.uids, 0) is None);
            }
            None
        },
    }
}

/// Reads a uid table's rows.
fn fill_uid_rows(t: &TableData, plan: UidPlan, maps: &mut NameMaps)
    requires
        old(maps).wf(),
    ensures
        final(maps).wf(),
        final(maps)@ == with_uid_rows(old(maps)@, *t, plan@),
{
    fill_map(&t.rows, plan.key, plan.remark, &mut maps.uid_remark);
    fill_map(&t.rows, plan.key, plan.nick, &mut maps.uid_nick);
    fill_map(&t.rows, plan.key, plan.qq, &mut maps.uid_qq);
}

/// The names of the tables.
pub open spec fn table_names(tables: Seq<TableData>) -> Seq<Seq<char>> {
    tables.map_values(|t: TableData| t.name@)
}

fn names_of(tables: &Vec<TableData>) -> (r: Vec<String>)
    ensures
        views(r@) == table_names(tables@),
        r.len() == tables.len(),
{
    let mut r: Vec<String> = Vec::new();
    let mut i: usize = 0;
    while i < tables.len()
        invariant
            i <= tables.len(),
            r.len() == i,
            forall|k: int| 0 <= k < i ==> #[trigger] r@[k]@ == tables@[k].name@,
        decreases tables.len() - i,
    {
        r.push(tables[i].name.clone());
        i += 1;
    }
    assert(views(r@) =~= table_names(tables@));
    r
}

/// The profile tables with a known name. Friend requests are not among them: their
/// verification questions would pass for remarks.
pub open spec fn known_profile_table(name: Seq<char>) -> bool {
    name == "profile_info_v2"@ || name == "profile_info_v6"@ || name == "profile_info_adelie"@
        || name == "buddy_list"@
}

/// A table that holds contact profiles, by its name.
pub open spec fn profile_table(name: Seq<char>) -> bool {
    known_profile_table(name) || (contains_seq(lowered(name), "profile"@) && !contains_seq(
        lowered(name),
        "fts"@,
    ) && !contains_seq(lowered(name), "public"@))
}

/// Whether a table holds contact profiles, by its name.
pub fn is_profile_table(name: &str) -> (r: bool)
    ensures
        r == profile_table(name@),
{
    if same(name, "profile_info_v2") || same(name, "profile_info_v6") || same(
        name,
        "profile_info_adelie",
    ) || same(name, "buddy_list") {
        return true;
    }
    let lower = to_lower(name);
    contains(lower.as_str(), "profile") && !contains(lower.as_str(), "fts") && !contains(
        lower.as_str(),
        "public",
    )
}

/// The names after the profile tables at the given places were read, one after the other.
pub open spec fn with_profiles(
    n: NamesModel,
    tables: Seq<TableData>,
    places: Seq<int>,
    uids: Seq<(Seq<char>, bool)>,
) -> NamesModel
    decreases places.len(),
{
    if places.len() == 0 {
        n
    } else {
        let before = with_profiles(n, tables, places.drop_last(), uids);
        let t = tables[places.last()];
        match profile_plan(t, uids) {
            Some(plan) => if profile_table(t.name@) {
                with_uid_rows(before, t, plan)
            } else {
                before
            },
            None => before,
        }
    }
}

/// uid -> remark / nick / qq from one profile database: every profile table, by name.
pub fn harvest_uid_profiles(tables: &Vec<TableData>, known: &KnownKeys, maps: &mut NameMaps)
    requires
        old(maps).wf(),
        known.wf(),
    ensures
        final(maps).wf(),
        final(maps)@ == with_profiles(
            old(maps)@,
            tables@,
            by_name(table_names(tables@)),
            known@.uids,
        ),
{
    let names = names_of(tables);
    let order = sort_texts(&names);
    let ghost places = ints(order@);
    let mut i: usize = 0;
    assert(places.take(0) =~= Seq::<int>::empty());
    while i < order.len()
        invariant
            i <= order.len(),
            places == ints(order@),
            maps.wf(),
            known.wf(),
            forall|k: int| 0 <= k < order.len() ==> #[trigger] order@[k] < tables.len(),
            maps@ == with_profiles(old(maps)@, tables@, places.take(i as int), known@.uids),
        decreases order.len() - i,
    {
        let t = &tables[order[i]];
        proof {
            let now = places.take(i + 1);
            assert(now.drop_last() =~= places.take(i as int));
            assert(now.last() == order@[i as int]);
        }
        if is_profile_table(t.name.as_str()) {
            match plan_profile(t, known) {
                Some(plan) => fill_uid_rows(t, plan, maps),
                None => {},
            }
        }
        i += 1;
    }
    assert(places.take(places.len() as int) =~= places);
}

/// The first table of that name from `from` on.
pub open spec fn table_named(tables: Seq<TableData>, name: Seq<char>, from: int) -> Option<int>
    decreases tables.len() - from,
{
    if from < 0 || from >= tables.len() {
        None
    } else if tables[from].name@ == name {
        Some(from)
    } else {
        table_named(tables, name, from + 1)
    }
}

fn find_table(tables: &Vec<TableData>, name: &str) -> (r: Option<usize>)
    ensures
        opt_index(r) == table_named(tables@, name@, 0),
        r is Some ==> r->0 < tables.len(),
{
    let mut i: usize = 0;
    while i < tables.len()
        invariant
            i <= tables.len(),
            table_named(tables@, name@, 0) == table_named(tables@, name@, i as int),
        decreases tables.len() - i,
    {
        if same(tables[i].name.as_str(), name) {
            return Some(i);
        }
        i += 1;
    }
    None
}

/// The uid mapping tables, in the order in which they are tried.
pub open spec fn uid_tables() -> Seq<Seq<char>> {
    seq!["nt_uid_mapping_table"@, "uid_mapping"@, "buddy_mapping"@, "nt_buddylist"@]
}

/// See [`uid_tables`].
pub fn uid_table_names() -> (r: Vec<&'static str>)
    ensures
        r@.map_values(|s: &str| s@) == uid_tables(),
{
    let r: Vec<&'static str> = vec![
        "nt_uid_mapping_table",
        "uid_mapping",
        "buddy_mapping",
        "nt_buddylist",
    ];
    assert(r@.map_values(|s: &str| s@) =~= uid_tables());
    r
}

/// The names with the first mapping table read that gives a plan, of those from `k` on.
pub open spec fn with_mapping(n: NamesModel, tables: Seq<TableData>, k: int) -> NamesModel
    decreases uid_tables().len() - k,
{
    if k < 0 || k >= uid_tables().len() {
        n
    } else {
        match table_named(tables, uid_tables()[k], 0) {
            Some(i) => match mapping_plan(tables[i]) {
                Some(plan) => with_uid_rows(n, tables[i], plan),
                None => with_mapping(n, tables, k + 1),
            },
            None => with_mapping(n, tables, k + 1),
        }
    }
}

/// uid -> remark / nick / qq from the uid mapping table inside the message database. The
/// first table that gives a plan wins.
pub fn load_uid_maps(tables: &Vec<TableData>, maps: &mut NameMaps)
    requires
        old(maps).wf(),
    ensures
        final(maps).wf(),
        final(maps)@ == with_mapping(old(maps)@, tables@, 0),
{
    let names = uid_table_names();
    let mut k: usize = 0;
    while k < names.len()
        invariant
            k <= names.len(),
            names@.map_values(|s: &str| s@) == uid_tables(),
            *maps == *old(maps),
            maps.wf(),
            with_mapping(old(maps)@, tables@, 0) == with_mapping(old(maps)@, tables@, k as int),
        decreases names.len() - k,
    {
        assert(names@.map_values(|s: &str| s@)[k as int] == names@[k as int]@);
        match find_table(tables, names[k]) {
            Some(i) => match plan_mapping(&tables[i]) {
                Some(plan) => {
                    fill_uid_rows(&tables[i], plan, maps);
                    return ;
                },
                None => {},
            },
            None => {},
        }
        k += 1;
    }
}

/// Which table and columns of a group source are used.
#[derive(Debug, Clone, Copy)]
pub struct GroupPlan {
    pub table: usize,
    pub key: usize,
    pub name: Option<usize>,
    pub remark: Option<usize>,
}

/// What a [`GroupPlan`] holds.
pub struct GroupPlanModel {
    pub table: int,
    pub key: int,
    pub name: Option<int>,
    pub remark: Option<int>,
}

impl View for GroupPlan {
    type V = GroupPlanModel;

    open spec fn view(&self) -> GroupPlanModel {
        GroupPlanModel {
            table: self.table as int,
            key: self.key as int,
            name: opt_index(self.name),
            remark: opt_index(self.remark),
        }
    }
}

/// The view of an optional plan.
pub open spec fn opt_group_plan(o: Option<GroupPlan>) -> Option<GroupPlanModel> {
    match o {
        Some(p) => Some(p@),
        None => None,
    }
}

/// Some row of the sample gives a group the name that a rename message told.
pub open spec fn names_agree(
    rows: Seq<Seq<CellModel>>,
    key: int,
    name: Option<int>,
    group_names: TextMap,
) -> bool {
    name is Some && exists|i: int|
        0 <= i < sample(rows).len() && assoc(
            group_names,
            row_text(#[trigger] sample(rows)[i], key),
        ) == Some(row_text(sample(rows)[i], name->0))
}

/// Whether a table's rows correlate (group id -> name) with the names that rename messages
/// told. Without any such name nothing agrees.
fn name_agrees(t: &TableData, key: usize, name: Option<usize>, known: &KnownKeys) -> (r: bool)
    requires
        known.wf(),
    ensures
        r == names_agree(grid(t.rows@), key as int, opt_index(name), known@.group_names),
{
    let col: usize = match name {
        Some(n) => n,
        None => return false,
    };
    let ghost rows = sample(grid(t.rows@));
    let n: usize = if t.rows.len() <= PROBE_LIMIT {
        t.rows.len()
    } else {
        PROBE_LIMIT
    };
    let mut i: usize = 0;
    while i < n
        invariant
            i <= n <= t.rows.len(),
            n == rows.len(),
            rows == sample(grid(t.rows@)),
            known.wf(),
            name == Some(col),
            forall|j: int|
                0 <= j < i ==> assoc(
                    known@.group_names,
                    row_text(#[trigger] rows[j], key as int),
                ) != Some(row_text(rows[j], col as int)),
        decreases n - i,
    {
        assert(rows[i as int] == cell_views(t.rows@[i as int]@));
        let k = text_in(&t.rows[i], key);
        let v = text_in(&t.rows[i], col);
        match text_get(&known.group_names, k.as_str()) {
            Some(expected) => if same(expected, v.as_str()) {
                return true;
            },
            None => {},
        }
        i += 1;
    }
    false
}

/// The columns of a group table that is trusted: one with a group-id column and a name or
/// remark column. Under a drifted name its names must agree with rename messages.
pub open spec fn group_plan(
    tables: Seq<TableData>,
    i: int,
    known: KnownModel,
    drift: bool,
) -> Option<GroupPlanModel> {
    let cols = table_columns(tables[i]);
    match group_key_col(cols, known.group_ids) {
        Some(key) => {
            let name = group_name_col(cols, key);
            let remark = remark_col(cols, key);
            if name is None && remark is None {
                None
            } else if drift && !names_agree(
                grid(tables[i].rows@),
                key,
                name,
                known.group_names,
            ) {
                None
            } else {
                Some(GroupPlanModel { table: i, key, name, remark })
            }
        },
        None => None,
    }
}

fn plan_group(tables: &Vec<TableData>, i: usize, known: &KnownKeys, drift: bool) -> (r: Option<
    GroupPlan,
>)
    requires
        known.wf(),
        i < tables.len(),
    ensures
        opt_group_plan(r) == group_plan(tables@, i as int, known@, drift),
        r is Some ==> r->0.table == i,
{
    let t = &tables[i];
    let ghost cols = table_columns(*t);
    match probe_table(t) {
        Some(stats) => match classify_group_key(&stats, &known.group_ids, Ghost(cols)) {
            Some(key) => {
                let name = classify_group_name(&stats, key, Ghost(cols));
                let remark = classify_remark(&stats, key, Ghost(cols));
                if name.is_none() && remark.is_none() {
                    return None;
                }
                if drift && !name_agrees(t, key, name, known) {
                    return None;
                }
                Some(GroupPlan { table: i, key, name, remark })
            },
            None => None,
        },
        None => {
            proof {
                assert(cols =~= Seq::empty());
                lemma_no_columns();
                assert(group_key_col(Seq::empty(), known@.group_ids) is None);
            }
            None
        },
    }
}

/// The group tables with a known name, in the order in which they are tried: the live
/// list before the details, which hold disbanded groups too.
pub open spec fn group_tables() -> Seq<Seq<char>> {
    seq![
        "group_list"@,
        "group_detail_info_ver1"@,
        "group_table"@,
        "nt_group_table"@,
        "nt_group_info"@,
        "group_info"@,
        "troop_info"@,
        "nt_troop_info"@,
        "troop_list"@,
    ]
}

/// See [`group_tables`].
pub fn group_table_names() -> (r: Vec<&'static str>)
    ensures
        r@.map_values(|s: &str| s@) == group_tables(),
{
    let r: Vec<&'static str> = vec![
        "group_list",
        "group_detail_info_ver1",
        "group_table",
        "nt_group_table",
        "nt_group_info",
        "group_info",
        "troop_info",
        "nt_troop_info",
        "troop_list",
    ];
    assert(r@.map_values(|s: &str| s@) =~= group_tables());
    r
}

/// A table whose name mentions groups without being one of the known names.
pub open spec fn drifted_table(name: Seq<char>) -> bool {
    !group_tables().contains(name) && (contains_seq(lowered(name), "group"@) || contains_seq(
        lowered(name),
        "troop"@,
    ))
}

/// Whether a table's name mentions groups without being one of the known names.
pub fn is_drifted_table(name: &str) -> (r: bool)
    ensures
        r == drifted_table(name@),
{
    let names = group_table_names();
    let ghost all = names@.map_values(|s: &str| s@);
    let mut i: usize = 0;
    while i < names.len()
        invariant
            i <= names.len(),
            all == names@.map_values(|s: &str| s@),
            all == group_tables(),
            forall|j: int| 0 <= j < i ==> all[j] != name@,
        decreases names.len() - i,
    {
        if same(names[i], name) {
            assert(all[i as int] == name@);
            return false;
        }
        i += 1;
    }
    let lower = to_lower(name);
    contains(lower.as_str(), "group") || contains(lower.as_str(), "troop")
}

/// The first trusted table among those with a known name, from the `k`-th name on.
pub open spec fn known_group_choice(tables: Seq<TableData>, known: KnownModel, k: int) -> Option<
    GroupPlanModel,
>
    decreases group_tables().len() - k,
{
    if k < 0 || k >= group_tables().len() {
        None
    } else {
        match table_named(tables, group_tables()[k], 0) {
            Some(i) => match group_plan(tables, i, known, false) {
                Some(p) => Some(p),
                None => known_group_choice(tables, known, k + 1),
            },
            None => known_group_choice(tables, known, k + 1),
        }
    }
}

/// The first trusted table among those with a drifted name, of the places from `k` on.
pub open spec fn drifted_group_choice(
    tables: Seq<TableData>,
    known: KnownModel,
    places: Seq<int>,
    k: int,
) -> Option<GroupPlanModel>
    decreases places.len() - k,
{
    if k < 0 || k >= places.len() {
        None
    } else {
        let i = places[k];
        let plan = group_plan(tables, i, known, true);
        if drifted_table(tables[i].name@) && plan is Some {
            plan
        } else {
            drifted_group_choice(tables, known, places, k + 1)
        }
    }
}

/// The table that a group source is read from.
pub open spec fn group_choice(tables: Seq<TableData>, known: KnownModel) -> Option<GroupPlanModel> {
    match known_group_choice(tables, known, 0) {
        Some(p) => Some(p),
        None => drifted_group_choice(tables, known, by_name(table_names(tables)), 0),
    }
}

fn choose_known_group_table(tables: &Vec<TableData>, known: &KnownKeys) -> (r: Option<GroupPlan>)
    requires
        known.wf(),
    ensures
        opt_group_plan(r) == known_group_choice(tables@, known@, 0),
        r is Some ==> r->0.table < tables.len(),
{
    let names = group_table_names();
    let mut k: usize = 0;
    while k < names.len()
        invariant
            k <= names.len(),
            names@.map_values(|s: &str| s@) == group_tables(),
            known.wf(),
            known_group_choice(tables@, known@, 0) == known_group_choice(
                tables@,
                known@,
                k as int,
            ),
        decreases names.len() - k,
    {
        assert(names@.map_values(|s: &str| s@)[k as int] == names@[k as int]@);
        match find_table(tables, names[k]) {
            Some(i) => {
                let plan = plan_group(tables, i, known, false);
                if plan.is_some() {
                    return plan;
                }
            },
            None => {},
        }
        k += 1;
    }
    None
}

/// The table that a group source is read from. Its first rows alone decide.
pub fn choose_group_table(tables: &Vec<TableData>, known: &KnownKeys) -> (r: Option<GroupPlan>)
    requires
        known.wf(),
    ensures
        opt_group_plan(r) == group_choice(tables@, known@),
        r is Some ==> r->0.table < tables.len(),
{
    let exact = choose_known_group_table(tables, known);
    if exact.is_some() {
        return exact;
    }
    let names = names_of(tables);
    let order = sort_texts(&names);
    let ghost places = ints(order@);
    let mut k: usize = 0;
    while k < order.len()
        invariant
            k <= order.len(),
            places == ints(order@),
            places == by_name(table_names(tables@)),
            known_group_choice(tables@, known@, 0) is None,
            known.wf(),
            forall|j: int| 0 <= j < order.len() ==> #[trigger] order@[j] < tables.len(),
            drifted_group_choice(tables@, known@, places, 0) == drifted_group_choice(
                tables@,
                known@,
                places,
                k as int,
            ),
        decreases order.len() - k,
    {
        let i: usize = order[k];
        assert(places[k as int] == i);
        if is_drifted_table(tables[i].name.as_str()) {
            let plan = plan_group(tables, i, known, true);
            if plan.is_some() {
                return plan;
            }
        }
        k += 1;
    }
    None
}

/// The names with a group source read.
pub open spec fn with_groups(n: NamesModel, tables: Seq<TableData>, known: KnownModel) -> NamesModel {
    match group_choice(tables, known) {
        Some(p) => NamesModel {
            group_name: filled_if(n.group_name, grid(tables[p.table].rows@), p.key, p.name),
            group_remark: filled_if(n.group_remark, grid(tables[p.table].rows@), p.key, p.remark),
            ..n
        },
        None => n,
    }
}

/// Fill the group maps from a source's group tables. Returns true when a trusted table
/// was found: the source is authoritative.
pub fn harvest_group_db(tables: &Vec<TableData>, known: &KnownKeys, maps: &mut NameMaps) -> (r: bool)
    requires
        old(maps).wf(),
        known.wf(),
    ensures
        final(maps).wf(),
        final(maps)@ == with_groups(old(maps)@, tables@, known@),
        r == group_choice(tables@, known@) is Some,
{
    match choose_group_table(tables, known) {
        Some(p) => {
            let t = &tables[p.table];
            fill_map(&t.rows, p.key, p.name, &mut maps.group_name);
            fill_map(&t.rows, p.key, p.remark, &mut maps.group_remark);
            true
        },
        None => false,
    }
}

/// The names with the first sibling read that has a trusted group table, from the `k`-th
/// on.
pub open spec fn with_sibling_groups(
    n: NamesModel,
    siblings: Seq<Vec<TableData>>,
    known: KnownModel,
    k: int,
) -> NamesModel
    decreases siblings.len() - k,
{
    if k < 0 || k >= siblings.len() {
        n
    } else if group_choice(siblings[k]@, known) is Some {
        with_groups(n, siblings[k]@, known)
    } else {
        with_sibling_groups(n, siblings, known, k + 1)
    }
}

/// The names that the sources tell: profiles first (they are authoritative), then the
/// mapping table, then the groups of the message database or else of a sibling.
pub open spec fn loaded_names(
    profiles: Seq<Vec<TableData>>,
    msg: Seq<TableData>,
    siblings: Seq<Vec<TableData>>,
    known: KnownModel,
) -> NamesModel {
    let people = with_mapping(with_all_profiles(profiles, known, profiles.len() as int), msg, 0);
    if group_choice(msg, known) is Some {
        with_groups(people, msg, known)
    } else {
        with_sibling_groups(people, siblings, known, 0)
    }
}

/// The names that the first `k` profile databases tell.
pub open spec fn with_all_profiles(profiles: Seq<Vec<TableData>>, known: KnownModel, k: int) -> NamesModel
    decreases k,
{
    if k <= 0 || k > profiles.len() {
        crate::store::no_names()
    } else {
        with_profiles(
            with_all_profiles(profiles, known, k - 1),
            profiles[k - 1]@,
            by_name(table_names(profiles[k - 1]@)),
            known.uids,
        )
    }
}

/// Load the name maps of one account from the profile databases, the message database and
/// the sibling databases that could be opened, each as its tables.
pub fn load_names(
    profiles: &Vec<Vec<TableData>>,
    msg: &Vec<TableData>,
    siblings: &Vec<Vec<TableData>>,
    known: &KnownKeys,
) -> (r: NameMaps)
    requires
        known.wf(),
    ensures
        r.wf(),
        r@ == loaded_names(profiles@, msg@, siblings@, known@),
{
    let mut maps = NameMaps::default();
    let mut i: usize = 0;
    while i < profiles.len()
        invariant
            i <= profiles.len(),
            known.wf(),
            maps.wf(),
            maps@ == with_all_profiles(profiles@, known@, i as int),
        decreases profiles.len() - i,
    {
        harvest_uid_profiles(&profiles[i], known, &mut maps);
        i += 1;
    }
    load_uid_maps(msg, &mut maps);
    if harvest_group_db(msg, known, &mut maps) {
        return maps;
    }
    let ghost people = maps@;
    let mut k: usize = 0;
    while k < siblings.len()
        invariant
            k <= siblings.len(),
            known.wf(),
            maps.wf(),
            maps@ == people,
            with_sibling_groups(people, siblings@, known@, 0) == with_sibling_groups(
                people,
                siblings@,
                known@,
                k as int,
            ),
            loaded_names(profiles@, msg@, siblings@, known@) == with_sibling_groups(
                people,
                siblings@,
                known@,
                0,
            ),
        decreases siblings.len() - k,
    {
        if harvest_group_db(&siblings[k], known, &mut maps) {
            return maps;
        }
        k += 1;
    }
    maps
}

/// What a map holds already stays when rows are read into it.
pub proof fn law_first_source_wins(
    m: TextMap,
    rows: Seq<Seq<CellModel>>,
    key: int,
    val: int,
    k: Seq<char>,
)
    requires
        assoc(m, k) is Some,
    ensures
        assoc(filled(m, rows, key, val), k) == assoc(m, k),
    decreases rows.len(),
{
    if rows.len() > 0 {
        law_first_source_wins(m, rows.drop_last(), key, val, k);
        let before = filled(m, rows.drop_last(), key, val);
        law_put_then_get(before, row_text(rows.last(), key), row_text(rows.last(), val));
    }
}

/// No empty key and no empty value ever comes out of a source.
pub proof fn law_filled_values_are_not_empty(
    m: TextMap,
    rows: Seq<Seq<CellModel>>,
    key: int,
    val: int,
    k: Seq<char>,
)
    requires
        assoc(m, k) is None,
        assoc(filled(m, rows, key, val), k) is Some,
    ensures
        k.len() > 0,
        assoc(filled(m, rows, key, val), k)->0.len() > 0,
    decreases rows.len(),
{
    if rows.len() > 0 {
        let before = filled(m, rows.drop_last(), key, val);
        law_put_then_get(before, row_text(rows.last(), key), row_text(rows.last(), val));
        if assoc(before, k) is Some {
            law_filled_values_are_not_empty(m, rows.drop_last(), key, val, k);
        }
    }
}

/// A table under a drifted name is never read unless some row of it gives a group the
/// name that a rename message told.
pub proof fn law_drifted_tables_agree(tables: Seq<TableData>, i: int, known: KnownModel)
    requires
        group_plan(tables, i, known, true) is Some,
    ensures
        known.group_names.len() > 0,
        exists|j: int|
            0 <= j < sample(grid(tables[i].rows@)).len() && assoc(
                known.group_names,
                row_text(
                    #[trigger] sample(grid(tables[i].rows@))[j],
                    group_plan(tables, i, known, true)->0.key,
                ),
            ) is Some,
{
    let p = group_plan(tables, i, known, true)->0;
    let rows = sample(grid(tables[i].rows@));
    let j = choose|j: int|
        0 <= j < rows.len() && assoc(known.group_names, row_text(#[trigger] rows[j], p.key)) == Some(
            row_text(rows[j], p.name->0),
        );
    assert(assoc(known.group_names, row_text(rows[j], p.key)) is Some);
}

/// Two sources show the same: names, columns and first rows.
pub open spec fn same_samples(a: Seq<TableData>, b: Seq<TableData>) -> bool {
    &&& a.len() == b.len()
    &&& forall|i: int|
        #![trigger a[i]]
        #![trigger b[i]]
        0 <= i < a.len() ==> a[i].name@ == b[i].name@ && views(a[i].columns@) == views(b[i].columns@)
            && sample(grid(a[i].rows@)) == sample(grid(b[i].rows@))
}

proof fn lemma_same_plan(a: Seq<TableData>, b: Seq<TableData>, known: KnownModel, i: int, drift: bool)
    requires
        same_samples(a, b),
        0 <= i < a.len(),
    ensures
        group_plan(a, i, known, drift) == group_plan(b, i, known, drift),
{
    assert(a[i].name@ == b[i].name@);
    assert(table_columns(a[i]) =~= table_columns(b[i]));
}

proof fn lemma_same_named(a: Seq<TableData>, b: Seq<TableData>, name: Seq<char>, from: int)
    requires
        same_samples(a, b),
    ensures
        table_named(a, name, from) == table_named(b, name, from),
        table_named(a, name, from) is Some ==> 0 <= table_named(a, name, from)->0 < a.len(),
    decreases a.len() - from,
{
    if 0 <= from < a.len() {
        assert(a[from].name@ == b[from].name@);
        lemma_same_named(a, b, name, from + 1);
    }
}

proof fn lemma_same_known_choice(a: Seq<TableData>, b: Seq<TableData>, known: KnownModel, k: int)
    requires
        same_samples(a, b),
    ensures
        known_group_choice(a, known, k) == known_group_choice(b, known, k),
    decreases group_tables().len() - k,
{
    if 0 <= k < group_tables().len() {
        lemma_same_named(a, b, group_tables()[k], 0);
        match table_named(a, group_tables()[k], 0) {
            Some(i) => {
                lemma_same_plan(a, b, known, i, false);
            },
            None => {},
        }
        lemma_same_known_choice(a, b, known, k + 1);
    }
}

proof fn lemma_same_drifted_choice(
    a: Seq<TableData>,
    b: Seq<TableData>,
    known: KnownModel,
    places: Seq<int>,
    k: int,
)
    requires
        same_samples(a, b),
        forall|j: int| 0 <= j < places.len() ==> 0 <= #[trigger] places[j] < a.len(),
    ensures
        drifted_group_choice(a, known, places, k) == drifted_group_choice(b, known, places, k),
    decreases places.len() - k,
{
    if 0 <= k < places.len() {
        assert(a[places[k]].name@ == b[places[k]].name@);
        lemma_same_plan(a, b, known, places[k], true);
        lemma_same_drifted_choice(a, b, known, places, k + 1);
    }
}

/// Which group table is read rests on the first rows of the tables alone.
pub proof fn law_choice_reads_samples_only(a: Seq<TableData>, b: Seq<TableData>, known: KnownModel)
    requires
        same_samples(a, b),
    ensures
        group_choice(a, known) == group_choice(b, known),
{
    assert(table_names(a) =~= table_names(b)) by {
        assert forall|i: int| 0 <= i < a.len() implies table_names(a)[i] == table_names(b)[i] by {
            assert(a[i].name@ == b[i].name@);
        }
    }
    let names = table_names(a);
    lemma_name_order(names);
    law_sorted_places(names.len(), name_leq(names));
    lemma_same_known_choice(a, b, known, 0);
    lemma_same_drifted_choice(a, b, known, by_name(names), 0);
}

/// The sibling files that may hold group info, in the order in which they are tried.
pub open spec fn group_files() -> Seq<Seq<char>> {
    seq![
        "group_info.db"@,
        "nt_group_info.db"@,
        "group_table.db"@,
        "nt_group_table.db"@,
        "troop_info.db"@,
        "nt_uid_mapping.db"@,
    ]
}

/// A database file that may hold group info under another name.
pub open spec fn extra_db_file(name: Seq<char>) -> bool {
    extension_of(name) == "db"@ && !starts_with_seq(name, "nt_msg"@) && name != "raw.db"@
        && name != "group_info.db"@
}

/// The first `cap` extra database files of a listing.
pub open spec fn extra_files(listing: Seq<Seq<char>>, cap: nat) -> Seq<Seq<char>>
    decreases listing.len(),
{
    if listing.len() == 0 {
        Seq::empty()
    } else {
        let before = extra_files(listing.drop_last(), cap);
        if extra_db_file(listing.last()) && before.len() < cap {
            before.push(listing.last())
        } else {
            before
        }
    }
}

/// The names at the given places.
pub open spec fn names_at(names: Seq<Seq<char>>, places: Seq<int>) -> Seq<Seq<char>> {
    places.map_values(|i: int| names[i])
}

/// The sibling files to look for group info in: the known names first, then the first few
/// other database files of the directory, by name.
pub fn group_sibling_files(listing: &Vec<String>) -> (r: Vec<String>)
    ensures
        ({
            let extra = extra_files(views(listing@), FALLBACK_SCAN_CAP as nat);
            views(r@) == group_files() + names_at(extra, by_name(extra))
        }),
{
    let mut r: Vec<String> = Vec::new();
    r.push("group_info.db".to_owned());
    r.push("nt_group_info.db".to_owned());
    r.push("group_table.db".to_owned());
    r.push("nt_group_table.db".to_owned());
    r.push("troop_info.db".to_owned());
    r.push("nt_uid_mapping.db".to_owned());
    assert(views(r@) =~= group_files());
    let ghost all = views(listing@);
    let mut extra: Vec<String> = Vec::new();
    let mut i: usize = 0;
    assert(all.take(0) =~= Seq::<Seq<char>>::empty());
    assert(views(extra@) =~= Seq::<Seq<char>>::empty());
    while i < listing.len()
        invariant
            i <= listing.len(),
            all == views(listing@),
            views(extra@) == extra_files(all.take(i as int), FALLBACK_SCAN_CAP as nat),
        decreases listing.len() - i,
    {
        proof {
            let now = all.take(i + 1);
            assert(now.drop_last() =~= all.take(i as int));
            assert(now.last() == listing@[i as int]@);
        }
        let n = listing[i].as_str();
        let ext = name_extension(n);
        assert(views(extra@).len() == extra@.len());
        if same(ext.as_str(), "db") && !starts_with(n, "nt_msg") && !same(n, "raw.db") && !same(
            n,
            "group_info.db",
        ) && extra.len() < FALLBACK_SCAN_CAP {
            let ghost before = extra@;
            extra.push(listing[i].clone());
            assert(views(extra@) =~= views(before).push(listing@[i as int]@));
        }
        i += 1;
    }
    assert(all.take(all.len() as int) =~= all);
    let order = sort_texts(&extra);
    let ghost ev = views(extra@);
    let ghost places = ints(order@);
    let mut k: usize = 0;
    assert(places.take(0) =~= Seq::<int>::empty());
    assert(group_files() + names_at(ev, places.take(0)) =~= group_files());
    while k < order.len()
        invariant
            k <= order.len(),
            places == ints(order@),
            ev == views(extra@),
            forall|j: int| 0 <= j < order.len() ==> #[trigger] order@[j] < extra.len(),
            views(r@) == group_files() + names_at(ev, places.take(k as int)),
        decreases order.len() - k,
    {
        let ghost before = r@;
        r.push(extra[order[k]].clone());
        proof {
            let name = ev[order@[k as int] as int];
            assert(views(r@) =~= views(before).push(name));
            assert(names_at(ev, places.take(k + 1)) =~= names_at(ev, places.take(k as int)).push(
                name,
            ));
        }
        k += 1;
    }
    assert(places.take(places.len() as int) =~= places);
    r
}

/// A name has a hint somewhere in it, whatever the size of the name's letters.
pub open spec fn hinted_at(name: Seq<char>, hint: Seq<char>) -> bool {
    exists|a: Seq<char>, b: Seq<char>| lowered(name) == #[trigger] (a + hint + b)
}

proof fn lemma_hinted_at(name: Seq<char>, hint: Seq<char>)
    ensures
        contains_seq(lowered(name), hint) <==> hinted_at(name, hint),
{
    crate::text::law_contains(lowered(name), hint);
}

/// A cell's text is the text that it holds, or its number in decimal; any other cell, and
/// one that is not there, has none.
pub proof fn law_cell_texts(row: Seq<CellModel>, i: int)
    ensures
        0 <= i < row.len() && row[i] is Text ==> row_text(row, i) == row[i]->Text_0,
        0 <= i < row.len() && row[i] is Int ==> crate::text::signed_value(row_text(row, i)) == Some(
            row[i]->Int_0 as int,
        ),
        0 <= i < row.len() && !(row[i] is Text || row[i] is Int) ==> row_text(row, i).len() == 0,
        i < 0 || i >= row.len() ==> row_text(row, i).len() == 0,
{
    if 0 <= i < row.len() && row[i] is Int {
        crate::text::law_decimal_value(row[i]->Int_0 as int);
    }
}

/// A column's values are the texts of its cells, from top to bottom, without the empty
/// ones.
pub proof fn law_column_values(rows: Seq<Seq<CellModel>>, i: int)
    ensures
        column_values(rows, i) == rows.map_values(|r: Seq<CellModel>| row_text(r, i)).filter(
            |s: Seq<char>| s.len() > 0,
        ),
        readable_values(rows, i) == rows.filter(
            |r: Seq<CellModel>| 0 <= i < r.len() && (r[i] is Text || r[i] is Int),
        ).len(),
    decreases rows.len(),
{
    reveal(Seq::filter);
    let texts_of = |r: Seq<CellModel>| row_text(r, i);
    if rows.len() > 0 {
        law_column_values(rows.drop_last(), i);
        assert(rows.map_values(texts_of).drop_last() =~= rows.drop_last().map_values(texts_of));
    } else {
        assert(rows.map_values(texts_of) =~= Seq::empty());
    }
}

/// A table is judged by its first thousand rows.
pub proof fn law_samples(rows: Seq<Seq<CellModel>>)
    ensures
        rows.len() <= 1000 ==> sample(rows) == rows,
        rows.len() > 1000 ==> sample(rows).len() == 1000,
        forall|i: int| 0 <= i < sample(rows).len() ==> #[trigger] sample(rows)[i] == rows[i],
{
}

/// Values are counted by kind: uids begin with `u_`, account numbers are of five to twelve
/// digits, and names have two characters or more, at least sixty in a hundred of them Han.
pub proof fn law_value_counts(values: Seq<Seq<char>>)
    ensures
        uid_count(values) == values.filter(
            |s: Seq<char>| s.len() >= 2 && s[0] == 'u' && s[1] == '_',
        ).len(),
        number_count(values) == values.filter(
            |s: Seq<char>|
                5 <= s.len() <= 12 && forall|i: int|
                    0 <= i < s.len() ==> '0' <= #[trigger] s[i] <= '9',
        ).len(),
        han_value_count(values) == values.filter(
            |s: Seq<char>| s.len() >= 2 && 100 * han_count(s) >= 60 * s.len(),
        ).len(),
    decreases values.len(),
{
    reveal(Seq::filter);
    if values.len() > 0 {
        law_value_counts(values.drop_last());
        let s = values.last();
        assert(uid_like(s) <==> s.len() >= 2 && s[0] == 'u' && s[1] == '_') by {
            reveal_strlit("u_");
            if s.len() >= 2 {
                assert(s.subrange(0, 2)[0] == s[0] && s.subrange(0, 2)[1] == s[1]);
                if s[0] == 'u' && s[1] == '_' {
                    assert(s.subrange(0, 2) =~= "u_"@);
                }
            }
        }
        if forall|i: int| 0 <= i < s.len() ==> '0' <= #[trigger] s[i] <= '9' {
            assert forall|i: int| 0 <= i < s.len() implies crate::text::is_digit(#[trigger] s[i]) by {}
        } else {
            let i = choose|i: int| 0 <= i < s.len() && !('0' <= #[trigger] s[i] <= '9');
            assert(!crate::text::is_digit(s[i]));
        }
    }
}

/// A column is of uids where more than eighty in a hundred of its values are, of numbers
/// where more than ninety in a hundred are, and of names where more than half are; a column
/// without values is of nothing.
pub proof fn law_column_thresholds(c: ColModel)
    ensures
        c.values.len() == 0 ==> !c.mostly_uids() && !c.mostly_numbers() && !c.mostly_han(),
        c.values.len() > 0 ==> (c.mostly_uids() <==> 100 * uid_count(c.values) > 80
            * c.values.len()),
        c.values.len() > 0 ==> (c.mostly_numbers() <==> 100 * number_count(c.values) > 90
            * c.values.len()),
        c.values.len() > 0 ==> (c.mostly_han() <==> 100 * han_value_count(c.values) > 50
            * c.values.len()),
{
}

/// A column's cardinality is the number of its distinct values.
pub proof fn law_cardinality(c: ColModel)
    ensures
        c.cardinality() == c.values.to_set().len(),
{
    lemma_distinct_values(c.values);
}

proof fn lemma_distinct_values(values: Seq<Seq<char>>)
    ensures
        distinct_values(values).len() == values.to_set().len(),
        forall|v: Seq<char>| #[trigger]
            assoc(distinct_values(values), v) is Some <==> values.contains(v),
    decreases values.len(),
{
    if values.len() == 0 {
        assert(values.to_set() =~= Set::empty());
    } else {
        let front = values.drop_last();
        let v = values.last();
        lemma_distinct_values(front);
        let before = distinct_values(front);
        assert(values.to_set() =~= front.to_set().insert(v)) by {
            assert forall|x: Seq<char>| front.to_set().insert(v).contains(x) implies #[trigger] values.to_set().contains(
            x) by {
                if x == v {
                    assert(values[values.len() - 1] == x);
                } else {
                    let i = choose|i: int| 0 <= i < front.len() && front[i] == x;
                    assert(values[i] == x);
                }
            }
            assert forall|x: Seq<char>| #[trigger] values.to_set().contains(x) implies front.to_set().insert(
                v,
            ).contains(x) by {
                let i = choose|i: int| 0 <= i < values.len() && values[i] == x;
                if i < front.len() {
                    assert(front[i] == x);
                }
            }
        }
        front.lemma_cardinality_of_set();
        law_put_then_get(before, v, true);
        crate::strmap::lemma_place(before, v);
        assert(put(before, v, true).len() == before.len() + if assoc(before, v) is Some {
            0int
        } else {
            1
        });
        assert forall|x: Seq<char>| #[trigger]
            assoc(distinct_values(values), x) is Some <==> values.contains(x) by {
            if x != v {
                assert(assoc(put(before, v, true), x) == assoc(before, x));
            }
            assert(values.contains(x) <==> values.to_set().contains(x));
            assert(front.contains(x) <==> front.to_set().contains(x));
        }
    }
}

proof fn lemma_first_col(cols: Seq<ColModel>, pick: Pick, key: int, from: int)
    requires
        0 <= from,
    ensures
        match first_col(cols, pick, key, from) {
            Some(i) => from <= i < cols.len() && picks(pick, key, i, cols[i]) && forall|j: int|
                from <= j < i ==> !picks(pick, key, j, #[trigger] cols[j]),
            None => forall|j: int|
                from <= j < cols.len() ==> !picks(pick, key, j, #[trigger] cols[j]),
        },
    decreases cols.len() - from,
{
    if from < cols.len() && !picks(pick, key, from, cols[from]) {
        lemma_first_col(cols, pick, key, from + 1);
    }
}

/// The column that is picked is the first that fits, and there is one where any fits.
pub proof fn law_first_fitting_column(cols: Seq<ColModel>, pick: Pick, key: int)
    ensures
        match first_col(cols, pick, key, 0) {
            Some(i) => 0 <= i < cols.len() && picks(pick, key, i, cols[i]) && forall|j: int|
                0 <= j < i ==> !picks(pick, key, j, #[trigger] cols[j]),
            None => forall|j: int|
                0 <= j < cols.len() ==> !picks(pick, key, j, #[trigger] cols[j]),
        },
{
    lemma_first_col(cols, pick, key, 0);
}

/// Which columns fit: uids by their values alone, group ids by their values and number,
/// account numbers, remarks, nicknames and group names by their values and by what their
/// own names hint at. But for the first two, none is the key column itself.
pub proof fn law_fitting_columns(key: int, i: int, c: ColModel)
    ensures
        picks(Pick::UidKey, key, i, c) <==> c.mostly_uids(),
        picks(Pick::GroupId, key, i, c) <==> c.mostly_numbers() && c.name == "60001"@,
        picks(Pick::QqNamed, key, i, c) <==> i != key && c.mostly_numbers() && (hinted_at(
            c.name,
            "qq"@,
        ) || hinted_at(c.name, "uin"@)),
        picks(Pick::QqWide, key, i, c) <==> i != key && c.mostly_numbers() && 2 * c.cardinality()
            + 1 >= c.values.len(),
        picks(Pick::Remark, key, i, c) <==> i != key && c.mostly_han() && (hinted_at(
            c.name,
            "remark"@,
        ) || hinted_at(c.name, "note"@) || hinted_at(c.name, "alias"@) || hinted_at(
            c.name,
            "备注"@,
        ) || lowered(c.name) == "60026"@ || lowered(c.name) == "20003"@),
        picks(Pick::Nick, key, i, c) <==> i != key && c.mostly_han() && (hinted_at(
            c.name,
            "nick"@,
        ) || hinted_at(c.name, "昵称"@) || hinted_at(c.name, "name"@)),
        picks(Pick::GroupName, key, i, c) <==> i != key && c.mostly_han() && (hinted_at(
            c.name,
            "name"@,
        ) || hinted_at(c.name, "title"@) || hinted_at(c.name, "名"@)),
{
    lemma_hinted_at(c.name, "qq"@);
    lemma_hinted_at(c.name, "uin"@);
    lemma_hinted_at(c.name, "remark"@);
    lemma_hinted_at(c.name, "note"@);
    lemma_hinted_at(c.name, "alias"@);
    lemma_hinted_at(c.name, "备注"@);
    lemma_hinted_at(c.name, "nick"@);
    lemma_hinted_at(c.name, "昵称"@);
    lemma_hinted_at(c.name, "name"@);
    lemma_hinted_at(c.name, "title"@);
    lemma_hinted_at(c.name, "名"@);
}

/// A column other than the key, with values, whose name is a field's number.
pub open spec fn numbered(cols: Seq<ColModel>, key: int, i: int, id: Seq<char>) -> bool {
    0 <= i < cols.len() && i != key && cols[i].values.len() > 0 && cols[i].name == id
}

/// A column that is named by its field's number goes before every hint: 20009 holds
/// remarks, 20002 nicknames and 60007 the names of groups.
pub proof fn law_numbered_columns_go_first(cols: Seq<ColModel>, key: int, i: int)
    ensures
        numbered(cols, key, i, "20009"@) ==> remark_col(cols, key) is Some && numbered(
            cols,
            key,
            remark_col(cols, key)->0,
            "20009"@,
        ),
        numbered(cols, key, i, "20002"@) ==> nick_col(cols, key) is Some && numbered(
            cols,
            key,
            nick_col(cols, key)->0,
            "20002"@,
        ),
        numbered(cols, key, i, "60007"@) ==> group_name_col(cols, key) is Some && numbered(
            cols,
            key,
            group_name_col(cols, key)->0,
            "60007"@,
        ),
{
    lemma_first_col(cols, Pick::FieldId("20009"), key, 0);
    lemma_first_col(cols, Pick::FieldId("20002"), key, 0);
    lemma_first_col(cols, Pick::FieldId("60007"), key, 0);
}

/// Without a numbered column, remarks and nicknames are in the first column that fits by its
/// hints; an account number is in the first hinted one, else in the first wide one.
pub proof fn law_hinted_columns(cols: Seq<ColModel>, key: int)
    ensures
        (forall|i: int| !numbered(cols, key, i, "20009"@)) ==> remark_col(cols, key) == first_col(
            cols,
            Pick::Remark,
            key,
            0,
        ),
        (forall|i: int| !numbered(cols, key, i, "20002"@)) ==> nick_col(cols, key) == first_col(
            cols,
            Pick::Nick,
            key,
            0,
        ),
        first_col(cols, Pick::QqNamed, key, 0) is Some ==> qq_col(cols, key) == first_col(
            cols,
            Pick::QqNamed,
            key,
            0,
        ),
        first_col(cols, Pick::QqNamed, key, 0) is None ==> qq_col(cols, key) == first_col(
            cols,
            Pick::QqWide,
            key,
            0,
        ),
{
    lemma_first_col(cols, Pick::FieldId("20009"), key, 0);
    lemma_first_col(cols, Pick::FieldId("20002"), key, 0);
    match first_col(cols, Pick::FieldId("20009"), key, 0) {
        Some(i) => {
            assert(numbered(cols, key, i, "20009"@));
        },
        None => {},
    }
    match first_col(cols, Pick::FieldId("20002"), key, 0) {
        Some(i) => {
            assert(numbered(cols, key, i, "20002"@));
        },
        None => {},
    }
}

/// How many distinct values of a column are among the known ones.
pub open spec fn overlap(c: ColModel, known: Seq<(Seq<char>, bool)>) -> nat {
    known_count(distinct_values(c.values), known)
}

proof fn lemma_overlap_col(cols: Seq<ColModel>, known: Seq<(Seq<char>, bool)>, n: int)
    requires
        0 <= n <= cols.len(),
    ensures
        match overlap_col(cols, known, n) {
            Some(b) => 0 <= b < n && overlap(cols[b], known) > 0 && (forall|j: int|
                0 <= j < n ==> overlap(#[trigger] cols[j], known) <= overlap(cols[b], known)) && (
            forall|j: int|
                0 <= j < b ==> overlap(#[trigger] cols[j], known) < overlap(cols[b], known)),
            None => forall|j: int| 0 <= j < n ==> overlap(#[trigger] cols[j], known) == 0,
        },
    decreases n,
{
    if n > 0 {
        lemma_overlap_col(cols, known, n - 1);
        assert(cols[n - 1] == cols[n - 1]);
    }
}

/// The key column by overlap is the one with the most known values, the first of several
/// with as many; where no column has one, there is none.
pub proof fn law_best_overlap(cols: Seq<ColModel>, known: Seq<(Seq<char>, bool)>)
    ensures
        match overlap_col(cols, known, cols.len() as int) {
            Some(b) => 0 <= b < cols.len() && overlap(cols[b], known) > 0 && (forall|j: int|
                0 <= j < cols.len() ==> overlap(#[trigger] cols[j], known) <= overlap(
                    cols[b],
                    known,
                )) && (forall|j: int|
                0 <= j < b ==> overlap(#[trigger] cols[j], known) < overlap(cols[b], known)),
            None => forall|j: int| 0 <= j < cols.len() ==> overlap(#[trigger] cols[j], known) == 0,
        },
{
    lemma_overlap_col(cols, known, cols.len() as int);
}

/// A column overlaps with what is known exactly where one of its values is known, and never
/// in more values than it has distinct ones.
pub proof fn law_overlap(c: ColModel, known: Seq<(Seq<char>, bool)>)
    ensures
        overlap(c, known) > 0 <==> exists|i: int|
            0 <= i < c.values.len() && assoc(known, #[trigger] c.values[i]) is Some,
        overlap(c, known) <= c.cardinality(),
        (forall|i: int| 0 <= i < c.values.len() ==> assoc(known, #[trigger] c.values[i]) is Some)
            ==> overlap(c, known) == c.cardinality(),
{
    let d = distinct_values(c.values);
    lemma_distinct_keys(c.values);
    lemma_known_count(d, known);
    if exists|i: int| 0 <= i < c.values.len() && assoc(known, #[trigger] c.values[i]) is Some {
        let i = choose|i: int|
            0 <= i < c.values.len() && assoc(known, #[trigger] c.values[i]) is Some;
        assert(c.values.contains(c.values[i]));
        lemma_distinct_values(c.values);
        assert(assoc(d, c.values[i]) is Some);
        crate::strmap::lemma_place(d, c.values[i]);
        let p = place(d, c.values[i])->0;
        assert(d[p].0 == c.values[i]);
    }
    if overlap(c, known) > 0 {
        let k = choose|k: int| 0 <= k < d.len() && assoc(known, (#[trigger] d[k]).0) is Some;
        assert(c.values.contains(d[k].0));
        let i = choose|i: int| 0 <= i < c.values.len() && c.values[i] == d[k].0;
        assert(assoc(known, c.values[i]) is Some);
    }
    if forall|i: int| 0 <= i < c.values.len() ==> assoc(known, #[trigger] c.values[i]) is Some {
        assert forall|k: int| 0 <= k < d.len() implies assoc(known, (#[trigger] d[k]).0) is Some by {
            assert(c.values.contains(d[k].0));
            let i = choose|i: int| 0 <= i < c.values.len() && c.values[i] == d[k].0;
            assert(assoc(known, c.values[i]) is Some);
        }
    }
}

proof fn lemma_distinct_keys(values: Seq<Seq<char>>)
    ensures
        forall|k: int|
            0 <= k < distinct_values(values).len() ==> values.contains(
                (#[trigger] distinct_values(values)[k]).0,
            ),
    decreases values.len(),
{
    if values.len() > 0 {
        let front = values.drop_last();
        let v = values.last();
        lemma_distinct_keys(front);
        let before = distinct_values(front);
        let d = distinct_values(values);
        crate::strmap::lemma_place(before, v);
        assert(values[values.len() - 1] == v);
        assert forall|k: int| 0 <= k < d.len() implies values.contains((#[trigger] d[k]).0) by {
            if d[k].0 != v {
                assert(k < before.len() && d[k] == before[k]);
                let i = choose|i: int| 0 <= i < front.len() && front[i] == before[k].0;
                assert(values[i] == d[k].0);
            }
        }
    }
}

proof fn lemma_known_count(d: Seq<(Seq<char>, bool)>, known: Seq<(Seq<char>, bool)>)
    ensures
        known_count(d, known) > 0 <==> exists|k: int|
            0 <= k < d.len() && assoc(known, (#[trigger] d[k]).0) is Some,
        known_count(d, known) <= d.len(),
        (forall|k: int| 0 <= k < d.len() ==> assoc(known, (#[trigger] d[k]).0) is Some)
            ==> known_count(d, known) == d.len(),
    decreases d.len(),
{
    if d.len() > 0 {
        let front = d.drop_last();
        lemma_known_count(front, known);
        if known_count(front, known) > 0 {
            let k = choose|k: int| 0 <= k < front.len() && assoc(known, (#[trigger] front[k]).0) is Some;
            assert(assoc(known, d[k].0) is Some);
        }
        if exists|k: int| 0 <= k < d.len() && assoc(known, (#[trigger] d[k]).0) is Some {
            let k = choose|k: int| 0 <= k < d.len() && assoc(known, (#[trigger] d[k]).0) is Some;
            if k < front.len() {
                assert(assoc(known, front[k].0) is Some);
            }
        }
        if forall|k: int| 0 <= k < d.len() ==> assoc(known, (#[trigger] d[k]).0) is Some {
            assert(assoc(known, d[d.len() - 1].0) is Some);
            assert forall|k: int| 0 <= k < front.len() implies assoc(
                known,
                (#[trigger] front[k]).0,
            ) is Some by {
                assert(front[k] == d[k]);
            }
        }
    }
}

/// A row tells a key a value: both are there and neither is empty.
pub open spec fn tells(row: Seq<CellModel>, key: int, val: int, k: Seq<char>) -> bool {
    row_text(row, key) == k && k.len() > 0 && row_text(row, val).len() > 0
}

/// A map that has no value for a key takes it from the first row that tells one, and stays
/// without where no row does.
pub proof fn law_first_row_fills(
    m: TextMap,
    rows: Seq<Seq<CellModel>>,
    key: int,
    val: int,
    k: Seq<char>,
)
    requires
        assoc(m, k) is None,
    ensures
        ({
            let got = assoc(filled(m, rows, key, val), k);
            &&& got is None ==> forall|i: int|
                0 <= i < rows.len() ==> !tells(#[trigger] rows[i], key, val, k)
            &&& got is Some ==> exists|i: int|
                0 <= i < rows.len() && tells(#[trigger] rows[i], key, val, k) && got == Some(
                    row_text(rows[i], val),
                ) && forall|j: int| 0 <= j < i ==> !tells(#[trigger] rows[j], key, val, k)
        }),
    decreases rows.len(),
{
    if rows.len() > 0 {
        let front = rows.drop_last();
        let n = rows.len() - 1;
        law_first_row_fills(m, front, key, val, k);
        let before = filled(m, front, key, val);
        let rk = row_text(rows.last(), key);
        let rv = row_text(rows.last(), val);
        law_put_then_get(before, rk, rv);
        let was = assoc(before, k);
        if was is Some {
            let i = choose|i: int|
                0 <= i < front.len() && tells(#[trigger] front[i], key, val, k) && was == Some(
                    row_text(front[i], val),
                ) && forall|j: int| 0 <= j < i ==> !tells(#[trigger] front[j], key, val, k);
            assert(tells(rows[i], key, val, k));
            assert forall|j: int| 0 <= j < i implies !tells(#[trigger] rows[j], key, val, k) by {
                assert(front[j] == rows[j]);
            }
        } else {
            assert forall|j: int| 0 <= j < n implies !tells(#[trigger] rows[j], key, val, k) by {
                assert(front[j] == rows[j]);
            }
            assert(rows[n] == rows.last());
        }
    }
}

/// A column that is not there fills nothing.
pub proof fn law_missing_columns_fill_nothing(
    m: TextMap,
    rows: Seq<Seq<CellModel>>,
    key: int,
    val: int,
)
    ensures
        filled_if(m, rows, key, None) == m,
        filled_if(m, rows, key, Some(val)) == filled(m, rows, key, val),
{
}

/// The columns of a plan fill the maps they are for: remarks, nicknames and account
/// numbers. The groups' maps stay.
pub proof fn law_plans_fill_their_maps(n: NamesModel, t: TableData, plan: UidPlanModel, k: Seq<char>)
    ensures
        ({
            let after = with_uid_rows(n, t, plan);
            let rows = grid(t.rows@);
            &&& after.group_name == n.group_name && after.group_remark == n.group_remark
            &&& plan.remark is None ==> after.uid_remark == n.uid_remark
            &&& plan.nick is None ==> after.uid_nick == n.uid_nick
            &&& plan.qq is None ==> after.uid_qq == n.uid_qq
            &&& rows.len() > 0 && plan.remark is Some && assoc(n.uid_remark, k) is None && tells(
                rows[0],
                plan.key,
                plan.remark->0,
                k,
            ) ==> assoc(after.uid_remark, k) == Some(row_text(rows[0], plan.remark->0))
            &&& rows.len() > 0 && plan.nick is Some && assoc(n.uid_nick, k) is None && tells(
                rows[0],
                plan.key,
                plan.nick->0,
                k,
            ) ==> assoc(after.uid_nick, k) == Some(row_text(rows[0], plan.nick->0))
            &&& rows.len() > 0 && plan.qq is Some && assoc(n.uid_qq, k) is None && tells(
                rows[0],
                plan.key,
                plan.qq->0,
                k,
            ) ==> assoc(after.uid_qq, k) == Some(row_text(rows[0], plan.qq->0))
        }),
{
    let rows = grid(t.rows@);
    if plan.remark is Some && assoc(n.uid_remark, k) is None {
        law_first_row_fills(n.uid_remark, rows, plan.key, plan.remark->0, k);
    }
    if plan.nick is Some && assoc(n.uid_nick, k) is None {
        law_first_row_fills(n.uid_nick, rows, plan.key, plan.nick->0, k);
    }
    if plan.qq is Some && assoc(n.uid_qq, k) is None {
        law_first_row_fills(n.uid_qq, rows, plan.key, plan.qq->0, k);
    }
}

/// A table is understood where it has a key column and at least one column of remarks,
/// nicknames or account numbers beside it.
pub proof fn law_uid_plans(cols: Seq<ColModel>, k: int)
    ensures
        uid_plan_for(cols, None) is None,
        uid_plan_for(cols, Some(k)) is None <==> remark_col(cols, k) is None && nick_col(
            cols,
            k,
        ) is None && qq_col(cols, k) is None,
        uid_plan_for(cols, Some(k)) is Some ==> uid_plan_for(cols, Some(k))->0.key == k
            && uid_plan_for(cols, Some(k))->0.remark == remark_col(cols, k) && uid_plan_for(
            cols,
            Some(k),
        )->0.nick == nick_col(cols, k) && uid_plan_for(cols, Some(k))->0.qq == qq_col(cols, k),
{
}

/// The key of a profile table is the first column of uids; where none is, the column with
/// the most known uids. A mapping table goes by the former alone.
pub proof fn law_profile_keys(t: TableData, uids: Seq<(Seq<char>, bool)>)
    ensures
        ({
            let cols = table_columns(t);
            let no_uids = forall|i: int| 0 <= i < cols.len() ==> !(#[trigger] cols[i]).mostly_uids();
            &&& no_uids ==> mapping_plan(t) is None
            &&& no_uids && profile_plan(t, uids) is Some ==> overlap_col(
                cols,
                uids,
                cols.len() as int,
            ) == Some(profile_plan(t, uids)->0.key)
            &&& !no_uids ==> profile_plan(t, uids) == mapping_plan(t)
            &&& !no_uids && mapping_plan(t) is Some ==> cols[mapping_plan(t)->0.key].mostly_uids()
                && forall|j: int|
                0 <= j < mapping_plan(t)->0.key ==> !(#[trigger] cols[j]).mostly_uids()
        }),
{
    let cols = table_columns(t);
    lemma_first_col(cols, Pick::UidKey, -1, 0);
    match uid_key_col(cols) {
        Some(i) => {
            assert(cols[i].mostly_uids());
            assert forall|j: int| 0 <= j < i implies !(#[trigger] cols[j]).mostly_uids() by {
                assert(!picks(Pick::UidKey, -1, j, cols[j]));
            }
        },
        None => {
            assert forall|j: int| 0 <= j < cols.len() implies !(#[trigger] cols[j]).mostly_uids() by {
                assert(!picks(Pick::UidKey, -1, j, cols[j]));
            }
        },
    }
}

proof fn lemma_widest(cols: Seq<ColModel>, n: int)
    requires
        0 <= n <= cols.len(),
    ensures
        match widest_number_col(cols, n) {
            Some(b) => 0 <= b < n && cols[b].mostly_numbers() && (forall|j: int|
                0 <= j < n && (#[trigger] cols[j]).mostly_numbers() ==> cols[j].cardinality()
                    <= cols[b].cardinality()) && (forall|j: int|
                b < j < n && (#[trigger] cols[j]).mostly_numbers() ==> cols[j].cardinality()
                    < cols[b].cardinality()),
            None => forall|j: int| 0 <= j < n ==> !(#[trigger] cols[j]).mostly_numbers(),
        },
    decreases n,
{
    if n > 0 {
        lemma_widest(cols, n - 1);
    }
}

/// The key column of a group table is the one with the most known group ids; where none has
/// one, the first numbered 60001 that is of numbers; else, of the columns of numbers, the
/// one with the most distinct values, the last of several with as many.
pub proof fn law_group_keys(cols: Seq<ColModel>, ids: Seq<(Seq<char>, bool)>)
    ensures
        ({
            let got = group_key_col(cols, ids);
            let known = exists|j: int| 0 <= j < cols.len() && overlap(#[trigger] cols[j], ids) > 0;
            let marked = exists|j: int|
                0 <= j < cols.len() && (#[trigger] cols[j]).mostly_numbers() && cols[j].name
                    == "60001"@;
            &&& known ==> got is Some && 0 <= got->0 < cols.len() && forall|j: int|
                0 <= j < cols.len() ==> overlap(#[trigger] cols[j], ids) <= overlap(
                    cols[got->0],
                    ids,
                )
            &&& !known && marked ==> got is Some && 0 <= got->0 < cols.len() && cols[got->0].name
                == "60001"@ && cols[got->0].mostly_numbers()
            &&& !known && !marked && got is Some ==> 0 <= got->0 < cols.len()
                && cols[got->0].mostly_numbers() && forall|j: int|
                0 <= j < cols.len() && (#[trigger] cols[j]).mostly_numbers() ==> (
                cols[j].cardinality() < cols[got->0].cardinality() || (cols[j].cardinality()
                    == cols[got->0].cardinality() && j <= got->0))
            &&& got is None ==> forall|j: int|
                0 <= j < cols.len() ==> !(#[trigger] cols[j]).mostly_numbers() && overlap(
                    cols[j],
                    ids,
                ) == 0
        }),
{
    lemma_overlap_col(cols, ids, cols.len() as int);
    lemma_first_col(cols, Pick::GroupId, -1, 0);
    lemma_widest(cols, cols.len() as int);
    if overlap_col(cols, ids, cols.len() as int) is None {
        assert forall|j: int| 0 <= j < cols.len() implies !(overlap(#[trigger] cols[j], ids) > 0) by {}
        if first_col(cols, Pick::GroupId, -1, 0) is None {
            assert forall|j: int| 0 <= j < cols.len() implies !((#[trigger] cols[j]).mostly_numbers()
                && cols[j].name == "60001"@) by {
                assert(!picks(Pick::GroupId, -1, j, cols[j]));
            }
        }
    }
}

proof fn lemma_most_han(cols: Seq<ColModel>, key: int, n: int)
    requires
        0 <= n <= cols.len(),
    ensures
        match most_han_col(cols, key, n) {
            Some(b) => 0 <= b < n && b != key && cols[b].mostly_han() && forall|j: int|
                0 <= j < n && j != key && (#[trigger] cols[j]).mostly_han() ==> han_ratio_ge(
                    cols[b],
                    cols[j],
                ),
            None => forall|j: int| 0 <= j < n && j != key ==> !(#[trigger] cols[j]).mostly_han(),
        },
    decreases n,
{
    if n > 0 {
        lemma_most_han(cols, key, n - 1);
        let best = most_han_col(cols, key, n - 1);
        let c = cols[n - 1];
        if n - 1 != key && c.mostly_han() && best is Some {
            let b = cols[best->0];
            if han_ratio_ge(c, b) {
                assert forall|j: int|
                    0 <= j < n && j != key && (#[trigger] cols[j]).mostly_han() implies han_ratio_ge(
                    c,
                    cols[j],
                ) by {
                    if j < n - 1 {
                        lemma_ratios(
                            han_value_count(c.values),
                            c.values.len(),
                            han_value_count(b.values),
                            b.values.len(),
                            han_value_count(cols[j].values),
                            cols[j].values.len(),
                        );
                    }
                }
            } else {
                assert(han_ratio_ge(b, c));
            }
        }
    }
}

proof fn lemma_ratios(a: nat, p: nat, b: nat, q: nat, c: nat, r: nat)
    requires
        p > 0,
        q > 0,
        r > 0,
        a * q >= b * p,
        b * r >= c * q,
    ensures
        a * r >= c * p,
{
    assert((a * q) * r >= (b * p) * r) by (nonlinear_arith)
        requires
            a * q >= b * p,
    ;
    assert((b * r) * p >= (c * q) * p) by (nonlinear_arith)
        requires
            b * r >= c * q,
    ;
    assert((a * r) * q >= (c * p) * q) by (nonlinear_arith)
        requires
            (a * q) * r >= (b * p) * r,
            (b * r) * p >= (c * q) * p,
    ;
    assert(a * r >= c * p) by (nonlinear_arith)
        requires
            (a * r) * q >= (c * p) * q,
            q > 0,
    ;
}

/// Without a numbered or hinted column, a group's name is in the column with the greatest
/// share of names, of those that are mostly names.
pub proof fn law_unhinted_group_names(cols: Seq<ColModel>, key: int)
    requires
        forall|i: int| !numbered(cols, key, i, "60007"@),
    ensures
        ({
            let hinted = first_col(cols, Pick::GroupName, key, 0);
            let got = group_name_col(cols, key);
            &&& hinted is Some ==> got == hinted
            &&& hinted is None && got is Some ==> 0 <= got->0 < cols.len() && got->0 != key
                && cols[got->0].mostly_han() && forall|j: int|
                0 <= j < cols.len() && j != key && (#[trigger] cols[j]).mostly_han()
                    ==> han_value_count(cols[got->0].values) * cols[j].values.len()
                    >= han_value_count(cols[j].values) * cols[got->0].values.len()
            &&& got is None ==> forall|j: int|
                0 <= j < cols.len() && j != key ==> !(#[trigger] cols[j]).mostly_han()
        }),
{
    lemma_first_col(cols, Pick::FieldId("60007"), key, 0);
    lemma_most_han(cols, key, cols.len() as int);
    match first_col(cols, Pick::FieldId("60007"), key, 0) {
        Some(i) => {
            assert(numbered(cols, key, i, "60007"@));
        },
        None => {},
    }
}

/// A uid is known where a private chat is with it or a message is from it; a group id where
/// there is a group of it.
pub proof fn law_known_keys(convs: Seq<(Seq<char>, ConversationModel)>, k: Seq<char>)
    ensures
        assoc(known_of(convs).group_ids, k) is Some <==> exists|i: int|
            0 <= i < convs.len() && (#[trigger] convs[i]).1.chat_type is Group && convs[i].1.talker
                == k,
        assoc(known_of(convs).uids, k) is Some <==> exists|i: int|
            0 <= i < convs.len() && #[trigger] has_uid(convs[i].1, k),
    decreases convs.len(),
{
    if convs.len() > 0 {
        let front = convs.drop_last();
        let n = convs.len() - 1;
        let c = convs.last().1;
        law_known_keys(front, k);
        let before = known_of(front);
        law_put_then_get(before.group_ids, c.talker, true);
        law_put_then_get(before.uids, c.talker, true);
        let start = if c.chat_type is C2c {
            put(before.uids, c.talker, true)
        } else {
            before.uids
        };
        lemma_with_senders(start, c.msgs, k);
        if exists|i: int|
            0 <= i < front.len() && (#[trigger] front[i]).1.chat_type is Group && front[i].1.talker
                == k {
            let i = choose|i: int|
                0 <= i < front.len() && (#[trigger] front[i]).1.chat_type is Group
                    && front[i].1.talker == k;
            assert(convs[i].1.chat_type is Group && convs[i].1.talker == k);
        }
        if exists|i: int|
            0 <= i < convs.len() && (#[trigger] convs[i]).1.chat_type is Group && convs[i].1.talker
                == k {
            let i = choose|i: int|
                0 <= i < convs.len() && (#[trigger] convs[i]).1.chat_type is Group
                    && convs[i].1.talker == k;
            if i < n {
                assert(front[i].1.chat_type is Group && front[i].1.talker == k);
            }
        }
        if c.chat_type is Group && c.talker == k {
            assert(convs[n].1.chat_type is Group && convs[n].1.talker == k);
        }
        if exists|i: int| 0 <= i < front.len() && #[trigger] has_uid(front[i].1, k) {
            let i = choose|i: int| 0 <= i < front.len() && #[trigger] has_uid(front[i].1, k);
            assert(has_uid(convs[i].1, k));
        }
        if exists|i: int| 0 <= i < convs.len() && #[trigger] has_uid(convs[i].1, k) {
            let i = choose|i: int| 0 <= i < convs.len() && #[trigger] has_uid(convs[i].1, k);
            if i < n {
                assert(has_uid(front[i].1, k));
            }
        }
        if has_uid(c, k) {
            assert(has_uid(convs[n].1, k));
        }
    }
}

/// A uid takes part in a conversation: it is a private chat's peer, or sent a message.
pub open spec fn has_uid(c: ConversationModel, k: Seq<char>) -> bool {
    (c.chat_type is C2c && c.talker == k) || (k.len() > 0 && exists|i: int|
        0 <= i < c.msgs.len() && (#[trigger] c.msgs[i]).from_uid == k)
}

proof fn lemma_with_senders(uids: Seq<(Seq<char>, bool)>, msgs: Seq<RecordModel>, k: Seq<char>)
    ensures
        assoc(with_senders(uids, msgs), k) is Some <==> assoc(uids, k) is Some || (k.len() > 0
            && exists|i: int| 0 <= i < msgs.len() && (#[trigger] msgs[i]).from_uid == k),
    decreases msgs.len(),
{
    if msgs.len() > 0 {
        let front = msgs.drop_last();
        lemma_with_senders(uids, front, k);
        law_put_then_get(with_senders(uids, front), msgs.last().from_uid, true);
        if exists|i: int| 0 <= i < front.len() && (#[trigger] front[i]).from_uid == k {
            let i = choose|i: int| 0 <= i < front.len() && (#[trigger] front[i]).from_uid == k;
            assert(msgs[i].from_uid == k);
        }
        if exists|i: int| 0 <= i < msgs.len() && (#[trigger] msgs[i]).from_uid == k {
            let i = choose|i: int| 0 <= i < msgs.len() && (#[trigger] msgs[i]).from_uid == k;
            if i < front.len() {
                assert(front[i].from_uid == k);
            }
        }
        if msgs.last().from_uid == k {
            assert(msgs[msgs.len() - 1].from_uid == k);
        }
    }
}

/// A group's name is known from its conversation, where that has one of its own: not empty,
/// and not its number.
pub proof fn law_known_group_names(
    convs: Seq<(Seq<char>, ConversationModel)>,
    key: Seq<char>,
    c: ConversationModel,
)
    ensures
        ({
            let before = known_of(convs);
            let after = known_of(convs.push((key, c)));
            &&& c.chat_type is Group && c.name.len() > 0 && c.name != c.talker ==> assoc(
                after.group_names,
                c.talker,
            ) == Some(c.name)
            &&& c.chat_type is C2c || c.name.len() == 0 || c.name == c.talker ==> after.group_names
                == before.group_names
            &&& known_of(Seq::empty()).group_names.len() == 0
        }),
{
    assert(convs.push((key, c)).drop_last() =~= convs);
    law_put_then_get(known_of(convs).group_names, c.talker, c.name);
}

/// A profile table is one of the four by name, or one whose name has `profile` in it and
/// neither `fts` nor `public`.
pub proof fn law_profile_tables(name: Seq<char>)
    ensures
        profile_table(name) <==> name == "profile_info_v2"@ || name == "profile_info_v6"@ || name
            == "profile_info_adelie"@ || name == "buddy_list"@ || (hinted_at(name, "profile"@)
            && !hinted_at(name, "fts"@) && !hinted_at(name, "public"@)),
{
    lemma_hinted_at(name, "profile"@);
    lemma_hinted_at(name, "fts"@);
    lemma_hinted_at(name, "public"@);
}

/// A drifted group table is none of the known ones, and has `group` or `troop` in its name.
pub proof fn law_drifted_tables(name: Seq<char>)
    ensures
        drifted_table(name) <==> (hinted_at(name, "group"@) || hinted_at(name, "troop"@)) && name
            != "group_list"@ && name != "group_detail_info_ver1"@ && name != "group_table"@ && name
            != "nt_group_table"@ && name != "nt_group_info"@ && name != "group_info"@ && name
            != "troop_info"@ && name != "nt_troop_info"@ && name != "troop_list"@,
{
    lemma_hinted_at(name, "group"@);
    lemma_hinted_at(name, "troop"@);
    let g = group_tables();
    assert(g[0] == "group_list"@ && g[1] == "group_detail_info_ver1"@ && g[2] == "group_table"@);
    assert(g[3] == "nt_group_table"@ && g[4] == "nt_group_info"@ && g[5] == "group_info"@);
    assert(g[6] == "troop_info"@ && g[7] == "nt_troop_info"@ && g[8] == "troop_list"@);
}

pub proof fn lemma_table_named(tables: Seq<TableData>, name: Seq<char>, from: int)
    requires
        0 <= from,
    ensures
        match table_named(tables, name, from) {
            Some(i) => from <= i < tables.len() && tables[i].name@ == name && forall|j: int|
                from <= j < i ==> (#[trigger] tables[j]).name@ != name,
            None => forall|j: int| from <= j < tables.len() ==> (#[trigger] tables[j]).name@ != name,
        },
    decreases tables.len() - from,
{
    if from < tables.len() && tables[from].name@ != name {
        lemma_table_named(tables, name, from + 1);
    }
}

/// The uid mapping tables are tried in order, the first that is understood is read, and no
/// other; where none is, nothing changes.
pub proof fn law_mapping_tables_are_tried_in_order(n: NamesModel, tables: Seq<TableData>, i: int)
    requires
        0 <= i < tables.len(),
        forall|j: int| 0 <= j < i ==> (#[trigger] tables[j]).name@ != tables[i].name@,
    ensures
        tables[i].name@ == "nt_uid_mapping_table"@ && mapping_plan(tables[i]) is Some
            ==> with_mapping(n, tables, 0) == with_uid_rows(
            n,
            tables[i],
            mapping_plan(tables[i])->0,
        ),
        tables.len() == 1 && (tables[i].name@ == "uid_mapping"@ || tables[i].name@
            == "buddy_mapping"@ || tables[i].name@ == "nt_buddylist"@) && mapping_plan(
            tables[i],
        ) is Some ==> with_mapping(n, tables, 0) == with_uid_rows(
            n,
            tables[i],
            mapping_plan(tables[i])->0,
        ),
        (forall|j: int| 0 <= j < tables.len() ==> mapping_plan(#[trigger] tables[j]) is None)
            ==> with_mapping(n, tables, 0) == n,
{
    let u = uid_tables();
    lemma_table_named(tables, u[0], 0);
    lemma_table_named(tables, u[1], 0);
    lemma_table_named(tables, u[2], 0);
    lemma_table_named(tables, u[3], 0);
    reveal_with_fuel(with_mapping, 5);
    reveal_strlit("nt_uid_mapping_table");
    reveal_strlit("uid_mapping");
    reveal_strlit("buddy_mapping");
    reveal_strlit("nt_buddylist");
}

proof fn lemma_known_choice(tables: Seq<TableData>, known: KnownModel, k: int, at: int)
    requires
        0 <= k <= at < group_tables().len(),
        forall|j: int|
            k <= j < at ==> ({
                let i = table_named(tables, #[trigger] group_tables()[j], 0);
                i is None || group_plan(tables, i->0, known, false) is None
            }),
        table_named(tables, group_tables()[at], 0) is Some,
        group_plan(tables, table_named(tables, group_tables()[at], 0)->0, known, false) is Some,
    ensures
        known_group_choice(tables, known, k) == group_plan(
            tables,
            table_named(tables, group_tables()[at], 0)->0,
            known,
            false,
        ),
    decreases at - k,
{
    if k < at {
        assert(group_tables()[k] == group_tables()[k]);
        lemma_known_choice(tables, known, k + 1, at);
    }
}

/// Of the known group tables, tried in their order, the first that is understood is read;
/// `group_list` goes first.
pub proof fn law_group_list_goes_first(tables: Seq<TableData>, known: KnownModel, i: int)
    requires
        0 <= i < tables.len(),
        forall|j: int| 0 <= j < i ==> (#[trigger] tables[j]).name@ != tables[i].name@,
        tables[i].name@ == "group_list"@,
        group_plan(tables, i, known, false) is Some,
    ensures
        group_choice(tables, known) == group_plan(tables, i, known, false),
{
    lemma_table_named(tables, "group_list"@, 0);
    assert(group_tables()[0] == "group_list"@);
    lemma_known_choice(tables, known, 0, 0);
}

/// A database with a single table of a known name is read by that table.
pub proof fn law_known_tables_are_read(tables: Seq<TableData>, known: KnownModel)
    requires
        tables.len() == 1,
        tables[0].name@ == "group_list"@ || tables[0].name@ == "group_detail_info_ver1"@
            || tables[0].name@ == "group_table"@ || tables[0].name@ == "nt_group_table"@
            || tables[0].name@ == "nt_group_info"@ || tables[0].name@ == "group_info"@
            || tables[0].name@ == "troop_info"@ || tables[0].name@ == "nt_troop_info"@
            || tables[0].name@ == "troop_list"@,
    ensures
        group_choice(tables, known) == group_plan(tables, 0, known, false),
{
    let g = group_tables();
    let name = tables[0].name@;
    assert(g[0] == "group_list"@ && g[1] == "group_detail_info_ver1"@ && g[2] == "group_table"@);
    assert(g[3] == "nt_group_table"@ && g[4] == "nt_group_info"@ && g[5] == "group_info"@);
    assert(g[6] == "troop_info"@ && g[7] == "nt_troop_info"@ && g[8] == "troop_list"@);
    lemma_one_table(tables, known, 0);
    law_drifted_tables(name);
    if group_plan(tables, 0, known, false) is None {
        lemma_name_order(table_names(tables));
        law_sorted_places(1, name_leq(table_names(tables)));
        lemma_no_drifted(tables, known, by_name(table_names(tables)), 0);
    } else {
        assert(exists|j: int| 0 <= j < g.len() && #[trigger] g[j] == name);
    }
}

proof fn lemma_one_table(tables: Seq<TableData>, known: KnownModel, k: int)
    requires
        tables.len() == 1,
        0 <= k <= group_tables().len(),
    ensures
        (exists|j: int| k <= j < group_tables().len() && #[trigger] group_tables()[j]
            == tables[0].name@) && group_plan(tables, 0, known, false) is Some
            ==> known_group_choice(tables, known, k) == group_plan(tables, 0, known, false),
        group_plan(tables, 0, known, false) is None ==> known_group_choice(tables, known, k) is None,
        (forall|j: int| k <= j < group_tables().len() ==> #[trigger] group_tables()[j]
            != tables[0].name@) ==> known_group_choice(tables, known, k) is None,
    decreases group_tables().len() - k,
{
    if k < group_tables().len() {
        lemma_table_named(tables, group_tables()[k], 0);
        assert(tables[0] == tables[0]);
        lemma_one_table(tables, known, k + 1);
    }
}

proof fn lemma_no_drifted(tables: Seq<TableData>, known: KnownModel, places: Seq<int>, k: int)
    requires
        0 <= k,
        tables.len() == 1,
        !drifted_table(tables[0].name@),
        forall|i: int| 0 <= i < places.len() ==> #[trigger] places[i] == 0,
    ensures
        drifted_group_choice(tables, known, places, k) is None,
    decreases places.len() - k,
{
    if k < places.len() {
        assert(places[k] == 0);
        lemma_no_drifted(tables, known, places, k + 1);
    }
}

/// A group table is understood where it has a key column and a column of names or remarks;
/// one whose name drifted must besides tell a known group its known name.
pub proof fn law_group_plans(tables: Seq<TableData>, i: int, known: KnownModel, drift: bool)
    ensures
        ({
            let cols = table_columns(tables[i]);
            let key = group_key_col(cols, known.group_ids);
            let plan = group_plan(tables, i, known, drift);
            &&& key is None ==> plan is None
            &&& key is Some && !drift ==> (plan is Some <==> group_name_col(cols, key->0) is Some
                || remark_col(cols, key->0) is Some)
            &&& plan is Some ==> plan->0.table == i && Some(plan->0.key) == key && plan->0.name
                == group_name_col(cols, plan->0.key) && plan->0.remark == remark_col(
                cols,
                plan->0.key,
            )
            &&& plan is Some && drift ==> plan->0.name is Some && exists|j: int|
                0 <= j < sample(grid(tables[i].rows@)).len() && assoc(
                    known.group_names,
                    row_text(#[trigger] sample(grid(tables[i].rows@))[j], plan->0.key),
                ) == Some(row_text(sample(grid(tables[i].rows@))[j], plan->0.name->0))
        }),
{
}

/// The chosen table fills the groups' names and remarks, from its own columns; the people's
/// maps stay.
pub proof fn law_group_tables_fill_group_maps(
    n: NamesModel,
    tables: Seq<TableData>,
    known: KnownModel,
    k: Seq<char>,
)
    ensures
        ({
            let after = with_groups(n, tables, known);
            let plan = group_choice(tables, known);
            let rows = grid(tables[plan->0.table].rows@);
            &&& after.uid_remark == n.uid_remark && after.uid_nick == n.uid_nick && after.uid_qq
                == n.uid_qq
            &&& plan is None ==> after == n
            &&& plan is Some && plan->0.name is Some && rows.len() > 0 && assoc(n.group_name, k) is None
                && tells(rows[0], plan->0.key, plan->0.name->0, k) ==> assoc(after.group_name, k)
                == Some(row_text(rows[0], plan->0.name->0))
            &&& plan is Some && plan->0.remark is Some && rows.len() > 0 && assoc(
                n.group_remark,
                k,
            ) is None && tells(rows[0], plan->0.key, plan->0.remark->0, k) ==> assoc(
                after.group_remark,
                k,
            ) == Some(row_text(rows[0], plan->0.remark->0))
        }),
{
    let plan = group_choice(tables, known);
    let rows = grid(tables[plan->0.table].rows@);
    if plan is Some && plan->0.name is Some && assoc(n.group_name, k) is None {
        law_first_row_fills(n.group_name, rows, plan->0.key, plan->0.name->0, k);
    }
    if plan is Some && plan->0.remark is Some && assoc(n.group_remark, k) is None {
        law_first_row_fills(n.group_remark, rows, plan->0.key, plan->0.remark->0, k);
    }
}

/// Group names come from the message database where it has a group table, else from the
/// first of the sibling databases that has one, else from nowhere; the people's maps do not
/// depend on the siblings.
pub proof fn law_group_sources(
    profiles: Seq<Vec<TableData>>,
    msg: Seq<TableData>,
    siblings: Seq<Vec<TableData>>,
    known: KnownModel,
    k: int,
)
    ensures
        ({
            let got = loaded_names(profiles, msg, siblings, known);
            let people = loaded_names(profiles, msg, Seq::empty(), known);
            let none_before = forall|j: int|
                0 <= j < k ==> group_choice((#[trigger] siblings[j])@, known) is None;
            &&& got.uid_remark == people.uid_remark && got.uid_nick == people.uid_nick && got.uid_qq
                == people.uid_qq
            &&& group_choice(msg, known) is Some ==> got == people
            &&& group_choice(msg, known) is None && 0 <= k < siblings.len() && none_before
                && group_choice(siblings[k]@, known) is Some ==> got == with_groups(
                people,
                siblings[k]@,
                known,
            )
            &&& group_choice(msg, known) is None && k == siblings.len() && none_before ==> got
                == people
        }),
{
    let people = loaded_names(profiles, msg, Seq::empty(), known);
    if group_choice(msg, known) is None {
        lemma_siblings(people, siblings, known, 0, k);
        lemma_siblings_keep_people(people, siblings, known, 0);
    }
}

proof fn lemma_siblings_keep_people(
    n: NamesModel,
    siblings: Seq<Vec<TableData>>,
    known: KnownModel,
    from: int,
)
    ensures
        with_sibling_groups(n, siblings, known, from).uid_remark == n.uid_remark,
        with_sibling_groups(n, siblings, known, from).uid_nick == n.uid_nick,
        with_sibling_groups(n, siblings, known, from).uid_qq == n.uid_qq,
    decreases siblings.len() - from,
{
    if 0 <= from < siblings.len() {
        lemma_siblings_keep_people(n, siblings, known, from + 1);
    }
}

proof fn lemma_siblings(
    n: NamesModel,
    siblings: Seq<Vec<TableData>>,
    known: KnownModel,
    from: int,
    k: int,
)
    requires
        0 <= from,
    ensures
        ({
            let got = with_sibling_groups(n, siblings, known, from);
            let none_before = forall|j: int|
                from <= j < k ==> group_choice((#[trigger] siblings[j])@, known) is None;
            &&& from <= k < siblings.len() && none_before && group_choice(
                siblings[k]@,
                known,
            ) is Some ==> got == with_groups(n, siblings[k]@, known)
            &&& k == siblings.len() && none_before ==> got == n
        }),
    decreases siblings.len() - from,
{
    if from < siblings.len() {
        lemma_siblings(n, siblings, known, from + 1, k);
        if from < k && (forall|j: int|
            from <= j < k ==> group_choice((#[trigger] siblings[j])@, known) is None) {
            assert(group_choice(siblings[from]@, known) is None);
        }
    }
}

/// A sibling database is looked into without a known name where it is a `.db` that is
/// neither a message database nor one of the named ones, up to six of them as they are
/// listed.
pub proof fn law_extra_files(listing: Seq<Seq<char>>)
    ensures
        ({
            let got = extra_files(listing, FALLBACK_SCAN_CAP as nat);
            let fit = listing.filter(|s: Seq<char>| extra_db_file(s));
            &&& fit.len() <= 6 ==> got == fit
            &&& fit.len() > 6 ==> got == fit.take(6)
        }),
{
    lemma_extra_files(listing, 6);
}

proof fn lemma_extra_files(listing: Seq<Seq<char>>, cap: nat)
    ensures
        ({
            let got = extra_files(listing, cap);
            let fit = listing.filter(|s: Seq<char>| extra_db_file(s));
            &&& fit.len() <= cap ==> got == fit
            &&& fit.len() > cap ==> got == fit.take(cap as int)
        }),
    decreases listing.len(),
{
    reveal(Seq::filter);
    if listing.len() > 0 {
        lemma_extra_files(listing.drop_last(), cap);
        let p = |s: Seq<char>| extra_db_file(s);
        let before = listing.drop_last().filter(p);
        let fit = listing.filter(p);
        if extra_db_file(listing.last()) {
            assert(fit == before.push(listing.last()));
            if before.len() == cap {
                assert(fit.take(cap as int) =~= before);
            } else if before.len() > cap {
                assert(fit.take(cap as int) =~= before.take(cap as int));
            }
        }
    }
}

/// Which files are such siblings.
pub proof fn law_extra_db_files(stem: Seq<char>)
    requires
        stem.len() > 0,
    ensures
        ({
            let name = stem + ".db"@;
            &&& extra_db_file(name) <==> name != "raw.db"@ && name != "group_info.db"@ && !(exists|
                rest: Seq<char>,
            |
                name == #[trigger] ("nt_msg"@ + rest))
        }),
{
    let name = stem + ".db"@;
    reveal_strlit(".db");
    reveal_strlit("db");
    crate::text::law_starts_and_ends(name, "nt_msg"@);
    lemma_db_extension(stem);
}

proof fn lemma_db_extension(stem: Seq<char>)
    requires
        stem.len() > 0,
    ensures
        extension_of(stem + ".db"@) == "db"@,
{
    let name = stem + ".db"@;
    reveal_strlit(".db");
    reveal_strlit("db");
    let n = name.len() as int;
    reveal_with_fuel(crate::text::last_char, 4);
    assert(name[n - 1] == 'b' && name[n - 2] == 'd' && name[n - 3] == '.');
    assert(crate::text::last_char(name, '.', n) == Some(n - 3));
    assert(name.skip(n - 2) =~= "db"@);
    assert(name.len() > 3);
}

/// A table whose name drifted is understood and agrees.
#[verifier::opaque]
pub open spec fn drifts(tables: Seq<TableData>, known: KnownModel, i: int) -> bool {
    drifted_table(tables[i].name@) && group_plan(tables, i, known, true) is Some
}

/// The first place from `k` on at which a drifted table is understood, or the end.
proof fn lemma_drifted_choice(
    tables: Seq<TableData>,
    known: KnownModel,
    places: Seq<int>,
    k: int,
) -> (j: int)
    requires
        0 <= k <= places.len(),
    ensures
        k <= j <= places.len(),
        forall|i: int| k <= i < j ==> !drifts(tables, known, #[trigger] places[i]),
        j < places.len() ==> drifts(tables, known, places[j]) && drifted_group_choice(
            tables,
            known,
            places,
            k,
        ) == group_plan(tables, places[j], known, true),
        j == places.len() ==> drifted_group_choice(tables, known, places, k) is None,
    decreases places.len() - k,
{
    reveal(drifts);
    if k < places.len() {
        if drifts(tables, known, places[k]) {
            k
        } else {
            lemma_drifted_choice(tables, known, places, k + 1)
        }
    } else {
        k
    }
}

/// Where no known group table is understood, the first in the dictionary's order of the
/// drifted ones that is understood and agrees is read, and no other.
pub proof fn law_drifted_tables_go_by_name(tables: Seq<TableData>, known: KnownModel, i: int)
    requires
        known_group_choice(tables, known, 0) is None,
        0 <= i < tables.len(),
        drifted_table(tables[i].name@),
        group_plan(tables, i, known, true) is Some,
    ensures
        ({
            let got = group_choice(tables, known);
            &&& got is Some
            &&& 0 <= got->0.table < tables.len()
            &&& got == group_plan(tables, got->0.table, known, true)
            &&& drifted_table(tables[got->0.table].name@)
            &&& crate::text::seq_le(tables[got->0.table].name@, tables[i].name@)
        }),
{
    let names = table_names(tables);
    let places = by_name(names);
    lemma_name_order(names);
    law_sorted_places(tables.len(), name_leq(names));
    reveal(drifts);
    let j = lemma_drifted_choice(tables, known, places, 0);
    let all = crate::order::places(tables.len());
    assert(all[i] == i);
    assert(all.contains(i));
    places.to_multiset_ensures();
    all.to_multiset_ensures();
    assert(places.contains(i));
    let k = choose|k: int| 0 <= k < places.len() && places[k] == i;
    assert(drifts(tables, known, places[k]));
    let got = group_choice(tables, known);
    assert(j <= k);
    assert(got->0.table == places[j]);
    if j < k {
        assert(name_leq(names)(places[j], places[k]));
    }
    assert(names[places[j]] == tables[places[j]].name@);
    assert(names[i] == tables[i].name@);
    if names[places[j]] == names[i] {
        crate::text::law_dictionary_order(names[i], 'a', Seq::empty(), 'b', Seq::empty());
        assert(names[i] + Seq::<char>::empty() =~= names[i]);
    }
}

/// Profile databases are read by their profile tables alone.
pub proof fn law_only_profile_tables_are_read(
    n: NamesModel,
    tables: Seq<TableData>,
    places: Seq<int>,
    uids: Seq<(Seq<char>, bool)>,
    i: int,
)
    ensures
        (forall|k: int|
            0 <= k < places.len() ==> !profile_table((#[trigger] tables[places[k]]).name@))
            ==> with_profiles(n, tables, places, uids) == n,
        profile_table(tables[i].name@) && profile_plan(tables[i], uids) is Some ==> with_profiles(
            n,
            tables,
            seq![i],
            uids,
        ) == with_uid_rows(n, tables[i], profile_plan(tables[i], uids)->0),
        profile_plan(tables[i], uids) is None ==> with_profiles(n, tables, seq![i], uids) == n,
        with_profiles(n, tables, places.push(i), uids) == with_profiles(
            with_profiles(n, tables, places, uids),
            tables,
            seq![i],
            uids,
        ),
    decreases places.len(),
{
    reveal_with_fuel(with_profiles, 2);
    assert(seq![i].drop_last() =~= Seq::empty());
    assert(places.push(i).drop_last() =~= places);
    if places.len() > 0 {
        law_only_profile_tables_are_read(n, tables, places.drop_last(), uids, i);
        if forall|k: int|
            0 <= k < places.len() ==> !profile_table((#[trigger] tables[places[k]]).name@) {
            assert(!profile_table(tables[places[places.len() - 1]].name@));
            assert forall|k: int| 0 <= k < places.drop_last().len() implies !profile_table(
                (#[trigger] tables[places.drop_last()[k]]).name@,
            ) by {
                assert(!profile_table(tables[places[k]].name@));
            }
        }
    }
}

/// A name that a profile told is not told again: reading a later profile database or the
/// mapping tables leaves it as it is.
pub proof fn law_earlier_names_stay(
    n: NamesModel,
    t: TableData,
    plan: UidPlanModel,
    k: Seq<char>,
)
    ensures
        ({
            let after = with_uid_rows(n, t, plan);
            &&& assoc(n.uid_remark, k) is Some ==> assoc(after.uid_remark, k) == assoc(
                n.uid_remark,
                k,
            )
            &&& assoc(n.uid_nick, k) is Some ==> assoc(after.uid_nick, k) == assoc(n.uid_nick, k)
            &&& assoc(n.uid_qq, k) is Some ==> assoc(after.uid_qq, k) == assoc(n.uid_qq, k)
        }),
{
    let rows = grid(t.rows@);
    if plan.remark is Some && assoc(n.uid_remark, k) is Some {
        law_first_source_wins(n.uid_remark, rows, plan.key, plan.remark->0, k);
    }
    if plan.nick is Some && assoc(n.uid_nick, k) is Some {
        law_first_source_wins(n.uid_nick, rows, plan.key, plan.nick->0, k);
    }
    if plan.qq is Some && assoc(n.uid_qq, k) is Some {
        law_first_source_wins(n.uid_qq, rows, plan.key, plan.qq->0, k);
    }
}

proof fn lemma_mapping_keeps(n: NamesModel, tables: Seq<TableData>, k: int, uid: Seq<char>)
    ensures
        ({
            let after = with_mapping(n, tables, k);
            &&& assoc(n.uid_remark, uid) is Some ==> assoc(after.uid_remark, uid) == assoc(
                n.uid_remark,
                uid,
            )
            &&& assoc(n.uid_nick, uid) is Some ==> assoc(after.uid_nick, uid) == assoc(
                n.uid_nick,
                uid,
            )
            &&& assoc(n.uid_qq, uid) is Some ==> assoc(after.uid_qq, uid) == assoc(n.uid_qq, uid)
            &&& after.group_name == n.group_name && after.group_remark == n.group_remark
        }),
    decreases uid_tables().len() - k,
{
    if 0 <= k < uid_tables().len() {
        match table_named(tables, uid_tables()[k], 0) {
            Some(i) => match mapping_plan(tables[i]) {
                Some(plan) => {
                    law_earlier_names_stay(n, tables[i], plan, uid);
                },
                None => {
                    lemma_mapping_keeps(n, tables, k + 1, uid);
                },
            },
            None => {
                lemma_mapping_keeps(n, tables, k + 1, uid);
            },
        }
    }
}

/// The profiles go before the mapping tables: what a profile told of a person is what the
/// loaded names tell.
pub proof fn law_profiles_go_first(
    profiles: Seq<Vec<TableData>>,
    msg: Seq<TableData>,
    siblings: Seq<Vec<TableData>>,
    known: KnownModel,
    uid: Seq<char>,
)
    ensures
        ({
            let told = loaded_names(profiles, Seq::empty(), Seq::empty(), known);
            let all = loaded_names(profiles, msg, siblings, known);
            &&& assoc(told.uid_remark, uid) is Some ==> assoc(all.uid_remark, uid) == assoc(
                told.uid_remark,
                uid,
            )
            &&& assoc(told.uid_nick, uid) is Some ==> assoc(all.uid_nick, uid) == assoc(
                told.uid_nick,
                uid,
            )
            &&& assoc(told.uid_qq, uid) is Some ==> assoc(all.uid_qq, uid) == assoc(
                told.uid_qq,
                uid,
            )
        }),
{
    let base = with_all_profiles(profiles, known, profiles.len() as int);
    let none = Seq::<TableData>::empty();
    lemma_no_mapping(base, 0);
    lemma_mapping_keeps(base, msg, 0, uid);
    let told = loaded_names(profiles, none, Seq::empty(), known);
    law_group_sources(profiles, msg, siblings, known, 0);
    law_group_sources(profiles, msg, Seq::empty(), known, 0);
    law_group_tables_fill_group_maps(with_mapping(base, msg, 0), msg, known, uid);
    law_group_tables_fill_group_maps(with_mapping(base, none, 0), none, known, uid);
    law_group_sources(profiles, none, Seq::empty(), known, 0);
    assert(with_sibling_groups(with_mapping(base, none, 0), Seq::empty(), known, 0) == with_mapping(
        base,
        none,
        0,
    ));
    assert(with_sibling_groups(with_mapping(base, msg, 0), Seq::empty(), known, 0) == with_mapping(
        base,
        msg,
        0,
    ));
}

proof fn lemma_no_mapping(n: NamesModel, k: int)
    ensures
        with_mapping(n, Seq::empty(), k) == n,
    decreases uid_tables().len() - k,
{
    if 0 <= k < uid_tables().len() {
        assert(table_named(Seq::empty(), uid_tables()[k], 0) is None);
        lemma_no_mapping(n, k + 1);
    }
}

/// The sibling databases that are tried by name, in this order.
pub proof fn law_group_files()
    ensures
        group_files().len() == 6,
        group_files()[0] == "group_info.db"@,
        group_files()[1] == "nt_group_info.db"@,
        group_files()[2] == "group_table.db"@,
        group_files()[3] == "nt_group_table.db"@,
        group_files()[4] == "troop_info.db"@,
        group_files()[5] == "nt_uid_mapping.db"@,
{
}

proof fn lemma_profiles_keep(
    n: NamesModel,
    tables: Seq<TableData>,
    places: Seq<int>,
    uids: Seq<(Seq<char>, bool)>,
    uid: Seq<char>,
)
    ensures
        ({
            let after = with_profiles(n, tables, places, uids);
            &&& assoc(n.uid_remark, uid) is Some ==> assoc(after.uid_remark, uid) == assoc(
                n.uid_remark,
                uid,
            )
            &&& assoc(n.uid_nick, uid) is Some ==> assoc(after.uid_nick, uid) == assoc(
                n.uid_nick,
                uid,
            )
            &&& assoc(n.uid_qq, uid) is Some ==> assoc(after.uid_qq, uid) == assoc(n.uid_qq, uid)
        }),
    decreases places.len(),
{
    if places.len() > 0 {
        lemma_profiles_keep(n, tables, places.drop_last(), uids, uid);
        let before = with_profiles(n, tables, places.drop_last(), uids);
        let t = tables[places.last()];
        match profile_plan(t, uids) {
            Some(plan) => {
                law_earlier_names_stay(before, t, plan, uid);
            },
            None => {},
        }
    }
}

/// What a profile database tells alone.
pub open spec fn told_by(profile: Vec<TableData>, known: KnownModel) -> NamesModel {
    with_profiles(
        crate::store::no_names(),
        profile@,
        by_name(table_names(profile@)),
        known.uids,
    )
}

proof fn lemma_first_profile(
    profiles: Seq<Vec<TableData>>,
    known: KnownModel,
    k: int,
    uid: Seq<char>,
)
    requires
        1 <= k <= profiles.len(),
    ensures
        ({
            let first = told_by(profiles[0], known);
            let all = with_all_profiles(profiles, known, k);
            &&& assoc(first.uid_remark, uid) is Some ==> assoc(all.uid_remark, uid) == assoc(
                first.uid_remark,
                uid,
            )
            &&& assoc(first.uid_nick, uid) is Some ==> assoc(all.uid_nick, uid) == assoc(
                first.uid_nick,
                uid,
            )
            &&& assoc(first.uid_qq, uid) is Some ==> assoc(all.uid_qq, uid) == assoc(
                first.uid_qq,
                uid,
            )
        }),
    decreases k,
{
    if k == 1 {
        assert(with_all_profiles(profiles, known, 0) == crate::store::no_names());
        assert(with_all_profiles(profiles, known, 1) == told_by(profiles[0], known));
    } else {
        lemma_first_profile(profiles, known, k - 1, uid);
        lemma_profiles_keep(
            with_all_profiles(profiles, known, k - 1),
            profiles[k - 1]@,
            by_name(table_names(profiles[k - 1]@)),
            known.uids,
            uid,
        );
    }
}

/// The first profile database goes before every other source of people's names.
pub proof fn law_first_profile_wins(
    profiles: Seq<Vec<TableData>>,
    msg: Seq<TableData>,
    siblings: Seq<Vec<TableData>>,
    known: KnownModel,
    uid: Seq<char>,
)
    requires
        profiles.len() > 0,
    ensures
        ({
            let first = told_by(profiles[0], known);
            let all = loaded_names(profiles, msg, siblings, known);
            &&& assoc(first.uid_remark, uid) is Some ==> assoc(all.uid_remark, uid) == assoc(
                first.uid_remark,
                uid,
            )
            &&& assoc(first.uid_nick, uid) is Some ==> assoc(all.uid_nick, uid) == assoc(
                first.uid_nick,
                uid,
            )
            &&& assoc(first.uid_qq, uid) is Some ==> assoc(all.uid_qq, uid) == assoc(
                first.uid_qq,
                uid,
            )
        }),
{
    let n = profiles.len() as int;
    let base = with_all_profiles(profiles, known, n);
    lemma_first_profile(profiles, known, n, uid);
    lemma_mapping_keeps(base, msg, 0, uid);
    law_group_sources(profiles, msg, siblings, known, 0);
    law_group_tables_fill_group_maps(with_mapping(base, msg, 0), msg, known, uid);
    assert(with_sibling_groups(with_mapping(base, msg, 0), Seq::empty(), known, 0) == with_mapping(
        base,
        msg,
        0,
    ));
}

/// A later profile database fills in what the earlier ones left out.
pub proof fn law_later_profiles_are_read(
    profiles: Seq<Vec<TableData>>,
    known: KnownModel,
    k: int,
)
    requires
        0 <= k < profiles.len(),
    ensures
        with_all_profiles(profiles, known, 0) == crate::store::no_names(),
        with_all_profiles(profiles, known, k + 1) == with_profiles(
            with_all_profiles(profiles, known, k),
            profiles[k]@,
            by_name(table_names(profiles[k]@)),
            known.uids,
        ),
{
}

} // verus!

//! The scan that builds the in-memory index, and the appends that keep it current.
//!
//! Messages stand in two tables with numeric column names:
//!   group_msg_table: "40021" (group id), "40001" (seq), "40020" (sender uid),
//!                    "40093" (nickname), "40800" (message blob)
//!   c2c_msg_table:   "40020" (peer uid), "40001" (seq), "40093" (nickname),
//!                    "40800" (message blob)
//!
//! Optional columns are probed per table and appended when present:
//!   "40013" message direction (0 other / 1,2 self / 3 system) -> isSend
//!   "40050" unix send time (seconds) -> authoritative ts (fallback seq>>32)
//!   "40090" sender group card (group table) -> display nick preference
//!
//! Rows and what the file system says come in as plain values.

use vstd::prelude::*;
use vstd::string::StringExecFns;

use crate::parser::types::{
    non_empty, record_views, seq_time, seq_to_time, ChatType, MediaInfo, MediaModel, MessageRecord,
    MsgType, RecordModel,
};
use crate::parser::{extract_message, message_of};
use crate::store::media::{
    candidate_paths, fallback_candidate, fallback_file, key_paths, law_best_candidate,
    law_fallback_reads_candidates_only, name_md5_paths, name_stem_paths, CacheIndex, Disk,
};
use crate::store::{
    card_views, conv_key, conv_key_of, conv_views, empty_store, older, sorted_conversation, text_put,
    texts, Conversation, ConversationModel, MediaEntry, MediaEntryModel, Store, StoreModel,
};
use crate::strmap::{assoc, law_put_then_get, lemma_mapped, lemma_place, mapped, place, put, StrMap};
use crate::text::{
    chars_of, clone_opt, find_from, first_occurrence, has_string, occurs_at, opt_view, same,
    string_of_range, trim, trim_seq, views, white_space,
};

verus! {

/// One value of a database row.
#[derive(Debug)]
pub enum Cell {
    Null,
    Int(i64),
    Text(String),
    Blob(Vec<u8>),
    /// A value of another type, or text that is not UTF-8.
    Other,
}

/// What a [`Cell`] holds.
pub enum CellModel {
    Null,
    Int(i64),
    Text(Seq<char>),
    Blob(Seq<u8>),
    Other,
}

impl View for Cell {
    type V = CellModel;

    open spec fn view(&self) -> CellModel {
        match *self {
            Cell::Null => CellModel::Null,
            Cell::Int(i) => CellModel::Int(i),
            Cell::Text(s) => CellModel::Text(s@),
            Cell::Blob(b) => CellModel::Blob(b@),
            Cell::Other => CellModel::Other,
        }
    }
}

/// One row of a query's result: its values by column name.
#[derive(Debug)]
pub struct Row {
    pub cells: Vec<(String, Cell)>,
}

/// What a [`Row`] holds.
pub type RowCells = Seq<(Seq<char>, CellModel)>;

impl View for Row {
    type V = RowCells;

    open spec fn view(&self) -> RowCells {
        self.cells@.map_values(|e: (String, Cell)| (e.0@, e.1@))
    }
}

/// The rows of a result.
pub open spec fn row_views(rows: Seq<Row>) -> Seq<RowCells> {
    rows.map_values(|r: Row| r@)
}

/// Optional columns actually present in one table.
#[derive(Debug, Clone, Copy, PartialEq, Eq, Structural)]
pub struct TableCols {
    /// "40013" message direction.
    pub has_dir: bool,
    /// "40050" unix send time.
    pub has_time: bool,
    /// "40090" sender group card.
    pub has_card: bool,
}

/// The optional columns among a table's columns.
pub open spec fn cols_among(names: Seq<Seq<char>>) -> TableCols {
    TableCols {
        has_dir: names.contains("40013"@),
        has_time: names.contains("40050"@),
        has_card: names.contains("40090"@),
    }
}

/// Which optional columns a table with these columns has.
pub fn probe_cols(names: &Vec<String>) -> (r: TableCols)
    ensures
        r == cols_among(views(names@)),
{
    TableCols {
        has_dir: has_string(names, "40013"),
        has_time: has_string(names, "40050"),
        has_card: has_string(names, "40090"),
    }
}

/// The table of a chat type.
pub open spec fn table_of(chat_type: ChatType) -> Seq<char> {
    match chat_type {
        ChatType::Group => "group_msg_table"@,
        ChatType::C2c => "c2c_msg_table"@,
    }
}

/// The columns that a chat type's table always has.
pub open spec fn base_cols_of(chat_type: ChatType) -> Seq<char> {
    match chat_type {
        ChatType::Group => "\"40021\", \"40001\", \"40020\", \"40093\", \"40800\""@,
        ChatType::C2c => "\"40020\", \"40001\", \"40093\", \"40800\""@,
    }
}

/// `text` with `more` behind it, if `b`.
pub open spec fn appended_if(text: Seq<char>, b: bool, more: Seq<char>) -> Seq<char> {
    if b {
        text + more
    } else {
        text
    }
}

/// The columns that a query reads: those always there, then the optional ones.
pub open spec fn cols_list(chat_type: ChatType, cols: TableCols) -> Seq<char> {
    appended_if(
        appended_if(
            appended_if(base_cols_of(chat_type), cols.has_dir, ", \"40013\""@),
            cols.has_time,
            ", \"40050\""@,
        ),
        cols.has_card,
        ", \"40090\""@,
    )
}

/// The name of a chat type's table.
pub fn table_name(chat_type: ChatType) -> (r: &'static str)
    ensures
        r@ == table_of(chat_type),
{
    match chat_type {
        ChatType::Group => "group_msg_table",
        ChatType::C2c => "c2c_msg_table",
    }
}

/// Base (always-present) columns per table.
pub fn base_cols(chat_type: ChatType) -> (r: &'static str)
    ensures
        r@ == base_cols_of(chat_type),
{
    match chat_type {
        ChatType::Group => "\"40021\", \"40001\", \"40020\", \"40093\", \"40800\"",
        ChatType::C2c => "\"40020\", \"40001\", \"40093\", \"40800\"",
    }
}

/// Column list for a scan or read query: base columns, then the probed optional columns.
pub fn cols_sql(chat_type: ChatType, cols: TableCols) -> (r: String)
    ensures
        r@ == cols_list(chat_type, cols),
{
    let mut sql = base_cols(chat_type).to_owned();
    if cols.has_dir {
        sql.append(", \"40013\"");
    }
    if cols.has_time {
        sql.append(", \"40050\"");
    }
    if cols.has_card {
        sql.append(", \"40090\"");
    }
    sql
}

/// The query that scans a whole table. `rowid` has an explicit alias: where "40001" is
/// the table's integer primary key, a bare `rowid` would come back named "40001".
pub fn scan_sql(chat_type: ChatType, cols: TableCols) -> (r: String)
    ensures
        r@ == "SELECT rowid AS \"rowid\", "@ + cols_list(chat_type, cols) + " FROM "@ + table_of(
            chat_type,
        ),
{
    let mut sql = "SELECT rowid AS \"rowid\", ".to_owned();
    let cols = cols_sql(chat_type, cols);
    sql.append(cols.as_str());
    sql.append(" FROM ");
    sql.append(table_name(chat_type));
    sql
}

/// The query that reads the rows above a watermark, its only parameter.
pub fn read_sql(chat_type: ChatType, cols: TableCols) -> (r: String)
    ensures
        r@ == "SELECT rowid AS \"rowid\", "@ + cols_list(chat_type, cols) + " FROM "@ + table_of(
            chat_type,
        ) + " WHERE rowid > ?1"@,
{
    let mut sql = scan_sql(chat_type, cols);
    sql.append(" WHERE rowid > ?1");
    sql
}

/// One decoded message row (all columns, optional ones as Options).
#[derive(Debug)]
pub struct RowData {
    pub rowid: i64,
    pub talker: String,
    pub seq: i64,
    pub uid: String,
    pub nick: String,
    pub blob: Vec<u8>,
    pub dir: Option<i64>,
    pub time: Option<i64>,
    pub card: Option<String>,
}

/// What a [`RowData`] holds.
pub struct RowModel {
    pub rowid: i64,
    pub talker: Seq<char>,
    pub seq: i64,
    pub uid: Seq<char>,
    pub nick: Seq<char>,
    pub blob: Seq<u8>,
    pub dir: Option<i64>,
    pub time: Option<i64>,
    pub card: Option<Seq<char>>,
}

impl View for RowData {
    type V = RowModel;

    open spec fn view(&self) -> RowModel {
        RowModel {
            rowid: self.rowid,
            talker: self.talker@,
            seq: self.seq,
            uid: self.uid@,
            nick: self.nick@,
            blob: self.blob@,
            dir: self.dir,
            time: self.time,
            card: opt_view(self.card),
        }
    }
}

/// A column's integer.
pub open spec fn int_cell(row: RowCells, name: Seq<char>) -> Option<i64> {
    match assoc(row, name) {
        Some(CellModel::Int(i)) => Some(i),
        _ => None,
    }
}

/// A column's text.
pub open spec fn text_cell(row: RowCells, name: Seq<char>) -> Option<Seq<char>> {
    match assoc(row, name) {
        Some(CellModel::Text(s)) => Some(s),
        _ => None,
    }
}

/// A column's bytes.
pub open spec fn blob_cell(row: RowCells, name: Seq<char>) -> Option<Seq<u8>> {
    match assoc(row, name) {
        Some(CellModel::Blob(b)) => Some(b),
        _ => None,
    }
}

/// An optional column's integer; outside, whether the column could be read at all.
pub open spec fn optional_int(row: RowCells, present: bool, name: Seq<char>) -> Option<Option<i64>> {
    if !present {
        Some(None)
    } else {
        match assoc(row, name) {
            Some(CellModel::Int(i)) => Some(Some(i)),
            Some(CellModel::Null) => Some(None),
            _ => None,
        }
    }
}

/// An optional column's text; outside, whether the column could be read at all.
pub open spec fn optional_text(row: RowCells, present: bool, name: Seq<char>) -> Option<
    Option<Seq<char>>,
> {
    if !present {
        Some(None)
    } else {
        match assoc(row, name) {
            Some(CellModel::Text(s)) => Some(Some(s)),
            Some(CellModel::Null) => Some(None),
            _ => None,
        }
    }
}

/// The message row that a result row tells, every column read by name. In a private chat
/// the peer is the sender. A row with a value of a wrong type tells none.
pub open spec fn mapped_row(chat_type: ChatType, cols: TableCols, row: RowCells) -> Option<RowModel> {
    let rowid = int_cell(row, "rowid"@);
    let seq = int_cell(row, "40001"@);
    let uid = text_cell(row, "40020"@);
    let talker = if chat_type is Group {
        text_cell(row, "40021"@)
    } else {
        uid
    };
    let nick = text_cell(row, "40093"@);
    let blob = blob_cell(row, "40800"@);
    let dir = optional_int(row, cols.has_dir, "40013"@);
    let time = optional_int(row, cols.has_time, "40050"@);
    let card = optional_text(row, cols.has_card, "40090"@);
    if rowid is Some && seq is Some && uid is Some && talker is Some && nick is Some && blob is Some
        && dir is Some && time is Some && card is Some {
        Some(
            RowModel {
                rowid: rowid->0,
                talker: talker->0,
                seq: seq->0,
                uid: uid->0,
                nick: nick->0,
                blob: blob->0,
                dir: dir->0,
                time: time->0,
                card: card->0,
            },
        )
    } else {
        None
    }
}

/// The value of a column.
fn cell<'a>(row: &'a Row, name: &str) -> (r: Option<&'a Cell>)
    ensures
        r is Some == assoc(row@, name@) is Some,
        r is Some ==> r->0@ == assoc(row@, name@)->0,
{
    let mut i: usize = 0;
    while i < row.cells.len()
        invariant
            i <= row.cells.len(),
            place(row@.take(i as int), name@) is None,
        decreases row.cells.len() - i,
    {
        proof {
            assert(row@.take(i + 1).drop_last() =~= row@.take(i as int));
            assert(row@[i as int].0 == row.cells@[i as int].0@);
        }
        if same(row.cells[i].0.as_str(), name) {
            proof {
                lemma_place(row@.take(i as int), name@);
                lemma_place(row@, name@);
                assert forall|j: int| 0 <= j < i implies (#[trigger] row@[j]).0 != name@ by {
                    assert(row@.take(i as int)[j] == row@[j]);
                }
                assert(row@[i as int].0 == name@);
                assert(place(row@, name@) == Some(i as int));
            }
            return Some(&row.cells[i].1);
        }
        i += 1;
    }
    assert(row@.take(row@.len() as int) =~= row@);
    None
}

fn get_int(row: &Row, name: &str) -> (r: Option<i64>)
    ensures
        r == int_cell(row@, name@),
{
    match cell(row, name) {
        Some(Cell::Int(i)) => Some(*i),
        _ => None,
    }
}

fn get_text(row: &Row, name: &str) -> (r: Option<String>)
    ensures
        opt_view(r) == text_cell(row@, name@),
{
    match cell(row, name) {
        Some(Cell::Text(s)) => Some(s.clone()),
        _ => None,
    }
}

fn get_blob(row: &Row, name: &str) -> (r: Option<Vec<u8>>)
    ensures
        r is Some == blob_cell(row@, name@) is Some,
        r is Some ==> r->0@ == blob_cell(row@, name@)->0,
{
    match cell(row, name) {
        Some(Cell::Blob(b)) => Some(vstd::slice::slice_to_vec(b.as_slice())),
        _ => None,
    }
}

fn get_optional_int(row: &Row, present: bool, name: &str) -> (r: Option<Option<i64>>)
    ensures
        r == optional_int(row@, present, name@),
{
    if !present {
        return Some(None);
    }
    match cell(row, name) {
        Some(Cell::Int(i)) => Some(Some(*i)),
        Some(Cell::Null) => Some(None),
        _ => None,
    }
}

fn get_optional_text(row: &Row, present: bool, name: &str) -> (r: Option<Option<String>>)
    ensures
        r is Some == optional_text(row@, present, name@) is Some,
        r is Some ==> opt_view(r->0) == optional_text(row@, present, name@)->0,
{
    if !present {
        return Some(None);
    }
    match cell(row, name) {
        Some(Cell::Text(s)) => Some(Some(s.clone())),
        Some(Cell::Null) => Some(None),
        _ => None,
    }
}

/// Map a query row to [`RowData`], reading every column by name. `None` for a row that
/// cannot be read, which is skipped.
pub fn map_row(chat_type: ChatType, cols: TableCols, row: &Row) -> (r: Option<RowData>)
    ensures
        r is Some == mapped_row(chat_type, cols, row@) is Some,
        r is Some ==> r->0@ == mapped_row(chat_type, cols, row@)->0,
{
    let rowid = get_int(row, "rowid")?;
    let seq = get_int(row, "40001")?;
    let uid = get_text(row, "40020")?;
    let talker = match chat_type {
        ChatType::Group => get_text(row, "40021")?,
        ChatType::C2c => uid.clone(),
    };
    let nick = get_text(row, "40093")?;
    let blob = get_blob(row, "40800")?;
    let dir = get_optional_int(row, cols.has_dir, "40013")?;
    let time = get_optional_int(row, cols.has_time, "40050")?;
    let card = get_optional_text(row, cols.has_card, "40090")?;
    Some(RowData { rowid, talker, seq, uid, nick, blob, dir, time, card })
}

/// The record of a message row: the send time where it is positive, else the time in the
/// seq; the card in groups only.
pub open spec fn record_of_row(chat_type: ChatType, d: RowModel) -> RecordModel {
    RecordModel {
        rowid: d.rowid,
        seq: d.seq,
        ts: match d.time {
            Some(t) => if t > 0 {
                t
            } else {
                seq_time(d.seq as int) as i64
            },
            None => seq_time(d.seq as int) as i64,
        },
        chat_type,
        talker: d.talker,
        from_uid: d.uid,
        from_nick: d.nick,
        card: if chat_type is Group {
            non_empty(d.card)
        } else {
            None
        },
        direction: d.dir,
        parsed: message_of(d.blob),
    }
}

/// Decode a row into a record: ts prefers "40050" with per-row fallback to `seq >> 32`.
/// `from_nick` is the "40093" nickname; the group card "40090" rides separately in
/// `card`.
pub fn row_to_record(chat_type: ChatType, d: RowData) -> (r: MessageRecord)
    ensures
        r@ == record_of_row(chat_type, d@),
{
    let ts: i64 = match d.time {
        Some(t) => if t > 0 {
            t
        } else {
            seq_to_time(d.seq)
        },
        None => seq_to_time(d.seq),
    };
    let card = match d.card {
        Some(c) => if chat_type == ChatType::Group && !c.as_str().is_empty() {
            Some(c)
        } else {
            None
        },
        None => None,
    };
    MessageRecord {
        rowid: d.rowid,
        seq: d.seq,
        ts,
        chat_type,
        talker: d.talker,
        from_uid: d.uid,
        from_nick: d.nick,
        card,
        direction: d.dir,
        parsed: extract_message(d.blob.as_slice()),
    }
}

/// White space, a quote or a bracket around a group's new name.
pub open spec fn name_wrapping(c: char) -> bool {
    c == ' ' || c == '\t' || c == '\n' || c == '\r' || c == '\u{C}' || c == '"' || c == '\'' || c
        == '，' || c == '。' || c == '「' || c == '」' || c == '（' || c == '）' || c == '(' || c == ')'
}

/// `s` without the wrapping at its front.
pub open spec fn unwrapped_start(s: Seq<char>) -> Seq<char>
    decreases s.len(),
{
    if s.len() > 0 && name_wrapping(s[0]) {
        unwrapped_start(s.drop_first())
    } else {
        s
    }
}

/// `s` without the wrapping at its end.
pub open spec fn unwrapped_end(s: Seq<char>) -> Seq<char>
    decreases s.len(),
{
    if s.len() > 0 && name_wrapping(s.last()) {
        unwrapped_end(s.drop_last())
    } else {
        s
    }
}

/// The name that stands behind the first `marker` in a text, if it is a usable one: not
/// empty, at most sixty-four characters.
pub open spec fn renamed_to(text: Seq<char>, marker: Seq<char>) -> Option<Seq<char>> {
    match first_occurrence(text, marker, 0) {
        Some(i) => {
            let name = unwrapped_end(unwrapped_start(trim_seq(text.skip(i + marker.len()))));
            if 0 < name.len() <= 64 {
                Some(name)
            } else {
                None
            }
        },
        None => None,
    }
}

/// The group name that a system message tells, or else the current one.
pub open spec fn guessed_name(text: Seq<char>, current: Seq<char>) -> Seq<char> {
    match renamed_to(text, "修改群名为"@) {
        Some(name) => name,
        None => match renamed_to(text, "已将群名修改为"@) {
            Some(name) => name,
            None => current,
        },
    }
}

fn is_name_wrapping(c: char) -> (r: bool)
    ensures
        r == name_wrapping(c),
{
    c == ' ' || c == '\t' || c == '\n' || c == '\r' || c == '\u{C}' || c == '"' || c == '\'' || c
        == '，' || c == '。' || c == '「' || c == '」' || c == '（' || c == '）' || c == '(' || c == ')'
}

/// A text without the wrapping at both ends.
fn unwrap_name(s: &str) -> (r: String)
    ensures
        r@ == unwrapped_end(unwrapped_start(s@)),
{
    let v = chars_of(s);
    let mut a: usize = 0;
    assert(v@.skip(0) =~= s@);
    while a < v.len() && is_name_wrapping(v[a])
        invariant
            a <= v.len(),
            unwrapped_start(s@) == unwrapped_start(v@.skip(a as int)),
        ensures
            unwrapped_start(s@) == v@.skip(a as int),
        decreases v.len() - a,
    {
        assert(v@.skip(a as int).drop_first() =~= v@.skip(a + 1));
        a += 1;
    }
    let ghost t = v@.skip(a as int);
    let mut b: usize = v.len();
    assert(v@.subrange(a as int, v@.len() as int) =~= t);
    while b > a && is_name_wrapping(v[b - 1])
        invariant
            a <= b <= v.len(),
            unwrapped_end(t) == unwrapped_end(v@.subrange(a as int, b as int)),
        ensures
            unwrapped_end(t) == v@.subrange(a as int, b as int),
        decreases b,
    {
        assert(v@.subrange(a as int, b as int).drop_last() =~= v@.subrange(a as int, b - 1));
        b -= 1;
    }
    string_of_range(&v, a, b)
}

fn find_new_name(text: &str, marker: &str) -> (r: Option<String>)
    ensures
        opt_view(r) == renamed_to(text@, marker@),
{
    let tv = chars_of(text);
    let mv = chars_of(marker);
    match find_from(&tv, &mv, 0) {
        Some(i) => {
            assert(i + mv@.len() <= tv.len());
            let rest = string_of_range(&tv, i + mv.len(), tv.len());
            assert(rest@ =~= text@.skip(i + mv@.len()));
            let trimmed = trim(rest.as_str());
            let name = unwrap_name(trimmed.as_str());
            let n: usize = chars_of(name.as_str()).len();
            if 0 < n && n <= 64 {
                Some(name)
            } else {
                None
            }
        },
        None => None,
    }
}

/// Guess the group display name from rename system messages.
pub fn guess_group_name(text: &str, current: &str) -> (r: String)
    ensures
        r@ == guessed_name(text@, current@),
{
    match find_new_name(text, "修改群名为") {
        Some(name) => name,
        None => match find_new_name(text, "已将群名修改为") {
            Some(name) => name,
            None => current.to_owned(),
        },
    }
}

/// The path under which a medium can be fetched, if there is a live one that is not
/// registered already: its own, else a cache file named after it.
pub open spec fn chosen_path(s: StoreModel, m: MediaModel, msg_type: MsgType, disk: Disk) -> Option<
    Seq<char>,
> {
    let key = m.key->0;
    let fallback = match s.media_fallback {
        Some(ci) => fallback_file(ci, m, key, msg_type, disk),
        None => None,
    };
    match non_empty(m.local_path) {
        Some(lp) => match assoc(s.media, key) {
            Some(e) => if e.local_path == lp {
                None
            } else if disk.resolves(lp) {
                Some(lp)
            } else {
                fallback
            },
            None => if disk.resolves(lp) {
                Some(lp)
            } else {
                fallback
            },
        },
        None => fallback,
    }
}

/// The fetchable media after one medium was registered. A live entry is never replaced; a
/// dead one gives way to a live path.
pub open spec fn registered(s: StoreModel, m: MediaModel, msg_type: MsgType, disk: Disk) -> Seq<
    (Seq<char>, MediaEntryModel),
> {
    match m.key {
        None => s.media,
        Some(key) => match chosen_path(s, m, msg_type, disk) {
            None => s.media,
            Some(p) => {
                let replace = match assoc(s.media, key) {
                    Some(e) => e.local_path != p && !disk.resolves(e.local_path),
                    None => true,
                };
                if replace {
                    put(
                        s.media,
                        key,
                        MediaEntryModel { local_path: p, file_name: m.file_name },
                    )
                } else {
                    s.media
                }
            },
        },
    }
}

/// The cache file that stands in for a medium.
fn stand_in(store: &Store, m: &MediaInfo, key: &str, msg_type: MsgType, disk: &Disk) -> (r: Option<
    String,
>)
    requires
        store.wf(),
        disk.wf(),
    ensures
        opt_view(r) == (match store@.media_fallback {
            Some(ci) => fallback_file(ci, m@, key@, msg_type, *disk),
            None => None,
        }),
{
    match &store.media_fallback {
        Some(ci) => fallback_candidate(ci, m, key, msg_type, disk),
        None => None,
    }
}

/// Register one media record's fetchable entry: key = md5 hex or uuid. The row's own
/// "45812" path is exact and preferred; when it is absent or no longer on disk, the
/// cache-index fallback may rescue the row. First-wins with stale-path refresh.
pub fn register_media(store: &mut Store, m: &MediaInfo, msg_type: MsgType, disk: &Disk)
    requires
        old(store).wf(),
        disk.wf(),
    ensures
        final(store).wf(),
        final(store)@ == (StoreModel {
            media: registered(old(store)@, m@, msg_type, *disk),
            ..old(store)@
        }),
{
    proof {
        lemma_mapped(store.media@, |e: MediaEntry| e@);
    }
    let key = match m.key() {
        Some(k) => k,
        None => return ,
    };
    let existing: Option<&MediaEntry> = store.media.get(key);
    let chosen: Option<String> = match &m.local_path {
        Some(lp) => {
            if lp.as_str().is_empty() {
                stand_in(store, m, key, msg_type, disk)
            } else {
                let unchanged = match existing {
                    Some(e) => same(e.local_path.as_str(), lp.as_str()),
                    None => false,
                };
                if unchanged {
                    None
                } else if disk.is_live(lp.as_str()) {
                    Some(lp.clone())
                } else {
                    stand_in(store, m, key, msg_type, disk)
                }
            }
        },
        None => stand_in(store, m, key, msg_type, disk),
    };
    let local_path = match chosen {
        Some(p) => p,
        None => return ,
    };
    let replace = match existing {
        Some(e) => !same(e.local_path.as_str(), local_path.as_str()) && !disk.is_live(
            e.local_path.as_str(),
        ),
        None => true,
    };
    if replace {
        store.media.insert(
            key.to_owned(),
            MediaEntry { local_path, file_name: clone_opt(&m.file_name) },
        );
    }
}

/// A medium that was registered once stays fetchable under its key.
pub proof fn law_registered_keys_stay(
    s: StoreModel,
    m: MediaModel,
    msg_type: MsgType,
    disk: Disk,
    k: Seq<char>,
)
    requires
        assoc(s.media, k) is Some,
    ensures
        assoc(registered(s, m, msg_type, disk), k) is Some,
{
    if m.key is Some {
        match chosen_path(s, m, msg_type, disk) {
            Some(p) => {
                law_put_then_get(
                    s.media,
                    m.key->0,
                    MediaEntryModel { local_path: p, file_name: m.file_name },
                );
            },
            None => {},
        }
    }
}

/// A live entry keeps its path, whatever is registered later.
pub proof fn law_live_entries_are_kept(
    s: StoreModel,
    m: MediaModel,
    msg_type: MsgType,
    disk: Disk,
    k: Seq<char>,
)
    requires
        assoc(s.media, k) is Some,
        disk.resolves(assoc(s.media, k)->0.local_path),
    ensures
        assoc(registered(s, m, msg_type, disk), k) == assoc(s.media, k),
{
    if m.key is Some {
        match chosen_path(s, m, msg_type, disk) {
            Some(p) => {
                law_put_then_get(
                    s.media,
                    m.key->0,
                    MediaEntryModel { local_path: p, file_name: m.file_name },
                );
            },
            None => {},
        }
    }
}

/// The conversation that a record opens.
pub open spec fn opened_by(r: RecordModel) -> ConversationModel {
    ConversationModel {
        chat_type: r.chat_type,
        talker: r.talker,
        name: if r.chat_type is Group {
            r.talker
        } else {
            r.from_nick
        },
        msgs: Seq::empty(),
        dirty: false,
    }
}

/// A conversation with one more record at its end. In a group a rename message renames.
pub open spec fn with_message(c: ConversationModel, r: RecordModel) -> ConversationModel {
    let guess = guessed_name(r.parsed.content, c.name);
    ConversationModel {
        name: if r.chat_type is Group && r.parsed.msg_type is System && guess != r.talker {
            guess
        } else {
            c.name
        },
        msgs: c.msgs.push(r),
        dirty: true,
        ..c
    }
}

/// The store with one more record.
pub open spec fn with_record(s: StoreModel, r: RecordModel, disk: Disk) -> StoreModel {
    let key = conv_key_of(r.chat_type, r.talker);
    let conv = match assoc(s.convs, key) {
        Some(c) => c,
        None => opened_by(r),
    };
    let cards = match assoc(s.group_cards, key) {
        Some(c) => c,
        None => Seq::empty(),
    };
    StoreModel {
        convs: put(s.convs, key, with_message(conv, r)),
        uid_names: if r.from_nick.len() > 0 {
            put(s.uid_names, r.from_uid, r.from_nick)
        } else {
            s.uid_names
        },
        group_cards: match r.card {
            Some(card) => put(s.group_cards, key, put(cards, r.from_uid, card)),
            None => s.group_cards,
        },
        media: match r.parsed.media {
            Some(m) => registered(s, m, r.parsed.msg_type, disk),
            None => s.media,
        },
        ..s
    }
}

/// The store with the records, one after the other.
pub open spec fn with_records(s: StoreModel, rs: Seq<RecordModel>, disk: Disk) -> StoreModel
    decreases rs.len(),
{
    if rs.len() == 0 {
        s
    } else {
        with_record(with_records(s, rs.drop_last(), disk), rs.last(), disk)
    }
}

/// Appends a record to its conversation, which it opens if need be.
fn push_message(convs: &mut StrMap<Conversation>, rec: MessageRecord)
    requires
        old(convs).wf(),
    ensures
        final(convs).wf(),
        conv_views(*final(convs)) == ({
            let key = conv_key_of(rec@.chat_type, rec@.talker);
            let conv = match assoc(conv_views(*old(convs)), key) {
                Some(c) => c,
                None => opened_by(rec@),
            };
            put(conv_views(*old(convs)), key, with_message(conv, rec@))
        }),
{
    let ghost before = convs@;
    let ghost r = rec@;
    let ghost f = |c: Conversation| c@;
    proof {
        lemma_mapped(before, f);
    }
    let key = conv_key(rec.chat_type, rec.talker.as_str());
    let ghost kv = key@;
    if !convs.contains_key(key.as_str()) {
        let name = if rec.chat_type == ChatType::Group {
            rec.talker.clone()
        } else {
            rec.from_nick.clone()
        };
        let conv = Conversation {
            chat_type: rec.chat_type,
            talker: rec.talker.clone(),
            name,
            msgs: Vec::new(),
            dirty: false,
        };
        assert(conv@.msgs =~= Seq::empty());
        assert(conv@ == opened_by(r));
        proof {
            law_put_then_get(before, kv, conv);
        }
        convs.insert(key.clone(), conv);
    }
    let ghost opened = convs@;
    proof {
        lemma_mapped(opened, f);
    }
    match convs.position(key.as_str()) {
        Some(i) => {
            let conv = convs.value_at_mut(i);
            let ghost c0 = conv@;
            if rec.chat_type == ChatType::Group && rec.parsed.msg_type == MsgType::System {
                let new_name = guess_group_name(rec.parsed.content.as_str(), conv.name.as_str());
                if !same(new_name.as_str(), rec.talker.as_str()) {
                    conv.name = new_name;
                }
            }
            let ghost msgs = conv.msgs@;
            conv.msgs.push(rec);
            conv.dirty = true;
            assert(record_views(conv.msgs@) =~= record_views(msgs).push(r));
            assert(conv@ == with_message(c0, r));
            let ghost last = *conv;
            proof {
                assert(convs@ =~= put(opened, kv, last));
                lemma_place(before, kv);
                match place(before, kv) {
                    Some(j) => {},
                    None => {
                        assert(place(opened, kv) == Some(before.len() as int)) by {
                            lemma_place(opened, kv);
                            assert(opened.drop_last() =~= before);
                        }
                        assert(put(opened, kv, last) =~= put(before, kv, last));
                    },
                }
                assert(convs@ =~= put(before, kv, last));
            }
        },
        None => {
            assert(false);
        },
    }
}

/// Notes a sender's card in one conversation.
fn put_card(cards: &mut StrMap<StrMap<String>>, key: String, uid: String, card: String)
    requires
        old(cards).wf(),
        forall|i: int| 0 <= i < old(cards)@.len() ==> (#[trigger] old(cards)@[i]).1.wf(),
    ensures
        final(cards).wf(),
        forall|i: int| 0 <= i < final(cards)@.len() ==> (#[trigger] final(cards)@[i]).1.wf(),
        card_views(*final(cards)) == ({
            let inner = match assoc(card_views(*old(cards)), key@) {
                Some(c) => c,
                None => Seq::empty(),
            };
            put(card_views(*old(cards)), key@, put(inner, uid@, card@))
        }),
{
    let ghost before = cards@;
    let ghost f = |c: StrMap<String>| texts(c);
    proof {
        lemma_mapped(before, f);
    }
    match cards.position(key.as_str()) {
        Some(i) => {
            let inner = cards.value_at_mut(i);
            text_put(inner, uid, card);
            let ghost last = *inner;
            assert(cards@ =~= put(before, key@, last));
        },
        None => {
            let mut inner: StrMap<String> = StrMap::new();
            assert(texts(inner) =~= Seq::empty());
            text_put(&mut inner, uid, card);
            cards.insert(key, inner);
        },
    }
}

/// Apply one parsed record: media registration, conversation create or lookup,
/// group-name guess, uid -> nickname map, per-conversation group card, message push.
pub fn apply_record(store: &mut Store, rec: MessageRecord, disk: &Disk)
    requires
        old(store).wf(),
        disk.wf(),
    ensures
        final(store).wf(),
        final(store)@ == with_record(old(store)@, rec@, *disk),
{
    if let Some(m) = &rec.parsed.media {
        register_media(store, m, rec.parsed.msg_type, disk);
    }
    if !rec.from_nick.as_str().is_empty() {
        text_put(&mut store.uid_names, rec.from_uid.clone(), rec.from_nick.clone());
    }
    if let Some(card) = &rec.card {
        let key = conv_key(rec.chat_type, rec.talker.as_str());
        put_card(&mut store.group_cards, key, rec.from_uid.clone(), card.clone());
    }
    push_message(&mut store.convs, rec);
}

/// Apply records read by [`read_new`] to the store. Each record is moved into the store.
pub fn apply_records(store: &mut Store, records: Vec<MessageRecord>, disk: &Disk)
    requires
        old(store).wf(),
        disk.wf(),
    ensures
        final(store).wf(),
        final(store)@ == with_records(old(store)@, record_views(records@), *disk),
{
    let ghost all = record_views(records@);
    assert(all.take(0) =~= Seq::<RecordModel>::empty());
    for rec in it: records
        invariant
            it.seq() == records@,
            all == record_views(records@),
            disk.wf(),
            store.wf(),
            store@ == with_records(old(store)@, all.take(it.index() as int), *disk),
    {
        proof {
            let now = all.take(it.index() + 1);
            assert(now.drop_last() =~= all.take(it.index() as int));
            assert(now.last() == rec@);
        }
        apply_record(store, rec, disk);
    }
    assert(all.take(all.len() as int) =~= all);
}

/// The columns of a table and the rows that a query gave.
#[derive(Debug)]
pub struct TableRows {
    pub columns: Vec<String>,
    pub rows: Vec<Row>,
}

/// The records of the rows that can be read, in order.
pub open spec fn readable_records(chat_type: ChatType, cols: TableCols, rows: Seq<RowCells>) -> Seq<
    RecordModel,
>
    decreases rows.len(),
{
    if rows.len() == 0 {
        Seq::empty()
    } else {
        let before = readable_records(chat_type, cols, rows.drop_last());
        match mapped_row(chat_type, cols, rows.last()) {
            Some(d) => before.push(record_of_row(chat_type, d)),
            None => before,
        }
    }
}

/// The records of a table's rows.
pub open spec fn table_records(chat_type: ChatType, t: TableRows) -> Seq<RecordModel> {
    readable_records(chat_type, cols_among(views(t.columns@)), row_views(t.rows@))
}

/// The highest rowid among the records, at least `from`.
pub open spec fn highest_rowid(from: i64, rs: Seq<RecordModel>) -> i64
    decreases rs.len(),
{
    if rs.len() == 0 {
        from
    } else {
        let before = highest_rowid(from, rs.drop_last());
        if rs.last().rowid > before {
            rs.last().rowid
        } else {
            before
        }
    }
}

/// The records of a table's rows, with the highest rowid seen, at least `watermark`. Rows
/// that cannot be read are skipped. The store is not touched: where the companion table's
/// read fails there is nothing to roll back, and a retry reads the same rows again.
pub fn read_new(chat_type: ChatType, table: &TableRows, watermark: i64) -> (r: (
    i64,
    Vec<MessageRecord>,
))
    ensures
        record_views(r.1@) == table_records(chat_type, *table),
        r.0 == highest_rowid(watermark, table_records(chat_type, *table)),
{
    let cols = probe_cols(&table.columns);
    let mut new_wm: i64 = watermark;
    let mut records: Vec<MessageRecord> = Vec::new();
    let mut i: usize = 0;
    let ghost all = row_views(table.rows@);
    assert(all.take(0) =~= Seq::<RowCells>::empty());
    assert(record_views(records@) =~= Seq::<RecordModel>::empty());
    while i < table.rows.len()
        invariant
            i <= table.rows.len(),
            all == row_views(table.rows@),
            cols == cols_among(views(table.columns@)),
            record_views(records@) == readable_records(chat_type, cols, all.take(i as int)),
            new_wm == highest_rowid(watermark, record_views(records@)),
        decreases table.rows.len() - i,
    {
        proof {
            let now = all.take(i + 1);
            assert(now.drop_last() =~= all.take(i as int));
            assert(now.last() == table.rows@[i as int]@);
        }
        match map_row(chat_type, cols, &table.rows[i]) {
            Some(d) => {
                let rec = row_to_record(chat_type, d);
                let ghost before = records@;
                let ghost added = rec@;
                if rec.rowid > new_wm {
                    new_wm = rec.rowid;
                }
                records.push(rec);
                proof {
                    assert(record_views(records@) =~= record_views(before).push(added));
                    assert(record_views(records@).drop_last() =~= record_views(before));
                }
            },
            None => {},
        }
        i += 1;
    }
    assert(all.take(all.len() as int) =~= all);
    (new_wm, records)
}

/// A watermark never falls, and no record that was read is above it.
pub proof fn law_watermark_covers_records(from: i64, rs: Seq<RecordModel>)
    ensures
        highest_rowid(from, rs) >= from,
        forall|i: int| 0 <= i < rs.len() ==> (#[trigger] rs[i]).rowid <= highest_rowid(from, rs),
        highest_rowid(from, rs) == from || exists|i: int|
            0 <= i < rs.len() && (#[trigger] rs[i]).rowid == highest_rowid(from, rs),
    decreases rs.len(),
{
    if rs.len() > 0 {
        let before = rs.drop_last();
        law_watermark_covers_records(from, before);
        assert forall|i: int| 0 <= i < rs.len() implies (#[trigger] rs[i]).rowid <= highest_rowid(
            from,
            rs,
        ) by {
            if i < before.len() {
                assert(before[i] == rs[i]);
            }
        }
        if highest_rowid(from, before) != from && rs.last().rowid <= highest_rowid(from, before) {
            let i = choose|i: int|
                0 <= i < before.len() && (#[trigger] before[i]).rowid == highest_rowid(from, before);
            assert(rs[i].rowid == highest_rowid(from, rs));
        }
    }
}

/// Scans one table into the store and returns its highest rowid.
fn scan_table(chat_type: ChatType, table: &TableRows, store: &mut Store, disk: &Disk) -> (wm: i64)
    requires
        old(store).wf(),
        disk.wf(),
    ensures
        final(store).wf(),
        final(store)@ == with_records(old(store)@, table_records(chat_type, *table), *disk),
        wm == highest_rowid(0, table_records(chat_type, *table)),
{
    let (wm, records) = read_new(chat_type, table, 0);
    apply_records(store, records, disk);
    wm
}

/// The conversations, each with its messages in order.
pub open spec fn all_sorted(convs: Seq<(Seq<char>, ConversationModel)>) -> Seq<
    (Seq<char>, ConversationModel),
> {
    mapped(convs, |c: ConversationModel| sorted_conversation(c))
}

/// Puts the messages of every conversation in order.
fn sort_conversations(convs: &mut StrMap<Conversation>)
    requires
        old(convs).wf(),
    ensures
        final(convs).wf(),
        conv_views(*final(convs)) == all_sorted(conv_views(*old(convs))),
{
    let ghost before = conv_views(*convs);
    let ghost sorted = all_sorted(before);
    let n: usize = convs.len();
    let mut i: usize = 0;
    while i < n
        invariant
            i <= n,
            n == before.len(),
            convs.wf(),
            before == conv_views(*old(convs)),
            sorted == all_sorted(before),
            conv_views(*convs).len() == n,
            forall|j: int|
                0 <= j < n ==> (#[trigger] conv_views(*convs)[j]) == if j < i {
                    sorted[j]
                } else {
                    before[j]
                },
        decreases n - i,
    {
        let ghost held = conv_views(*convs);
        assert(held[i as int] == before[i as int]);
        convs.value_at_mut(i).ensure_sorted();
        assert(conv_views(*convs) =~= held.update(i as int, sorted[i as int]));
        i += 1;
    }
    assert(conv_views(*convs) =~= sorted);
}

/// The index of a message database: both tables' records applied, the conversations in
/// order, the watermarks at the highest rowids.
pub open spec fn built_index(
    group: TableRows,
    c2c: TableRows,
    media_root: Option<Seq<char>>,
    cache: Option<CacheIndex>,
    disk: Disk,
) -> StoreModel {
    let g = table_records(ChatType::Group, group);
    let c = table_records(ChatType::C2c, c2c);
    let start = StoreModel { media_root, media_fallback: cache, ..empty_store() };
    let filled = with_records(with_records(start, g, disk), c, disk);
    StoreModel {
        convs: all_sorted(filled.convs),
        watermark_group: highest_rowid(0, g),
        watermark_c2c: highest_rowid(0, c),
        ..filled
    }
}

/// Full scan of both message tables; returns the new store. The media root and the cache
/// index are supplied up front, so that media registration can rest on them.
pub fn build_index(
    group: &TableRows,
    c2c: &TableRows,
    media_root: Option<String>,
    cache: Option<CacheIndex>,
    disk: &Disk,
) -> (r: Store)
    requires
        disk.wf(),
        cache is Some ==> cache->0.wf(),
    ensures
        r.wf(),
        r@ == built_index(*group, *c2c, opt_view(media_root), cache, *disk),
{
    let mut store = Store::default();
    store.media_root = media_root;
    store.media_fallback = cache;
    let ghost start = store@;
    let wm_g: i64 = scan_table(ChatType::Group, group, &mut store, disk);
    let wm_c: i64 = scan_table(ChatType::C2c, c2c, &mut store, disk);
    store.watermark_group = wm_g;
    store.watermark_c2c = wm_c;
    sort_conversations(&mut store.convs);
    proof {
        let g = table_records(ChatType::Group, *group);
        let c = table_records(ChatType::C2c, *c2c);
        lemma_with_records_frame(start, g, *disk);
        lemma_with_records_frame(with_records(start, g, *disk), c, *disk);
    }
    store
}

/// Records change conversations, nicknames, cards and media, and nothing else.
pub proof fn lemma_with_records_frame(s: StoreModel, rs: Seq<RecordModel>, disk: Disk)
    ensures
        with_records(s, rs, disk).names == s.names,
        with_records(s, rs, disk).media_fallback == s.media_fallback,
        with_records(s, rs, disk).media_root == s.media_root,
        with_records(s, rs, disk).watermark_group == s.watermark_group,
        with_records(s, rs, disk).watermark_c2c == s.watermark_c2c,
    decreases rs.len(),
{
    if rs.len() > 0 {
        lemma_with_records_frame(s, rs.drop_last(), disk);
    }
}

/// A group's cards are touched by that group's own records only: a record of another
/// conversation leaves the card of every sender there as it was.
pub proof fn law_records_touch_own_cards_only(
    s: StoreModel,
    r: RecordModel,
    disk: Disk,
    talker: Seq<char>,
    uid: Seq<char>,
)
    requires
        !(r.chat_type is Group && r.talker == talker),
    ensures
        with_record(s, r, disk).card(ChatType::Group, talker, uid) == s.card(
            ChatType::Group,
            talker,
            uid,
        ),
{
    let key = conv_key_of(r.chat_type, r.talker);
    let cards = match assoc(s.group_cards, key) {
        Some(c) => c,
        None => Seq::empty(),
    };
    if conv_key_of(ChatType::Group, talker) == key {
        crate::store::law_conv_keys_are_distinct(ChatType::Group, talker, r.chat_type, r.talker);
    }
    match r.card {
        Some(card) => {
            law_put_then_get(s.group_cards, key, put(cards, r.from_uid, card));
        },
        None => {},
    }
}

/// A record shows up at the end of its conversation, and every other conversation stays
/// as it was.
pub proof fn law_record_is_appended(
    s: StoreModel,
    r: RecordModel,
    disk: Disk,
    chat_type: ChatType,
    talker: Seq<char>,
)
    ensures
        with_record(s, r, disk).conversation(r.chat_type, r.talker) is Some,
        with_record(s, r, disk).conversation(r.chat_type, r.talker)->0.msgs.last() == r,
        !(chat_type == r.chat_type && talker == r.talker) ==> with_record(s, r, disk).conversation(
            chat_type,
            talker,
        ) == s.conversation(chat_type, talker),
{
    let key = conv_key_of(r.chat_type, r.talker);
    let conv = match assoc(s.convs, key) {
        Some(c) => c,
        None => opened_by(r),
    };
    law_put_then_get(s.convs, key, with_message(conv, r));
    if conv_key_of(chat_type, talker) == key {
        crate::store::law_conv_keys_are_distinct(chat_type, talker, r.chat_type, r.talker);
    }
}

/// The records of one conversation among records.
pub open spec fn records_in(rs: Seq<RecordModel>, chat_type: ChatType, talker: Seq<char>) -> Seq<
    RecordModel,
>
    decreases rs.len(),
{
    if rs.len() == 0 {
        Seq::empty()
    } else {
        let before = records_in(rs.drop_last(), chat_type, talker);
        let r = rs.last();
        if r.chat_type == chat_type && r.talker == talker {
            before.push(r)
        } else {
            before
        }
    }
}

/// The messages of a conversation, none where there is no such conversation.
pub open spec fn messages_in(s: StoreModel, chat_type: ChatType, talker: Seq<char>) -> Seq<RecordModel> {
    match s.conversation(chat_type, talker) {
        Some(c) => c.msgs,
        None => Seq::empty(),
    }
}

/// Records that are applied stand in their own conversations, in order, behind what was
/// there: none is lost, doubled or put elsewhere.
pub proof fn law_records_land_in_their_conversations(
    s: StoreModel,
    rs: Seq<RecordModel>,
    disk: Disk,
    chat_type: ChatType,
    talker: Seq<char>,
)
    ensures
        messages_in(with_records(s, rs, disk), chat_type, talker) == messages_in(s, chat_type, talker)
            + records_in(rs, chat_type, talker),
    decreases rs.len(),
{
    if rs.len() == 0 {
        assert(messages_in(s, chat_type, talker) + Seq::<RecordModel>::empty() =~= messages_in(
            s,
            chat_type,
            talker,
        ));
    } else {
        let before = with_records(s, rs.drop_last(), disk);
        let r = rs.last();
        law_records_land_in_their_conversations(s, rs.drop_last(), disk, chat_type, talker);
        law_record_is_appended(before, r, disk, chat_type, talker);
        if r.chat_type == chat_type && r.talker == talker {
            let key = conv_key_of(chat_type, talker);
            let conv = match assoc(before.convs, key) {
                Some(c) => c,
                None => opened_by(r),
            };
            law_put_then_get(before.convs, key, with_message(conv, r));
            assert(messages_in(with_records(s, rs, disk), chat_type, talker) =~= messages_in(
                before,
                chat_type,
                talker,
            ).push(r));
            assert(messages_in(s, chat_type, talker) + records_in(rs, chat_type, talker) =~= (
            messages_in(s, chat_type, talker) + records_in(rs.drop_last(), chat_type, talker)).push(
                r,
            ));
        }
    }
}

/// Every conversation was appended to since it was last put in order.
pub open spec fn all_dirty(convs: Seq<(Seq<char>, ConversationModel)>) -> bool {
    forall|k: Seq<char>| #[trigger] assoc(convs, k) is Some ==> assoc(convs, k)->0.dirty
}

proof fn lemma_records_leave_dirty(s: StoreModel, rs: Seq<RecordModel>, disk: Disk)
    requires
        all_dirty(s.convs),
    ensures
        all_dirty(with_records(s, rs, disk).convs),
    decreases rs.len(),
{
    if rs.len() > 0 {
        let before = with_records(s, rs.drop_last(), disk);
        let r = rs.last();
        lemma_records_leave_dirty(s, rs.drop_last(), disk);
        let key = conv_key_of(r.chat_type, r.talker);
        let conv = match assoc(before.convs, key) {
            Some(c) => c,
            None => opened_by(r),
        };
        law_put_then_get(before.convs, key, with_message(conv, r));
    }
}

/// A built index holds of each conversation exactly the records that its table's readable
/// rows tell, and no message stands before an older one.
pub proof fn law_built_index_is_complete(
    group: TableRows,
    c2c: TableRows,
    media_root: Option<Seq<char>>,
    cache: Option<CacheIndex>,
    disk: Disk,
    chat_type: ChatType,
    talker: Seq<char>,
)
    ensures
        ({
            let told = records_in(
                table_records(ChatType::Group, group) + table_records(ChatType::C2c, c2c),
                chat_type,
                talker,
            );
            let msgs = messages_in(
                built_index(group, c2c, media_root, cache, disk),
                chat_type,
                talker,
            );
            &&& msgs.to_multiset() == told.to_multiset()
            &&& forall|i: int, j: int|
                0 <= i < j < msgs.len() ==> !older(#[trigger] msgs[j], #[trigger] msgs[i])
        }),
{
    let g = table_records(ChatType::Group, group);
    let c = table_records(ChatType::C2c, c2c);
    let start = StoreModel { media_root, media_fallback: cache, ..empty_store() };
    let filled = with_records(with_records(start, g, disk), c, disk);
    law_apply_is_incremental(start, g, c, disk);
    law_records_land_in_their_conversations(start, g + c, disk, chat_type, talker);
    assert(messages_in(start, chat_type, talker) =~= Seq::empty());
    let told = records_in(g + c, chat_type, talker);
    assert(messages_in(filled, chat_type, talker) =~= told);
    assert(all_dirty(start.convs));
    lemma_records_leave_dirty(start, g, disk);
    lemma_records_leave_dirty(with_records(start, g, disk), c, disk);
    lemma_mapped(filled.convs, |c: ConversationModel| sorted_conversation(c));
    match filled.conversation(chat_type, talker) {
        Some(conv) => {
            assert(assoc(filled.convs, conv_key_of(chat_type, talker)) is Some);
            crate::store::law_ensure_sorted(conv);
        },
        None => {},
    }
}

/// The keys of pending media.
pub open spec fn pending_keys(pending: Seq<(MediaModel, MsgType)>) -> Seq<Option<Seq<char>>> {
    pending.map_values(|p: (MediaModel, MsgType)| p.0.key)
}

/// The media awaiting registration after one more message was looked at: each key that
/// has no entry, once.
pub open spec fn pending_after(
    media: Seq<(Seq<char>, MediaEntryModel)>,
    pending: Seq<(MediaModel, MsgType)>,
    r: RecordModel,
) -> Seq<(MediaModel, MsgType)> {
    match r.parsed.media {
        Some(m) => if m.key is Some && assoc(media, m.key->0) is None && !pending_keys(
            pending,
        ).contains(m.key) {
            pending.push((m, r.parsed.msg_type))
        } else {
            pending
        },
        None => pending,
    }
}

/// The media awaiting registration among the messages of a conversation, behind those
/// found before.
pub open spec fn pending_in(
    media: Seq<(Seq<char>, MediaEntryModel)>,
    pending: Seq<(MediaModel, MsgType)>,
    msgs: Seq<RecordModel>,
) -> Seq<(MediaModel, MsgType)>
    decreases msgs.len(),
{
    if msgs.len() == 0 {
        pending
    } else {
        pending_after(media, pending_in(media, pending, msgs.drop_last()), msgs.last())
    }
}

/// The media awaiting registration in the conversations.
pub open spec fn pending_media(
    media: Seq<(Seq<char>, MediaEntryModel)>,
    convs: Seq<(Seq<char>, ConversationModel)>,
) -> Seq<(MediaModel, MsgType)>
    decreases convs.len(),
{
    if convs.len() == 0 {
        Seq::empty()
    } else {
        pending_in(media, pending_media(media, convs.drop_last()), convs.last().1.msgs)
    }
}

/// The store after the media were registered, one after the other.
pub open spec fn with_media(s: StoreModel, pending: Seq<(MediaModel, MsgType)>, disk: Disk) -> StoreModel
    decreases pending.len(),
{
    if pending.len() == 0 {
        s
    } else {
        let before = with_media(s, pending.drop_last(), disk);
        let (m, msg_type) = pending.last();
        StoreModel { media: registered(before, m, msg_type, disk), ..before }
    }
}

/// The view of pending media.
pub open spec fn pending_views(v: Seq<(MediaInfo, MsgType)>) -> Seq<(MediaModel, MsgType)> {
    v.map_values(|p: (MediaInfo, MsgType)| (p.0@, p.1))
}

fn is_pending(pending: &Vec<(MediaInfo, MsgType)>, key: &str) -> (r: bool)
    ensures
        r == pending_keys(pending_views(pending@)).contains(Some(key@)),
{
    let mut i: usize = 0;
    while i < pending.len()
        invariant
            i <= pending.len(),
            forall|j: int| 0 <= j < i ==> pending@[j].0@.key != Some(key@),
        decreases pending.len() - i,
    {
        if let Some(k) = pending[i].0.key() {
            if same(k, key) {
                assert(pending_keys(pending_views(pending@))[i as int] == Some(key@));
                return true;
            }
        }
        i += 1;
    }
    false
}

/// Looks at one message's medium.
fn note_pending(store: &Store, pending: &mut Vec<(MediaInfo, MsgType)>, rec: &MessageRecord)
    requires
        store.wf(),
    ensures
        pending_views(final(pending)@) == pending_after(
            store@.media,
            pending_views(old(pending)@),
            rec@,
        ),
{
    proof {
        lemma_mapped(store.media@, |e: MediaEntry| e@);
    }
    if let Some(m) = &rec.parsed.media {
        if let Some(key) = m.key() {
            if !store.media.contains_key(key) && !is_pending(pending, key) {
                let ghost before = pending@;
                let copy = m.clone();
                let ghost added = copy@;
                pending.push((copy, rec.parsed.msg_type));
                assert(pending_views(pending@) =~= pending_views(before).push(
                    (added, rec.parsed.msg_type),
                ));
            }
        }
    }
}

/// The media awaiting registration.
fn collect_pending(store: &Store) -> (r: Vec<(MediaInfo, MsgType)>)
    requires
        store.wf(),
    ensures
        pending_views(r@) == pending_media(store@.media, store@.convs),
{
    let ghost convs = store@.convs;
    let mut pending: Vec<(MediaInfo, MsgType)> = Vec::new();
    let mut i: usize = 0;
    assert(convs.take(0) =~= Seq::empty());
    assert(pending_views(pending@) =~= Seq::empty());
    while i < store.convs.len()
        invariant
            i <= convs.len(),
            store.wf(),
            convs == store@.convs,
            pending_views(pending@) == pending_media(store@.media, convs.take(i as int)),
        decreases convs.len() - i,
    {
        let conv = store.convs.value_at(i);
        let ghost start = pending_views(pending@);
        let ghost msgs = record_views(conv.msgs@);
        let mut j: usize = 0;
        assert(msgs.take(0) =~= Seq::<RecordModel>::empty());
        while j < conv.msgs.len()
            invariant
                j <= conv.msgs.len(),
                store.wf(),
                msgs == record_views(conv.msgs@),
                pending_views(pending@) == pending_in(store@.media, start, msgs.take(j as int)),
            decreases conv.msgs.len() - j,
        {
            proof {
                let now = msgs.take(j + 1);
                assert(now.drop_last() =~= msgs.take(j as int));
                assert(now.last() == conv.msgs@[j as int]@);
            }
            note_pending(store, &mut pending, &conv.msgs[j]);
            j += 1;
        }
        proof {
            assert(msgs.take(msgs.len() as int) =~= msgs);
            let now = convs.take(i + 1);
            assert(now.drop_last() =~= convs.take(i as int));
            assert(now.last().1.msgs == msgs);
        }
        i += 1;
    }
    assert(convs.take(convs.len() as int) =~= convs);
    pending
}

/// Re-run media registration for keys that are still unregistered: rows applied while the
/// fallback snapshot was stale get a second chance.
pub fn reapply_media_registration(store: &mut Store, disk: &Disk)
    requires
        old(store).wf(),
        disk.wf(),
    ensures
        final(store).wf(),
        final(store)@ == with_media(
            old(store)@,
            pending_media(old(store)@.media, old(store)@.convs),
            *disk,
        ),
{
    let pending = collect_pending(store);
    let ghost all = pending_views(pending@);
    let mut i: usize = 0;
    assert(all.take(0) =~= Seq::empty());
    while i < pending.len()
        invariant
            i <= pending.len(),
            all == pending_views(pending@),
            disk.wf(),
            store.wf(),
            store@ == with_media(old(store)@, all.take(i as int), *disk),
        decreases pending.len() - i,
    {
        proof {
            let now = all.take(i + 1);
            assert(now.drop_last() =~= all.take(i as int));
            assert(now.last() == (pending@[i as int].0@, pending@[i as int].1));
        }
        register_media(store, &pending[i].0, pending[i].1, disk);
        i += 1;
    }
    assert(all.take(all.len() as int) =~= all);
}

/// Applying records in two batches is applying them in one: the index that grows by
/// appends is the index of a full scan.
pub proof fn law_apply_is_incremental(
    s: StoreModel,
    a: Seq<RecordModel>,
    b: Seq<RecordModel>,
    disk: Disk,
)
    ensures
        with_records(with_records(s, a, disk), b, disk) == with_records(s, a + b, disk),
    decreases b.len(),
{
    if b.len() == 0 {
        assert(a + b =~= a);
    } else {
        law_apply_is_incremental(s, a, b.drop_last(), disk);
        assert((a + b).drop_last() =~= a + b.drop_last());
        assert((a + b).last() == b.last());
    }
}

/// Whatever is newly registered was live: its own path resolved, or its cache file was
/// there.
pub proof fn law_registered_paths_are_live(
    s: StoreModel,
    m: MediaModel,
    msg_type: MsgType,
    disk: Disk,
    k: Seq<char>,
)
    ensures
        ({
            let next = assoc(registered(s, m, msg_type, disk), k);
            next == assoc(s.media, k) || (next is Some && (disk.resolves(next->0.local_path)
                || disk.meta(next->0.local_path) is Some))
        }),
{
    if m.key is Some {
        let key = m.key->0;
        match chosen_path(s, m, msg_type, disk) {
            Some(p) => {
                law_put_then_get(
                    s.media,
                    key,
                    MediaEntryModel { local_path: p, file_name: m.file_name },
                );
                if !disk.resolves(p) {
                    let ci = s.media_fallback->0;
                    law_best_candidate(ci.style, disk, key_paths(ci, key), msg_type, m.size);
                    law_best_candidate(
                        ci.style,
                        disk,
                        name_md5_paths(ci, m.file_name, key),
                        msg_type,
                        m.size,
                    );
                    law_best_candidate(ci.style, disk, name_stem_paths(ci, m.file_name), msg_type, m.size);
                }
            },
            None => {},
        }
    }
}

/// The local cache paths that registering a medium may ask to be resolved: its own, and
/// that of the entry under its key.
pub open spec fn paths_resolved(s: StoreModel, m: MediaModel) -> Seq<Seq<char>> {
    let own = match non_empty(m.local_path) {
        Some(p) => seq![p],
        None => Seq::empty(),
    };
    match m.key {
        Some(k) => match assoc(s.media, k) {
            Some(e) => own.push(e.local_path),
            None => own,
        },
        None => own,
    }
}

/// See [`paths_resolved`].
pub fn paths_to_resolve(store: &Store, m: &MediaInfo) -> (r: Vec<String>)
    requires
        store.wf(),
    ensures
        views(r@) == paths_resolved(store@, m@),
{
    proof {
        lemma_mapped(store.media@, |e: MediaEntry| e@);
    }
    let mut r: Vec<String> = Vec::new();
    assert(views(r@) =~= Seq::<Seq<char>>::empty());
    if let Some(p) = &m.local_path {
        if !p.as_str().is_empty() {
            r.push(p.clone());
            assert(views(r@) =~= seq![p@]);
        }
    }
    if let Some(k) = m.key() {
        if let Some(e) = store.media.get(k) {
            let ghost before = r@;
            r.push(e.local_path.clone());
            assert(views(r@) =~= views(before).push(e.local_path@));
        }
    }
    r
}

/// The cache files whose metadata registering a medium may ask for.
pub open spec fn paths_inspected(s: StoreModel, m: MediaModel) -> Seq<Seq<char>> {
    match (m.key, s.media_fallback) {
        (Some(key), Some(ci)) => key_paths(ci, key) + name_md5_paths(ci, m.file_name, key)
            + name_stem_paths(ci, m.file_name),
        _ => Seq::empty(),
    }
}

/// See [`paths_inspected`].
pub fn paths_to_inspect(store: &Store, m: &MediaInfo) -> (r: Vec<String>)
    requires
        store.wf(),
    ensures
        views(r@) == paths_inspected(store@, m@),
{
    if let Some(key) = m.key() {
        if let Some(ci) = &store.media_fallback {
            return candidate_paths(ci, m, key);
        }
    }
    let r: Vec<String> = Vec::new();
    assert(views(r@) =~= Seq::<Seq<char>>::empty());
    r
}

/// Registering a medium rests on what the file system says of the probed paths alone.
pub proof fn law_registration_reads_probed_paths_only(
    s: StoreModel,
    m: MediaModel,
    msg_type: MsgType,
    a: Disk,
    b: Disk,
)
    requires
        forall|p: Seq<char>| #[trigger]
            paths_resolved(s, m).contains(p) ==> a.resolves(p) == b.resolves(p),
        forall|p: Seq<char>| #[trigger]
            paths_inspected(s, m).contains(p) ==> a.meta(p) == b.meta(p),
    ensures
        registered(s, m, msg_type, a) == registered(s, m, msg_type, b),
{
    if m.key is Some {
        let key = m.key->0;
        let asked = paths_resolved(s, m);
        match non_empty(m.local_path) {
            Some(lp) => {
                assert(asked[0] == lp);
                assert(asked.contains(lp));
            },
            None => {},
        }
        match assoc(s.media, key) {
            Some(e) => {
                assert(asked.last() == e.local_path);
                assert(asked.contains(e.local_path));
            },
            None => {},
        }
        match s.media_fallback {
            Some(ci) => {
                assert(paths_inspected(s, m) == key_paths(ci, key) + name_md5_paths(
                    ci,
                    m.file_name,
                    key,
                ) + name_stem_paths(ci, m.file_name));
                law_fallback_reads_candidates_only(ci, m, key, msg_type, a, b);
            },
            None => {},
        }
    }
}

/// The records of one conversation are those with its type and talker, in the order in
/// which they come.
pub proof fn law_records_of_one_conversation(
    rs: Seq<RecordModel>,
    chat_type: ChatType,
    talker: Seq<char>,
)
    ensures
        records_in(rs, chat_type, talker) == rs.filter(
            |r: RecordModel| r.chat_type == chat_type && r.talker == talker,
        ),
        forall|r: RecordModel| #[trigger]
            records_in(rs, chat_type, talker).contains(r) <==> rs.contains(r) && r.chat_type
                == chat_type && r.talker == talker,
    decreases rs.len(),
{
    reveal(Seq::filter);
    if rs.len() > 0 {
        let front = rs.drop_last();
        law_records_of_one_conversation(front, chat_type, talker);
        let before = records_in(front, chat_type, talker);
        let after = records_in(rs, chat_type, talker);
        assert forall|r: RecordModel| #[trigger] after.contains(r) implies rs.contains(r)
            && r.chat_type == chat_type && r.talker == talker by {
            let k = choose|k: int| 0 <= k < after.len() && after[k] == r;
            if k < before.len() {
                assert(before[k] == r);
                assert(before.contains(r));
                let i = choose|i: int| 0 <= i < front.len() && front[i] == r;
                assert(rs[i] == r);
            } else {
                assert(rs[rs.len() - 1] == r);
            }
        }
        assert forall|r: RecordModel|
            rs.contains(r) && r.chat_type == chat_type && r.talker == talker implies #[trigger] after.contains(
        r) by {
            let i = choose|i: int| 0 <= i < rs.len() && rs[i] == r;
            if i < front.len() {
                assert(front[i] == r);
                assert(before.contains(r));
                let k = choose|k: int| 0 <= k < before.len() && before[k] == r;
                assert(after[k] == r);
            } else {
                assert(after[before.len() as int] == r);
            }
        }
    }
}

/// A row that holds each of the columns tells its fields by the columns' numbers.
pub proof fn law_columns_tell_fields(
    chat_type: ChatType,
    row: RowCells,
    rowid: i64,
    seq_no: i64,
    group: Seq<char>,
    uid: Seq<char>,
    nick: Seq<char>,
    blob: Seq<u8>,
    dir: i64,
    time: i64,
    card: Seq<char>,
)
    requires
        assoc(row, "rowid"@) == Some(CellModel::Int(rowid)),
        assoc(row, "40001"@) == Some(CellModel::Int(seq_no)),
        assoc(row, "40021"@) == Some(CellModel::Text(group)),
        assoc(row, "40020"@) == Some(CellModel::Text(uid)),
        assoc(row, "40093"@) == Some(CellModel::Text(nick)),
        assoc(row, "40800"@) == Some(CellModel::Blob(blob)),
        assoc(row, "40013"@) == Some(CellModel::Int(dir)),
        assoc(row, "40050"@) == Some(CellModel::Int(time)),
        assoc(row, "40090"@) == Some(CellModel::Text(card)),
    ensures
        ({
            let all = mapped_row(
                chat_type,
                TableCols { has_dir: true, has_time: true, has_card: true },
                row,
            );
            let few = mapped_row(
                chat_type,
                TableCols { has_dir: false, has_time: false, has_card: false },
                row,
            );
            &&& all is Some && few is Some
            &&& all->0.rowid == rowid && all->0.seq == seq_no && all->0.uid == uid
            &&& all->0.nick == nick && all->0.blob == blob
            &&& all->0.dir == Some(dir) && all->0.time == Some(time) && all->0.card == Some(card)
            &&& few->0.dir is None && few->0.time is None && few->0.card is None
            &&& few->0.rowid == rowid && few->0.seq == seq_no && few->0.uid == uid
            &&& few->0.nick == nick && few->0.blob == blob
            &&& chat_type is Group ==> all->0.talker == group && few->0.talker == group
            &&& chat_type is C2c ==> all->0.talker == uid && few->0.talker == uid
        }),
{
}

/// A row is read exactly where each column that it must hold is of its own kind; the
/// optional ones may be absent from the table, or null.
pub proof fn law_rows_that_are_read(chat_type: ChatType, cols: TableCols, row: RowCells)
    ensures
        mapped_row(chat_type, cols, row) is Some <==> {
            &&& assoc(row, "rowid"@) is Some && assoc(row, "rowid"@)->0 is Int
            &&& assoc(row, "40001"@) is Some && assoc(row, "40001"@)->0 is Int
            &&& assoc(row, "40020"@) is Some && assoc(row, "40020"@)->0 is Text
            &&& assoc(row, "40093"@) is Some && assoc(row, "40093"@)->0 is Text
            &&& assoc(row, "40800"@) is Some && assoc(row, "40800"@)->0 is Blob
            &&& chat_type is Group ==> assoc(row, "40021"@) is Some && assoc(row, "40021"@)->0 is Text
            &&& cols.has_dir ==> assoc(row, "40013"@) is Some && (assoc(row, "40013"@)->0 is Int
                || assoc(row, "40013"@)->0 is Null)
            &&& cols.has_time ==> assoc(row, "40050"@) is Some && (assoc(row, "40050"@)->0 is Int
                || assoc(row, "40050"@)->0 is Null)
            &&& cols.has_card ==> assoc(row, "40090"@) is Some && (assoc(row, "40090"@)->0 is Text
                || assoc(row, "40090"@)->0 is Null)
        },
{
}

/// A null in an optional column reads as no value.
pub proof fn law_nulls_are_no_values(chat_type: ChatType, cols: TableCols, row: RowCells)
    requires
        mapped_row(chat_type, cols, row) is Some,
    ensures
        assoc(row, "40013"@) == Some(CellModel::Null) ==> mapped_row(chat_type, cols, row)->0.dir is None,
        assoc(row, "40050"@) == Some(CellModel::Null) ==> mapped_row(chat_type, cols, row)->0.time is None,
        assoc(row, "40090"@) == Some(CellModel::Null) ==> mapped_row(chat_type, cols, row)->0.card is None,
{
}

/// The optional columns of a table are those named 40013, 40050 and 40090.
pub proof fn law_optional_columns(names: Seq<Seq<char>>)
    ensures
        cols_among(names).has_dir <==> exists|i: int|
            0 <= i < names.len() && #[trigger] names[i] == "40013"@,
        cols_among(names).has_time <==> exists|i: int|
            0 <= i < names.len() && #[trigger] names[i] == "40050"@,
        cols_among(names).has_card <==> exists|i: int|
            0 <= i < names.len() && #[trigger] names[i] == "40090"@,
{
}

/// The query of a table asks for one column more for each optional column that the table
/// has, each in quotes and behind a comma, and for nothing twice.
pub proof fn law_asked_columns(chat_type: ChatType, cols: TableCols)
    ensures
        ({
            let none = TableCols { has_dir: false, has_time: false, has_card: false };
            let base = cols_list(chat_type, none);
            let all = cols_list(
                chat_type,
                TableCols { has_dir: true, has_time: true, has_card: true },
            );
            &&& chat_type is C2c ==> base == "\"40020\", \"40001\", \"40093\", \"40800\""@
            &&& chat_type is Group ==> base
                == "\"40021\", \"40001\", \"40020\", \"40093\", \"40800\""@
            &&& all == base + ", \"40013\""@ + ", \"40050\""@ + ", \"40090\""@
            &&& cols_list(chat_type, TableCols { has_dir: true, ..none }) == base + ", \"40013\""@
            &&& cols_list(chat_type, TableCols { has_time: true, ..none }) == base + ", \"40050\""@
            &&& cols_list(chat_type, TableCols { has_card: true, ..none }) == base + ", \"40090\""@
            &&& chat_type is Group ==> table_of(chat_type) == "group_msg_table"@
            &&& chat_type is C2c ==> table_of(chat_type) == "c2c_msg_table"@
        }),
{
}

/// A record tells its row field by field. Its time is the row's own where that is positive,
/// else the one in the upper half of the seq; only a group's message has a card, and an
/// empty card is none.
pub proof fn law_records_tell_their_rows(chat_type: ChatType, d: RowModel)
    ensures
        ({
            let r = record_of_row(chat_type, d);
            &&& r.rowid == d.rowid && r.seq == d.seq && r.chat_type == chat_type
            &&& r.talker == d.talker && r.from_uid == d.uid && r.from_nick == d.nick
            &&& r.direction == d.dir
            &&& d.time is Some && d.time->0 > 0 ==> Some(r.ts) == d.time
            &&& d.time is None || d.time->0 <= 0 ==> r.ts * 0x1_0000_0000 <= d.seq < (r.ts + 1)
                * 0x1_0000_0000
            &&& chat_type is C2c ==> r.card is None
            &&& chat_type is Group && d.card is Some && d.card->0.len() > 0 ==> r.card == d.card
            &&& d.card is None || d.card->0.len() == 0 ==> r.card is None
            &&& r.parsed == message_of(d.blob)
        }),
{
    assert(seq_time(d.seq as int) == d.seq as int / 0x1_0000_0000);
    assert(-0x8000_0000 <= d.seq as int / 0x1_0000_0000 < 0x8000_0000);
}

/// Every character is a blank, a quote, a comma or stop, or a bracket.
pub open spec fn all_wrapping(s: Seq<char>) -> bool {
    forall|i: int|
        0 <= i < s.len() ==> seq![
            ' ',
            '\t',
            '\n',
            '\r',
            '\u{C}',
            '"',
            '\'',
            '，',
            '。',
            '「',
            '」',
            '（',
            '）',
            '(',
            ')',
        ].contains(#[trigger] s[i])
}

proof fn lemma_wrapping(s: Seq<char>)
    requires
        all_wrapping(s),
    ensures
        forall|i: int| 0 <= i < s.len() ==> name_wrapping(#[trigger] s[i]),
{
}

proof fn lemma_unwrapped_start(a: Seq<char>, s: Seq<char>)
    requires
        forall|i: int| 0 <= i < a.len() ==> name_wrapping(#[trigger] a[i]),
        s.len() > 0,
        !name_wrapping(s[0]),
    ensures
        unwrapped_start(a + s) == s,
    decreases a.len(),
{
    if a.len() == 0 {
        assert(a + s =~= s);
    } else {
        assert((a + s).drop_first() =~= a.drop_first() + s);
        lemma_unwrapped_start(a.drop_first(), s);
    }
}

proof fn lemma_unwrapped_end(s: Seq<char>, b: Seq<char>)
    requires
        forall|i: int| 0 <= i < b.len() ==> name_wrapping(#[trigger] b[i]),
        s.len() > 0,
        !name_wrapping(s.last()),
    ensures
        unwrapped_end(s + b) == s,
    decreases b.len(),
{
    if b.len() == 0 {
        assert(s + b =~= s);
    } else {
        assert((s + b).drop_last() =~= s + b.drop_last());
        lemma_unwrapped_end(s, b.drop_last());
    }
}

proof fn lemma_first_occurrence(s: Seq<char>, p: Seq<char>, from: int, at: int)
    requires
        0 <= from <= at,
        occurs_at(s, p, at),
        forall|i: int| from <= i < at ==> !occurs_at(s, p, i),
    ensures
        first_occurrence(s, p, from) == Some(at),
    decreases at - from,
{
    if from < at {
        lemma_first_occurrence(s, p, from + 1, at);
    }
}

proof fn lemma_no_occurrence(s: Seq<char>, p: Seq<char>, from: int)
    requires
        0 <= from,
        forall|i: int| from <= i ==> !occurs_at(s, p, i),
    ensures
        first_occurrence(s, p, from) is None,
    decreases s.len() + 1 - from,
{
    if from + p.len() <= s.len() {
        lemma_no_occurrence(s, p, from + 1);
    }
}

proof fn lemma_white_ends(x: Seq<char>, t: Seq<char>, y: Seq<char>, p: int)
    requires
        crate::text::all_white(x),
        crate::text::all_white(y),
        0 <= p < x.len() + t.len() + y.len(),
        !white_space((x + t + y)[p]),
    ensures
        x.len() <= p < x.len() + t.len(),
{
    if p < x.len() {
        assert((x + t + y)[p] == x[p]);
        assert(white_space(x[p]));
    }
    if p >= x.len() + t.len() {
        assert((x + t + y)[p] == y[p - x.len() - t.len()]);
        assert(white_space(y[p - x.len() - t.len()]));
    }
}

proof fn lemma_middle(
    a: Seq<char>,
    name: Seq<char>,
    b: Seq<char>,
    x: Seq<char>,
    t: Seq<char>,
    y: Seq<char>,
)
    requires
        a + name + b == x + t + y,
        x.len() <= a.len(),
        a.len() + name.len() <= x.len() + t.len(),
    ensures
        t == a.skip(x.len() as int) + (name + b.take(b.len() - y.len())),
        y.len() <= b.len(),
{
    let s = a + name + b;
    assert(s.len() == x.len() + t.len() + y.len());
    assert(t =~= s.subrange(x.len() as int, x.len() as int + t.len()));
    assert(t =~= a.skip(x.len() as int) + (name + b.take(b.len() - y.len())));
}

proof fn lemma_trimmed_around(a: Seq<char>, name: Seq<char>, b: Seq<char>) -> (r: (
    Seq<char>,
    Seq<char>,
))
    requires
        name.len() > 0,
        !white_space(name[0]),
        !white_space(name.last()),
    ensures
        trim_seq(a + name + b) == r.0 + (name + r.1),
        r.0.len() <= a.len(),
        r.0 == a.skip(a.len() - r.0.len()),
        r.1.len() <= b.len(),
        r.1 == b.take(r.1.len() as int),
{
    let tail = a + name + b;
    crate::text::law_trim(tail);
    let t = trim_seq(tail);
    let (x, y) = choose|x: Seq<char>, y: Seq<char>|
        crate::text::all_white(x) && crate::text::all_white(y) && tail == #[trigger] (x + t + y);
    assert(tail[a.len() as int] == name[0]);
    assert(tail[a.len() as int + name.len() - 1] == name.last());
    lemma_white_ends(x, t, y, a.len() as int);
    lemma_white_ends(x, t, y, a.len() as int + name.len() - 1);
    lemma_middle(a, name, b, x, t, y);
    (a.skip(x.len() as int), b.take(b.len() - y.len()))
}

/// A rename notice tells the group's new name: what stands behind the marker's first place,
/// without the wrapping around it, where that is at most sixty-four characters.
pub proof fn law_renamed_to(
    pre: Seq<char>,
    marker: Seq<char>,
    a: Seq<char>,
    name: Seq<char>,
    b: Seq<char>,
)
    requires
        forall|i: int| 0 <= i < pre.len() ==> !occurs_at(pre + marker + (a + name + b), marker, i),
        all_wrapping(a),
        all_wrapping(b),
        name.len() > 0,
        !all_wrapping(name.take(1)),
        !all_wrapping(name.skip(name.len() - 1)),
        !white_space(name[0]),
        !white_space(name.last()),
    ensures
        renamed_to(pre + marker + (a + name + b), marker) == if name.len() <= 64 {
            Some(name)
        } else {
            None
        },
{
    let text = pre + marker + (a + name + b);
    let tail = a + name + b;
    assert(text.subrange(pre.len() as int, pre.len() as int + marker.len()) =~= marker);
    lemma_first_occurrence(text, marker, 0, pre.len() as int);
    assert(text.skip(pre.len() as int + marker.len()) =~= tail);
    lemma_wrapping(a);
    lemma_wrapping(b);
    assert(!name_wrapping(name[0])) by {
        if name_wrapping(name[0]) {
            lemma_is_wrapping(name[0]);
            assert(all_wrapping(name.take(1)));
        }
    }
    assert(!name_wrapping(name.last())) by {
        if name_wrapping(name.last()) {
            lemma_is_wrapping(name.last());
            assert(all_wrapping(name.skip(name.len() - 1)));
        }
    }
    let (a2, b2) = lemma_trimmed_around(a, name, b);
    assert forall|i: int| 0 <= i < a2.len() implies name_wrapping(#[trigger] a2[i]) by {
        assert(a2[i] == a[a.len() - a2.len() + i]);
    }
    assert forall|i: int| 0 <= i < b2.len() implies name_wrapping(#[trigger] b2[i]) by {
        assert(b2[i] == b[i]);
    }
    lemma_unwrapped_start(a2, name + b2);
    lemma_unwrapped_end(name, b2);
}

proof fn lemma_is_wrapping(c: char)
    requires
        name_wrapping(c),
    ensures
        seq![
            ' ',
            '\t',
            '\n',
            '\r',
            '\u{C}',
            '"',
            '\'',
            '，',
            '。',
            '「',
            '」',
            '（',
            '）',
            '(',
            ')',
        ].contains(c),
{
    let w = seq![
        ' ',
        '\t',
        '\n',
        '\r',
        '\u{C}',
        '"',
        '\'',
        '，',
        '。',
        '「',
        '」',
        '（',
        '）',
        '(',
        ')',
    ];
    assert(w[0] == ' ' && w[1] == '\t' && w[2] == '\n' && w[3] == '\r' && w[4] == '\u{C}');
    assert(w[5] == '"' && w[6] == '\'' && w[7] == '，' && w[8] == '。' && w[9] == '「');
    assert(w[10] == '」' && w[11] == '（' && w[12] == '）' && w[13] == '(' && w[14] == ')');
}

/// A group's name is guessed from either of the two rename markers, the shorter one first;
/// without one the name stays.
pub proof fn law_guessed_names(text: Seq<char>, current: Seq<char>)
    ensures
        ({
            let short = "修改群名为"@;
            let long = "已将群名修改为"@;
            let no_short = forall|i: int| 0 <= i ==> !occurs_at(text, short, i);
            let no_long = forall|i: int| 0 <= i ==> !occurs_at(text, long, i);
            &&& renamed_to(text, short) is Some ==> Some(guessed_name(text, current))
                == renamed_to(text, short)
            &&& no_short && renamed_to(text, long) is Some ==> Some(guessed_name(text, current))
                == renamed_to(text, long)
            &&& no_short && no_long ==> guessed_name(text, current) == current
        }),
{
    let short = "修改群名为"@;
    let long = "已将群名修改为"@;
    if forall|i: int| 0 <= i ==> !occurs_at(text, short, i) {
        lemma_no_occurrence(text, short, 0);
    }
    if forall|i: int| 0 <= i ==> !occurs_at(text, long, i) {
        lemma_no_occurrence(text, long, 0);
    }
}

/// A new conversation is its record's: a group is called by its number until a notice tells
/// a name, a private chat by the nickname of its first message.
pub proof fn law_first_messages_open_conversations(s: StoreModel, r: RecordModel, disk: Disk)
    requires
        s.conversation(r.chat_type, r.talker) is None,
        !(r.parsed.msg_type is System),
    ensures
        ({
            let c = with_record(s, r, disk).conversation(r.chat_type, r.talker)->0;
            &&& c.chat_type == r.chat_type
            &&& c.talker == r.talker
            &&& c.msgs == seq![r]
            &&& c.dirty
            &&& r.chat_type is Group ==> c.name == r.talker
            &&& r.chat_type is C2c ==> c.name == r.from_nick
        }),
{
    let key = conv_key_of(r.chat_type, r.talker);
    law_put_then_get(s.convs, key, with_message(opened_by(r), r));
    assert(with_message(opened_by(r), r).msgs =~= seq![r]);
}

/// A later message keeps the conversation's name, unless it is a group's notice that tells
/// another one: then the conversation is called by that.
pub proof fn law_notices_rename_groups(
    s: StoreModel,
    c: ConversationModel,
    r: RecordModel,
    disk: Disk,
    name: Seq<char>,
)
    requires
        s.conversation(r.chat_type, r.talker) == Some(c),
    ensures
        ({
            let after = with_record(s, r, disk).conversation(r.chat_type, r.talker)->0;
            &&& after.msgs == c.msgs.push(r)
            &&& after.chat_type == c.chat_type && after.talker == c.talker && after.dirty
            &&& r.chat_type is C2c ==> after.name == c.name
            &&& !(r.parsed.msg_type is System) ==> after.name == c.name
            &&& r.chat_type is Group && r.parsed.msg_type is System && renamed_to(
                r.parsed.content,
                "修改群名为"@,
            ) == Some(name) ==> after.name == if name == r.talker {
                c.name
            } else {
                name
            }
        }),
{
    law_put_then_get(s.convs, conv_key_of(r.chat_type, r.talker), with_message(c, r));
}

/// A record tells its sender's nickname, where it has one, and in its own group its
/// sender's card, where it has one; what is known of anyone else stays.
pub proof fn law_records_tell_names(s: StoreModel, r: RecordModel, disk: Disk, uid: Seq<char>)
    ensures
        ({
            let after = with_record(s, r, disk);
            &&& r.from_nick.len() > 0 ==> assoc(after.uid_names, r.from_uid) == Some(r.from_nick)
            &&& r.from_nick.len() == 0 || uid != r.from_uid ==> assoc(after.uid_names, uid)
                == assoc(s.uid_names, uid)
            &&& r.card is Some && r.card->0.len() > 0 && r.chat_type is Group
                ==> after.sender_name(ChatType::Group, r.talker, r.from_uid) == r.card->0
            &&& r.card is None || uid != r.from_uid ==> after.card(r.chat_type, r.talker, uid)
                == s.card(r.chat_type, r.talker, uid)
            &&& r.parsed.media is None ==> after.media == s.media
            &&& after.names == s.names
        }),
{
    let key = conv_key_of(r.chat_type, r.talker);
    if r.from_nick.len() > 0 {
        law_put_then_get(s.uid_names, r.from_uid, r.from_nick);
    }
    if r.card is Some {
        let cards = match assoc(s.group_cards, key) {
            Some(c) => c,
            None => Seq::empty(),
        };
        law_put_then_get(cards, r.from_uid, r.card->0);
        law_put_then_get(s.group_cards, key, put(cards, r.from_uid, r.card->0));
    }
}

/// A medium is registered under its key at its own path where that is a file on disk.
pub proof fn law_own_paths_are_registered(
    s: StoreModel,
    m: MediaModel,
    msg_type: MsgType,
    disk: Disk,
    k: Seq<char>,
    p: Seq<char>,
)
    requires
        m.key == Some(k),
        m.local_path == Some(p),
        p.len() > 0,
        disk.resolves(p),
        assoc(s.media, k) is None || !disk.resolves(assoc(s.media, k)->0.local_path),
    ensures
        assoc(registered(s, m, msg_type, disk), k) == Some(
            MediaEntryModel { local_path: p, file_name: m.file_name },
        ),
{
    law_put_then_get(s.media, k, MediaEntryModel { local_path: p, file_name: m.file_name });
}

/// A medium whose own path is no file on disk, or that has none, is registered at the file
/// that the cache index finds for it, where it finds one; a medium without a key is not
/// registered, and no other key's entry is touched.
pub proof fn law_cached_files_are_registered(
    s: StoreModel,
    m: MediaModel,
    msg_type: MsgType,
    disk: Disk,
    ci: CacheIndex,
    k: Seq<char>,
    other: Seq<char>,
)
    requires
        s.media_fallback == Some(ci),
        m.key == Some(k),
        assoc(s.media, k) is None,
        m.local_path is None || m.local_path->0.len() == 0 || !disk.resolves(m.local_path->0),
    ensures
        ({
            let after = registered(s, m, msg_type, disk);
            let found = fallback_file(ci, m, k, msg_type, disk);
            &&& found is Some ==> assoc(after, k) == Some(
                MediaEntryModel { local_path: found->0, file_name: m.file_name },
            )
            &&& found is None ==> assoc(after, k) is None
            &&& other != k ==> assoc(after, other) == assoc(s.media, other)
            &&& registered(s, MediaModel { key: None, ..m }, msg_type, disk) == s.media
        }),
{
    match fallback_file(ci, m, k, msg_type, disk) {
        Some(p) => {
            law_put_then_get(s.media, k, MediaEntryModel { local_path: p, file_name: m.file_name });
            if other != k {
                law_put_then_get(
                    s.media,
                    k,
                    MediaEntryModel { local_path: p, file_name: m.file_name },
                );
            }
        },
        None => {},
    }
}

/// What awaits registration is of messages whose media has a key without an entry, and no
/// key is there twice; every such key of a conversation is there.
pub proof fn law_pending_media(
    media: Seq<(Seq<char>, MediaEntryModel)>,
    convs: Seq<(Seq<char>, ConversationModel)>,
)
    ensures
        ({
            let got = pending_media(media, convs);
            &&& forall|i: int|
                0 <= i < got.len() ==> (#[trigger] got[i]).0.key is Some && assoc(
                    media,
                    got[i].0.key->0,
                ) is None
            &&& forall|i: int, j: int|
                0 <= i < j < got.len() ==> (#[trigger] got[i]).0.key != (#[trigger] got[j]).0.key
            &&& forall|c: int, i: int|
                0 <= c < convs.len() && 0 <= i < convs[c].1.msgs.len() ==> awaited(
                    media,
                    got,
                    #[trigger] convs[c].1.msgs[i],
                )
        }),
    decreases convs.len(),
{
    if convs.len() > 0 {
        let front = convs.drop_last();
        law_pending_media(media, front);
        let before = pending_media(media, front);
        let got = pending_media(media, convs);
        lemma_pending_in(media, before, convs.last().1.msgs);
        assert forall|c: int, i: int|
            0 <= c < convs.len() && 0 <= i < convs[c].1.msgs.len() implies awaited(
            media,
            got,
            #[trigger] convs[c].1.msgs[i],
        ) by {
            if c < front.len() {
                assert(awaited(media, before, front[c].1.msgs[i]));
                lemma_still_awaited(media, before, got, convs[c].1.msgs[i]);
            }
        }
    }
}

/// A message has no media with a key that lacks an entry, or that key awaits registration.
pub open spec fn awaited(
    media: Seq<(Seq<char>, MediaEntryModel)>,
    pending: Seq<(MediaModel, MsgType)>,
    r: RecordModel,
) -> bool {
    r.parsed.media is None || r.parsed.media->0.key is None || assoc(
        media,
        r.parsed.media->0.key->0,
    ) is Some || exists|i: int|
        0 <= i < pending.len() && (#[trigger] pending[i]).0.key == r.parsed.media->0.key
}

proof fn lemma_still_awaited(
    media: Seq<(Seq<char>, MediaEntryModel)>,
    a: Seq<(MediaModel, MsgType)>,
    b: Seq<(MediaModel, MsgType)>,
    r: RecordModel,
)
    requires
        awaited(media, a, r),
        a.len() <= b.len(),
        forall|i: int| 0 <= i < a.len() ==> #[trigger] b[i] == a[i],
    ensures
        awaited(media, b, r),
{
    if exists|i: int| 0 <= i < a.len() && (#[trigger] a[i]).0.key == r.parsed.media->0.key {
        let i = choose|i: int| 0 <= i < a.len() && (#[trigger] a[i]).0.key == r.parsed.media->0.key;
        assert(b[i].0.key == r.parsed.media->0.key);
    }
}

proof fn lemma_pending_in(
    media: Seq<(Seq<char>, MediaEntryModel)>,
    pending: Seq<(MediaModel, MsgType)>,
    msgs: Seq<RecordModel>,
)
    requires
        forall|i: int|
            0 <= i < pending.len() ==> (#[trigger] pending[i]).0.key is Some && assoc(
                media,
                pending[i].0.key->0,
            ) is None,
        forall|i: int, j: int|
            0 <= i < j < pending.len() ==> (#[trigger] pending[i]).0.key != (
            #[trigger] pending[j]).0.key,
    ensures
        ({
            let got = pending_in(media, pending, msgs);
            &&& pending.len() <= got.len()
            &&& forall|i: int| 0 <= i < pending.len() ==> #[trigger] got[i] == pending[i]
            &&& forall|i: int|
                0 <= i < got.len() ==> (#[trigger] got[i]).0.key is Some && assoc(
                    media,
                    got[i].0.key->0,
                ) is None
            &&& forall|i: int, j: int|
                0 <= i < j < got.len() ==> (#[trigger] got[i]).0.key != (#[trigger] got[j]).0.key
            &&& forall|i: int| 0 <= i < msgs.len() ==> awaited(media, got, #[trigger] msgs[i])
        }),
    decreases msgs.len(),
{
    if msgs.len() > 0 {
        let front = msgs.drop_last();
        lemma_pending_in(media, pending, front);
        let before = pending_in(media, pending, front);
        let got = pending_in(media, pending, msgs);
        let r = msgs.last();
        let keys = pending_keys(before);
        if r.parsed.media is Some && r.parsed.media->0.key is Some && assoc(
            media,
            r.parsed.media->0.key->0,
        ) is None {
            let key = r.parsed.media->0.key;
            if keys.contains(key) {
                let i = choose|i: int| 0 <= i < keys.len() && keys[i] == key;
                assert(got[i].0.key == key);
            } else {
                assert(got[before.len() as int].0.key == key);
                assert forall|i: int| 0 <= i < before.len() implies (#[trigger] got[i]).0.key
                    != key by {
                    assert(keys[i] == before[i].0.key);
                }
            }
        }
        assert forall|i: int| 0 <= i < msgs.len() implies awaited(media, got, #[trigger] msgs[i]) by {
            if i < front.len() {
                assert(awaited(media, before, front[i]));
                lemma_still_awaited(media, before, got, msgs[i]);
            }
        }
    }
}

/// The records of a table are those of its readable rows, in their order.
pub proof fn law_readable_records(chat_type: ChatType, cols: TableCols, rows: Seq<RowCells>)
    ensures
        readable_records(chat_type, cols, rows) == rows.filter(
            |r: RowCells| mapped_row(chat_type, cols, r) is Some,
        ).map_values(
            |r: RowCells| record_of_row(chat_type, mapped_row(chat_type, cols, r)->0),
        ),
    decreases rows.len(),
{
    reveal(Seq::filter);
    let p = |r: RowCells| mapped_row(chat_type, cols, r) is Some;
    let f = |r: RowCells| record_of_row(chat_type, mapped_row(chat_type, cols, r)->0);
    if rows.len() == 0 {
        assert(rows.filter(p).map_values(f) =~= Seq::empty());
    } else {
        law_readable_records(chat_type, cols, rows.drop_last());
        if p(rows.last()) {
            assert(rows.filter(p) == rows.drop_last().filter(p).push(rows.last()));
            assert(rows.filter(p).map_values(f) =~= rows.drop_last().filter(p).map_values(f).push(
                f(rows.last()),
            ));
        }
    }
}

/// Registering what is pending goes medium by medium, changes the media alone, and loses no
/// entry.
pub proof fn law_pending_media_are_registered(
    s: StoreModel,
    a: Seq<(MediaModel, MsgType)>,
    m: MediaModel,
    msg_type: MsgType,
    disk: Disk,
    k: Seq<char>,
)
    ensures
        with_media(s, Seq::empty(), disk) == s,
        with_media(s, seq![(m, msg_type)], disk).media == registered(s, m, msg_type, disk),
        with_media(s, a.push((m, msg_type)), disk) == with_media(
            with_media(s, a, disk),
            seq![(m, msg_type)],
            disk,
        ),
        with_media(s, a, disk) == (StoreModel { media: with_media(s, a, disk).media, ..s }),
        assoc(s.media, k) is Some ==> assoc(with_media(s, a, disk).media, k) is Some,
    decreases a.len(),
{
    let one = seq![(m, msg_type)];
    assert(one.drop_last() =~= Seq::empty());
    assert(a.push((m, msg_type)).drop_last() =~= a);
    reveal_with_fuel(with_media, 2);
    if a.len() > 0 {
        let (m2, t2) = a.last();
        law_pending_media_are_registered(s, a.drop_last(), m2, t2, disk, k);
        let before = with_media(s, a.drop_last(), disk);
        if assoc(s.media, k) is Some {
            law_registered_keys_stay(before, m2, t2, disk, k);
        }
    }
}

/// A row is seen as what its fields hold, each under its own name.
pub proof fn law_row_data_view(v: RowData)
    ensures
        v@.rowid == v.rowid,
        v@.talker == v.talker@,
        v@.seq == v.seq,
        v@.uid == v.uid@,
        v@.nick == v.nick@,
        v@.blob == v.blob@,
        v@.dir == v.dir,
        v@.time == v.time,
        v.card is Some ==> v@.card == Some(v.card->0@),
        v.card is None ==> v@.card is None,
{
}

} // verus!

//! Indexing of message tables, and incremental sync passes.

use qqflow_server::parser::types::{seq_to_time, ChatType, MsgType};
use qqflow_server::store::index::{apply_records, base_cols, build_index, cols_sql, guess_group_name, map_row,
    probe_cols, read_new, read_sql, scan_sql, table_name, Cell, Row, TableCols, TableRows};
use qqflow_server::store::media::Disk;
use qqflow_server::store::query::{query_sessions, MessageOut};
use qqflow_server::store::Store;
use qqflow_server::server::{install_index, message_count};
use qqflow_server::store::names::TableData;
use qqflow_server::sync::{apply_pass, cache_root, poll_once, refresh_names, sync_all, sync_counts, wal_snapshot,
    ChangeDetector, SyncPass};
use rusqlite::types::Value;
use rusqlite::Connection;

fn columns(conn: &Connection, table: &str) -> Vec<String> {
    let mut stmt = conn.prepare(&format!("PRAGMA table_info({table})")).unwrap();
    let names = stmt.query_map([], |row| row.get::<_, String>(1)).unwrap();
    names.map(|n| n.unwrap()).collect()
}

/// The rows above a watermark, or all of them.
fn rows_of(conn: &Connection, chat_type: ChatType, above: Option<i64>) -> TableRows {
    let columns = columns(conn, table_name(chat_type));
    let cols = probe_cols(&columns);
    let sql = match above {
        Some(_) => read_sql(chat_type, cols),
        None => scan_sql(chat_type, cols),
    };
    let mut stmt = conn.prepare(&sql).unwrap();
    let names: Vec<String> = stmt.column_names().iter().map(|n| n.to_string()).collect();
    let params: Vec<i64> = above.into_iter().collect();
    let mut found = stmt.query(rusqlite::params_from_iter(params)).unwrap();
    let mut rows = Vec::new();
    while let Some(row) = found.next().unwrap() {
        let mut cells = Vec::new();
        for (i, name) in names.iter().enumerate() {
            let cell = match row.get::<_, Value>(i).unwrap() {
                Value::Null => Cell::Null,
                Value::Integer(n) => Cell::Int(n),
                Value::Text(s) => Cell::Text(s),
                Value::Blob(b) => Cell::Blob(b),
                Value::Real(_) => Cell::Other,
            };
            cells.push((name.clone(), cell));
        }
        rows.push(Row { cells });
    }
    TableRows { columns, rows }
}

fn index(conn: &Connection) -> Store {
    build_index(
        &rows_of(conn, ChatType::Group, None),
        &rows_of(conn, ChatType::C2c, None),
        None,
        None,
        &Disk::new(),
    )
}

fn make_table(with_optional: bool) -> Connection {
    let conn = Connection::open_in_memory().unwrap();
    if with_optional {
        conn.execute_batch(
            "CREATE TABLE group_msg_table (\"40021\" TEXT, \"40001\" INTEGER, \"40020\" TEXT, \
             \"40093\" TEXT, \"40800\" BLOB, \"40013\" INTEGER, \"40050\" INTEGER, \"40090\" TEXT);\
             CREATE TABLE c2c_msg_table (\"40020\" TEXT, \"40001\" INTEGER, \"40093\" TEXT, \"40800\" BLOB);\
             INSERT INTO group_msg_table VALUES ('10001', 100, 'u_a', '张三', CAST('你好' AS BLOB), 1, 1234567890, '群名片');",
        )
        .unwrap();
    } else {
        conn.execute_batch(
            "CREATE TABLE group_msg_table (\"40021\" TEXT, \"40001\" INTEGER, \"40020\" TEXT, \
             \"40093\" TEXT, \"40800\" BLOB);\
             CREATE TABLE c2c_msg_table (\"40020\" TEXT, \"40001\" INTEGER, \"40093\" TEXT, \"40800\" BLOB);\
             INSERT INTO group_msg_table VALUES ('10001', 100, 'u_a', '张三', CAST('你好' AS BLOB));",
        )
        .unwrap();
    }
    conn
}

#[test]
fn probe_flags_reflect_columns() {
    let conn = make_table(true);
    assert_eq!(
        probe_cols(&columns(&conn, "group_msg_table")),
        TableCols { has_dir: true, has_time: true, has_card: true }
    );
    let conn = make_table(false);
    assert_eq!(
        probe_cols(&columns(&conn, "group_msg_table")),
        TableCols { has_dir: false, has_time: false, has_card: false }
    );
}

#[test]
fn full_columns_produce_direction_ts_and_card() {
    let conn = make_table(true);
    let store = index(&conn);
    let conv = store.conversation(ChatType::Group, "10001").unwrap();
    assert_eq!(conv.msgs.len(), 1);
    let m = &conv.msgs[0];
    assert_eq!(m.direction, Some(1), "40013 read");
    assert_eq!(m.ts, 1234567890, "40050 authoritative");
    // The card rides in `card`, NOT in the global message nick.
    assert_eq!(m.from_nick, "张三", "40093 nickname stays global");
    assert_eq!(m.card.as_deref(), Some("群名片"), "40090 card kept per-conversation");
    assert_eq!(
        store.group_cards.get("g:10001").unwrap().get("u_a").unwrap(),
        "群名片",
        "card registered under its conversation"
    );
    assert_eq!(
        store.display_sender(ChatType::Group, "10001", "u_a"),
        "群名片",
        "in-group display prefers the card"
    );
    assert_eq!(store.display_uid("u_a"), "张三", "global display never shows the card");
    // seq = 100 -> seq>>32 = 0: the 40050 value must be used, not 0.
    assert_ne!(m.ts, seq_to_time(m.seq));
}

fn make_table_int_pk() -> Connection {
    let conn = Connection::open_in_memory().unwrap();
    conn.execute_batch(
        "CREATE TABLE group_msg_table (\"40021\" TEXT, \"40001\" INTEGER PRIMARY KEY, \"40020\" TEXT, \
         \"40093\" TEXT, \"40800\" BLOB, \"40013\" INTEGER, \"40050\" INTEGER, \"40090\" TEXT);\
         CREATE TABLE c2c_msg_table (\"40020\" TEXT, \"40001\" INTEGER PRIMARY KEY, \"40093\" TEXT, \"40800\" BLOB);\
         INSERT INTO group_msg_table VALUES ('10001', 123, 'u_a', '张三', CAST('你好' AS BLOB), 1, 1234567890, '群名片');\
         INSERT INTO c2c_msg_table VALUES ('u_5', 456, '李四', CAST('在吗' AS BLOB));",
    )
    .unwrap();
    conn
}

#[test]
fn rowid_alias_columns_still_index() {
    let conn = make_table_int_pk();
    let store = index(&conn);
    assert_eq!(store.convs.len(), 2, "group + c2c conversations indexed");
    assert_eq!(store.watermark_group, 123);
    assert_eq!(store.watermark_c2c, 456);
    let g = store.conversation(ChatType::Group, "10001").unwrap();
    assert_eq!(g.msgs.len(), 1);
    assert_eq!(g.msgs[0].seq, 123, "seq read from the 40001 column, not the rowid alias");
    assert_eq!(g.msgs[0].ts, 1234567890, "40050 still authoritative");
    let c = store.conversation(ChatType::C2c, "u_5").unwrap();
    assert_eq!(c.msgs.len(), 1);
    assert_eq!(c.msgs[0].seq, 456);
    // Incremental read path resolves the same aliased rowid.
    let (wm, records) = read_new(ChatType::Group, &rows_of(&conn, ChatType::Group, Some(0)), 0);
    assert_eq!(wm, 123);
    assert_eq!(records.len(), 1);
    assert_eq!(records[0].rowid, 123);
}

#[test]
fn missing_columns_degrade() {
    let conn = make_table(false);
    let store = index(&conn);
    let conv = store.conversation(ChatType::Group, "10001").unwrap();
    let m = &conv.msgs[0];
    assert_eq!(m.direction, None, "no 40013 -> None");
    assert_eq!(m.ts, seq_to_time(m.seq), "no 40050 -> seq>>32");
    assert_eq!(m.from_nick, "张三", "no 40090 -> 40093");
    assert_eq!(m.card, None, "no 40090 -> no card");
}

#[test]
fn read_new_respects_columns_like_scan() {
    let conn = make_table(true);
    let (wm, records) = read_new(ChatType::Group, &rows_of(&conn, ChatType::Group, Some(0)), 0);
    assert_eq!(wm, 1);
    assert_eq!(records.len(), 1);
    assert_eq!(records[0].direction, Some(1));
    assert_eq!(records[0].ts, 1234567890);
    assert_eq!(records[0].from_nick, "张三");
    assert_eq!(records[0].card.as_deref(), Some("群名片"));
}

#[test]
fn column_lists_name_what_is_there() {
    let none = TableCols { has_dir: false, has_time: false, has_card: false };
    assert_eq!(base_cols(ChatType::C2c), "\"40020\", \"40001\", \"40093\", \"40800\"");
    assert_eq!(cols_sql(ChatType::Group, none), base_cols(ChatType::Group));
    let time = TableCols { has_dir: false, has_time: true, has_card: true };
    assert_eq!(
        read_sql(ChatType::C2c, time),
        "SELECT rowid AS \"rowid\", \"40020\", \"40001\", \"40093\", \"40800\", \"40050\", \"40090\" \
         FROM c2c_msg_table WHERE rowid > ?1"
    );
}

fn cells(v: Vec<(&str, Cell)>) -> Row {
    Row { cells: v.into_iter().map(|(n, c)| (n.to_string(), c)).collect() }
}

#[test]
fn rows_that_cannot_be_read_are_skipped() {
    let cols = TableCols { has_dir: true, has_time: false, has_card: false };
    let row = |seq: Cell, nick: Cell, dir: Cell| {
        cells(vec![
            ("rowid", Cell::Int(5)),
            ("40001", seq),
            ("40020", Cell::Text("u_a".into())),
            ("40093", nick),
            ("40800", Cell::Blob(vec![1, 2])),
            ("40013", dir),
        ])
    };
    let whole = row(Cell::Int(9), Cell::Text(String::new()), Cell::Null);
    let d = map_row(ChatType::C2c, cols, &whole).expect("an absent direction reads as none");
    assert_eq!(
        (d.rowid, d.seq, d.uid.as_str(), d.talker.as_str(), d.blob.len(), d.dir),
        (5, 9, "u_a", "u_a", 2, None)
    );
    let typed = row(Cell::Text("9".into()), Cell::Text(String::new()), Cell::Null);
    assert!(map_row(ChatType::C2c, cols, &typed).is_none(), "a text is no seq");
    let null = row(Cell::Int(9), Cell::Null, Cell::Null);
    assert!(map_row(ChatType::C2c, cols, &null).is_none(), "a nick has to be a text");
    let odd = row(Cell::Int(9), Cell::Text(String::new()), Cell::Other);
    assert!(map_row(ChatType::C2c, cols, &odd).is_none(), "a direction is an integer or absent");
    assert!(map_row(ChatType::Group, cols, &whole).is_none(), "no group column");
    let table = TableRows { columns: vec!["40013".into()], rows: vec![typed, whole, null] };
    let (wm, records) = read_new(ChatType::C2c, &table, 3);
    assert_eq!((wm, records.len()), (5, 1));
}

#[test]
fn cards_are_refreshed_in_their_own_group_only() {
    let conn = fake_db();
    conn.execute(
        "INSERT INTO group_msg_table VALUES ('20002', 9, 'u_a', '张三', CAST('好' AS BLOB), 1, ?1, '新名片')",
        [TS],
    )
    .unwrap();
    let store = index(&conn);
    assert_eq!(store.display_sender(ChatType::Group, "20002", "u_a"), "新名片");
    assert_eq!(store.display_sender(ChatType::Group, "10001", "u_a"), "张三群名片");
    assert_eq!(store.display_sender(ChatType::C2c, "u_a", "u_a"), "张三");
}

#[test]
fn renames_name_the_group() {
    assert_eq!(guess_group_name("群主已将群名修改为「测试群」", "10001"), "测试群");
    assert_eq!(guess_group_name("随便聊聊", "10001"), "10001");
}

const TS: i64 = 1782864000;

fn fake_db() -> Connection {
    let conn = Connection::open_in_memory().unwrap();
    conn.execute_batch(
        "CREATE TABLE group_msg_table (\"40021\" TEXT, \"40001\" INTEGER, \"40020\" TEXT, \"40093\" TEXT, \
         \"40800\" BLOB, \"40013\" INTEGER, \"40050\" INTEGER, \"40090\" TEXT);\
         CREATE TABLE c2c_msg_table (\"40020\" TEXT, \"40001\" INTEGER, \"40093\" TEXT, \"40800\" BLOB, \
         \"40013\" INTEGER, \"40050\" INTEGER);",
    )
    .unwrap();
    let group = |talker: &str, n: i64, uid: &str, nick: &str, dir: i64, card: &str, blob: &[u8]| {
        conn.execute(
            "INSERT INTO group_msg_table VALUES (?1, ?2, ?3, ?4, ?5, ?6, ?7, ?8)",
            (talker, (TS << 32) | n, uid, nick, blob, dir, TS, card),
        )
        .unwrap();
    };
    group("10001", 1, "u_a", "张三", 1, "张三群名片", "你好，欢迎加入".as_bytes());
    group("10001", 2, "u_b", "李四", 0, "", "收到".as_bytes());
    group("10001", 3, "u_a", "张三", 1, "张三群名片", "李四撤回了一条消息\n你猜猜撤回了什么".as_bytes());
    group("10001", 4, "u_b", "李四", 3, "", "群主已将群名修改为「测试群」".as_bytes());
    let mut media = vec![0u8; 70_000];
    media[5000..5008].copy_from_slice(b".jpg.exe");
    group("10001", 5, "u_c", "王五", 0, "", &media);
    group(
        "20002",
        1,
        "u_a",
        "张三",
        1,
        "张三群名片",
        "{\"appID\":\"x\",\"prompt\":\"分享一个链接\",\"desc\":\"有趣内容\",\"title\":\"标题\"}".as_bytes(),
    );
    for (n, text) in [(1, "在吗？"), (2, "明天见")] {
        conn.execute(
            "INSERT INTO c2c_msg_table VALUES (?1, ?2, ?3, ?4, ?5, ?6)",
            ("u_12345", (TS << 32) | n, "王五", text.as_bytes(), 0, TS),
        )
        .unwrap();
    }
    conn
}

fn append_group_row(conn: &Connection, n: i64, text: &str) {
    conn.execute(
        "INSERT INTO group_msg_table VALUES (?1, ?2, ?3, ?4, ?5, ?6, ?7, ?8)",
        ("10001", (TS << 32) | n, "u_a", "张三", text.as_bytes(), 1, TS, "张三群名片"),
    )
    .unwrap();
}

#[test]
fn fake_db_indexes_group_rows() {
    let store = index(&fake_db());
    let g = store.conversation(ChatType::Group, "10001").unwrap();
    let types: Vec<MsgType> = g.msgs.iter().map(|m| m.parsed.msg_type).collect();
    assert_eq!(
        types,
        vec![MsgType::Text, MsgType::Text, MsgType::Recall, MsgType::System, MsgType::Image]
    );
    assert_eq!(g.name, "测试群", "the rename message names the group");
    assert_eq!(store.display_sender(ChatType::Group, "10001", "u_a"), "张三群名片");
    assert_eq!(store.display_sender(ChatType::Group, "10001", "u_b"), "李四", "an empty card is no card");
    let other = store.conversation(ChatType::Group, "20002").unwrap();
    assert_eq!(other.msgs[0].parsed.content, "分享一个链接 | 有趣内容 | 标题");
    assert_eq!(query_sessions(&store, None, 100, 0).len(), 3);
    assert_eq!((store.watermark_group, store.watermark_c2c), (6, 2));
}

fn pass(store: &mut Store, conn: &Connection) -> (Vec<String>, Vec<MessageOut>) {
    let group = rows_of(conn, ChatType::Group, Some(store.watermark_group));
    let c2c = rows_of(conn, ChatType::C2c, Some(store.watermark_c2c));
    let done = apply_pass(store, &group, &c2c, None, &Disk::new());
    (done.events.iter().map(|e| e.event.clone()).collect(), done.rows)
}

#[test]
fn passes_append_new_rows_once() {
    let conn = fake_db();
    let mut store = index(&conn);
    append_group_row(&conn, 7, "新增一行");
    append_group_row(&conn, 8, "张三撤回了一条消息\n你猜猜撤回了什么");
    let (events, rows) = pass(&mut store, &conn);
    assert_eq!(events, vec!["message.new", "message.revoke"]);
    assert_eq!(rows[0].content, "新增一行");
    assert_eq!(sync_counts(&rows), (1, 1));
    assert_eq!(store.watermark_group, 8);
    let (events, rows) = pass(&mut store, &conn);
    assert!(events.is_empty() && rows.is_empty(), "nothing new: nothing told");
    assert_eq!(store.conversation(ChatType::Group, "10001").unwrap().msgs.len(), 7);
}

#[test]
fn two_passes_build_what_one_scan_builds() {
    let conn = fake_db();
    let mut grown = index(&conn);
    append_group_row(&conn, 7, "新增一行");
    pass(&mut grown, &conn);
    let whole = index(&conn);
    let texts = |s: &Store| -> Vec<String> {
        let c = s.conversation(ChatType::Group, "10001").unwrap();
        c.msgs.iter().map(|m| m.parsed.content.clone()).collect()
    };
    assert_eq!(texts(&grown), texts(&whole));
    assert_eq!(grown.watermark_group, whole.watermark_group);
}

#[test]
fn fake_db_for_behavioral_repro() {
    let conn = fake_db();
    assert_eq!(rows_of(&conn, ChatType::Group, None).rows.len(), 6, "fake group rows readable");
    assert_eq!(rows_of(&conn, ChatType::C2c, None).rows.len(), 2, "fake c2c rows readable");
}

#[test]
fn fake_db_indexes_c2c_rows() {
    let store = index(&fake_db());
    assert_eq!(store.watermark_group, 6, "group rows must be indexed");
    assert_eq!(store.watermark_c2c, 2, "c2c rows must be indexed");
    let c2c = store.conversation(ChatType::C2c, "u_12345").expect("c2c conversation must exist");
    assert_eq!(c2c.msgs.len(), 2, "both c2c messages must be present");
}

/// One pass, as it runs on a change: a table that cannot be read fails it.
fn poll(store: &mut Store, detector: &mut ChangeDetector, conn: &Connection) -> Option<SyncPass> {
    let read = |chat_type: ChatType, watermark: i64| {
        if columns(conn, table_name(chat_type)).is_empty() {
            None
        } else {
            Some(rows_of(conn, chat_type, Some(watermark)))
        }
    };
    let group = read(ChatType::Group, store.watermark_group);
    let c2c = read(ChatType::C2c, store.watermark_c2c);
    poll_once(store, detector, group.as_ref(), c2c.as_ref(), None, &Disk::new())
}

#[test]
fn manual_sync_picks_up_new_rows() {
    let conn = fake_db();
    let mut store = Store::default();
    let mut detector = ChangeDetector::new();
    let first = poll(&mut store, &mut detector, &conn).unwrap();
    assert_eq!(first.rows.len(), 8, "initial poll returns all rows (6 group + 2 c2c)");

    append_group_row(&conn, 7, "手动同步新增");
    let second = poll(&mut store, &mut detector, &conn).unwrap();
    assert_eq!(second.rows.len(), 1, "second poll returns only the new row");
    assert_eq!(second.rows[0].content, "手动同步新增");

    // The new row must also be pushed.
    let ev = &second.events[0];
    assert_eq!(ev.event, "message.new");
    assert_eq!(ev.content, "手动同步新增");
}

#[test]
fn failed_sync_leaves_store_untouched() {
    let conn = fake_db();
    let mut store = Store::default();
    let mut detector = ChangeDetector::new();
    conn.execute_batch("ALTER TABLE c2c_msg_table RENAME TO c2c_broken;").unwrap();
    assert!(poll(&mut store, &mut detector, &conn).is_none());
    assert!(store.convs.is_empty(), "failed sync must not apply group rows");
    assert_eq!(
        (store.watermark_group, store.watermark_c2c),
        (0, 0),
        "failed sync must not advance watermarks"
    );
    assert!(detector.retry, "the next trigger retries");

    // Repair and retry: every row arrives exactly once.
    conn.execute_batch("ALTER TABLE c2c_broken RENAME TO c2c_msg_table;").unwrap();
    let done = poll(&mut store, &mut detector, &conn).unwrap();
    assert_eq!(done.rows.len(), 8, "retry returns all rows (6 group + 2 c2c)");
    let group = store.conversation(ChatType::Group, "10001").expect("group conversation exists");
    assert_eq!(group.msgs.len(), 5, "group rows applied exactly once (10001)");
    let other = store.conversation(ChatType::Group, "20002").expect("second group conversation exists");
    assert_eq!(other.msgs.len(), 1, "group rows applied exactly once (20002)");
    let c2c = store.conversation(ChatType::C2c, "u_12345").expect("c2c conversation exists");
    assert_eq!(c2c.msgs.len(), 2, "c2c rows applied exactly once");
}

#[test]
fn manual_sync_tells_rows_newest_first() {
    let conn = fake_db();
    let mut store = Store::default();
    let mut detector = ChangeDetector::new();
    let first = poll(&mut store, &mut detector, &conn);
    conn.execute(
        "INSERT INTO group_msg_table VALUES ('10001', 5, 'u_a', '张三', CAST('稍后' AS BLOB), 1, ?1, '')",
        [TS + 9],
    )
    .unwrap();
    let second = poll(&mut store, &mut detector, &conn);
    let rows = sync_all(&vec![first, None, second]);
    assert_eq!(rows.len(), 9);
    assert_eq!(rows[0].content, "稍后", "the newest row comes first");
    assert!(rows.windows(2).all(|w| (w[0].create_time, w[0].local_id) >= (w[1].create_time, w[1].local_id)));
}

#[test]
fn install_index_rebaselines_subscribers() {
    let mut store = Store::default();
    let st = Store { watermark_group: 42, watermark_c2c: 7, ..Store::default() };
    let ev = install_index(&mut store, st, 1782864000);
    assert_eq!(store.watermark_group, 42, "store replaced");
    assert_eq!(ev.event, "sync");
    assert_eq!(ev.last_rowid_group, Some(42));
    assert_eq!(ev.last_rowid_c2c, Some(7));
    assert_eq!(message_count(&index(&fake_db())), Some(8));
}

#[test]
fn names_are_replaced_as_a_whole() {
    let mut store = index(&fake_db());
    store.names.uid_nick.insert("u_old".into(), "旧".into());
    let text = |s: &str| Cell::Text(s.to_string());
    let mapping = TableData {
        name: "nt_uid_mapping_table".into(),
        columns: vec!["nt_uid".into(), "remark".into()],
        rows: vec![vec![text("u_12345"), text("李四他哥")]],
    };
    refresh_names(&mut store, &Vec::new(), &vec![mapping], &Vec::new());
    assert_eq!(store.display_uid("u_12345"), "李四他哥");
    assert_eq!(store.display_uid("u_old"), "u_old");
}

#[test]
fn sources_of_roots_and_snapshots() {
    let mut store = Store::default();
    assert_eq!(cache_root(&store, Some("/derived".into())).as_deref(), Some("/derived"));
    store.media_root = Some("/own".into());
    assert_eq!(cache_root(&store, Some("/derived".into())).as_deref(), Some("/own"));
    assert_eq!(wal_snapshot(Some((1, 2)), Some((3, 4))), Some((1, 2)));
    assert_eq!(wal_snapshot(None, Some((3, 4))), Some((3, 4)));
    assert_eq!(wal_snapshot(None, None), None);
}

#[test]
fn wal_changes_are_noticed_once() {
    let mut d = ChangeDetector::new();
    assert!(d.changed(true, Some((1, 100))), "the first sight is a change");
    assert!(!d.changed(true, Some((1, 100))));
    assert!(d.changed(true, Some((2, 100))));
    assert!(d.changed(true, Some((2, 108))));
    assert!(!d.changed(true, Some((2, 108))));
    assert!(!d.changed(true, None), "no log: nothing to read");
    assert!(d.changed(false, Some((2, 108))), "a closed connection is worth a pass");
    d.finished(true);
    assert!(!d.retry);
    d.finished(false);
    assert!(d.changed(true, Some((2, 108))), "a failed pass is retried");
    assert!(!d.changed(true, Some((2, 108))), "once");
}

#[test]
fn records_apply_to_their_own_conversation() {
    let conn = fake_db();
    let mut store = Store::default();
    let (_, records) = read_new(ChatType::C2c, &rows_of(&conn, ChatType::C2c, None), 0);
    apply_records(&mut store, records, &Disk::new());
    assert_eq!(store.convs.len(), 1);
    let c = store.conversation(ChatType::C2c, "u_12345").unwrap();
    assert_eq!((c.msgs.len(), c.name.as_str(), c.dirty), (2, "王五", true));
}

//! Name maps harvested from profile, mapping and group tables.

use qqflow_server::parser::types::ChatType;
use qqflow_server::store::index::Cell;
use qqflow_server::store::mapping::load_uid_map;
use qqflow_server::store::names::{choose_group_table, fill_map, group_sibling_files, harvest_group_db,
    harvest_uid_profiles, load_names, load_uid_maps, probe_table, KnownKeys, TableData, PROBE_LIMIT};
use qqflow_server::store::{conv_key, Conversation, NameMaps, Store};
use qqflow_server::strmap::StrMap;
use rusqlite::types::Value;
use rusqlite::Connection;

fn mem_conn() -> Connection {
    Connection::open_in_memory().unwrap()
}

fn cell(v: Value) -> Cell {
    match v {
        Value::Null => Cell::Null,
        Value::Integer(n) => Cell::Int(n),
        Value::Text(s) => Cell::Text(s),
        Value::Blob(b) => Cell::Blob(b),
        Value::Real(_) => Cell::Other,
    }
}

/// Every table of a database.
fn tables(conn: &Connection) -> Vec<TableData> {
    let mut stmt = conn.prepare("SELECT name FROM sqlite_master WHERE type='table'").unwrap();
    let names: Vec<String> = stmt.query_map([], |r| r.get(0)).unwrap().map(|n| n.unwrap()).collect();
    let mut out = Vec::new();
    for name in names {
        let mut stmt = conn.prepare(&format!("SELECT * FROM \"{name}\"")).unwrap();
        let columns: Vec<String> = stmt.column_names().iter().map(|c| c.to_string()).collect();
        let mut rows = Vec::new();
        let mut found = stmt.query([]).unwrap();
        while let Some(r) = found.next().unwrap() {
            rows.push((0..columns.len()).map(|i| cell(r.get(i).unwrap())).collect());
        }
        out.push(TableData { name, columns, rows });
    }
    out
}

fn text<'a>(m: &'a StrMap<String>, k: &str) -> Option<&'a str> {
    m.get(k).map(String::as_str)
}

fn set(keys: &[&str]) -> StrMap<bool> {
    let mut m = StrMap::new();
    for k in keys {
        m.insert(k.to_string(), true);
    }
    m
}

fn texts(pairs: &[(&str, &str)]) -> StrMap<String> {
    let mut m = StrMap::new();
    for (k, v) in pairs {
        m.insert(k.to_string(), v.to_string());
    }
    m
}

#[test]
fn uid_maps_harvest_remark_nick_and_qq() {
    let conn = mem_conn();
    conn.execute_batch(
        "CREATE TABLE nt_uid_mapping_table (nt_uid TEXT, remark TEXT, nickname TEXT, qq TEXT);\
         INSERT INTO nt_uid_mapping_table VALUES ('u_a', '张三备注', '张三', '10001');\
         INSERT INTO nt_uid_mapping_table VALUES ('u_b', '', '李四', '10002');",
    )
    .unwrap();
    let mut maps = NameMaps::default();
    load_uid_maps(&tables(&conn), &mut maps);
    assert_eq!(text(&maps.uid_remark, "u_a"), Some("张三备注"));
    assert_eq!(maps.uid_remark.get("u_b"), None, "empty remark skipped");
    assert_eq!(text(&maps.uid_nick, "u_a"), Some("张三"), "nickname col via hint");
    assert_eq!(text(&maps.uid_nick, "u_b"), Some("李四"));
    assert_eq!(text(&maps.uid_qq, "u_a"), Some("10001"));
}

#[test]
fn mixed_script_nick_20002_classifies_without_cjk() {
    let conn = mem_conn();
    conn.execute_batch(
        "CREATE TABLE profile_info_v2 (\"1000\" TEXT, \"20002\" TEXT, \"1002\" TEXT);\
         INSERT INTO profile_info_v2 VALUES ('u_a', 'Yuchen Ren', '10001');\
         INSERT INTO profile_info_v2 VALUES ('u_b', '.', '10002');",
    )
    .unwrap();
    let mut maps = NameMaps::default();
    let known = KnownKeys::default();
    harvest_uid_profiles(&tables(&conn), &known, &mut maps);
    assert_eq!(text(&maps.uid_nick, "u_a"), Some("Yuchen Ren"));
    assert_eq!(maps.uid_remark.len(), 0, "no remark column -> stays empty");
    assert_eq!(text(&maps.uid_qq, "u_a"), Some("10001"));
}

#[test]
fn missing_or_emptied_tables_yield_empty_maps_without_panic() {
    let conn = mem_conn(); // no tables at all
    let mut maps = NameMaps::default();
    load_uid_maps(&tables(&conn), &mut maps);
    assert!(maps.uid_remark.is_empty() && maps.uid_qq.is_empty());

    conn.execute_batch("CREATE TABLE nt_uid_mapping_table (a TEXT, b TEXT);").unwrap();
    let mut maps = NameMaps::default();
    load_uid_maps(&tables(&conn), &mut maps); // no u_ values -> no key column
    assert!(maps.uid_remark.is_empty(), "no uid key column -> nothing harvested");
}

#[test]
fn numeric_column_names_degrade_gracefully() {
    let conn = mem_conn();
    conn.execute_batch(
        "CREATE TABLE nt_uid_mapping_table (\"20002\" TEXT, \"20003\" TEXT, \"10002\" TEXT);\
         INSERT INTO nt_uid_mapping_table VALUES ('u_a', '10001', '张三');",
    )
    .unwrap();
    let mut maps = NameMaps::default();
    load_uid_maps(&tables(&conn), &mut maps);
    assert_eq!(text(&maps.uid_qq, "u_a"), Some("10001"));
    assert!(maps.uid_remark.is_empty(), "no remark hint -> stays empty");
    assert!(maps.uid_nick.is_empty(), "no nick hint -> stays empty");
}

#[test]
fn cjk_question_columns_are_not_remarks() {
    let conn = mem_conn();
    conn.execute_batch(
        "CREATE TABLE group_detail_info_ver1 (\"60001\" TEXT, \"60007\" TEXT, \"60224\" TEXT);\
         INSERT INTO group_detail_info_ver1 VALUES ('10001', '测试群', '您从何处了解到本群？');\
         INSERT INTO group_detail_info_ver1 VALUES ('20002', '第二群', '问题1:为什么要加我？');",
    )
    .unwrap();
    let known = KnownKeys::default();
    let mut maps = NameMaps::default();
    assert!(harvest_group_db(&tables(&conn), &known, &mut maps), "key column found");
    assert_eq!(text(&maps.group_name, "10001"), Some("测试群"));
    assert_eq!(text(&maps.group_name, "20002"), Some("第二群"));
    assert!(maps.group_remark.is_empty(), "question columns are not remarks");
}

#[test]
fn group_key_picked_by_known_overlap() {
    let conn = mem_conn();
    conn.execute_batch(
        "CREATE TABLE group_list (id TEXT, name TEXT, remark TEXT);\
         INSERT INTO group_list VALUES ('10001', '测试群', '');\
         INSERT INTO group_list VALUES ('99999', '未知群', '');",
    )
    .unwrap();
    let known = KnownKeys { uids: set(&[]), group_ids: set(&["10001"]), group_names: texts(&[]) };
    let mut maps = NameMaps::default();
    assert!(harvest_group_db(&tables(&conn), &known, &mut maps), "key column found");
    assert_eq!(text(&maps.group_name, "10001"), Some("测试群"));
    assert_eq!(text(&maps.group_name, "99999"), Some("未知群"));
    assert!(!maps.group_name.is_empty());
}

#[test]
fn group_harvest_skips_sources_without_group_ids() {
    let conn = mem_conn();
    conn.execute_batch(
        "CREATE TABLE buddy_mapping (uid TEXT, remark TEXT);\
         INSERT INTO buddy_mapping VALUES ('u_a', '张三备注');",
    )
    .unwrap();
    let known = KnownKeys { uids: set(&["u_a"]), group_ids: set(&["10001"]), group_names: texts(&[]) };
    let mut maps = NameMaps::default();
    assert!(!harvest_group_db(&tables(&conn), &known, &mut maps), "no group table here");
    assert!(maps.group_name.is_empty());
}

#[test]
fn group_key_falls_back_to_digit_columns_without_overlap() {
    let conn = mem_conn();
    conn.execute_batch(
        "CREATE TABLE group_list (id TEXT, name TEXT);\
         INSERT INTO group_list VALUES ('10001', '测试群');",
    )
    .unwrap();
    let known = KnownKeys { uids: set(&[]), group_ids: set(&[]), group_names: texts(&[]) };
    let mut maps = NameMaps::default();
    assert!(harvest_group_db(&tables(&conn), &known, &mut maps));
    assert_eq!(text(&maps.group_name, "10001"), Some("测试群"));
}

#[test]
fn drift_tables_require_name_agreement() {
    let conn = mem_conn();
    conn.execute_batch(
        "CREATE TABLE group_msg_table (\"40021\" TEXT, \"40093\" TEXT);\
         INSERT INTO group_msg_table VALUES ('10001', '张三');",
    )
    .unwrap();
    let known = KnownKeys {
        uids: set(&["u_a"]),
        group_ids: set(&["10001"]),
        group_names: texts(&[("10001", "测试群")]),
    };
    let mut maps = NameMaps::default();
    assert!(
        !harvest_group_db(&tables(&conn), &known, &mut maps),
        "message table must not be a group source"
    );
    assert!(maps.group_name.is_empty());

    conn.execute_batch(
        "CREATE TABLE nt_group_info_table (\"40021\" TEXT, \"40093\" TEXT);\
         INSERT INTO nt_group_info_table VALUES ('10001', '测试群');",
    )
    .unwrap();
    let mut maps = NameMaps::default();
    assert!(harvest_group_db(&tables(&conn), &known, &mut maps), "agreement passes drift gate");
    assert_eq!(text(&maps.group_name, "10001"), Some("测试群"));
}

#[test]
fn live_group_list_comes_before_the_detail_table() {
    let conn = mem_conn();
    conn.execute_batch(
        "CREATE TABLE group_detail_info_ver1 (\"60001\" TEXT, \"60007\" TEXT);\
         INSERT INTO group_detail_info_ver1 VALUES ('10001', '旧群');\
         CREATE TABLE group_list (id TEXT, name TEXT);\
         INSERT INTO group_list VALUES ('10001', '新群');",
    )
    .unwrap();
    let mut maps = NameMaps::default();
    assert!(harvest_group_db(&tables(&conn), &KnownKeys::default(), &mut maps));
    assert_eq!(text(&maps.group_name, "10001"), Some("新群"));
}

#[test]
fn first_source_wins_and_empty_values_are_skipped() {
    let row = |k: &str, v: &str| vec![Cell::Text(k.into()), Cell::Text(v.into())];
    let rows = vec![row("u_a", ""), row("u_a", "one"), row("u_a", "two"), row("", "three")];
    let mut m = texts(&[("u_z", "kept")]);
    fill_map(&rows, 0, Some(1), &mut m);
    fill_map(&vec![row("u_z", "later")], 0, Some(1), &mut m);
    fill_map(&rows, 0, None, &mut m);
    assert_eq!((text(&m, "u_a"), text(&m, "u_z"), m.len()), (Some("one"), Some("kept"), 2));
}

#[test]
fn names_load_from_profile_mapping_and_sibling() {
    let msg = mem_conn();
    msg.execute_batch(
        "CREATE TABLE nt_uid_mapping_table (nt_uid TEXT, remark TEXT, nickname TEXT, qq TEXT);\
         INSERT INTO nt_uid_mapping_table VALUES ('u_12345', '李四他哥', '王五', '12345');\
         INSERT INTO nt_uid_mapping_table VALUES ('u_a', '张三备注', '张三', '10001');\
         INSERT INTO nt_uid_mapping_table VALUES ('u_b', '', '李四', '10002');",
    )
    .unwrap();
    let profile = mem_conn();
    profile
        .execute_batch(
            "CREATE TABLE profile_info_v6 (\"1000\" TEXT, \"20002\" TEXT);\
             INSERT INTO profile_info_v6 VALUES ('u_12345', '档案昵称');\
             INSERT INTO profile_info_v6 VALUES ('u_c', '王五档案');",
        )
        .unwrap();
    let group = mem_conn();
    group
        .execute_batch(
            "CREATE TABLE group_list (\"60001\" TEXT, \"60007\" TEXT);\
             INSERT INTO group_list VALUES ('10001', '测试群');\
             INSERT INTO group_list VALUES ('20002', '第二群');",
        )
        .unwrap();
    let maps = load_names(
        &vec![tables(&profile)],
        &tables(&msg),
        &vec![Vec::new(), tables(&group)],
        &KnownKeys::default(),
    );
    assert_eq!(text(&maps.uid_nick, "u_12345"), Some("档案昵称"), "profile nick wins");
    assert_eq!(text(&maps.uid_nick, "u_c"), Some("王五档案"), "profile-only uid");
    assert_eq!(text(&maps.uid_nick, "u_a"), Some("张三"), "the mapping fills what is missing");
    assert_eq!(text(&maps.uid_remark, "u_12345"), Some("李四他哥"));
    assert_eq!(text(&maps.uid_remark, "u_a"), Some("张三备注"));
    assert_eq!(maps.uid_remark.get("u_b"), None, "empty remark stays absent");
    assert_eq!(text(&maps.uid_qq, "u_a"), Some("10001"));
    assert_eq!(text(&maps.group_name, "10001"), Some("测试群"));
    assert_eq!(text(&maps.group_name, "20002"), Some("第二群"));

    let mut store = Store::default();
    store.names = maps;
    assert_eq!(store.display_uid("u_12345"), "李四他哥", "remark wins over profile nick");
    assert_eq!(store.display_uid("u_a"), "张三备注", "remark wins");
    assert_eq!(store.display_name(ChatType::C2c, "u_a"), "张三备注", "c2c remark wins");
    assert_eq!(store.display_name(ChatType::Group, "10001"), "测试群", "group-info name");
}

#[test]
fn column_statistics_count_and_sample() {
    let t = TableData {
        name: "t".into(),
        columns: vec!["a".into(), "b".into()],
        rows: vec![
            vec![Cell::Null, Cell::Text("u_1".into())],
            vec![Cell::Text(String::new()), Cell::Int(10001)],
            vec![Cell::Text("中文".into()), Cell::Text("u_1".into())],
            vec![Cell::Blob(vec![1])],
        ],
    };
    let stats = probe_table(&t).unwrap();
    let a = &stats[0];
    assert_eq!((a.name.as_str(), a.total, a.nonempty, a.cjk, a.sample.as_str()), ("a", 2, 1, 1, "中文"));
    let b = &stats[1];
    assert_eq!((b.total, b.nonempty, b.u, b.digit, b.distinct.len(), b.sample.as_str()), (3, 3, 2, 1, 2, "u_1"));
    assert!(probe_table(&TableData { name: "t".into(), columns: Vec::new(), rows: Vec::new() }).is_none());
}

#[test]
fn first_rows_alone_decide_the_group_table() {
    let text = |s: String| Cell::Text(s);
    let mut t = TableData {
        name: "group_list".into(),
        columns: vec!["id".into(), "name".into()],
        rows: (0..PROBE_LIMIT).map(|i| vec![text(format!("{}", 10000 + i)), text("测试群".into())]).collect(),
    };
    let known = KnownKeys::default();
    let before = choose_group_table(&vec![t], &known).unwrap();
    t = TableData {
        name: "group_list".into(),
        columns: vec!["id".into(), "name".into()],
        rows: (0..PROBE_LIMIT).map(|i| vec![text(format!("{}", 10000 + i)), text("测试群".into())]).collect(),
    };
    for i in 0..PROBE_LIMIT {
        t.rows.push(vec![text("x".into()), text(format!("{}", 20000 + i))]);
    }
    t.rows.push(vec![text("99999".into()), text("末群".into())]);
    let tables = vec![t];
    let after = choose_group_table(&tables, &known).unwrap();
    assert_eq!((before.key, before.name), (after.key, after.name));
    let mut maps = NameMaps::default();
    assert!(harvest_group_db(&tables, &known, &mut maps));
    assert_eq!(text_at(&maps, "99999"), Some("末群"), "the whole table is read");
}

fn text_at<'a>(maps: &'a NameMaps, group: &str) -> Option<&'a str> {
    text(&maps.group_name, group)
}

#[test]
fn known_keys_come_from_the_store() {
    let mut store = Store::default();
    for (t, talker, name) in [
        (ChatType::Group, "10001", "测试群"),
        (ChatType::Group, "10002", "10002"),
        (ChatType::C2c, "u_a", "张三"),
    ] {
        store.convs.insert(
            conv_key(t, talker),
            Conversation { chat_type: t, talker: talker.into(), name: name.into(), msgs: Vec::new(), dirty: false },
        );
    }
    let known = KnownKeys::from_store(&store);
    assert!(known.uids.contains_key("u_a") && !known.uids.contains_key("10001"));
    assert!(known.group_ids.contains_key("10001") && known.group_ids.contains_key("10002"));
    assert_eq!(text(&known.group_names, "10001"), Some("测试群"));
    assert_eq!(known.group_names.get("10002"), None, "a placeholder is no name");
}

#[test]
fn sibling_files_are_the_known_ones_then_a_few_others() {
    let listing: Vec<String> = [
        "z.db", "nt_msg.db", "a.db", "notes.txt", "raw.db", "b.db", "group_info.db", "c.db", "d.db", "e.db", "f.db",
    ]
    .iter()
    .map(|s| s.to_string())
    .collect();
    let files = group_sibling_files(&listing);
    assert_eq!(files[0], "group_info.db");
    let tail: Vec<&str> = files[files.len() - 6..].iter().map(String::as_str).collect();
    assert_eq!(tail, vec!["a.db", "b.db", "c.db", "d.db", "e.db", "z.db"]);
}

#[test]
fn uid_map_reads_pairs_of_the_first_table_that_has_any() {
    let conn = mem_conn();
    conn.execute_batch(
        "CREATE TABLE nt_uid_mapping_table (\"48901\" TEXT, \"40020\" TEXT);\
         INSERT INTO nt_uid_mapping_table VALUES ('u_z', '');\
         CREATE TABLE uid_mapping (\"48901\" TEXT, \"40020\" TEXT);\
         INSERT INTO uid_mapping VALUES ('u_a', '10001');\
         INSERT INTO uid_mapping VALUES ('u_b', '10002');",
    )
    .unwrap();
    let pair = |a: &str, b: &str| (a.to_string(), b.to_string());
    assert_eq!(load_uid_map(&tables(&conn), 9), vec![pair("u_a", "10001"), pair("u_b", "10002")]);
    assert_eq!(load_uid_map(&tables(&conn), 1), vec![pair("u_a", "10001")]);
    assert!(load_uid_map(&Vec::new(), 9).is_empty());
}

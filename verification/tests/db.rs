//! Source databases: keys, headers, scans, the live connection and the watcher.

use qqflow_server::db::decrypt::{check_source, escape_key, hmac_attempts, open_step, pragma_suite, verify, Attempt,
    OpenStep, SourceError, KEY_REFUSED};
use qqflow_server::db::live::{Acquire, LiveReader, REOPEN_COOLDOWN_MS};
use qqflow_server::db::mirror::{read_skipping, strip_header, Mirror, MirrorStep};
use qqflow_server::db::scan::{nearest_digit_dir, resolve_account, scan_custom, scan_root, scan_unix, AccountDir,
    DbFile, DbInfo, PathTarget, ScanError, UnixDir, CUSTOM_HEADER_LEN};
use qqflow_server::pathname::PathStyle;
use qqflow_server::db::vfs::{aligned_size, is_offset_main, logical_size, shifted_offset};
use qqflow_server::sync::watch::{is_relevant, react, WatchConfig, WatchEvent, REATTACH_INTERVAL_MS};

#[test]
fn escape_key_sql() {
    assert_eq!(escape_key("a'b"), "a''b");
    assert_eq!(escape_key("plain16bytestr"), "plain16bytestr");
}

#[test]
fn empty_and_missing_database_rejected() {
    assert_eq!(check_source(Some(0)), Err(SourceError::Empty));
    assert_eq!(check_source(None), Err(SourceError::Missing));
    assert!(SourceError::Empty.message("/x/empty.db").contains("为空"));
    assert!(SourceError::Missing.message("/x/missing.db").contains("不存在"));
    assert_eq!(SourceError::Missing.message("/x/m.db"), "镜像数据库不存在: /x/m.db");
    assert_eq!(check_source(Some(1)), Ok(()));
    assert!(verify(1));
    assert!(!verify(0), "an empty database would trivially verify");
}

#[test]
fn garbage_file_reports_key_error() {
    // Neither algorithm reads a catalogue: the key is refused.
    assert_eq!(open_step(0, None), OpenStep::Try("HMAC_SHA1"));
    assert_eq!(open_step(1, Some(Attempt::Failed)), OpenStep::Try("HMAC_SHA512"));
    assert_eq!(open_step(2, Some(Attempt::Failed)), OpenStep::Refuse);
    assert!(KEY_REFUSED.contains("密钥"));
    assert_eq!(open_step(1, Some(Attempt::Read(7))), OpenStep::Use);
    assert_eq!(open_step(2, Some(Attempt::Read(7))), OpenStep::Use);
    assert_eq!(open_step(1, Some(Attempt::Read(0))), OpenStep::Try("HMAC_SHA512"));
}

#[test]
fn key_settings_name_the_key_and_the_hmac() {
    let sql = pragma_suite("a'b", "HMAC_SHA1");
    assert!(sql.contains("PRAGMA key = 'a''b';"));
    assert!(sql.contains("PRAGMA cipher_hmac_algorithm = HMAC_SHA1;"));
    assert!(sql.contains("PRAGMA cipher_page_size = 4096;"));
    assert!(sql.contains("PRAGMA kdf_iter = 4000;"));
    assert_eq!(hmac_attempts()[0], "HMAC_SHA1");
}

#[test]
fn header_strip_math() {
    // The mirror copy must skip exactly CUSTOM_HEADER_LEN bytes.
    let mut bytes = vec![0u8; CUSTOM_HEADER_LEN as usize + 100];
    bytes[CUSTOM_HEADER_LEN as usize] = 0xAA;
    let stripped = read_skipping(&bytes, CUSTOM_HEADER_LEN);
    assert_eq!(stripped.len(), 100);
    assert_eq!(stripped[0], 0xAA);
    assert_eq!(strip_header(&bytes), stripped);
    assert!(read_skipping(&bytes[..10], CUSTOM_HEADER_LEN).is_empty());
}

#[test]
fn mirrors_rebuild_on_change() {
    let info = DbInfo { qq: "10001".into(), path: "/q/nt_msg.db".into() };
    let mut m = Mirror::new(PathStyle::Unix, &info, "/mirror");
    assert_eq!(m.src_wal, "/q/nt_msg.db-wal");
    assert_eq!(m.wal_path, names(&["/mirror", "10001", "main.db-wal"]));
    assert_eq!(m.sync_step(5, 9), MirrorStep::Rebuild);
    m.rebuilt(5, 9);
    assert_eq!(m.sync_step(5, 9), MirrorStep::CopyWal);
    assert_eq!(m.sync_step(6, 9), MirrorStep::Rebuild);
    assert_eq!(m.sync_step(5, 10), MirrorStep::Rebuild);
    let odd = DbInfo { qq: "1".into(), path: "/x/nt_msg.sqlite".into() };
    let m = Mirror::new(PathStyle::Unix, &odd, "/mirror/");
    assert_eq!((m.src_wal.as_str(), m.mirror_dir), ("/x/nt_msg.db-wal", names(&["/mirror/", "1"])));
    assert_eq!(m.main_path, names(&["/mirror/", "1", "main.db"]));
}

#[test]
fn main_db_predicate() {
    // Fictional paths — only the filename suffix matters.
    assert!(is_offset_main(r"C:\SomeUser\nt_qq\nt_db\nt_msg.db", true));
    assert!(!is_offset_main(r"C:\SomeUser\nt_qq\nt_db\nt_msg.db-wal", true));
    assert!(!is_offset_main(r"C:\SomeUser\nt_qq\nt_db\nt_msg.db-shm", true));
    assert!(!is_offset_main(r"C:\SomeUser\nt_qq\nt_db\nt_msg.db-journal", true));
    // Without the MAIN_DB flag nothing is shifted.
    assert!(!is_offset_main(r"C:\SomeUser\nt_qq\nt_db\nt_msg.db", false));
    assert!(is_offset_main(r"C:\x\y.db", true));
    assert!(is_offset_main(r"C:\SomeUser\nt_qq\nt_db\group_info.db", true));
    assert!(!is_offset_main(r"C:\x\y.db-shm2", true));
    assert!(!is_offset_main(r"C:\x\notes.txt", true));
    // Case-insensitive.
    assert!(is_offset_main(r"C:\Q\NT_MSG.DB", true));
}

#[test]
fn offsets_and_sizes_pass_over_the_header() {
    assert_eq!(shifted_offset(0), 1024);
    assert_eq!(shifted_offset(4096), 5120);
    assert_eq!(logical_size(5120), 4096);
    assert_eq!(logical_size(100), 0, "a file shorter than the header is empty");
    assert_eq!(aligned_size(0), 0);
    assert_eq!(aligned_size(17) % 8, 0);
    assert!(aligned_size(17) >= 17);
}

fn names(v: &[&str]) -> Vec<String> {
    v.iter().map(|s| s.to_string()).collect()
}

#[test]
fn scans_find_accounts_by_digit_directory() {
    let dir = |name: &str, db: Option<&str>| AccountDir { name: name.into(), db: db.map(String::from) };
    let found = scan_root(&vec![
        dir("20002", Some("/r/20002/nt_qq/nt_db/nt_msg.db")),
        dir("abc", Some("/r/abc/nt_qq/nt_db/nt_msg.db")),
        dir("10001", Some("/r/10001/nt_qq/nt_db/nt_msg.db")),
        dir("30003", None),
    ]);
    let qqs: Vec<&str> = found.iter().map(|d| d.qq.as_str()).collect();
    assert_eq!(qqs, vec!["10001", "20002"]);
    assert_eq!(
        nearest_digit_dir(&names(&["r", "10001", "nt_qq", "nt_db", "nt_msg.db"])),
        Some("10001".to_string())
    );
    assert_eq!(nearest_digit_dir(&names(&["r", "nt_qq"])), None);
}

#[test]
fn custom_paths_name_a_file_or_a_root() {
    let parts = names(&["r", "10001", "nt_qq", "nt_db", "nt_msg.db"]);
    let found = scan_custom("/r/10001/nt_qq/nt_db/nt_msg.db", &parts, &PathTarget::File).unwrap();
    assert_eq!(found[0].qq, "10001");
    assert_eq!(found[0].path, "/r/10001/nt_qq/nt_db/nt_msg.db");
    let r = scan_custom("/nope", &names(&["nope"]), &PathTarget::Missing);
    assert!(matches!(r, Err(ScanError::Missing)));
    let r = scan_custom("/r", &names(&["r"]), &PathTarget::Dir(Vec::new()));
    assert!(matches!(r, Err(ScanError::NoDatabase)));
    let dir = vec![AccountDir { name: "10001".into(), db: Some("/r/10001/nt_qq/nt_db/nt_msg.db".into()) }];
    assert_eq!(scan_custom("/r", &names(&["r"]), &PathTarget::Dir(dir)).unwrap().len(), 1);
    let plain = scan_custom("/x.db", &names(&["x.db"]), &PathTarget::File).unwrap();
    assert_eq!(plain[0].qq, "custom", "no number on the way");
}

#[test]
fn accounts_resolve_to_a_file() {
    let d = resolve_account("10001", "/x/nt_msg.db", true, None).unwrap();
    assert_eq!(d.path, "/x/nt_msg.db");
    let d = resolve_account("10001", "/x", false, Some("/x/nt_qq/nt_db/nt_msg.db".into())).unwrap();
    assert_eq!((d.qq.as_str(), d.path.as_str()), ("10001", "/x/nt_qq/nt_db/nt_msg.db"));
    assert!(resolve_account("10001", "/x", false, None).is_none());
}

#[test]
fn unix_directories_give_their_exact_or_largest_database() {
    let file = |name: &str, len: u64| DbFile { name: name.into(), path: format!("/d/{name}"), len };
    let found = scan_unix(&vec![
        UnixDir { name: "nt_qq_b".into(), exact: Some("/b/nt_msg.db".into()), files: Some(Vec::new()) },
        UnixDir {
            name: "nt_qq_a".into(),
            exact: None,
            files: Some(vec![file("x.db", 50), file("Msg_1.db", 9), file("msg_2.DB", 10), file("msg.txt", 99)]),
        },
        UnixDir { name: "nt_qq_c".into(), exact: Some("/c/nt_msg.db".into()), files: None },
    ]);
    let found: Vec<(&str, &str)> = found.iter().map(|d| (d.qq.as_str(), d.path.as_str())).collect();
    assert_eq!(found, vec![("a", "/d/msg_2.DB"), ("b", "/b/nt_msg.db")]);
}

#[test]
fn live_reader_cools_down_after_a_fatal_error() {
    let mut r = LiveReader::new();
    assert!(!r.is_open());
    assert!(matches!(r.acquire(0), Acquire::Open));
    r.opened();
    assert!(r.is_open() && matches!(r.acquire(0), Acquire::Use));
    r.mark_fatal(1000);
    assert!(matches!(r.acquire(1000), Acquire::Refuse));
    assert!(matches!(r.acquire(999 + REOPEN_COOLDOWN_MS), Acquire::Refuse));
    assert!(matches!(r.acquire(1000 + REOPEN_COOLDOWN_MS), Acquire::Open));
    r.force_reopen();
    assert!(matches!(r.acquire(1000), Acquire::Open), "a forced reopen waits for nothing");
}

#[test]
fn filename_filter() {
    assert!(is_relevant("nt_msg.db"));
    assert!(is_relevant("nt_msg.db-wal"));
    assert!(is_relevant("nt_msg.db-shm"));
    assert!(is_relevant("NT_MSG.DB-WAL")); // case-insensitive
    assert!(!is_relevant("nt_uid_mapping.db"));
    assert!(!is_relevant("nt_msg_log.db"));
    assert!(!is_relevant("db_storage"));
    assert!(!is_relevant(""));
}

#[test]
fn watch_intervals() {
    let d = WatchConfig::default();
    assert_eq!((d.debounce, d.fallback), (350, None));
    assert_eq!(d.tick_interval(), REATTACH_INTERVAL_MS);
    let c = WatchConfig::from_millis(500, 30_000);
    assert_eq!((c.debounce, c.fallback), (500, Some(30_000)));
    assert_eq!(WatchConfig::from_millis(500, 0).fallback, None, "0 turns the fallback off");
}

#[test]
fn watcher_reactions() {
    let a = react(true, true, WatchEvent::Shutdown);
    assert!(a.stop && a.detach && !a.attach && !a.sync);
    let a = react(true, false, WatchEvent::Changed { backend_error: false });
    assert!(a.sync && !a.detach);
    let a = react(true, false, WatchEvent::Changed { backend_error: true });
    assert!(a.sync && a.detach, "the burst is not lost with the watcher");
    assert!(react(true, true, WatchEvent::BackendError).detach);
    let a = react(false, false, WatchEvent::Tick { changed: true });
    assert!(a.attach && !a.sync, "the watcher comes back, the poll is off");
    let a = react(true, true, WatchEvent::Tick { changed: true });
    assert!(a.sync && !a.attach);
}

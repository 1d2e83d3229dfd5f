//! Media registration, the cache fallback and export.

use qqflow_server::parser::proto::MediaSegment;
use qqflow_server::parser::types::{ChatType, MediaInfo, MessageRecord, MsgType, ParsedMessage};
use qqflow_server::server::handlers::media::{cached_file, exported_file, exported_segments, registered_entry,
    served_type};
use qqflow_server::server::handlers::media_content_type;
use qqflow_server::store::index::{apply_record, paths_to_inspect, paths_to_resolve, reapply_media_registration};
use qqflow_server::pathname::{extension, file_name_of, has_extension, name_extension, name_stem, replace_extension,
    PathStyle};
use qqflow_server::store::media::{alnum_lower, candidate_paths, fallback_candidate, local_path_target, media_root_of,
    resolve_local_path, scan_cache_index, stem_lower, CacheIndex, Disk, FileMeta, NodeKind, TopDir, TreeNode};
use std::path::Path;
use qqflow_server::store::media_export::{export_contained, export_file_name, export_media, export_page, kind_of, needs_copy, out,
    ExportContext, ExportOptions};
use qqflow_server::store::query::{fetchable_media_id, MessageOut};
use qqflow_server::store::Store;
use qqflow_server::sync::refresh_media_fallback;

fn strings(v: &[&str]) -> Vec<String> {
    v.iter().map(|s| s.to_string()).collect()
}

#[test]
fn media_root_of_derives_nt_data_sibling() {
    let dir = strings(&["tmp", "root", "335663881", "nt_qq", "nt_db"]);
    assert_eq!(media_root_of(&dir, 0), Some(strings(&["tmp", "root", "335663881", "nt_qq", "nt_data"])));
    assert_eq!(media_root_of(&Vec::new(), 0), None);
    assert_eq!(media_root_of(&strings(&["/"]), 1), None, "the root has no parent");
    assert_eq!(media_root_of(&strings(&["/", "db"]), 1), Some(strings(&["/", "nt_data"])));
    assert_eq!(media_root_of(&strings(&["C:", "\\"]), 2), None);
}

#[test]
fn resolve_relative_path_under_root_and_rejects_dotdot() {
    let root = strings(&["srv", "nt_data"]);
    let x = strings(&["srv", "nt_data", "Pic", "x.png"]);
    assert_eq!(local_path_target(false, &strings(&["Pic", "x.png"]), Some(&root)), Some(x.clone()));
    assert_eq!(resolve_local_path(Some(x.clone()), Some(&root)), Some(x.clone()));
    assert!(local_path_target(false, &strings(&["Pic", "..", "secret"]), Some(&root)).is_none(), ".. rejected");
    assert!(resolve_local_path(None, Some(&root)).is_none(), "missing file -> None");
    assert!(local_path_target(false, &strings(&["x"]), None).is_none());
    assert!(resolve_local_path(Some(x), None).is_none(), "no root: nothing resolves");
    let outside = strings(&["srv", "outside.jpg"]);
    assert_eq!(local_path_target(true, &outside, Some(&root)), Some(outside.clone()));
    assert!(resolve_local_path(Some(outside), Some(&root)).is_none());
}

fn file(top: &str, dir: &str, name: &str) -> TopDir {
    let path = format!("/nt/{top}/{dir}/{name}");
    let leaf = TreeNode { name: name.into(), path, kind: NodeKind::File, children: Vec::new() };
    let node = TreeNode {
        name: dir.into(),
        path: format!("/nt/{top}/{dir}"),
        kind: NodeKind::Dir,
        children: vec![leaf],
    };
    TopDir { name: top.into(), entries: vec![node] }
}

fn disk_with(files: &[(&str, i64, i64)]) -> Disk {
    let mut d = Disk::new();
    for (path, len, mtime) in files {
        d.files.insert(path.to_string(), FileMeta { len: *len, mtime: *mtime });
    }
    d
}

fn mk_media(md5: Option<&str>, name: Option<&str>, uuid: Option<&str>, size: Option<i64>) -> MediaInfo {
    MediaInfo::from(MediaSegment {
        md5_hex: md5.map(String::from),
        file_name: name.map(String::from),
        uuid: uuid.map(String::from),
        size,
        ..Default::default()
    })
}

#[test]
fn scan_indexes_whitelisted_dirs_only() {
    let dirs = vec![
        file("Pic", "2026-08", "aabbccddeeff00112233445566778899.jpg"),
        file("avatar", "a", "0123456789abcdef.png"),
        file("PhotoWall", "a", "x.png"),
    ];
    let ci = scan_cache_index(PathStyle::Unix, Some(&dirs)).expect("index built");
    let md5_paths = ci.by_stem.get("aabbccddeeff00112233445566778899").unwrap();
    assert!(
        md5_paths.iter().any(|p| p == "/nt/Pic/2026-08/aabbccddeeff00112233445566778899.jpg"),
        "Pic file indexed under its lowercased stem"
    );
    assert!(!ci.by_stem.contains_key("0123456789abcdef"), "avatar excluded from the media scan");
    assert!(!ci.by_stem.contains_key("x"), "PhotoWall excluded");
    assert!(scan_cache_index(PathStyle::Unix, None).is_none(), "no root: no index");
}

#[test]
fn scan_normalizes_uppercase_stems() {
    let dirs = vec![file("Pic", "2026-08", "AABBCCDDEEFF00112233445566778899.jpg")];
    let ci = scan_cache_index(PathStyle::Unix, Some(&dirs)).unwrap();
    assert_eq!(
        ci.by_stem.get("aabbccddeeff00112233445566778899").unwrap(),
        &vec!["/nt/Pic/2026-08/AABBCCDDEEFF00112233445566778899.jpg".to_string()]
    );
    assert!(
        ci.by_alnum.contains_key("aabbccddeeff00112233445566778899"),
        "alnum map mirrors the md5 stem"
    );
}

#[test]
fn scan_skips_links_and_deep_directories() {
    let link = TreeNode {
        name: "link.png".into(),
        path: "/nt/Pic/link.png".into(),
        kind: NodeKind::Symlink,
        children: Vec::new(),
    };
    let mut node = TreeNode {
        name: "deep.png".into(),
        path: "/nt/Pic/deep.png".into(),
        kind: NodeKind::File,
        children: Vec::new(),
    };
    for _ in 0..8 {
        node = TreeNode { name: "d".into(), path: "/nt/Pic/d".into(), kind: NodeKind::Dir, children: vec![node] };
    }
    let dirs = vec![TopDir { name: "Pic".into(), entries: vec![link, node] }];
    let ci = scan_cache_index(PathStyle::Unix, Some(&dirs)).unwrap();
    assert!(!ci.by_stem.contains_key("link"));
    assert!(!ci.by_stem.contains_key("deep"));
}

#[test]
fn fallback_md5_tier_matches_uppercase_file() {
    let dirs = vec![file("Pic", "2026-08", "AABBCCDDEEFF00112233445566778899.jpg")];
    let ci = scan_cache_index(PathStyle::Unix, Some(&dirs)).unwrap();
    let m = mk_media(Some("AABBCCDDEEFF00112233445566778899"), Some("other.png"), None, None);
    let disk = disk_with(&[("/nt/Pic/2026-08/AABBCCDDEEFF00112233445566778899.jpg", 1, 1)]);
    let p = fallback_candidate(&ci, &m, m.key().unwrap(), MsgType::Image, &disk).expect("rescued by md5 tier");
    assert_eq!(file_name_of(PathStyle::Unix, &p), "AABBCCDDEEFF00112233445566778899.jpg");
    assert_eq!(candidate_paths(&ci, &m, m.key().unwrap()), vec![p]);
}

#[test]
fn fallback_file_name_md5_tier_when_45424_differs() {
    let dirs = vec![file("Pic", "2026-08", "ffffffffffffffffffffffffffffffff.png")];
    let ci = scan_cache_index(PathStyle::Unix, Some(&dirs)).unwrap();
    let m = mk_media(
        Some("aabbccddeeff00112233445566778899"),
        Some("FFFFFFFFFFFFFFFFFFFFFFFFFFFFFFFF.png"),
        None,
        None,
    );
    let key = m.key().unwrap().to_string();
    assert_eq!(key, "aabbccddeeff00112233445566778899", "45424 wins the key");
    let disk = disk_with(&[("/nt/Pic/2026-08/ffffffffffffffffffffffffffffffff.png", 1, 1)]);
    let p = fallback_candidate(&ci, &m, &key, MsgType::Image, &disk).expect("file-name md5 tier");
    assert_eq!(file_name_of(PathStyle::Unix, &p), "ffffffffffffffffffffffffffffffff.png");
}

#[test]
fn fallback_no_match_and_uuid_letter_guard() {
    let dirs = vec![file("Emoji", "emoji-recv", "1234567890.png")];
    let ci = scan_cache_index(PathStyle::Unix, Some(&dirs)).unwrap();
    let disk = disk_with(&[("/nt/Emoji/emoji-recv/1234567890.png", 1, 1)]);
    // Digit-only uuid (emoji-package id) must never match a file.
    let m = mk_media(None, Some("x.png"), Some("1234567890"), None);
    assert!(fallback_candidate(&ci, &m, m.key().unwrap(), MsgType::Image, &disk).is_none());
    // Unrelated md5: no file anywhere -> None.
    let m = mk_media(Some("deadbeefdeadbeefdeadbeefdeadbeef"), Some("photo.png"), None, None);
    assert!(fallback_candidate(&ci, &m, m.key().unwrap(), MsgType::Image, &disk).is_none());
}

#[test]
fn fallback_skips_vanished_files() {
    let dirs = vec![file("Pic", "2026-08", "aabbccddeeff00112233445566778899.jpg")];
    let ci = scan_cache_index(PathStyle::Unix, Some(&dirs)).unwrap();
    let m = mk_media(Some("aabbccddeeff00112233445566778899"), None, None, None);
    assert!(
        fallback_candidate(&ci, &m, m.key().unwrap(), MsgType::Image, &Disk::new()).is_none(),
        "vanished file is never registered"
    );
}

#[test]
fn fallback_prefers_exact_size_then_family_ext() {
    let dirs = vec![
        file("Pic", "2025-01", "aabbccddeeff00112233445566778899.jpg"),
        file("Emoji", "2026-08", "aabbccddeeff00112233445566778899.png"),
    ];
    let ci = scan_cache_index(PathStyle::Unix, Some(&dirs)).unwrap();
    let disk = disk_with(&[
        ("/nt/Pic/2025-01/aabbccddeeff00112233445566778899.jpg", 100, 1),
        ("/nt/Emoji/2026-08/aabbccddeeff00112233445566778899.png", 12345, 1),
    ]);
    let m = mk_media(Some("aabbccddeeff00112233445566778899"), None, None, Some(12345));
    let p = fallback_candidate(&ci, &m, m.key().unwrap(), MsgType::Image, &disk).expect("rescued");
    assert_eq!(file_name_of(PathStyle::Unix, &p), "aabbccddeeff00112233445566778899.png");
}

fn two_files() -> (CacheIndex, MediaInfo) {
    let dirs = vec![
        file("Pic", "a", "aabbccddeeff00112233445566778899.jpg"),
        file("Video", "b", "aabbccddeeff00112233445566778899.mp4"),
    ];
    let ci = scan_cache_index(PathStyle::Unix, Some(&dirs)).unwrap();
    (ci, mk_media(Some("aabbccddeeff00112233445566778899"), None, None, None))
}

#[test]
fn candidates_rank_by_family_then_time() {
    let (ci, m) = two_files();
    let (jpg, mp4) = (
        "/nt/Pic/a/aabbccddeeff00112233445566778899.jpg",
        "/nt/Video/b/aabbccddeeff00112233445566778899.mp4",
    );
    let disk = disk_with(&[(jpg, 1, 1), (mp4, 1, 9)]);
    let pick = |t: MsgType| fallback_candidate(&ci, &m, m.key().unwrap(), t, &disk).unwrap();
    assert_eq!(pick(MsgType::Image), jpg, "the image keeps to image files");
    assert_eq!(pick(MsgType::Video), mp4);
    assert_eq!(pick(MsgType::Voice), mp4, "no family fits: the newer file");
}

#[test]
fn path_parts() {
    let unix = PathStyle::Unix;
    let windows = PathStyle::Windows;
    assert_eq!(file_name_of(windows, "C:\\a\\b/c.TXT"), "c.TXT");
    assert_eq!(file_name_of(unix, "C:\\a\\b/c\\d.TXT"), "c\\d.TXT", "a backslash is a character like others");
    assert_eq!(stem_lower(unix, "a\\B.png"), "a\\b");
    assert_eq!(stem_lower(windows, "a\\B.png"), "b");
    assert_eq!(extension(unix, "/x/a.db\\"), "db\\");
    assert_eq!(extension(unix, "/x/y.tar.gz"), "gz");
    assert_eq!(extension(unix, "/x/.hidden"), "");
    assert_eq!(stem_lower(unix, "Ab.C.png"), "ab.c");
    // Trailing slashes and `.` components do not count.
    assert_eq!(stem_lower(unix, "abc/"), "abc");
    assert_eq!(stem_lower(unix, "x/abc.png/./"), "abc");
    assert_eq!(extension(unix, "/x/y.png//"), "png");
    assert_eq!(file_name_of(unix, "/x/y.png/."), "y.png");
    assert_eq!(stem_lower(unix, "a/.."), "");
    for none in [".", "./.", "/", "", "/."] {
        assert_eq!(stem_lower(unix, none), "", "{none:?}");
    }
    assert_eq!(served_type(unix, Some("a.jpg/"), "/x/y.png"), "image/jpeg");
    assert_eq!(replace_extension(unix, "/x/a.b/", "c"), "/x/a.c");
    assert_eq!(replace_extension(unix, "/x/a", "c"), "/x/a.c");
    assert_eq!(replace_extension(unix, "/x/.hidden", "c"), "/x/.hidden.c");
    assert_eq!(replace_extension(unix, "/x/..", "c"), "/x/..");
    assert_eq!(alnum_lower("{R0-2_é}"), "r02");
    assert_eq!((name_stem("a.b.c"), name_extension("a.b.c")), ("a.b".to_string(), "c".to_string()));
    assert!(has_extension("a.") && !has_extension(".a"));
}

#[test]
fn path_parts_are_those_of_this_system() {
    let here = if std::path::MAIN_SEPARATOR == '/' { PathStyle::Unix } else { PathStyle::Windows };
    let samples = [
        "", "/", ".", "..", "a", "a.b", ".a", "a.", "a..b", "/a/b.c", "a/b.c/", "a/b.c/.", "a/./", "./a", "a/..",
        "a\\b.c", "a\\", "\\", "C:a.b", "C:\\x\\y.z", "\\\\?\\C:\\a/b.c", "\\\\s\\t", "x//y.z///", "...", "a/...", "中/文.档",
    ];
    for s in samples {
        let p = Path::new(s);
        if let Some(name) = p.file_name() {
            assert_eq!(file_name_of(here, s), name.to_str().unwrap(), "{s:?}");
        }
        let ext = p.extension().and_then(|x| x.to_str()).unwrap_or_default();
        assert_eq!(extension(here, s), ext, "{s:?}");
        let stem = p.file_stem().and_then(|x| x.to_str()).unwrap_or_default();
        assert_eq!(stem_lower(here, s), stem.to_ascii_lowercase(), "{s:?}");
        assert_eq!(replace_extension(here, s, "db-wal"), p.with_extension("db-wal").to_str().unwrap(), "{s:?}");
    }
}

#[test]
fn windows_prefixes_are_no_file_names() {
    let w = PathStyle::Windows;
    let name = |s: &str| file_name_of(w, s);
    assert_eq!(name("C:a.png"), "a.png");
    assert_eq!(name("C:"), "");
    assert_eq!(name("\\\\server\\share"), "");
    assert_eq!(name("\\\\server\\share\\x.png"), "x.png");
    assert_eq!(name("\\\\.\\COM1"), "");
    assert_eq!(name("\\\\?\\C:\\d\\e/f.png"), "e/f.png", "nothing but a backslash parts a verbatim path");
    assert_eq!(name("\\\\?\\C:"), "");
    assert_eq!(name("\\\\?\\UNC\\s\\t\\u.v"), "u.v");
    assert_eq!(name("\\\\?\\UNC\\s\\t"), "");
    assert_eq!(stem_lower(w, "\\\\?\\C:\\d\\."), "");
}

fn media(md5: &str, name: Option<&str>) -> MediaInfo {
    mk_media(Some(md5), name, None, None)
}

#[test]
fn file_name_fallback_and_safety() {
    let safe = "/srv/names/aabb.png";
    let m = media("aabbccddeeff00112233445566778899", Some("aabb.png"));
    assert_eq!(
        export_file_name(PathStyle::Unix, &m, safe),
        "aabbccddeeff00112233445566778899.png",
        "md5 key preferred over QQ's arbitrary file name (collision-safe)"
    );
    let m = media("aabbccddeeff00112233445566778899", Some("a/../evil.png"));
    assert_eq!(export_file_name(PathStyle::Unix, &m, safe), "aabbccddeeff00112233445566778899.png", "separator/.. rejected -> key.ext");
    let m = media("aabbccddeeff00112233445566778899", Some("..\\evil"));
    assert_eq!(export_file_name(PathStyle::Unix, &m, safe), "aabbccddeeff00112233445566778899.png", "backslash rejected");
    let m = media("aabbccddeeff00112233445566778899", Some("中文名字.png"));
    assert_eq!(export_file_name(PathStyle::Unix, &m, safe), "aabbccddeeff00112233445566778899.png", "non-url-safe name rejected");
    let m = media("", Some(""));
    assert_eq!(export_file_name(PathStyle::Unix, &m, safe), "aabb.png", "no key/name -> source file name");
    // No md5/uuid at all: QQ's bare URL-safe name is kept.
    let m = media("", Some("photo.png"));
    assert_eq!(export_file_name(PathStyle::Unix, &m, safe), "photo.png", "raw name kept only without a key");
    let m = media("", None);
    assert_eq!(export_file_name(PathStyle::Unix, &m, "/srv/名.png"), "media");
    let m = media("aabbccddeeff00112233445566778899", None);
    assert_eq!(export_file_name(PathStyle::Unix, &m, "/srv/x.longextension"), "aabbccddeeff00112233445566778899");
}

fn context(talker: &str) -> ExportContext {
    ExportContext { root: "/srv/out".into(), base_url: "http://127.0.0.1:5032".into(), talker: talker.into(), style: PathStyle::Unix }
}

#[test]
fn export_copies_and_is_idempotent() {
    let ctx = context("10001");
    let m = media("aabbccddeeff00112233445566778899", Some("aabb.png"));
    let plan = export_media(&ctx, &m, true, Some("/srv/nt_data/aabb.png"), None).expect("export");
    assert_eq!(plan.file_name, "aabbccddeeff00112233445566778899.png");
    assert_eq!(plan.source, "/srv/nt_data/aabb.png");
    let e = out(&ctx, "images", &plan.file_name, "/srv/out/10001/images/x.png");
    assert_eq!(
        e.url,
        "http://127.0.0.1:5032/api/v1/media/10001/images/aabbccddeeff00112233445566778899.png"
    );
    assert_eq!(e.local_path, "/srv/out/10001/images/x.png");
    assert!(needs_copy(None, Some(16)));
    assert!(!needs_copy(Some(16), Some(16)), "same size: skip");
    assert!(needs_copy(Some(16), Some(17)));
    // Same QQ file name, different md5: a file of its own.
    let m2 = media("ffeeddccbbaa99887766554433221100", Some("aabb.png"));
    let plan2 = export_media(&ctx, &m2, true, Some("/srv/nt_data/b.png"), None).expect("export2");
    assert_eq!(plan2.file_name, "ffeeddccbbaa99887766554433221100.png");
}

#[test]
fn export_omits_missing_source_and_disabled_kind() {
    let ctx = context("10001");
    let m = media("aabbccddeeff00112233445566778899", Some("gone.png"));
    assert!(export_media(&ctx, &m, true, None, None).is_none(), "missing source -> None");
    assert!(export_media(&ctx, &m, false, Some("/srv/x.png"), None).is_none(), "disabled kind -> None");
    let plan = export_media(&ctx, &m, true, None, Some("/srv/fallback.jpg")).expect("fallback source exports");
    assert_eq!(plan.source, "/srv/fallback.jpg");
    let plan = export_media(&ctx, &m, true, Some("/srv/own.jpg"), Some("/srv/fallback.jpg")).unwrap();
    assert_eq!(plan.source, "/srv/own.jpg", "the row's own source goes first");
}

#[test]
fn export_rejects_traversal_talker() {
    let m = media("aabbccddeeff00112233445566778899", Some("aabb.png"));
    for talker in ["..", "../../pwned", r"..\..\pwned", "a:b", "10001.", "", "."] {
        let ctx = context(talker);
        assert!(
            export_media(&ctx, &m, true, Some("/srv/nt_data/aabb.png"), None).is_none(),
            "talker {talker:?} must not export"
        );
    }
    assert!(export_media(&context("10001"), &m, true, Some("/srv/nt_data/aabb.png"), None).is_some());
}

#[test]
fn exports_come_from_below_the_media_root() {
    let ctx = context("10001");
    let m = media("aabbccddeeff00112233445566778899", Some("aabb.png"));
    let root = strings(&["srv", "nt_data"]);
    let own = strings(&["srv", "nt_data", "aabb.png"]);
    let registered = strings(&["srv", "nt_data", "fallback.jpg"]);
    let outside = strings(&["srv", "outside.jpg"]);
    let plan = export_contained(&ctx, &m, true, Some(own.clone()), Some(registered.clone()), Some(&root)).unwrap();
    assert_eq!((plan.source, plan.file_name.as_str()), (own.clone(), "aabbccddeeff00112233445566778899.png"));
    let plan = export_contained(&ctx, &m, true, Some(outside.clone()), Some(registered.clone()), Some(&root)).unwrap();
    assert_eq!((plan.source, plan.file_name.as_str()), (registered, "aabbccddeeff00112233445566778899.jpg"));
    assert!(
        export_contained(&ctx, &m, true, None, Some(outside), Some(&root)).is_none(),
        "source outside media_root must not export"
    );
    assert!(export_contained(&ctx, &m, true, Some(own.clone()), None, None).is_none(), "no root: nothing");
    assert!(export_contained(&ctx, &m, false, Some(own), None, Some(&root)).is_none(), "disabled kind");
    assert!(export_contained(&ctx, &m, true, None, None, Some(&root)).is_none(), "missing source");
}

fn media_record(rowid: i64, msg_type: MsgType, m: MediaInfo) -> MessageRecord {
    let mut parsed = ParsedMessage::simple(msg_type, "[image]");
    parsed.media = Some(m);
    MessageRecord {
        rowid,
        seq: rowid,
        ts: rowid,
        chat_type: ChatType::Group,
        talker: "10001".into(),
        from_uid: "u_a".into(),
        from_nick: "张三".into(),
        card: None,
        direction: None,
        parsed,
    }
}

#[test]
fn pages_report_their_exports() {
    let opts = ExportOptions { image: true, voice: false, video: true, emoji: true };
    assert_eq!(kind_of(&Some("voice".into()), &opts), Some(("voices", false)));
    assert_eq!(kind_of(&Some("text".into()), &opts), None);
    let m = media("aabbccddeeff00112233445566778899", None);
    let rows: Vec<MessageOut> = [MsgType::Image, MsgType::Voice, MsgType::Video]
        .iter()
        .map(|t| MessageOut::from_record(&media_record(1, *t, m.clone())))
        .collect();
    let ctx = context("10001");
    let export = || Some(out(&ctx, "images", "a.png", "/srv/a.png"));
    let (rows, n) = export_page(&opts, rows, vec![export(), export(), None]);
    assert_eq!(n, 1);
    assert_eq!(rows[0].media_file_name.as_deref(), Some("a.png"));
    assert_eq!(rows[0].media_local_path.as_deref(), Some("/srv/a.png"));
    assert_eq!(rows[1].media_url, None, "a switched-off kind reports nothing");
    assert_eq!(rows[2].media_url, None);
}

#[test]
fn media_registers_by_own_path_then_by_fallback() {
    let md5 = "aabbccddeeff00112233445566778899";
    let mut m = media(md5, Some("a.jpg"));
    m.local_path = Some("Pic/a.jpg".into());
    let mut store = Store::default();
    assert_eq!(fetchable_media_id(&store, &m), None);
    assert_eq!(paths_to_resolve(&store, &m), vec!["Pic/a.jpg".to_string()]);

    apply_record(&mut store, media_record(1, MsgType::Image, m.clone()), &Disk::new());
    assert!(store.media.is_empty(), "a dead path registers nothing");

    let mut disk = Disk::new();
    disk.resolving.insert("Pic/a.jpg".into(), true);
    apply_record(&mut store, media_record(2, MsgType::Image, m.clone()), &disk);
    assert_eq!(store.media.get(md5).unwrap().local_path, "Pic/a.jpg");
    assert_eq!(fetchable_media_id(&store, &m), Some(md5.to_string()));

    // A live entry is never replaced; a dead one is refreshed by a later live path.
    let (ci, _) = two_files();
    let jpg = "/nt/Pic/a/aabbccddeeff00112233445566778899.jpg";
    store.media_fallback = Some(ci);
    let mut moved = m.clone();
    moved.local_path = Some("Pic/b.jpg".into());
    let mut both = Disk::new();
    both.resolving.insert("Pic/a.jpg".into(), true);
    both.resolving.insert("Pic/b.jpg".into(), true);
    apply_record(&mut store, media_record(3, MsgType::Image, moved.clone()), &both);
    assert_eq!(store.media.get(md5).unwrap().local_path, "Pic/a.jpg");
    assert!(paths_to_inspect(&store, &moved).contains(&jpg.to_string()));
    apply_record(&mut store, media_record(4, MsgType::Image, moved), &disk_with(&[(jpg, 1, 1)]));
    assert_eq!(store.media.get(md5).unwrap().local_path, jpg, "the cache index rescues dead media");
}

#[test]
fn unregistered_media_gets_a_second_chance() {
    let md5 = "aabbccddeeff00112233445566778899";
    let jpg = "/nt/Pic/a/aabbccddeeff00112233445566778899.jpg";
    let mut store = Store::default();
    apply_record(&mut store, media_record(1, MsgType::Image, media(md5, None)), &Disk::new());
    assert!(store.media.is_empty());
    store.media_fallback = Some(two_files().0);
    reapply_media_registration(&mut store, &disk_with(&[(jpg, 1, 1)]));
    assert_eq!(store.media.get(md5).unwrap().local_path, jpg);
    reapply_media_registration(&mut store, &Disk::new());
    assert_eq!(store.media.get(md5).unwrap().local_path, jpg, "registered keys stay");

    let mut store = Store::default();
    apply_record(&mut store, media_record(1, MsgType::Image, media(md5, None)), &Disk::new());
    refresh_media_fallback(&mut store, Some(two_files().0), &disk_with(&[(jpg, 1, 1)]));
    assert_eq!(store.media.get(md5).unwrap().local_path, jpg, "a fresh snapshot rescues it too");
}

#[test]
fn files_are_served_from_below_their_root() {
    let root = strings(&["srv", "out"]);
    let inside = strings(&["srv", "out", "10001", "images", "a.png"]);
    let outside = strings(&["srv", "secret.png"]);
    assert_eq!(exported_file(Some(inside.clone()), Some(&root)).unwrap(), inside);
    let message = |r: Result<Vec<String>, qqflow_server::server::error::ApiError>| {
        let e = r.unwrap_err();
        (e.code, e.message)
    };
    assert_eq!(message(exported_file(Some(outside.clone()), Some(&root))), (404, "媒体不存在".to_string()));
    assert_eq!(message(exported_file(Some(inside.clone()), None)), (404, "媒体导出目录不存在".to_string()));
    assert_eq!(
        message(exported_file(None, Some(&root))),
        (404, "本地缓存已清理，媒体文件不存在".to_string())
    );
    assert_eq!(cached_file(Some(inside.clone()), Some(&root)).unwrap(), inside);
    assert_eq!(message(cached_file(Some(outside), Some(&root))).0, 404);
    assert_eq!(message(cached_file(None, Some(&root))).0, 404);
}

#[test]
fn entries_are_served_by_key() {
    let md5 = "aabbccddeeff00112233445566778899";
    let mut m = media(md5, Some("a.JPG"));
    m.local_path = Some("Pic/a.jpg".into());
    let mut disk = Disk::new();
    disk.resolving.insert("Pic/a.jpg".into(), true);
    let mut store = Store::default();
    apply_record(&mut store, media_record(1, MsgType::Image, m), &disk);
    assert!(registered_entry(&store, md5).is_ok());
    let err = registered_entry(&store, "deadbeef").unwrap_err();
    assert_eq!((err.code, err.message.as_str()), (404, "媒体不存在"));
    assert_eq!(media_content_type("jpg"), "image/jpeg");
    assert_eq!(media_content_type("xyz"), "application/octet-stream");
    assert!(exported_segments("10001", "images", "a.png").is_ok());
    assert!(exported_segments("10001", "secrets", "a.png").is_err());
    assert!(exported_segments("..", "images", "a.png").is_err());
    assert!(exported_segments("10001", "images", "..\\a.png").is_err());
    assert_eq!(served_type(PathStyle::Unix, Some("a.JPG"), "/x/y.png"), "image/jpeg");
}

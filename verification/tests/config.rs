//! Arguments, token, keys and path components.

use qqflow_server::cli::Args;
use qqflow_server::config::{constant_time_eq, help, hex_encode, new_token, parse_args, shown_token, token_plan,
    StoredToken, TokenPlan};
use qqflow_server::keystore::{validate_key, KeyError};
use qqflow_server::pathsafe::{is_contained, is_contained_resolved, safe_segment, MAX_SEGMENT};

fn strings(v: &[&str]) -> Vec<String> {
    v.iter().map(|s| s.to_string()).collect()
}

#[test]
fn defaults_with_no_args() {
    let cfg = parse_args(vec![]).unwrap().expect("config");
    assert_eq!(cfg.port, 5032);
    assert_eq!(cfg.host, "127.0.0.1");
    assert_eq!(cfg.log, "info");
    assert_eq!(cfg.watch_debounce_ms, 350);
    assert_eq!(cfg.watch_fallback_ms, 30_000);
}

#[test]
fn flags_override_defaults() {
    let cfg = parse_args(strings(&[
        "--port", "5999", "--host", "0.0.0.0", "--log", "debug", "--watch-debounce-ms", "500",
        "--watch-fallback-ms", "0",
    ]))
    .unwrap()
    .expect("config");
    assert_eq!(cfg.port, 5999);
    assert_eq!(cfg.host, "0.0.0.0");
    assert_eq!(cfg.log, "debug");
    assert_eq!(cfg.watch_debounce_ms, 500);
    assert_eq!(cfg.watch_fallback_ms, 0);
}

#[test]
fn show_token_switch_parses_without_value() {
    let cfg = parse_args(strings(&["--show-token"])).unwrap().expect("config");
    assert!(cfg.show_token, "--show-token must set the flag");
    let cfg = parse_args(vec![]).unwrap().expect("config");
    assert!(!cfg.show_token);
}

#[test]
fn help_prints_and_returns_none_without_exiting() {
    assert!(parse_args(strings(&["--help"])).unwrap().is_none(), "--help must not start the server");
    assert!(parse_args(strings(&["--port", "1", "-h", "--nope"])).unwrap().is_none());
}

#[test]
fn invalid_values_rejected() {
    assert!(parse_args(strings(&["--port", "abc"])).is_err());
    assert!(parse_args(strings(&["--port", "65536"])).is_err());
    assert!(parse_args(strings(&["--log", "verbose"])).is_err());
    let err = parse_args(strings(&["--nope", "1"])).unwrap_err();
    assert!(err.message().contains("未知参数"));
    assert!(parse_args(strings(&["--port"])).is_err(), "missing value must be an error");
}

#[test]
fn every_argument_error_has_its_message() {
    let message = |v: &[&str]| parse_args(strings(v)).unwrap_err().message();
    assert_eq!(message(&["--host"]), format!("参数 --host 缺少值\n{}", help()));
    assert_eq!(message(&["--port", "-1"]), "--port 需为 0-65535 的整数: -1");
    assert_eq!(message(&["--log", "x"]), "--log 需为 error|warn|info|debug: x");
    assert_eq!(message(&["--watch-debounce-ms", "x"]), "--watch-debounce-ms 需为非负整数: x");
    assert_eq!(message(&["--watch-fallback-ms", ""]), "--watch-fallback-ms 需为非负整数: ");
    assert_eq!(message(&["--nope", "1"]), format!("未知参数: --nope\n{}", help()));
    assert!(help().contains("\n--show-token              打印已存的 API token 并退出\n"));
    let cfg = parse_args(strings(&["--media-export-dir", "/m", "--base-url", "http://h"])).unwrap().unwrap();
    assert_eq!(cfg.media_export_dir.as_deref(), Some("/m"));
    assert_eq!(cfg.base_url.as_deref(), Some("http://h"));
}

#[test]
fn option_defaults() {
    let a = Args::default();
    assert_eq!((a.port, a.poll_interval, a.log.as_str()), (5031, 1500, "info"));
}

#[test]
fn token_is_hexadecimal_and_compared_whole() {
    let a = new_token();
    let b = new_token();
    assert_eq!(a.len(), 64);
    assert!(a.chars().all(|c| c.is_ascii_hexdigit() && !c.is_ascii_uppercase()));
    assert_ne!(a, b, "random bytes are filled in");
    assert!(constant_time_eq(&a, &a.clone()));
    assert!(!constant_time_eq(&a, &b));
    assert!(!constant_time_eq("abc", "abcd"));
    assert!(!constant_time_eq("abc", "abd"));
    assert!(constant_time_eq("", ""));
    assert_eq!(hex_encode(&[0, 255, 16, 9]), "00ff1009");
}

#[test]
fn stored_token_is_used_and_missing_ones_are_created() {
    assert!(matches!(token_plan(StoredToken::Found("t".into())), TokenPlan::Use(t) if t == "t"));
    assert!(matches!(token_plan(StoredToken::Found(String::new())), TokenPlan::CreateAndStore));
    assert!(matches!(token_plan(StoredToken::Missing), TokenPlan::CreateAndStore));
    assert!(matches!(token_plan(StoredToken::Unavailable), TokenPlan::CreateForSession));
    assert_eq!(shown_token(StoredToken::Found("t".into())), Ok(Some("t".to_string())));
    assert_eq!(shown_token(StoredToken::Found(String::new())), Ok(None));
    assert_eq!(shown_token(StoredToken::Missing), Ok(None));
    assert_eq!(shown_token(StoredToken::Unavailable), Err(()));
}

#[test]
fn key_validation() {
    assert!(validate_key("1234567890abcdef").is_ok());
    assert!(validate_key("123").is_err());
    assert!(validate_key("1234567890123456").is_ok());
    assert!(validate_key("123456789012345\u{1}").is_err());
}

#[test]
fn key_errors_tell_why() {
    assert_eq!(validate_key("123"), Err(KeyError::Length(3)));
    assert_eq!(validate_key("12345678901234é"), Err(KeyError::NotPrintable));
    assert_eq!(validate_key("123456789012345é"), Err(KeyError::Length(17)));
}

#[test]
fn segment_rejects_traversal_and_windows_quirks() {
    assert!(safe_segment("aabbccddeeff00112233445566778899.jpg"));
    assert!(safe_segment("10001"), "a QQ number is one segment");
    assert!(safe_segment("12345678@chatroom"));
    assert!(safe_segment("中文名字.png"), "non-ascii is fine, it carries no separator");

    assert!(!safe_segment(""));
    assert!(!safe_segment("."));
    assert!(!safe_segment(".."));
    assert!(!safe_segment("../evil"));
    assert!(!safe_segment("..\\evil"));
    assert!(!safe_segment("a/b"));
    assert!(!safe_segment("a\\b"));

    assert!(!safe_segment("q-.."), "trailing dots make this a level move");
    assert!(!safe_segment("evil."));
    assert!(!safe_segment("evil "));
    assert!(!safe_segment("..."), "resolves to the directory itself");

    assert!(!safe_segment("name.jpg:hidden"));
    assert!(!safe_segment("C:"));
    assert!(!safe_segment("::NTOSFull::D:\\x.jpg"), "QQ's own marker is not a segment");

    assert!(!safe_segment("evil\0.jpg"));
    assert!(!safe_segment("evil\n.jpg"));

    assert!(!safe_segment(&"a".repeat(MAX_SEGMENT + 1)));
    assert!(safe_segment(&"a".repeat(MAX_SEGMENT)));
}

#[test]
fn containment_compares_whole_components_and_fails_closed() {
    let root = strings(&["srv", "exports"]);
    let inside = strings(&["srv", "exports", "10001", "images"]);
    let beside = strings(&["srv", "exports2"]);
    assert!(is_contained(Some(&root), Some(&inside)));
    assert!(is_contained(Some(&root), Some(&root)));
    assert!(!is_contained(Some(&root), Some(&beside)));
    assert!(!is_contained(None, Some(&inside)));
    assert!(!is_contained(Some(&root), None));
    assert!(is_contained_resolved(Some(&root), &inside));
    assert!(!is_contained_resolved(Some(&inside), &root));
    assert!(!is_contained_resolved(None, &inside));
}

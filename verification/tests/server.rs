//! Accounts, authorisation, health and event history.

use qqflow_server::db::scan::DbInfo;
use qqflow_server::parser::types::ChatType;
use qqflow_server::server::auth::from_headers;
use qqflow_server::server::error::gate;
use qqflow_server::server::handlers::accounts::{account_details, deregister, finish_build, purge_targets, register,
    required, BuildResult, DeregisterState, Params, RegisterState};
use qqflow_server::server::handlers::health;
use qqflow_server::server::handlers::push_events::{last_event_id, live, opening, FrameData};
use qqflow_server::server::handlers::{authorized, merge_body, sync};
use qqflow_server::server::{awaiting_accounts, begin_indexing, bound_account, derive_base_url, ready_account, set_account_state,
    update_ready, AccountPhase, AccountRegistry, AccountState, AccountStatus, HistoryBuf, HISTORY_MAX, HISTORY_TTL_MS};
use qqflow_server::store::{conv_key, Conversation, Store};
use qqflow_server::strmap::StrMap;

const TOKEN: &str = "test-token-123456";
const KEY: &str = "0123456789abcdef";

fn account(qq: &str, state: AccountStatus, message_count: usize, error: Option<&str>) -> AccountState {
    AccountState { qq: qq.into(), state, message_count, error: error.map(String::from) }
}

fn db(qq: &str, path: &str) -> DbInfo {
    DbInfo { qq: qq.into(), path: path.into() }
}

#[test]
fn bearer_header_is_extracted() {
    assert_eq!(from_headers(Some("Bearer abc123"), None).as_deref(), Some("abc123"));
}

#[test]
fn x_api_key_header_is_extracted() {
    assert_eq!(from_headers(None, Some("abc123")).as_deref(), Some("abc123"));
}

#[test]
fn bearer_wins_when_both_headers_are_present() {
    assert_eq!(from_headers(Some("Bearer from-bearer"), Some("from-key")).as_deref(), Some("from-bearer"));
}

#[test]
fn non_bearer_authorization_falls_through_to_x_api_key() {
    // A Basic-auth header must not shadow a valid X-Api-Key.
    assert_eq!(from_headers(Some("Basic dXNlcjpwdw=="), Some("abc123")).as_deref(), Some("abc123"));
}

#[test]
fn missing_and_empty_headers_yield_none() {
    assert_eq!(from_headers(None, None), None);
    assert_eq!(from_headers(None, Some("   ")), None);
    assert_eq!(from_headers(Some("Bearer"), None), None);
}

#[test]
fn every_auth_transport_is_accepted() {
    assert!(authorized(TOKEN, Some("Bearer test-token-123456"), None, None));
    assert!(authorized(TOKEN, None, Some(TOKEN), None));
    assert!(authorized(TOKEN, None, None, Some(TOKEN)));
    assert!(authorized(TOKEN, Some("Bearer wrong"), None, Some(TOKEN)));
    assert!(!authorized(TOKEN, None, None, None));
    assert!(!authorized(TOKEN, None, None, Some("wrong")));
    assert!(!authorized(TOKEN, None, Some("wrong"), None));
}

#[test]
fn requests_are_gated_by_token_then_readiness() {
    assert_eq!(gate(false, true).unwrap_err().code, 401);
    assert_eq!(gate(false, false).unwrap_err().code, 401);
    assert_eq!(gate(true, false).unwrap_err().code, 503);
    assert!(gate(true, true).is_ok());
}

#[test]
fn update_ready_requires_all_registered_accounts_ready() {
    let mut accounts = vec![account("10001", AccountStatus::AwaitingKey, 0, None)];
    assert!(!update_ready(&accounts), "a scan result with no key registered is not readiness");
    set_account_state(&mut accounts, "10001", AccountStatus::Indexing, 0, None);
    assert!(!update_ready(&accounts), "still indexing");
    set_account_state(&mut accounts, "10001", AccountStatus::Ready, 7, None);
    assert!(update_ready(&accounts), "all registered ready flips the flag");
}

#[test]
fn update_ready_ignores_unregistered_accounts() {
    let mut accounts = vec![
        account("10001", AccountStatus::Ready, 0, None),
        account("10002", AccountStatus::AwaitingKey, 0, None),
    ];
    assert!(update_ready(&accounts), "an unregistered second account must not gate readiness");

    // But a registered one that failed still does.
    set_account_state(&mut accounts, "10002", AccountStatus::Error, 0, Some("bad key".into()));
    assert!(!update_ready(&accounts), "a registered account in error gates readiness");
}

#[test]
fn base_url_derivation() {
    assert_eq!(derive_base_url("127.0.0.1", 5032, None), "http://127.0.0.1:5032");
    // Bind-all addresses are not reachable as URLs -> 127.0.0.1.
    assert_eq!(derive_base_url("0.0.0.0", 5032, None), "http://127.0.0.1:5032");
    assert_eq!(derive_base_url("::", 5032, None), "http://127.0.0.1:5032");
    // IPv6 hosts get brackets.
    assert_eq!(derive_base_url("::1", 5032, None), "http://[::1]:5032");
    // --base-url overrides everything verbatim.
    assert_eq!(
        derive_base_url("0.0.0.0", 5032, Some("http://192.168.1.10:5032")),
        "http://192.168.1.10:5032"
    );
}

#[test]
fn begin_indexing_flips_once_and_guards_duplicates() {
    let mut accounts = vec![account("10001", AccountStatus::AwaitingKey, 0, None)];
    assert_eq!(begin_indexing(&mut accounts, "10001"), None, "first registration proceeds");
    assert_eq!(
        begin_indexing(&mut accounts, "10001"),
        Some(AccountStatus::Indexing),
        "duplicate registration observes indexing"
    );
    set_account_state(&mut accounts, "10001", AccountStatus::Ready, 7, None);
    assert_eq!(
        begin_indexing(&mut accounts, "10001"),
        Some(AccountStatus::Ready),
        "ready accounts stay ready"
    );
}

#[test]
fn health_discloses_no_account_detail() {
    let accounts = vec![
        account("10001", AccountStatus::Ready, 4242, None),
        account("20002", AccountStatus::AwaitingKey, 0, None),
    ];
    let h = health::handle(&accounts, true);
    assert_eq!((h.status, h.account.as_str()), ("ok", "ready"));
    let h = health::handle(&Vec::new(), false);
    assert_eq!((h.status, h.account.as_str()), ("starting", "unregistered"));
    assert_eq!(AccountPhase::from(AccountStatus::AwaitingKey), AccountPhase::Unregistered);

    let mut reg = AccountRegistry::new(Vec::new());
    reg.upsert_db(db("10001", "C:\\secret\\path\\nt_msg.db"));
    let details = account_details(&accounts, &reg);
    assert_eq!(details.len(), 2);
    assert_eq!((details[0].account.qq.as_str(), details[0].account.message_count), ("10001", 4242));
    assert_eq!(details[0].db_path.as_deref(), Some("C:\\secret\\path\\nt_msg.db"));
    assert_eq!(details[1].account.state, AccountStatus::AwaitingKey);
    assert!(details[1].db_path.is_none(), "no registry entry -> no path");
    assert_eq!(ready_account(&accounts), "10001");
}

#[test]
fn accounts_validation_rejects_bad_input() {
    let mut accounts = Vec::new();
    let mut reg = AccountRegistry::new(Vec::new());
    reg.upsert_db(db("10002", "/tmp/qqflow_smoke_10002.db"));

    let r = register(&mut accounts, &mut reg, "10002", "short", None, None);
    assert_eq!(r.state.as_str(), "invalid_key");
    assert!(r.status.is_none(), "unknown account -> status omitted");
    assert_eq!(r.db_path.as_deref(), Some("/tmp/qqflow_smoke_10002.db"), "resolved db_path echoed");

    let r = register(&mut accounts, &mut reg, "999", KEY, None, None);
    assert_eq!(r.state.as_str(), "unknown_qq");
    assert!(r.status.is_none() && r.db_path.is_none());

    let r = register(&mut accounts, &mut reg, "999", KEY, Some("Z:\\nonexistent"), None);
    assert_eq!(r.state.as_str(), "invalid_db_path");
    assert!(r.db_path.is_none(), "unresolved -> db_path omitted");
    assert!(accounts.is_empty(), "a refused registration leaves no account");

    let err = required(&Params::default()).unwrap_err();
    assert_eq!((err.code, err.message.as_str()), (400, "缺少必填参数 qq"));
    let err = required(&Params { qq: Some("1".into()), ..Default::default() }).unwrap_err();
    assert_eq!((err.code, err.message.as_str()), (400, "缺少必填参数 key"));
    let both = Params { qq: Some("1".into()), key: Some("k".into()), ..Default::default() };
    assert_eq!(required(&both).unwrap(), ("1", "k"));
}

#[test]
fn accounts_idempotent_for_the_bound_account() {
    let mut accounts = vec![account("10001", AccountStatus::Ready, 2, None)];
    let mut reg = AccountRegistry::new(Vec::new());
    let r = register(&mut accounts, &mut reg, "10001", KEY, None, None);
    assert_eq!(r.state.as_str(), "already_ready");
    assert_eq!(r.status, Some(AccountStatus::Ready));
    set_account_state(&mut accounts, "10001", AccountStatus::Indexing, 0, None);
    let r = register(&mut accounts, &mut reg, "10001", KEY, None, None);
    assert_eq!((r.state, r.ticket), (RegisterState::InProgress, None));
}

#[test]
fn accounts_error_state_echoes_status_on_reject() {
    let mut accounts = vec![account("10003", AccountStatus::Error, 0, Some("解密失败"))];
    let mut reg = AccountRegistry::new(Vec::new());
    reg.upsert_db(db("10003", "/tmp/qqflow_smoke_10003.db"));
    let r = register(&mut accounts, &mut reg, "10003", "short", None, None);
    assert_eq!(r.state.as_str(), "invalid_key");
    assert_eq!(r.status, Some(AccountStatus::Error));
    let r = register(&mut accounts, &mut reg, "10003", KEY, None, None);
    assert_eq!(r.state, RegisterState::Accepted, "an account in error may retry");
    assert_eq!(accounts[0].state, AccountStatus::Indexing);
}

#[test]
fn accounts_rejects_a_second_account() {
    let mut accounts = vec![account("10001", AccountStatus::Ready, 2, None)];
    let mut reg = AccountRegistry::new(Vec::new());
    reg.upsert_db(db("10002", "/tmp/qqflow_smoke_10002.db"));
    let r = register(&mut accounts, &mut reg, "10002", KEY, None, None);
    assert_eq!(r.state.as_str(), "account_conflict");
    assert_eq!(r.occupied_by.as_deref(), Some("10001"));
    assert_eq!(r.occupied_status, Some(AccountStatus::Ready));

    assert_eq!(accounts.len(), 1, "the rejected account must not be recorded");
    assert_eq!(accounts[0].qq, "10001");
    assert_eq!(accounts[0].state, AccountStatus::Ready);
    assert_eq!(accounts[0].message_count, 2);
}

#[test]
fn accounts_conflict_survives_error_state() {
    let mut accounts = vec![account("10001", AccountStatus::Error, 0, Some("解密失败"))];
    let mut reg = AccountRegistry::new(Vec::new());
    reg.upsert_db(db("10002", "/tmp/qqflow_smoke_10002.db"));
    let r = register(&mut accounts, &mut reg, "10002", KEY, None, None);
    assert_eq!(r.state.as_str(), "account_conflict");
    assert_eq!(r.occupied_by.as_deref(), Some("10001"));
    assert_eq!(r.occupied_status, Some(AccountStatus::Error));
}

#[test]
fn accounts_different_qq_one_winner() {
    let mut accounts = Vec::new();
    let mut reg = AccountRegistry::new(Vec::new());
    let a = register(&mut accounts, &mut reg, "10001", KEY, Some("/d/a.db"), Some("/d/a.db".into()));
    let b = register(&mut accounts, &mut reg, "10002", KEY, Some("/d/b.db"), Some("/d/b.db".into()));
    assert_eq!((a.state, b.state), (RegisterState::Accepted, RegisterState::AccountConflict));
    assert_eq!(bound_account(&accounts).map(|a| a.qq.as_str()), Some("10001"));
    assert_eq!(a.db_path.as_deref(), Some("/d/a.db"));
}

#[test]
fn builds_end_ready_or_in_error_and_stale_ones_are_void() {
    let mut accounts = Vec::new();
    let mut reg = AccountRegistry::new(Vec::new());
    let first = register(&mut accounts, &mut reg, "10001", KEY, Some("/a.db"), Some("/a.db".into()));
    let ticket = first.ticket.unwrap();
    assert!(!finish_build(&mut accounts, &reg, "10001", ticket, BuildResult::Failed("解密失败".into())));
    assert_eq!((accounts[0].state, accounts[0].error.as_deref()), (AccountStatus::Error, Some("解密失败")));
    let second = register(&mut accounts, &mut reg, "10001", KEY, None, None).ticket.unwrap();
    assert!(!finish_build(&mut accounts, &reg, "10001", ticket, BuildResult::Built(9)), "the older build is void");
    assert_eq!(accounts[0].state, AccountStatus::Indexing);
    assert!(finish_build(&mut accounts, &reg, "10001", second, BuildResult::Built(9)));
    assert_eq!((accounts[0].state, accounts[0].message_count), (AccountStatus::Ready, 9));
    let third = register(&mut accounts, &mut reg, "10001", KEY, None, None);
    assert_eq!(third.ticket, None);
    deregister(&mut accounts, &mut reg, "10001");
    assert!(!finish_build(&mut accounts, &reg, "10001", second, BuildResult::Built(9)));
    assert!(bound_account(&accounts).is_none());
}

#[test]
fn deregister_unbound_is_idempotent() {
    let mut accounts = Vec::new();
    let mut reg = AccountRegistry::new(Vec::new());
    let r = deregister(&mut accounts, &mut reg, "10001");
    assert_eq!((r.state.as_str(), r.index_cleared), ("not_registered", false));
}

#[test]
fn deregister_enforces_the_qq_interlock() {
    let mut accounts = vec![account("10001", AccountStatus::Ready, 2, None)];
    let mut reg = AccountRegistry::new(Vec::new());
    let r = deregister(&mut accounts, &mut reg, "99999");
    assert_eq!(r.state.as_str(), "qq_mismatch");
    assert_eq!(r.occupied_by.as_deref(), Some("10001"));
    assert_eq!(r.occupied_status, Some(AccountStatus::Ready));
    assert!(!r.index_cleared);
    assert_eq!(accounts[0].state, AccountStatus::Ready);
    assert!(update_ready(&accounts), "still ready");
}

#[test]
fn deregister_returns_the_server_to_its_boot_state() {
    let mut accounts = vec![account("10001", AccountStatus::Ready, 2, None)];
    let mut reg = AccountRegistry::new(Vec::new());
    reg.upsert_db(db("10001", "/tmp/dereg.db"));
    let r = deregister(&mut accounts, &mut reg, "10001");
    assert_eq!(r.state, DeregisterState::Deregistered);
    assert_eq!(r.previous_status, Some(AccountStatus::Ready), "what it was when the request landed");
    assert!(r.index_cleared);
    assert!(accounts.is_empty(), "the client-introduced account is forgotten");
    assert!(reg.find_db("10001").is_none());
    assert!(!update_ready(&accounts));
    assert_eq!(health::handle(&accounts, update_ready(&accounts)).account.as_str(), "unregistered");
    let r = register(&mut accounts, &mut reg, "10002", KEY, Some("/tmp/dereg.db"), Some("/tmp/dereg.db".into()));
    assert_eq!(r.state.as_str(), "accepted", "the binding was released");
}

#[test]
fn deregister_reverts_a_scanned_account_to_awaiting_key() {
    let mut reg = AccountRegistry::new(vec![db("10001", "/tmp/scanned.db")]);
    assert!(reg.is_scanned("10001"));
    let mut accounts = vec![account("10001", AccountStatus::Ready, 9, None)];
    let r = deregister(&mut accounts, &mut reg, "10001");
    assert_eq!(r.state.as_str(), "deregistered");
    assert_eq!(r.previous_status, Some(AccountStatus::Ready));
    let details = account_details(&accounts, &reg);
    assert_eq!(details[0].account.state, AccountStatus::AwaitingKey);
    assert_eq!(details[0].account.message_count, 0);
    assert_eq!(details[0].db_path.as_deref(), Some("/tmp/scanned.db"), "a scanned account keeps its path");
}

#[test]
fn deregister_clears_an_account_in_error() {
    let mut accounts = vec![account("10001", AccountStatus::Error, 0, Some("解密失败"))];
    let mut reg = AccountRegistry::new(Vec::new());
    let r = deregister(&mut accounts, &mut reg, "10001");
    assert_eq!(r.state.as_str(), "deregistered");
    assert_eq!(r.previous_status, Some(AccountStatus::Error), "an error account can be cleared");
    assert!(bound_account(&accounts).is_none());
    assert_eq!(deregister(&mut accounts, &mut reg, "10001").state.as_str(), "not_registered");
}

#[test]
fn deregister_purge_media_stays_inside_the_export_layout() {
    let mut store = Store::default();
    for talker in ["10001", ".."] {
        store.convs.insert(
            conv_key(ChatType::Group, talker),
            Conversation {
                chat_type: ChatType::Group,
                talker: talker.into(),
                name: String::new(),
                msgs: Vec::new(),
                dirty: false,
            },
        );
    }
    let targets = purge_targets(&store);
    let kinds: Vec<&str> = targets.iter().map(|t| t.1.as_str()).collect();
    assert_eq!(kinds, vec!["images", "voices", "videos", "emojis"]);
    assert!(targets.iter().all(|t| t.0 == "10001"), "an unsafe talker is never touched");
}

#[test]
fn locations_are_replaced_and_forgotten() {
    let mut reg = AccountRegistry::new(vec![db("1", "/a"), db("2", "/b")]);
    reg.upsert_db(db("2", "/c"));
    reg.upsert_db(db("3", "/d"));
    assert_eq!(reg.find_db("2").unwrap().path, "/c");
    assert!(reg.is_scanned("2") && !reg.is_scanned("3"));
    reg.forget_db("3");
    assert!(reg.find_db("3").is_none());
}

#[test]
fn history_replays_newer_events_until_they_age() {
    let mut h = HistoryBuf::default();
    for i in 0..3u64 {
        assert_eq!(h.append(format!("e{i}"), format!("p{i}"), 1000 + i), i + 1);
    }
    let ids = |v: Vec<(u64, String, String)>| -> Vec<u64> { v.iter().map(|e| e.0).collect() };
    assert_eq!(ids(h.replay_since(0, 1002)), vec![1, 2, 3]);
    assert_eq!(ids(h.replay_since(2, 1002)), vec![3]);
    assert_eq!(h.replay_since(2, 1002)[0], (3, "e2".to_string(), "p2".to_string()));
    assert_eq!(ids(h.replay_since(0, 1001 + HISTORY_TTL_MS)), vec![3], "older ones have aged out");
    h.clear();
    assert!(h.replay_since(0, 1002).is_empty());
    assert_eq!(h.append("e".into(), "p".into(), 2000), 4, "ids go on after a clear");
}

#[test]
fn history_keeps_to_its_cap() {
    let mut h = HistoryBuf::default();
    for _ in 0..HISTORY_MAX + 5 {
        h.append("e".into(), "p".into(), 1);
    }
    let all = h.replay_since(0, 1);
    assert_eq!((all.len(), all[0].0), (HISTORY_MAX, 6));
}

#[test]
fn last_event_id_prefers_the_header() {
    assert_eq!(last_event_id(Some("7"), Some("9")), 7);
    assert_eq!(last_event_id(Some("x"), Some("9")), 9);
    assert_eq!(last_event_id(None, None), 0);
}

#[test]
fn streams_open_with_ready_replay_and_baseline() {
    let mut h = HistoryBuf::default();
    let f = live(&mut h, "message.new".into(), "{\"a\":1}".into(), 5).unwrap();
    assert_eq!((f.id, f.name.as_str()), (Some(1), "message.new"));
    live(&mut h, "message.revoke".into(), "{}".into(), 6);
    let store = Store { watermark_group: 42, watermark_c2c: 7, ..Store::default() };
    let frames = opening(&h, &store, 1, 7, 100);
    let names: Vec<&str> = frames.iter().map(|f| f.name.as_str()).collect();
    assert_eq!(names, vec!["ready", "message.revoke", "sync"]);
    assert!(matches!(&frames[0].data, FrameData::Text(s) if s == "{\"status\":\"ok\"}"));
    assert_eq!((frames[1].id, frames[2].id), (Some(2), None));
    assert!(matches!(&frames[2].data, FrameData::Event(e) if e.last_rowid_group == Some(42) && e.timestamp == 100));
    assert_eq!(h.last_id(), 2, "a baseline takes no id");
}

#[test]
fn body_fields_win_where_they_are_set() {
    let query = || {
        let mut m: StrMap<u32> = StrMap::new();
        m.insert("limit".into(), 1);
        m.insert("offset".into(), 2);
        m
    };
    let body = vec![
        ("limit".to_string(), Some(9)),
        ("offset".to_string(), None),
        ("talker".to_string(), Some(3)),
    ];
    let m = merge_body(query(), Some(body));
    assert_eq!((m.get("limit"), m.get("offset"), m.get("talker")), (Some(&9), Some(&2), Some(&3)));
    let m = merge_body(query(), None);
    assert_eq!((m.get("limit"), m.get("offset"), m.len()), (Some(&1), Some(&2), 2));
}

#[test]
fn scanned_accounts_await_their_keys() {
    let accounts = awaiting_accounts(&vec![db("10001", "/a"), db("10002", "/b")]);
    assert_eq!(accounts.len(), 2);
    assert_eq!((accounts[1].qq.as_str(), accounts[1].state), ("10002", AccountStatus::AwaitingKey));
    assert!(bound_account(&accounts).is_none());
    assert!(!update_ready(&accounts));
}

#[test]
fn sync_empty_engine_shape() {
    let r = sync::handle(&Vec::new());
    assert_eq!((r.new_messages, r.revoke_messages), (0, 0));
}

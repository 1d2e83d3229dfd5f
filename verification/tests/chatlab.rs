//! The pull protocol and the ChatLab envelope.

use qqflow_server::parser::types::{ChatType, MessageRecord, MsgType, ParsedMessage};
use qqflow_server::server::handlers::chatlab_pull::{handle, parse_limit, parse_offset, Params, PullReply, MAX_PULL};
use qqflow_server::server::handlers::messages::chatlab_envelope;
use qqflow_server::server::{AccountState, AccountStatus};
use qqflow_server::store::query::{query_messages, MessageQuery};
use qqflow_server::store::{conv_key, Conversation, Store};
use qqflow_server::strmap::StrMap;

const BASE: i64 = 0x6771A6B5;
const NOW: i64 = 1800000000;

fn record(rowid: i64, ts: i64, uid: &str, t: MsgType, content: &str) -> MessageRecord {
    MessageRecord {
        rowid,
        seq: (ts << 32) | rowid,
        ts,
        chat_type: ChatType::Group,
        talker: "10001".into(),
        from_uid: uid.into(),
        from_nick: "张三".into(),
        card: None,
        direction: Some(0),
        parsed: ParsedMessage { msg_type: t, content: content.into(), media: None },
    }
}

fn store_of(chat_type: ChatType, talker: &str, msgs: Vec<MessageRecord>) -> Store {
    let mut store = Store::default();
    let conv = Conversation { chat_type, talker: talker.into(), name: "项目群".into(), msgs, dirty: false };
    store.convs.insert(conv_key(chat_type, talker), conv);
    store
}

/// Five messages that share one second, then two in the next.
fn boundary_store() -> Store {
    let mut msgs: Vec<MessageRecord> =
        (1..=5).map(|n| record(n, BASE, "u_a", MsgType::Text, &format!("m{n}"))).collect();
    msgs.push(record(6, BASE + 1, "u_a", MsgType::Text, "m6"));
    msgs.push(record(7, BASE + 1, "u_a", MsgType::Text, "m7"));
    store_of(ChatType::Group, "10001", msgs)
}

fn pull(store: &Store, params: Params) -> PullReply {
    handle(store, &Vec::new(), "10001", &params, NOW).unwrap()
}

fn text(v: i64) -> Option<String> {
    Some(v.to_string())
}

#[test]
fn chatlab_pull_boundary_second_pages_cleanly() {
    let store = boundary_store();
    let first = pull(&store, Params { limit: text(3), ..Default::default() });
    assert_eq!(first.messages.len(), 5, "page completes the whole second");
    assert!(first.sync.has_more);
    assert_eq!(first.sync.next_since, 0x6771A6B5);
    let second = pull(&store, Params { since: text(first.sync.next_since), ..Default::default() });
    assert_eq!(second.messages.len(), 2, "second page carries the remaining rows");
    assert!(!second.sync.has_more);
    for a in &first.messages {
        for b in &second.messages {
            assert_ne!(a.platform_message_id, b.platform_message_id, "pages must not overlap");
        }
    }
}

#[test]
fn chatlab_pull_drains_when_client_echoes_both_cursors() {
    let store = boundary_store();
    let mut since: Option<String> = None;
    let mut offset: u64 = 0;
    let mut ids: Vec<String> = Vec::new();
    let mut pages = 0;
    loop {
        pages += 1;
        assert!(pages <= 10, "cursor must terminate; looped {pages} times");
        let r = pull(
            &store,
            Params { limit: text(1), offset: Some(offset.to_string()), since: since.clone(), ..Default::default() },
        );
        ids.extend(r.messages.iter().map(|m| m.platform_message_id.clone()));
        if !r.sync.has_more {
            assert_eq!(r.sync.next_offset, 0, "drained cursor resets offset");
            break;
        }
        since = text(r.sync.next_since);
        offset = r.sync.next_offset;
    }
    assert_eq!(ids.len(), 7, "every row served exactly once, got {ids:?}");
    ids.sort();
    ids.dedup();
    assert_eq!(ids.len(), 7, "no duplicates across pages: {ids:?}");
}

#[test]
fn chatlab_pull_huge_offset_does_not_panic() {
    let store = boundary_store();
    let r = pull(&store, Params { offset: Some("18446744073709551615".into()), ..Default::default() });
    assert_eq!(r.messages.len(), 0);
    assert!(!r.sync.has_more);
    assert_eq!(r.sync.next_offset, 0);
}

#[test]
fn chatlab_pull_tolerates_malformed_pagination() {
    assert_eq!(parse_limit(&None), MAX_PULL);
    for bad in ["abc", "", "-3"] {
        assert_eq!(parse_limit(&Some(bad.into())), MAX_PULL, "limit={bad}");
    }
    assert_eq!(parse_limit(&Some("0".into())), 1);
    assert_eq!(parse_limit(&Some("7".into())), 7);
    assert_eq!(parse_limit(&Some("999999".into())), MAX_PULL);
    for bad in ["abc", "", "-1"] {
        assert_eq!(parse_offset(&Some(bad.into())), 0, "offset={bad}");
    }
    assert_eq!(parse_offset(&Some("12".into())), 12);
    // Two rows of one second: every such request serves them both.
    let msgs = vec![record(1, 26481, "u_a", MsgType::Text, "你好"), record(2, 26481, "u_b", MsgType::Image, "[image]")];
    let store = store_of(ChatType::Group, "10001", msgs);
    let text = |s: &str| Some(s.to_string());
    for (limit, offset) in [(text("abc"), None), (None, text("abc")), (text(""), text("")), (text("0"), None), (text("-3"), None)] {
        let r = pull(&store, Params { limit, offset, ..Default::default() });
        assert_eq!(r.messages.len(), 2, "served the page");
    }
}

#[test]
fn chatlab_pull_sync_block() {
    let store = boundary_store();
    let accounts = vec![AccountState {
        qq: "335663881".into(),
        state: AccountStatus::Ready,
        message_count: 7,
        error: None,
    }];
    let r = handle(&store, &accounts, "10001", &Params::default(), NOW).unwrap();
    assert_eq!(r.meta.platform, "qq");
    assert_eq!((r.meta.owner_id.as_str(), r.meta.chat_type.as_str()), ("335663881", "group"));
    assert_eq!(r.messages.len(), 7);
    assert!(r.sync.watermark > 0);
    let err = handle(&store, &accounts, "nobody", &Params::default(), NOW).unwrap_err();
    assert_eq!((err.code, err.message.as_str()), (404, "会话不存在: nobody"));
}

#[test]
fn pulls_are_bounded_by_end_and_since() {
    let store = boundary_store();
    let r = pull(&store, Params { end: text(BASE), ..Default::default() });
    assert_eq!(r.messages.len(), 5, "the end is part of the window");
    let r = pull(&store, Params { since: text(BASE + 1), ..Default::default() });
    assert_eq!(r.messages.len(), 0, "the start is not");
}

#[test]
fn all_digit_c2c_talker_resolves_via_fallback() {
    let mut m = record(1, BASE, "12345", MsgType::Text, "在吗");
    m.chat_type = ChatType::C2c;
    m.talker = "12345".into();
    let store = store_of(ChatType::C2c, "12345", vec![m]);
    let q = MessageQuery { talker: "12345", limit: 10, offset: 0, start: None, end: None, keyword: None };
    let (rows, _) = query_messages(&store, &q);
    assert_eq!((rows.len(), rows[0].content.as_str()), (1, "在吗"));
    let r = handle(&store, &Vec::new(), "12345", &Params::default(), NOW).unwrap();
    assert_eq!(r.meta.chat_type, "private");
    assert_eq!(r.meta.group_id, "12345");
}

fn named_store() -> Store {
    let mut store = store_of(
        ChatType::Group,
        "10001",
        vec![
            record(1, BASE, "u_a", MsgType::Text, "你好"),
            record(2, BASE + 1, "u_b", MsgType::Image, "[image]"),
            record(3, BASE + 2, "u_a", MsgType::Text, "再见"),
        ],
    );
    let mut cards: StrMap<String> = StrMap::new();
    cards.insert("u_a".into(), "张三群名片".into());
    store.group_cards.insert(conv_key(ChatType::Group, "10001"), cards);
    store.names.uid_remark.insert("u_a".into(), "张三备注".into());
    store.names.uid_remark.insert("u_b".into(), "李四备注".into());
    store
}

#[test]
fn chatlab_splits_account_name_from_group_nickname() {
    let store = named_store();
    let q = MessageQuery { talker: "10001", limit: 10, offset: 0, start: None, end: None, keyword: None };
    let (rows, _) = query_messages(&store, &q);
    assert_eq!(rows[0].sender_name, "张三群名片");
    let e = chatlab_envelope(&store, &Vec::new(), "10001", &rows);
    let m = &e.messages[0];
    assert_eq!(m.sender, "u_a");
    assert_eq!(m.account_name, "张三备注", "account name is the remark, not the card");
    assert_eq!(m.group_nickname, "张三群名片", "the card lands in groupNickname");
    let a = e.members.iter().find(|m| m.platform_id == "u_a").expect("u_a in members");
    assert_eq!((a.account_name.as_str(), a.group_nickname.as_str()), ("张三备注", "张三群名片"));
    let b = e.members.iter().find(|m| m.platform_id == "u_b").expect("u_b in members");
    assert_eq!((b.account_name.as_str(), b.group_nickname.as_str()), ("李四备注", ""));
    assert_eq!(e.members.len(), 2, "members are deduped");
}

#[test]
fn chatlab_type_is_the_chatlab_code_space_not_local_type() {
    let store = named_store();
    let r = pull(&store, Params::default());
    assert_eq!(r.messages[0].message_type, 0, "text is 0 in the ChatLab space");
    assert_eq!(r.messages[1].message_type, 1, "image is 1 in the ChatLab space");
    let q = MessageQuery { talker: "10001", limit: 10, offset: 0, start: None, end: None, keyword: None };
    let (rows, _) = query_messages(&store, &q);
    assert_eq!(rows[1].local_type, 3, "the native face keeps its own code");
    let e = chatlab_envelope(&store, &Vec::new(), "10001", &rows);
    assert_eq!((e.messages[0].message_type, e.messages[1].message_type), (0, 1));
}

#[test]
fn chatlab_meta_carries_owner_id_on_both_faces() {
    let store = named_store();
    let accounts = vec![AccountState {
        qq: "10009".into(),
        state: AccountStatus::Ready,
        message_count: 3,
        error: None,
    }];
    let pulled = handle(&store, &accounts, "10001", &Params::default(), NOW).unwrap();
    let e = chatlab_envelope(&store, &accounts, "10001", &Vec::new());
    assert_eq!(pulled.meta.owner_id, "10009");
    assert_eq!(pulled.meta.owner_id, e.meta.owner_id);
}

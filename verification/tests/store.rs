//! Conversations, display names and record order.

use qqflow_server::parser::types::{ChatType, MessageRecord, MsgType, ParsedMessage};
use qqflow_server::store::{conv_key, Conversation, Store};
use qqflow_server::strmap::StrMap;

fn conv(chat_type: ChatType, talker: &str, name: &str) -> Conversation {
    Conversation { chat_type, talker: talker.into(), name: name.into(), msgs: Vec::new(), dirty: false }
}

#[test]
fn find_conversation_falls_back_to_other_type() {
    let mut store = Store::default();
    store.convs.insert(conv_key(ChatType::C2c, "12345"), conv(ChatType::C2c, "12345", "数字UID好友"));
    let found = store.find_conversation("12345").expect("all-digit c2c peer must resolve via fallback");
    assert_eq!(found.chat_type, ChatType::C2c);
}

#[test]
fn find_conversation_tries_the_classified_type_first() {
    let mut store = Store::default();
    store.convs.insert(conv_key(ChatType::C2c, "12345"), conv(ChatType::C2c, "12345", "peer"));
    store.convs.insert(conv_key(ChatType::Group, "12345"), conv(ChatType::Group, "12345", "group"));
    store.convs.insert(conv_key(ChatType::Group, "u_5"), conv(ChatType::Group, "u_5", "odd"));
    assert_eq!(store.find_conversation("12345").unwrap().name, "group");
    assert_eq!(store.find_conversation("u_5").unwrap().name, "odd");
    assert!(store.find_conversation("u_6").is_none());
    assert_eq!(conv_key(ChatType::Group, "10001"), "g:10001");
    assert_eq!(conv_key(ChatType::C2c, "10001"), "c:10001");
}

#[test]
fn display_name_c2c_prefers_remark_over_conv_name_over_profile_nick_over_uid() {
    let mut store = Store::default();
    store.convs.insert(conv_key(ChatType::C2c, "u_a"), conv(ChatType::C2c, "u_a", "张三"));
    assert_eq!(store.display_name(ChatType::C2c, "u_a"), "张三", "会话名(首行 40093) only");

    store.names.uid_nick.insert("u_a".into(), "档案昵称".into());
    assert_eq!(store.display_name(ChatType::C2c, "u_a"), "张三", "会话名 wins over 档案昵称");

    store.names.uid_remark.insert("u_a".into(), "张三备注".into());
    assert_eq!(store.display_name(ChatType::C2c, "u_a"), "张三备注", "remark wins");

    store.names.uid_remark.insert("u_a".into(), String::new());
    assert_eq!(store.display_name(ChatType::C2c, "u_a"), "张三", "empty remark falls back to 会话名");

    // 无会话记录 -> 档案昵称
    let mut store2 = Store::default();
    store2.names.uid_nick.insert("u_b".into(), "档案昵称".into());
    assert_eq!(store2.display_name(ChatType::C2c, "u_b"), "档案昵称", "no conversation -> profile nick");

    assert_eq!(store.display_name(ChatType::C2c, "u_unknown"), "u_unknown", "no data -> uid");
}

#[test]
fn display_name_group_prefers_remark_over_rename_msg_over_info_name_over_id() {
    let mut store = Store::default();
    store.convs.insert(conv_key(ChatType::Group, "10001"), conv(ChatType::Group, "10001", "改名消息群名"));
    assert_eq!(store.display_name(ChatType::Group, "10001"), "改名消息群名", "rename-message name");

    store.names.group_name.insert("10001".into(), "群信息库群名".into());
    assert_eq!(
        store.display_name(ChatType::Group, "10001"),
        "改名消息群名",
        "rename-message name wins over group-info name"
    );

    store.names.group_remark.insert("10001".into(), "群备注名".into());
    assert_eq!(store.display_name(ChatType::Group, "10001"), "群备注名", "group remark wins (QQ 客户端行为)");

    store.names.group_remark.insert("10001".into(), String::new());
    assert_eq!(
        store.display_name(ChatType::Group, "10001"),
        "改名消息群名",
        "empty group remark falls back to rename-message name"
    );

    // 未改名群：conv.name 是群号占位，不得压过群信息库群名。
    store.convs.insert(conv_key(ChatType::Group, "10002"), conv(ChatType::Group, "10002", "10002"));
    store.names.group_name.insert("10002".into(), "群信息库名".into());
    assert_eq!(
        store.display_name(ChatType::Group, "10002"),
        "群信息库名",
        "placeholder group id never shadows the info name"
    );

    assert_eq!(store.display_name(ChatType::Group, "99999"), "99999", "no data -> group id");
}

#[test]
fn display_uid_prefers_remark_over_message_nick_over_profile_nick_over_uid() {
    let mut store = Store::default();
    store.uid_names.insert("u_a".into(), "张三".into());
    assert_eq!(store.display_uid("u_a"), "张三", "message nick only");

    store.names.uid_nick.insert("u_a".into(), "档案昵称".into());
    assert_eq!(store.display_uid("u_a"), "张三", "message nick wins over profile nick");

    store.names.uid_remark.insert("u_a".into(), "张三备注".into());
    assert_eq!(store.display_uid("u_a"), "张三备注", "remark wins");

    store.names.uid_remark.insert("u_a".into(), String::new());
    assert_eq!(store.display_uid("u_a"), "张三", "empty remark falls back to message nick");

    assert_eq!(store.display_uid("u_zzz"), "u_zzz", "no data -> uid");
}

#[test]
fn display_sender_card_stays_inside_its_group() {
    let mut store = Store::default();
    store.uid_names.insert("u_a".into(), "张三".into());
    let mut first: StrMap<String> = StrMap::new();
    first.insert("u_a".to_string(), "1群名片".to_string());
    store.group_cards.insert(conv_key(ChatType::Group, "10001"), first);
    let mut second: StrMap<String> = StrMap::new();
    second.insert("u_a".to_string(), "2群名片".to_string());
    store.group_cards.insert(conv_key(ChatType::Group, "10002"), second);
    assert_eq!(store.display_sender(ChatType::Group, "10001", "u_a"), "1群名片", "card for THIS conversation");
    assert_eq!(store.display_sender(ChatType::Group, "10002", "u_a"), "2群名片", "different group, different card");
    assert_eq!(store.display_sender(ChatType::Group, "10003", "u_a"), "张三", "no card in this group -> global name");
    assert_eq!(store.display_sender(ChatType::C2c, "u_a", "u_a"), "张三", "cards never leak into c2c chats");
    assert_eq!(store.display_uid("u_a"), "张三", "global display ignores cards");
}

fn record(rowid: i64, ts: i64, seq: i64) -> MessageRecord {
    MessageRecord {
        rowid,
        seq,
        ts,
        chat_type: ChatType::C2c,
        talker: "u_a".into(),
        from_uid: "u_a".into(),
        from_nick: String::new(),
        card: None,
        direction: None,
        parsed: ParsedMessage::simple(MsgType::Text, "x"),
    }
}

#[test]
fn records_sort_by_time_then_row() {
    let mut c = conv(ChatType::C2c, "u_a", "");
    c.msgs = vec![record(1, 30, 1), record(4, 10, 2), record(2, 10, 9), record(3, 10, 2)];
    c.dirty = true;
    c.ensure_sorted();
    let order: Vec<i64> = c.msgs.iter().map(|m| m.rowid).collect();
    assert_eq!(order, vec![2, 3, 4, 1]);
    assert!(!c.dirty);
    c.msgs.swap(0, 3);
    c.ensure_sorted();
    assert_eq!(c.msgs[0].rowid, 1, "a clean conversation is left as it is");
}

#[test]
fn later_puts_replace_and_keep_their_place() {
    let mut m: StrMap<u32> = StrMap::new();
    assert!(m.is_empty());
    m.insert("a".into(), 1);
    m.insert("b".into(), 2);
    m.insert("a".into(), 3);
    assert_eq!(m.len(), 2);
    assert_eq!((m.get("a"), m.get("b"), m.get("c")), (Some(&3), Some(&2), None));
    assert_eq!((m.key_at(0).as_str(), *m.value_at(1)), ("a", 2));
    *m.value_at_mut(1) = 7;
    assert_eq!(m.get("b"), Some(&7));
    assert_eq!(m.position("b"), Some(1));
}

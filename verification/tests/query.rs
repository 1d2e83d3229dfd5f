//! Message, session and contact queries, and what is pushed of a message.

use qqflow_server::parser::proto::MediaSegment;
use qqflow_server::parser::types::{seq_to_time, ChatType, MediaInfo, MessageRecord, MsgType, ParsedMessage};
use qqflow_server::server::handlers::{contacts, group_members, messages, parse_opt_bound, parse_time_bound, sessions,
    FlexBool, SwitchValue};
use qqflow_server::store::query::{classify_talker, query_contacts, query_messages, query_sessions, MessageQuery};
use qqflow_server::store::{conv_key, Conversation, MediaEntry, Store};
use qqflow_server::strmap::StrMap;
use qqflow_server::sync::events::Event;
use qqflow_server::sync::record_event;

const SEQ1: i64 = 0x6771A6B50001;
const SEQ2: i64 = 0x6771A6B60002;
const MD5: &str = "aabbccddeeff00112233445566778899";

fn message(rowid: i64, seq: i64, uid: &str, nick: &str, direction: i64, parsed: ParsedMessage) -> MessageRecord {
    MessageRecord {
        rowid,
        seq,
        ts: seq_to_time(seq),
        chat_type: ChatType::Group,
        talker: "10001".into(),
        from_uid: uid.into(),
        from_nick: nick.into(),
        card: None,
        direction: Some(direction),
        parsed,
    }
}

fn image() -> MediaInfo {
    MediaInfo::from(MediaSegment {
        uuid: Some("R020-test".into()),
        md5_hex: Some(MD5.into()),
        file_name: Some("aabb.png".into()),
        size: Some(1234),
        width: Some(640),
        height: Some(480),
        local_path: Some("Pic/fake_image.jpg".into()),
        ..Default::default()
    })
}

fn test_store() -> Store {
    let mut store = Store::default();
    let mut picture = ParsedMessage::simple(MsgType::Image, "[image]");
    picture.media = Some(image());
    let conv = Conversation {
        chat_type: ChatType::Group,
        talker: "10001".into(),
        name: "项目群".into(),
        msgs: vec![
            message(1, SEQ1, "u_a", "张三", 1, ParsedMessage::simple(MsgType::Text, "你好")),
            message(2, SEQ2, "u_b", "李四", 0, picture),
        ],
        dirty: false,
    };
    store.convs.insert(conv_key(ChatType::Group, "10001"), conv);
    store.watermark_group = 2;
    store.uid_names.insert("u_a".into(), "张三".into());
    store.uid_names.insert("u_b".into(), "李四".into());
    store.media.insert(
        MD5.into(),
        MediaEntry { local_path: "Pic/fake_image.jpg".into(), file_name: Some("aabb.png".into()) },
    );
    store
}

fn ask<'a>(talker: &'a str, limit: usize, offset: usize) -> MessageQuery<'a> {
    MessageQuery { talker, limit, offset, start: None, end: None, keyword: None }
}

#[test]
fn query_messages_keyword() {
    let store = test_store();
    let q = MessageQuery {
        talker: "10001",
        limit: 10,
        offset: 0,
        start: None,
        end: None,
        keyword: Some("你好"),
    };
    let (items, _) = query_messages(&store, &q);
    assert_eq!(items.len(), 1);
    assert_eq!(items[0].content, "你好");
}

#[test]
fn wrong_talker_returns_empty() {
    let store = test_store();
    let q = MessageQuery {
        talker: "nonexistent",
        limit: 10,
        offset: 0,
        start: None,
        end: None,
        keyword: None,
    };
    let (items, has_more) = query_messages(&store, &q);
    assert!(items.is_empty());
    assert!(!has_more);
}

#[test]
fn messages_pagination_and_filter() {
    let store = test_store();
    let (items, has_more) = query_messages(&store, &ask("10001", 1, 0));
    assert_eq!(items.len(), 1);
    assert!(has_more);
    assert_eq!(items[0].local_id, 2);
    assert_eq!(items[0].server_id, SEQ2.to_string());
    assert_eq!(items[0].create_time, seq_to_time(SEQ2));
    let (items, has_more) = query_messages(&store, &ask("10001", 1, 1));
    assert_eq!((items[0].local_id, has_more), (1, false));
    let q = MessageQuery { start: Some(seq_to_time(SEQ2) + 1), ..ask("10001", 9, 0) };
    assert!(query_messages(&store, &q).0.is_empty());
    let q = MessageQuery { end: Some(seq_to_time(SEQ1)), ..ask("10001", 9, 0) };
    let expected = if seq_to_time(SEQ1) == seq_to_time(SEQ2) { 2 } else { 1 };
    assert_eq!(query_messages(&store, &q).0.len(), expected);
    let q = MessageQuery { keyword: Some("你好吗"), ..ask("10001", 9, 0) };
    assert!(query_messages(&store, &q).0.is_empty());
}

#[test]
fn pages_join_without_gap_or_overlap() {
    let mut store = Store::default();
    let msgs: Vec<MessageRecord> = (1..=7)
        .map(|n| message(n, ((100 + n % 3) << 32) | n, "u_a", "", 0, ParsedMessage::simple(MsgType::Text, "x")))
        .collect();
    let conv = Conversation {
        chat_type: ChatType::Group,
        talker: "10001".into(),
        name: String::new(),
        msgs,
        dirty: true,
    };
    store.convs.insert(conv_key(ChatType::Group, "10001"), conv);
    let whole: Vec<i64> = query_messages(&store, &ask("10001", 100, 0)).0.iter().map(|m| m.local_id).collect();
    assert_eq!(whole, vec![5, 2, 7, 4, 1, 6, 3], "newest first, by time and then seq");
    let mut joined = Vec::new();
    let mut offset = 0;
    loop {
        let (page, more) = query_messages(&store, &ask("10001", 3, offset));
        joined.extend(page.iter().map(|m| m.local_id));
        offset += 3;
        if !more {
            break;
        }
    }
    assert_eq!(joined, whole);
}

#[test]
fn media_id_is_shown_where_it_can_be_fetched() {
    let mut store = test_store();
    let (items, _) = query_messages(&store, &ask("10001", 9, 0));
    assert_eq!(items[0].media_id.as_deref(), Some(MD5));
    assert_eq!(items[0].media_type.as_deref(), Some("image"));
    assert!(items[0].media_url.is_none(), "no export fields without an export");
    assert!(items[1].media.is_none(), "text message has no media");
    assert_eq!((items[0].is_send, items[1].is_send), (0, 1));
    assert_eq!(messages::media_count(&items), 1);
    store.media = StrMap::new();
    let (items, _) = query_messages(&store, &ask("10001", 9, 0));
    assert!(items[0].media.is_some(), "media object still rides along");
    assert!(items[0].media_id.is_none(), "mediaId omitted when not fetchable");
}

fn store_with_names() -> Store {
    let mut store = test_store();
    let mut cards: StrMap<String> = StrMap::new();
    cards.insert("u_a".into(), "张三群名片".into());
    store.group_cards.insert(conv_key(ChatType::Group, "10001"), cards);
    store.names.uid_remark.insert("u_a".into(), "张三备注".into());
    store.names.uid_remark.insert("u_b".into(), "李四备注".into());
    let seq = 0x6771A6B70003;
    let mut m = message(3, seq, "u_a", "张三", 0, ParsedMessage::simple(MsgType::Text, "私聊"));
    m.chat_type = ChatType::C2c;
    m.talker = "u_a".into();
    store.convs.insert(
        conv_key(ChatType::C2c, "u_a"),
        Conversation {
            chat_type: ChatType::C2c,
            talker: "u_a".into(),
            name: "张三".into(),
            msgs: vec![m],
            dirty: false,
        },
    );
    store
}

#[test]
fn messages_carry_resolved_sender_name() {
    let store = store_with_names();
    let (items, _) = query_messages(&store, &ask("10001", 9, 0));
    assert_eq!(items[1].sender_username, "u_a");
    assert_eq!(items[1].sender_name, "张三群名片", "in a group the card outranks the global remark");
    assert_eq!(items[0].sender_name, "李四备注", "no card -> remark outranks the message nick");
    let (items, _) = query_messages(&store, &ask("u_a", 9, 0));
    assert_eq!(items[0].sender_name, "张三备注", "a group card never leaks out of its group");
}

#[test]
fn sender_name_is_per_conversation_but_username_is_stable() {
    let store = store_with_names();
    let group = query_messages(&store, &ask("10001", 10, 0)).0;
    let private = query_messages(&store, &ask("u_a", 10, 0)).0;
    let g = group.iter().find(|m| m.sender_username == "u_a").unwrap();
    let c = &private[0];
    assert_eq!(g.sender_username, c.sender_username, "identity is stable");
    assert_ne!(g.sender_name, c.sender_name, "display name is per conversation");
}

#[test]
fn rows_without_a_sender_have_no_sender_name() {
    let mut store = test_store();
    let m = message(9, SEQ2 + 1, "", "", 3, ParsedMessage::simple(MsgType::System, "x"));
    store.convs.insert(
        conv_key(ChatType::Group, "10001"),
        Conversation {
            chat_type: ChatType::Group,
            talker: "10001".into(),
            name: "项目群".into(),
            msgs: vec![m],
            dirty: false,
        },
    );
    let (items, _) = query_messages(&store, &ask("10001", 1, 0));
    assert_eq!(items[0].sender_name, "");
}

fn rec(rowid: i64, ts: i64) -> MessageRecord {
    MessageRecord {
        rowid,
        seq: (ts << 32) | rowid,
        ts,
        chat_type: ChatType::Group,
        talker: "10001".into(),
        from_uid: "u_a".into(),
        from_nick: "张三".into(),
        card: None,
        direction: None,
        parsed: ParsedMessage { msg_type: MsgType::Text, content: "x".into(), media: None },
    }
}

#[test]
fn sessions_last_ts_is_max_not_tail() {
    let mut store = Store::default();
    let conv = Conversation {
        chat_type: ChatType::Group,
        talker: "10001".into(),
        name: "项目群".into(),
        msgs: vec![rec(1, 200), rec(2, 100)],
        dirty: false,
    };
    store.convs.insert(conv_key(ChatType::Group, "10001"), conv);
    let sessions = query_sessions(&store, None, 10, 0);
    assert_eq!(sessions.len(), 1);
    assert_eq!(sessions[0].last_timestamp, 200, "newest ts, not the unsorted tail");
}

#[test]
fn sessions_with_token() {
    let store = test_store();
    let found = query_sessions(&store, None, 100, 0);
    assert_eq!(found.len(), 1);
    assert_eq!(found[0].username, "10001");
    assert_eq!(found[0].display_name, "项目群");
    assert_eq!(found[0].session_type, 2);
}

#[test]
fn sessions_are_newest_first_and_filtered() {
    let mut store = store_with_names();
    store.convs.insert(
        conv_key(ChatType::Group, "20002"),
        Conversation {
            chat_type: ChatType::Group,
            talker: "20002".into(),
            name: "Empty Group".into(),
            msgs: Vec::new(),
            dirty: false,
        },
    );
    let names = |k: Option<&str>, limit: usize, offset: usize| -> Vec<String> {
        query_sessions(&store, k, limit, offset).iter().map(|s| s.username.clone()).collect()
    };
    assert_eq!(names(None, 9, 0).len(), 3);
    assert_eq!(names(None, 9, 0)[2], "20002", "a session without messages comes last");
    assert_eq!(names(Some("empty"), 9, 0), vec!["20002"], "letter case does not matter");
    assert_eq!(names(None, 1, 2), vec!["20002"]);
    assert!(names(None, 9, 9).is_empty());
    let reply = sessions::handle(&store, &sessions::Params { format: Some("chatlab".into()), ..Default::default() });
    match reply {
        sessions::SessionsReply::Chatlab(v) => {
            assert_eq!((v.len(), v[0].platform.as_str()), (3, "qq"));
            assert!(v.iter().any(|s| s.id == "u_a" && s.session_type == "private"));
        }
        sessions::SessionsReply::Native(_) => panic!("format=chatlab asks for the other shape"),
    }
}

#[test]
fn contacts_and_group_members() {
    let store = test_store();
    let reply = contacts::handle(&store, &contacts::Params::default());
    assert_eq!(reply.contacts.len(), 2);
    assert_eq!((reply.total, reply.has_more), (2, false));
    let params = group_members::Params {
        chatroom_id: Some("10001".into()),
        include_message_counts: Some("1".into()),
        ..Default::default()
    };
    let reply = group_members::handle(&store, &params).unwrap();
    assert_eq!(reply.members.len(), 2);
    assert_eq!(reply.members[0].wxid, "u_a");
    assert_eq!(reply.members[0].message_count, Some(1));
    let missing = group_members::Params { chatroom_id: Some("9".into()), ..Default::default() };
    let err = group_members::handle(&store, &missing).unwrap_err();
    assert_eq!((err.code, err.message.as_str()), (404, "群聊不存在: 9"));
    let err = group_members::handle(&store, &group_members::Params::default()).unwrap_err();
    assert_eq!((err.code, err.message.as_str()), (400, "缺少必填参数 chatroomId"));
}

#[test]
fn contacts_page_by_lowered_display_name() {
    let mut store = Store::default();
    for (uid, nick) in [("u_1", "beta"), ("u_2", "Alpha"), ("u_3", "Éclair"), ("u_4", "alpha")] {
        store.uid_names.insert(uid.into(), nick.into());
    }
    store.names.uid_qq.insert("u_2".into(), "10002".into());
    let (all, total) = query_contacts(&store, None, 9, 0);
    let order: Vec<&str> = all.iter().map(|c| c.username.as_str()).collect();
    assert_eq!(order, vec!["u_2", "u_4", "u_1", "u_3"]);
    assert_eq!(total, 4);
    assert_eq!(all[0].alias, "10002");
    let (page, total) = query_contacts(&store, Some("ALPHA"), 1, 1);
    assert_eq!((page[0].username.as_str(), total), ("u_4", 2), "total counts what matches, not the page");
    let (page, total) = query_contacts(&store, Some("éclair"), 9, 0);
    assert_eq!((page.len(), total), (1, 1), "letters beyond ASCII fold too");
}

#[test]
fn contacts_hold_everyone_known() {
    let mut store = test_store();
    // Known by account number only, and a sender whose nickname was always empty.
    store.names.uid_qq.insert("u_qq".into(), "10009".into());
    let mut silent = message(5, SEQ2, "u_silent", "", 0, ParsedMessage::simple(MsgType::Text, "x"));
    silent.chat_type = ChatType::C2c;
    silent.talker = "u_silent".into();
    store.convs.insert(
        conv_key(ChatType::C2c, "u_silent"),
        Conversation {
            chat_type: ChatType::C2c,
            talker: "u_silent".into(),
            name: String::new(),
            msgs: vec![silent],
            dirty: false,
        },
    );
    store.names.uid_remark.insert("u_a".into(), "同事".into());
    let names = |k: Option<&str>| -> Vec<String> {
        query_contacts(&store, k, 99, 0).0.iter().map(|c| c.username.clone()).collect()
    };
    let mut all = names(None);
    all.sort();
    assert_eq!(all, vec!["u_a", "u_b", "u_qq", "u_silent"]);
    let (found, total) = query_contacts(&store, Some("U_QQ"), 99, 0);
    assert_eq!((found[0].alias.as_str(), found[0].nickname.as_str(), total), ("10009", "", 1));
    assert_eq!(names(Some("张三")), vec!["u_a"], "by nickname");
    assert!(names(Some("同事")).is_empty(), "a remark is neither the username nor the nickname");
    // Rows without a sender name nobody.
    let m = message(9, SEQ2, "", "", 3, ParsedMessage::simple(MsgType::System, "x"));
    let mut empty = Store::default();
    empty.convs.insert(
        conv_key(ChatType::Group, "10001"),
        Conversation {
            chat_type: ChatType::Group,
            talker: "10001".into(),
            name: String::new(),
            msgs: vec![m],
            dirty: false,
        },
    );
    assert_eq!(query_contacts(&empty, None, 9, 0).1, 0);
}

#[test]
fn matching_sessions_are_newest_first() {
    let mut store = Store::default();
    for (talker, name, ts) in [("1", "甲组", 10), ("2", "别的", 40), ("3", "乙组", 30), ("4", "丙组", 20)] {
        let mut m = rec(1, ts);
        m.talker = talker.into();
        store.convs.insert(
            conv_key(ChatType::Group, talker),
            Conversation {
                chat_type: ChatType::Group,
                talker: talker.into(),
                name: name.into(),
                msgs: vec![m],
                dirty: false,
            },
        );
    }
    let found = query_sessions(&store, Some("组"), 9, 0);
    let order: Vec<&str> = found.iter().map(|s| s.username.as_str()).collect();
    assert_eq!(order, vec!["3", "4", "1"]);
}

#[test]
fn talkers_are_classified_by_shape() {
    assert_eq!(classify_talker("10001"), (ChatType::Group, "10001"));
    assert_eq!(classify_talker("u_abc"), (ChatType::C2c, "u_abc"));
}

#[test]
fn message_requests_need_a_talker() {
    let store = test_store();
    let err = messages::handle(&store, &messages::Params::default()).unwrap_err();
    assert_eq!(err.code, 400);
    let params = messages::Params { talker: Some("10001".into()), limit: 0, ..Default::default() };
    let (rows, more) = messages::handle(&store, &params).unwrap();
    assert_eq!((rows.len(), more), (1, true), "a limit of 0 is brought to 1");
}

#[test]
fn reply_modes_and_switches() {
    let p = |chatlab: FlexBool, media: FlexBool, format: Option<&str>| {
        messages::reply_mode(&messages::Params {
            chatlab,
            media,
            format: format.map(String::from),
            ..Default::default()
        })
    };
    assert_eq!(p(FlexBool::True, FlexBool::True, None), messages::ReplyMode::Chatlab);
    assert_eq!(p(FlexBool::Unset, FlexBool::Unset, Some("chatlab")), messages::ReplyMode::Chatlab);
    assert_eq!(p(FlexBool::False, FlexBool::True, None), messages::ReplyMode::Export);
    assert_eq!(p(FlexBool::Unset, FlexBool::False, None), messages::ReplyMode::Plain);
    let opts = messages::export_options(&messages::Params { image: FlexBool::False, ..Default::default() });
    assert_eq!((opts.image, opts.voice, opts.video, opts.emoji), (false, true, true, true));
    let text = |s: &str| FlexBool::from_value(&SwitchValue::Text(s.into()));
    assert_eq!(text("1"), Some(FlexBool::True));
    assert_eq!(text("TRUE"), Some(FlexBool::True));
    assert_eq!(text("False"), Some(FlexBool::False));
    assert_eq!(text("maybe"), Some(FlexBool::Unset));
    assert_eq!(FlexBool::from_value(&SwitchValue::Bool(false)), Some(FlexBool::False));
    assert_eq!(FlexBool::from_value(&SwitchValue::Null), Some(FlexBool::Unset));
    assert_eq!(FlexBool::from_value(&SwitchValue::Other), None);
    assert_eq!((FlexBool::True.to_json(), FlexBool::Unset.to_json()), (Some(true), None));
    for s in [FlexBool::True, FlexBool::False] {
        assert_eq!(FlexBool::from_value(&SwitchValue::Bool(s.to_json().unwrap())), Some(s));
    }
}

#[test]
fn envelopes_tell_of_the_export() {
    let store = test_store();
    let rows = || query_messages(&store, &ask("10001", 9, 0)).0;
    let plain = messages::envelope("10001", rows(), false, None);
    assert_eq!((plain.count, plain.export_path.as_str(), plain.media_count), (2, "", 1));
    assert!(plain.media_enabled);
    let exported = messages::envelope("10001", rows(), true, Some(("/srv/out", 0)));
    assert_eq!((exported.export_path.as_str(), exported.media_count, exported.has_more), ("/srv/out", 0, true));
}

#[test]
fn time_bound_parsing() {
    assert_eq!(
        parse_time_bound("20260801", false),
        Some(1785542400) // 2026-08-01 00:00:00 UTC
    );
    assert_eq!(
        parse_time_bound("20260801", true),
        Some(1785628799) // 23:59:59 same day
    );
    assert_eq!(parse_time_bound("1782835200", false), Some(1782835200));
    assert_eq!(parse_time_bound("garbage", false), None);
}

#[test]
fn dates_are_read_as_days() {
    assert_eq!(parse_time_bound("19700101", false), Some(0));
    assert_eq!(parse_time_bound("19691231", true), Some(-1));
    assert_eq!(parse_time_bound("20240229", false), Some(1709164800));
    assert_eq!(parse_time_bound("20230229", false), None, "no such day");
    assert_eq!(parse_time_bound("20231301", false), None, "no such month");
    assert_eq!(parse_time_bound("00000101", false), Some(-62167219200));
    assert_eq!(parse_opt_bound(None, true), None);
    assert_eq!(parse_opt_bound(Some("-5"), true), Some(-5));
}

#[test]
fn event_json_shape() {
    let ev = Event::message_new(
        ChatType::Group,
        "10001".into(),
        Some("项目群".into()),
        42,
        Some("张三".into()),
        "你好".into(),
        1782835200,
        None,
        None,
    );
    assert_eq!(ev.event, "message.new");
    assert_eq!(ev.session_id, "10001");
    assert_eq!(ev.session_type, "group");
    assert_eq!(ev.rawid, "42");
    assert_eq!(ev.group_name.as_deref(), Some("项目群"));
    assert!(ev.last_rowid_group.is_none(), "new events must not carry sync fields");
    assert!(ev.media.is_none(), "no media -> key absent");
    assert!(ev.media_id.is_none(), "no media -> no mediaId");
}

#[test]
fn event_json_carries_media() {
    let info = MediaInfo::from(MediaSegment {
        uuid: Some("R020-test".into()),
        md5_hex: Some("aabbccddeeff00112233445566778899".into()),
        file_name: Some("aabb.png".into()),
        size: Some(1234),
        width: Some(640),
        height: Some(480),
        local_path: Some(r"C:\SomeUser\nt_qq\nt_data\Pic\2026-08\aabb.png".into()),
        ..Default::default()
    });
    let ev = Event::message_new(
        ChatType::Group,
        "10001".into(),
        Some("项目群".into()),
        43,
        Some("李四".into()),
        "[image]".into(),
        1782835200,
        Some(info),
        Some("aabbccddeeff00112233445566778899".into()), // registered -> fetchable
    );
    let m = ev.media.as_ref().expect("media rides along");
    assert_eq!(m.md5.as_deref(), Some("aabbccddeeff00112233445566778899"));
    assert_eq!(m.uuid.as_deref(), Some("R020-test"));
    assert_eq!(m.width, Some(640));
    assert!(!format!("{ev:?}").contains("SomeUser"), "the raw QQ cache path must never be pushed");
    assert_eq!(ev.media_id.as_deref(), Some("aabbccddeeff00112233445566778899"));
}

#[test]
fn event_json_media_id_omitted_when_not_fetchable() {
    let info = MediaInfo::from(MediaSegment {
        md5_hex: Some("aabbccddeeff00112233445566778899".into()),
        local_path: None,
        ..Default::default()
    });
    let ev = Event::message_new(
        ChatType::Group,
        "10001".into(),
        Some("项目群".into()),
        44,
        Some("王五".into()),
        "[image]".into(),
        1782835200,
        Some(info),
        None, // not registered -> no mediaId
    );
    assert!(ev.media.is_some_and(|m| m.md5.is_some()), "media object still rides along");
    assert!(ev.media_id.is_none(), "mediaId omitted when not fetchable");
}

#[test]
fn pushed_and_queried_messages_agree() {
    let store = store_with_names();
    let conv = store.conversation(ChatType::Group, "10001").unwrap();
    let (rows, _) = query_messages(&store, &ask("10001", 1, 0));
    let ev = record_event(&store, &conv.msgs[1]);
    assert_eq!(ev.event, "message.new");
    assert_eq!(ev.source_name.as_deref(), Some(rows[0].sender_name.as_str()));
    assert_eq!(ev.media_id, rows[0].media_id);
    assert_eq!((ev.timestamp, ev.content.as_str()), (rows[0].create_time, rows[0].content.as_str()));
}

#[test]
fn recalls_and_baselines_carry_no_media() {
    let ev = Event::message_revoke(ChatType::C2c, "u_a".into(), None, -7, None, "撤回".into(), 5);
    assert_eq!((ev.event.as_str(), ev.rawid.as_str(), ev.session_type.as_str()), ("message.revoke", "-7", "private"));
    assert!(ev.media.is_none() && ev.media_id.is_none());
    let ev = Event::sync(42, 7, 1);
    assert_eq!((ev.event.as_str(), ev.last_rowid_group, ev.last_rowid_c2c), ("sync", Some(42), Some(7)));
}

//! Wire decoding, heuristics and message types.

use qqflow_server::parser::proto::{parse_msg_body, Cursor, MediaSegment, FIELD_CONTENT_TYPE, FIELD_FILE_NAME,
    FIELD_HEIGHT, FIELD_LOCAL_PATH, FIELD_MD5_HEX, FIELD_MEDIA_SUBTYPE, FIELD_MSG_CONTENT, FIELD_RAW_MD5,
    FIELD_SEG_ID, FIELD_SIZE, FIELD_TEXT, FIELD_URL_THUMB, FIELD_UUID, FIELD_WIDTH};
use qqflow_server::parser::types::{direction_to_is_send, seq_to_time, ChatType, MediaInfo, MsgType};
use qqflow_server::parser::{extract_message, extract_structured, extract_text};

fn enc_varint(mut v: u64, out: &mut Vec<u8>) {
    loop {
        let b = (v & 0x7f) as u8;
        v >>= 7;
        if v == 0 {
            out.push(b);
            break;
        }
        out.push(b | 0x80);
    }
}

fn enc_field(field: u64, wire: u64, payload: &[u8], out: &mut Vec<u8>) {
    enc_varint((field << 3) | wire, out);
    out.extend_from_slice(payload);
}

fn varint_field(field: u64, v: u64, out: &mut Vec<u8>) {
    let mut payload = Vec::new();
    enc_varint(v, &mut payload);
    enc_field(field, 0, &payload, out);
}

fn bytes_field(field: u64, bytes: &[u8], out: &mut Vec<u8>) {
    let mut payload = Vec::new();
    enc_varint(bytes.len() as u64, &mut payload);
    payload.extend_from_slice(bytes);
    enc_field(field, 2, &payload, out);
}

fn segment(fields: &[u8]) -> Vec<u8> {
    let mut body = Vec::new();
    bytes_field(FIELD_MSG_CONTENT, fields, &mut body);
    body
}

fn text_segment(text: &str) -> Vec<u8> {
    let mut seg = Vec::new();
    varint_field(45002, 1, &mut seg);
    bytes_field(45101, text.as_bytes(), &mut seg);
    segment(&seg)
}

fn image_segment() -> Vec<u8> {
    let mut seg = Vec::new();
    varint_field(45002, 2, &mut seg);
    varint_field(45003, 1, &mut seg);
    bytes_field(45503, b"R020-uuid", &mut seg);
    bytes_field(45402, b"9f2a.png", &mut seg);
    bytes_field(45424, b"9f2a1c2d3e4f5a6b7c8d9e0f1a2b3c4d", &mut seg);
    varint_field(45405, 152340, &mut seg);
    varint_field(45411, 1080, &mut seg);
    varint_field(45412, 1920, &mut seg);
    bytes_field(45812, b"C:\\SomeUser\\nt_data\\Pic\\2026-08\\9f2a.png", &mut seg);
    segment(&seg)
}

#[test]
fn empty_and_garbage_inputs() {
    assert!(parse_msg_body(b"").is_empty());
    assert!(parse_msg_body(&[0xFF, 0xFF, 0xFF]).is_empty(), "over-long varint");
    assert!(parse_msg_body(b"garbage not protobuf").is_empty());
}

#[test]
fn decodes_text_segment() {
    let mut seg = Vec::new();
    varint_field(FIELD_SEG_ID, 7, &mut seg);
    varint_field(FIELD_CONTENT_TYPE, 1, &mut seg);
    bytes_field(FIELD_TEXT, "你好，世界".as_bytes(), &mut seg);
    let parsed = parse_msg_body(&segment(&seg));
    assert_eq!(parsed.len(), 1);
    assert_eq!(parsed[0].seg_id, Some(7));
    assert_eq!(parsed[0].content_type, Some(1));
    assert_eq!(parsed[0].text.as_deref(), Some("你好，世界"));
}

#[test]
fn decodes_image_segment_with_all_fields() {
    let mut seg = Vec::new();
    varint_field(FIELD_CONTENT_TYPE, 2, &mut seg);
    varint_field(FIELD_MEDIA_SUBTYPE, 1, &mut seg);
    bytes_field(FIELD_UUID, b"R020-uuid", &mut seg);
    bytes_field(FIELD_FILE_NAME, b"aabb.png", &mut seg);
    bytes_field(FIELD_RAW_MD5, &[0xaa; 16], &mut seg);
    bytes_field(FIELD_MD5_HEX, b"aabbccddeeff00112233445566778899", &mut seg);
    varint_field(FIELD_SIZE, 12345, &mut seg);
    varint_field(FIELD_WIDTH, 640, &mut seg);
    varint_field(FIELD_HEIGHT, 480, &mut seg);
    bytes_field(FIELD_LOCAL_PATH, b"C:\\nt_data\\Pic\\2026-08\\x.png", &mut seg);
    bytes_field(FIELD_URL_THUMB, b"https://cdn.example/thumb", &mut seg);
    let parsed = parse_msg_body(&segment(&seg));
    let m = parsed[0].media.as_ref().expect("media segment");
    assert_eq!(m.uuid.as_deref(), Some("R020-uuid"));
    assert_eq!(m.file_name.as_deref(), Some("aabb.png"));
    assert_eq!(m.raw_md5.as_deref(), Some(&[0xaa; 16][..]));
    assert_eq!(m.md5_hex.as_deref(), Some("aabbccddeeff00112233445566778899"));
    assert_eq!(m.size, Some(12345));
    assert_eq!((m.width, m.height), (Some(640), Some(480)));
    assert_eq!(m.local_path.as_deref(), Some("C:\\nt_data\\Pic\\2026-08\\x.png"));
    assert_eq!(m.urls, vec!["https://cdn.example/thumb"]);
    assert_eq!(parsed[0].content_type, Some(2));
}

#[test]
fn truncated_tail_keeps_prior_fields() {
    let mut seg = Vec::new();
    varint_field(FIELD_CONTENT_TYPE, 2, &mut seg);
    varint_field(FIELD_SEG_ID, 9, &mut seg);
    bytes_field(FIELD_MD5_HEX, b"ab", &mut seg);
    let len_pos = seg.len() - 3;
    seg[len_pos] = 32;
    let parsed = parse_msg_body(&segment(&seg));
    assert!(!parsed.is_empty());
    assert_eq!(parsed[0].seg_id, Some(9), "prior fields survive truncation");
    assert!(parsed[0].media.is_none(), "corrupt tail yields no media");
}

#[test]
fn wire_type_3_or_4_bails_to_partial() {
    let mut body = Vec::new();
    enc_field(FIELD_MSG_CONTENT, 3, &[], &mut body);
    assert!(parse_msg_body(&body).is_empty());
}

#[test]
fn unknown_fields_are_skipped() {
    let mut seg = Vec::new();
    varint_field(FIELD_CONTENT_TYPE, 1, &mut seg);
    varint_field(999999, 7, &mut seg);
    bytes_field(888888, b"unknown", &mut seg);
    varint_field(777777, 0, &mut seg);
    varint_field(FIELD_SEG_ID, 1, &mut seg);
    bytes_field(FIELD_TEXT, b"after unknowns", &mut seg);
    let parsed = parse_msg_body(&segment(&seg));
    assert_eq!(parsed.len(), 1);
    assert_eq!(parsed[0].text.as_deref(), Some("after unknowns"));
}

#[test]
fn multi_segment_preserves_order() {
    let mut seg1 = Vec::new();
    varint_field(FIELD_CONTENT_TYPE, 1, &mut seg1);
    bytes_field(FIELD_TEXT, b"first", &mut seg1);
    let mut seg2 = Vec::new();
    varint_field(FIELD_CONTENT_TYPE, 1, &mut seg2);
    bytes_field(FIELD_TEXT, b"second", &mut seg2);
    let mut body = Vec::new();
    bytes_field(FIELD_MSG_CONTENT, &seg1, &mut body);
    bytes_field(FIELD_MSG_CONTENT, &seg2, &mut body);
    let parsed = parse_msg_body(&body);
    assert_eq!(parsed.len(), 2);
    assert_eq!(parsed[0].text.as_deref(), Some("first"));
    assert_eq!(parsed[1].text.as_deref(), Some("second"));
}

#[test]
fn fixed_width_fields_are_skipped_and_numbers_wrap() {
    let mut seg = Vec::new();
    enc_field(12, 1, &[1, 2, 3, 4, 5, 6, 7, 8], &mut seg);
    enc_field(13, 5, &[1, 2, 3, 4], &mut seg);
    varint_field(FIELD_SIZE, u64::MAX, &mut seg);
    varint_field(FIELD_WIDTH, 0xFFFF_FFFF, &mut seg);
    varint_field(FIELD_HEIGHT, 0x1_0000_0005, &mut seg);
    let parsed = parse_msg_body(&segment(&seg));
    let m = parsed[0].media.as_ref().expect("size alone makes it media");
    assert_eq!(m.size, Some(-1));
    assert_eq!(m.width, Some(-1));
    assert_eq!(m.height, Some(5));
}

#[test]
fn ten_byte_varint_is_the_longest() {
    let mut seg = Vec::new();
    enc_varint(FIELD_SEG_ID << 3, &mut seg);
    seg.extend_from_slice(&[0xFF; 10]);
    seg.push(0x01);
    // The over-long value of a known field is dropped, and reading goes on behind it.
    let parsed = parse_msg_body(&segment(&seg));
    assert_eq!(parsed.len(), 1);
    assert_eq!(parsed[0].seg_id, None);
}

#[test]
fn varints_end_below_0x80_within_ten_bytes() {
    // Ten bytes with the high bit set: no tag is read.
    assert!(parse_msg_body(&[0x80; 10]).is_empty());
    assert!(parse_msg_body(&[0x80; 3]).is_empty());
    // The tenth byte ends the value: it is read, with what follows behind it.
    let mut seg = Vec::new();
    enc_varint(FIELD_SEG_ID << 3, &mut seg);
    seg.extend_from_slice(&[0x80; 9]);
    seg.push(0x01);
    varint_field(FIELD_CONTENT_TYPE, 1, &mut seg);
    let parsed = parse_msg_body(&segment(&seg));
    assert_eq!((parsed[0].seg_id, parsed[0].content_type), (Some(1 << 63), Some(1)));
}

#[test]
fn cursor_reads_encodings_back() {
    for v in [0u64, 1, 127, 128, 300, 1 << 35, u64::MAX] {
        let mut buf = Vec::new();
        enc_varint(v, &mut buf);
        let n = buf.len();
        buf.extend_from_slice(&[0x80, 0x01]);
        let mut c = Cursor::new(&buf);
        assert_eq!((c.read_varint(), c.pos), (Some(v), n));
        assert_eq!((c.read_varint(), c.pos), (Some(128), n + 2));
        assert_eq!((c.read_varint(), c.pos), (None, n + 2), "nothing is left");
    }
    let buf = [0x80u8; 12];
    let mut c = Cursor::new(&buf);
    assert_eq!((c.read_varint(), c.pos), (None, 10), "ten bytes at most");
}

#[test]
fn bodies_concatenate_and_cuts_drop_from_the_end() {
    let mut a = text_segment("first");
    varint_field(7, 1, &mut a);
    enc_field(8, 1, &[0; 8], &mut a);
    enc_field(9, 5, &[0; 4], &mut a);
    let b = image_segment();
    let texts = |blob: &[u8]| -> Vec<(Option<u64>, Option<String>)> {
        parse_msg_body(blob).into_iter().map(|s| (s.content_type, s.text)).collect()
    };
    let mut both = a.clone();
    both.extend_from_slice(&b);
    let mut expected = texts(&a);
    expected.extend(texts(&b));
    assert_eq!(texts(&both), expected);
    for n in 0..=both.len() {
        let cut = texts(&both[..n]);
        assert_eq!(cut[..], expected[..cut.len()], "cut at {n}");
    }
}

#[test]
fn structured_results_show_something() {
    assert!(extract_structured(b"").is_none());
    let mut seg = Vec::new();
    varint_field(45002, 9, &mut seg);
    bytes_field(45101, b"text", &mut seg);
    assert!(extract_structured(&segment(&seg)).is_none(), "no known content type");
    let p = extract_structured(&text_segment("t")).unwrap();
    assert!(p.msg_type == MsgType::Text && p.media.is_none() && p.content == "t");
    let p = extract_structured(&image_segment()).unwrap();
    assert!(p.msg_type == MsgType::Image && p.media.is_some() && p.content == "[image]");
}

#[test]
fn known_segments_with_nothing_to_show_fall_back() {
    // A media segment without metadata and a text segment without text.
    for ct in [1u64, 2, 4, 5, 6] {
        let mut seg = Vec::new();
        varint_field(45002, ct, &mut seg);
        let blob = segment(&seg);
        let (a, b) = (extract_message(&blob), extract_text(&blob));
        assert_eq!((a.msg_type, a.content), (b.msg_type, b.content), "ct={ct}");
        assert!(a.media.is_none());
    }
}

#[test]
fn emoji_text_stands_in_for_missing_text() {
    let mut seg = Vec::new();
    varint_field(45002, 6, &mut seg);
    bytes_field(45101, b"", &mut seg);
    bytes_field(47602, "/微笑".as_bytes(), &mut seg);
    let p = extract_message(&segment(&seg));
    assert_eq!(p.msg_type, MsgType::Text);
    assert_eq!(p.content, "/微笑");
}

#[test]
fn media_key_prefers_md5_then_file_name_md5_then_uuid() {
    let mk = |md5: Option<String>, name: Option<&str>, uuid: Option<&str>| {
        MediaInfo::from(MediaSegment {
            md5_hex: md5,
            file_name: name.map(String::from),
            uuid: uuid.map(String::from),
            ..Default::default()
        })
    };
    let m = mk(Some("aabbccddeeff00112233445566778899".into()), Some("OTHER.png"), None);
    assert_eq!(m.key(), Some("aabbccddeeff00112233445566778899"));
    let m = mk(Some("41675A034F01EEDEAEC4D93CBFBB4A06".into()), Some("41675A034F01EEDEAEC4D93CBFBB4A06.png"), None);
    assert_eq!(m.key(), Some("41675a034f01eedeaec4d93cbfbb4a06"), "45424 md5 lowercased");
    let m = mk(Some(String::new()), Some("41675A034F01EEDEAEC4D93CBFBB4A06.png"), None);
    assert_eq!(m.key(), Some("41675a034f01eedeaec4d93cbfbb4a06"), "file-name md5 fallback, lowercased");
    let m = mk(None, Some("not-a-md5.png"), Some("R020"));
    assert_eq!(m.key(), Some("R020"));
    assert_eq!(MediaInfo::default().key(), None);
}

#[test]
fn plain_text_unchanged_by_structured_pass() {
    for blob in [
        "你好，很高兴认识你".as_bytes().to_vec(),
        b"hello world 12345".to_vec(),
        vec![0xE5, 0x8F, 0x91],
        b"".to_vec(),
    ] {
        let a = extract_message(&blob);
        let b = extract_text(&blob);
        assert_eq!(a.msg_type, b.msg_type, "blob {blob:?}");
        assert_eq!(a.content, b.content, "blob {blob:?}");
        assert!(a.media.is_none(), "no structured media on heuristic path");
    }
}

#[test]
fn structured_text_exact() {
    let p = extract_message(&text_segment("结构化正文，含标点！"));
    assert_eq!(p.msg_type, MsgType::Text);
    assert_eq!(p.content, "结构化正文，含标点！");
    assert!(p.media.is_none());
}

#[test]
fn structured_image_exact_metadata() {
    let p = extract_message(&image_segment());
    assert_eq!(p.msg_type, MsgType::Image);
    assert_eq!(p.content, "[image]");
    let m = p.media.expect("image metadata");
    assert_eq!(m.key(), Some("9f2a1c2d3e4f5a6b7c8d9e0f1a2b3c4d"));
    assert_eq!(m.md5.as_deref(), Some("9f2a1c2d3e4f5a6b7c8d9e0f1a2b3c4d"));
    assert_eq!(m.uuid.as_deref(), Some("R020-uuid"));
    assert_eq!(m.file_name.as_deref(), Some("9f2a.png"));
    assert_eq!(m.size, Some(152340));
    assert_eq!((m.width, m.height), (Some(1080), Some(1920)));
    assert_eq!(m.local_path.as_deref(), Some("C:\\SomeUser\\nt_data\\Pic\\2026-08\\9f2a.png"));
    assert!(m.urls.is_empty());
}

#[test]
fn mixed_text_and_image_keeps_both() {
    let mut seg1 = Vec::new();
    varint_field(45002, 1, &mut seg1);
    bytes_field(45101, "看这个".as_bytes(), &mut seg1);
    let mut seg2 = Vec::new();
    varint_field(45002, 2, &mut seg2);
    varint_field(45003, 1, &mut seg2);
    bytes_field(45424, b"aabbccddeeff00112233445566778899", &mut seg2);
    let mut body = Vec::new();
    bytes_field(40800, &seg1, &mut body);
    bytes_field(40800, &seg2, &mut body);
    let p = extract_message(&body);
    assert_eq!(p.msg_type, MsgType::Image, "media type wins");
    assert_eq!(p.content, "看这个", "caption kept as content");
    assert_eq!(p.media.as_ref().and_then(MediaInfo::key), Some("aabbccddeeff00112233445566778899"));
}

#[test]
fn text_segments_join_by_line_and_first_medium_wins() {
    let mut body = Vec::new();
    for (ct, text) in [(1u64, "甲"), (6, "乙")] {
        let mut seg = Vec::new();
        varint_field(45002, ct, &mut seg);
        bytes_field(45101, text.as_bytes(), &mut seg);
        bytes_field(40800, &seg, &mut body);
    }
    for (ct, uuid) in [(4u64, "voice-1"), (5, "video-2")] {
        let mut seg = Vec::new();
        varint_field(45002, ct, &mut seg);
        bytes_field(45503, uuid.as_bytes(), &mut seg);
        bytes_field(40800, &seg, &mut body);
    }
    let p = extract_message(&body);
    assert_eq!(p.content, "甲\n乙");
    assert_eq!(p.msg_type, MsgType::Voice);
    assert_eq!(p.media.as_ref().and_then(MediaInfo::key), Some("voice-1"));
}

#[test]
fn unknown_content_type_falls_back_to_heuristic() {
    for ct in [3u64, 9, 99] {
        let mut seg = Vec::new();
        varint_field(45002, ct, &mut seg);
        bytes_field(45101, "正文".as_bytes(), &mut seg);
        let p = extract_message(&segment(&seg));
        assert!(p.media.is_none(), "ct={ct}");
        assert!(matches!(p.msg_type, MsgType::Text | MsgType::Other));
    }
}

#[test]
fn malformed_structured_blob_falls_back() {
    for blob in [vec![0xFF, 0xFF, 0xFF], vec![0x80, 0x80], b"not protobuf".to_vec()] {
        let p = extract_message(&blob);
        let h = extract_text(&blob);
        assert_eq!(p.msg_type, h.msg_type, "fallback equals heuristic for {blob:?}");
    }
}

#[test]
fn text_mentioning_image_signature_stays_text() {
    let mut seg = Vec::new();
    varint_field(45002, 1, &mut seg);
    bytes_field(45101, "请查收 file.jpg 的修改意见".as_bytes(), &mut seg);
    let p = extract_message(&segment(&seg));
    assert_eq!(p.msg_type, MsgType::Text);
    assert!(p.content.contains("file.jpg"));
}

#[test]
fn direction_mapping() {
    assert_eq!(direction_to_is_send(0), 0, "other");
    assert_eq!(direction_to_is_send(1), 1, "self");
    assert_eq!(direction_to_is_send(2), 1, "self (variant)");
    assert_eq!(direction_to_is_send(3), 0, "system");
}

#[test]
fn empty_blob() {
    let p = extract_text(b"");
    assert_eq!(p.content, "[空]");
}

#[test]
fn plain_text() {
    let p = extract_text("你好，很高兴认识你".as_bytes());
    assert_eq!(p.msg_type, MsgType::Text);
    assert!(p.content.contains("你好"));
}

#[test]
fn ascii_text() {
    let p = extract_text("hello world 12345".as_bytes());
    assert_eq!(p.msg_type, MsgType::Text);
    assert!(p.content.contains("hello"));
}

#[test]
fn recall_detection() {
    let p = extract_text("xxx撤回了一条消息\n你猜猜撤回了什么".as_bytes());
    assert_eq!(p.msg_type, MsgType::Recall);
}

#[test]
fn media_detection() {
    let mut blob = vec![b'a'; 70_000];
    blob[5000..5008].copy_from_slice(b".jpg.exe");
    let p = extract_text(&blob);
    assert_eq!(p.msg_type, MsgType::Image);
}

#[test]
fn short_garbage_is_other() {
    let p = extract_text(&[0xE5, 0x8F, 0x91]);
    assert!(matches!(p.msg_type, MsgType::Other | MsgType::Text));
}

#[test]
fn miniapp_json_fields_extracted() {
    let blob = r#"{"appID":"x","prompt":"分享一个链接","desc":"有趣内容","title":"标题"}"#.as_bytes();
    let p = extract_text(blob);
    assert_eq!(p.msg_type, MsgType::Other);
    assert!(p.content.contains("分享一个链接"), "got: {}", p.content);
    assert!(p.content.contains("有趣内容"), "got: {}", p.content);
    assert!(p.content.contains("标题"), "got: {}", p.content);
}

#[test]
fn miniapp_bracket_label_stripped_not_text() {
    let blob = r#"{"appID":"x","prompt":"[小程序]分享一个链接","desc":"有趣内容"}"#.as_bytes();
    let p = extract_text(blob);
    assert_eq!(p.msg_type, MsgType::Other);
    assert!(p.content.contains("分享一个链接"), "got: {}", p.content);
    assert!(!p.content.contains('['), "got: {}", p.content);
}

#[test]
fn miniapp_json_fallback_label() {
    let blob = r#"{"type":1,"code":2,"data":{},"x":true,"y":null,"z":12345}"#.as_bytes();
    let p = extract_text(blob);
    assert_eq!(p.msg_type, MsgType::Other);
    assert!(p.content.contains("小程序"), "got: {}", p.content);
}

#[test]
fn miniapp_parts_are_distinct_and_unescaped() {
    let blob = r#"{"prompt":"同一句","desc":"同一句","title":"a\/b\"c","nick":"张三","k":{"x":[1]}}"#.as_bytes();
    let p = extract_text(blob);
    assert_eq!(p.msg_type, MsgType::Other);
    assert_eq!(p.content, "同一句 | a/b\"c | 来自: 张三");
}

#[test]
fn rename_message_is_system() {
    let p = extract_text("群主已将群名修改为「测试群」".as_bytes());
    assert_eq!(p.msg_type, MsgType::System);
}

#[test]
fn plain_ascii_is_not_miniapp() {
    let p = extract_text(b"aaaaaaaaaaaaaaaaaaaaaaaaaaaaaaaaaaaaaaaaaaaaaaaaaaaaaaaaaaaa");
    assert_eq!(p.msg_type, MsgType::Text);
}

#[test]
fn heuristic_exact_results() {
    // Voice and video signatures, in any letter case.
    assert_eq!(extract_text(b"xx.SILK").content, "[voice]");
    assert_eq!(extract_text(b"a ShortVideo b").content, "[video]");
    // A large blob without a signature.
    assert_eq!(extract_text(&vec![0u8; 65537]).content, "[未知大消息]");
    assert_eq!(extract_text(&vec![0u8; 65536]).content, "[无法解析]");
    // The longest Han run wins, the first among equals.
    let mut blob = "天地玄黄".as_bytes().to_vec();
    blob.push(0xFF);
    blob.extend_from_slice("宇宙洪荒日月".as_bytes());
    let p = extract_text(&blob);
    assert_eq!((p.msg_type, p.content.as_str()), (MsgType::Text, "宇宙洪荒日月"));
    // Three of five Han characters are not more than 60%.
    let p = extract_text("天地玄ab".as_bytes());
    assert_eq!(p.content, "ab");
    // ASCII runs are trimmed, and need two letters or digits.
    assert_eq!(extract_text(b"\x01  hi there \x02").content, "hi there");
    assert_eq!(extract_text(b"\x01 a! \x02").content, "[无法解析]");
}

#[test]
fn type_codes_in_both_spaces() {
    let all = [
        (MsgType::Text, 0, 0),
        (MsgType::Image, 3, 1),
        (MsgType::Voice, 4, 2),
        (MsgType::Video, 5, 3),
        (MsgType::Recall, 6, 81),
        (MsgType::System, 7, 80),
        (MsgType::Other, 1, 99),
    ];
    for (t, code, chatlab) in all {
        assert_eq!(t.code(), code);
        assert_eq!(t.chatlab_type(), chatlab);
        assert_eq!(MsgType::from_code(code), t);
    }
    assert_eq!(MsgType::from_code(42), MsgType::Other);
    assert_eq!(MsgType::Voice.media_type_str(), Some("voice"));
    assert_eq!(MsgType::Text.media_type_str(), None);
    assert_eq!(ChatType::Group.weflow_code(), 2);
    assert_eq!(ChatType::C2c.as_str(), "private");
}

#[test]
fn seq_time_extraction() {
    let seq = (0x6771A6B5i64 << 32) | 1;
    assert_eq!(seq_to_time(seq), 0x6771A6B5);
    assert_eq!(seq_to_time(-1), -1);
    assert_eq!(seq_to_time(i64::MIN), i64::MIN >> 32);
}

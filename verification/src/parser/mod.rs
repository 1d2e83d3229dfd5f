//! Message BLOB parsing: structured wire decode first, heuristic fallback.
//!
//! Each message is a protobuf-like BLOB (column "40800"). `extract_message` tries the
//! wire layout first (`proto::parse_msg_body`: text from 45101, exact media metadata for
//! image/voice/video) and falls back to the heuristic parser (`extract_text`) when the
//! blob is no recognizable structured message. The heuristic reads text without a schema:
//!   * varint length prefixes often decode to CJK extension-block codepoints, so only
//!     common Han characters (U+4E00..U+9FA5) count
//!   * a candidate has at least 2 chars, more than 60% of them common
//!   * media is recognized by ASCII signatures (.jpg/.png/.gif/gchatpic, .amr/.silk/.ptt,
//!     shortvideo/.mp4)
//!   * recall/system messages are recognized by characteristic phrases
//!   * an iteration budget (n*50) bounds worst-case cost

use vstd::prelude::*;
use vstd::string::StringExecFns;
use vstd::utf8::{decode_utf8, encode_utf8, valid_utf8};

use crate::parser::proto::{
    decoded_body, decoded_segment, encodable, encode_body, encode_fields, last_varint,
    law_body_round_trip, law_fields_keep_to_their_slots, law_fields_survive_any_tail,
    law_number_fields_read_back, number_field, parse_msg_body, reread, segment_views, wire_fields,
    SegmentModel, WireField, WireValue, FIELD_CONTENT_TYPE, FIELD_TEXT,
};
use crate::parser::types::{
    media_of_segment, opt_media, simple_message, MediaInfo, MediaModel, MsgType, ParsedMessage,
    ParsedModel,
};
use crate::text::{
    char_is_alnum, chars_of, contains, contains_seq, find_char, find_from, first_char,
    first_occurrence, has_string, is_alnum, join, join_seq, opt_view, string_of, string_of_range, trim,
    trim_seq, trim_start, trim_start_seq, lossy_text, decode_lossy, utf8_string, views,
};

pub mod proto;
pub mod types;

verus! {

/// Blobs above this many bytes hold media, not text.
pub const MAX_TEXT_BLOB: usize = 65536;

/// A text has at least this many characters.
pub const MIN_TEXT_LEN: usize = 2;

/// CJK Unified Ideographs without the extension blocks.
pub open spec fn common_han(c: char) -> bool {
    '\u{4E00}' <= c <= '\u{9FA5}'
}

/// How many characters are common Han.
pub open spec fn han_count(s: Seq<char>) -> nat
    decreases s.len(),
{
    if s.len() == 0 {
        0
    } else {
        han_count(s.drop_last()) + if common_han(s.last()) {
            1nat
        } else {
            0
        }
    }
}

/// At least two characters, more than 60% of them common Han.
pub open spec fn valid_chat_text(s: Seq<char>) -> bool {
    s.len() >= MIN_TEXT_LEN && 5 * han_count(s) > 3 * s.len()
}

/// A character of JSON's own syntax.
pub open spec fn json_syntax(c: char) -> bool {
    c == '{' || c == '}' || c == '"' || c == ':' || c == '[' || c == ']'
}

/// How many characters are JSON syntax.
pub open spec fn json_count(s: Seq<char>) -> nat
    decreases s.len(),
{
    if s.len() == 0 {
        0
    } else {
        json_count(s.drop_last()) + if json_syntax(s.last()) {
            1nat
        } else {
            0
        }
    }
}

/// At least fifty characters, more than 12% of them JSON syntax.
pub open spec fn looks_like_json(s: Seq<char>) -> bool {
    s.len() >= 50 && 25 * json_count(s) > 3 * s.len()
}

/// A JSON string's content up to its closing quote; a backslash keeps the character
/// behind it.
pub open spec fn json_string_body(s: Seq<char>) -> Seq<char>
    decreases s.len(),
{
    if s.len() == 0 || s[0] == '"' {
        Seq::empty()
    } else if s[0] == '\\' {
        if s.len() == 1 {
            Seq::empty()
        } else {
            seq![s[1]] + json_string_body(s.skip(2))
        }
    } else {
        seq![s[0]] + json_string_body(s.drop_first())
    }
}

/// `s` with each `a` directly before a `b` replaced, together with it, by `to`.
pub open spec fn replace_pair_seq(s: Seq<char>, a: char, b: char, to: char) -> Seq<char>
    decreases s.len(),
{
    if s.len() == 0 {
        s
    } else if s.len() >= 2 && s[0] == a && s[1] == b {
        seq![to] + replace_pair_seq(s.skip(2), a, b, to)
    } else {
        seq![s[0]] + replace_pair_seq(s.drop_first(), a, b, to)
    }
}

/// `\/` reads as a slash, `\n` and `\t` as spaces; the ends are trimmed.
pub open spec fn clean_json_text(s: Seq<char>) -> Seq<char> {
    trim_seq(
        replace_pair_seq(
            replace_pair_seq(replace_pair_seq(s, '\\', '/', '/'), '\\', 'n', ' '),
            '\\',
            't',
            ' ',
        ),
    )
}

/// `"name":"`, which opens a JSON string field.
pub open spec fn json_field_opening(name: Seq<char>) -> Seq<char> {
    "\""@ + name + "\":\""@
}

/// The cleaned value of the first JSON string field `name`, if it is not empty.
pub open spec fn json_field(text: Seq<char>, name: Seq<char>) -> Option<Seq<char>> {
    let open = json_field_opening(name);
    match first_occurrence(text, open, 0) {
        Some(i) => {
            let value = clean_json_text(json_string_body(text.skip(i + open.len())));
            if value.len() == 0 {
                None
            } else {
                Some(value)
            }
        },
        None => None,
    }
}

/// A prompt without the bracketed label at its front.
pub open spec fn without_label(p: Seq<char>) -> Seq<char> {
    match first_char(p, ']', 0) {
        Some(i) => if p[0] == '[' {
            trim_start_seq(p.skip(i + 1))
        } else {
            p
        },
        None => p,
    }
}

/// `parts` with `o` joined to it, unless it is there already.
pub open spec fn with_distinct(parts: Seq<Seq<char>>, o: Option<Seq<char>>) -> Seq<Seq<char>> {
    match o {
        Some(s) => if parts.contains(s) {
            parts
        } else {
            parts.push(s)
        },
        None => parts,
    }
}

/// `parts` with the sender's line joined to it, unless some part contains that line.
pub open spec fn with_nick(parts: Seq<Seq<char>>, nick: Option<Seq<char>>) -> Seq<Seq<char>> {
    match nick {
        Some(n) => {
            let line = "来自: "@ + n;
            if exists|i: int| 0 <= i < parts.len() && contains_seq(#[trigger] parts[i], line) {
                parts
            } else {
                parts.push(line)
            }
        },
        None => parts,
    }
}

/// The readable parts of a mini-program, share or card.
pub open spec fn json_parts(text: Seq<char>) -> Seq<Seq<char>> {
    let prompt = match json_field(text, "prompt"@) {
        Some(p) => if without_label(p).len() > 0 {
            seq![without_label(p)]
        } else {
            Seq::empty()
        },
        None => Seq::empty(),
    };
    with_nick(
        with_distinct(with_distinct(prompt, json_field(text, "desc"@)), json_field(text, "title"@)),
        json_field(text, "nick"@),
    )
}

/// What a JSON-structured message displays; nothing for other texts.
pub open spec fn json_blob_text(text: Seq<char>) -> Option<Seq<char>> {
    if !looks_like_json(text) {
        None
    } else if json_parts(text).len() == 0 {
        Some("[小程序/分享]"@)
    } else {
        Some(join_seq(json_parts(text), " | "@))
    }
}

/// The ASCII small letter of a byte.
pub open spec fn lower_byte(b: u8) -> u8 {
    if 65 <= b <= 90 {
        (b + 32) as u8
    } else {
        b
    }
}

/// `p` stands in the bytes at `i`, whatever the letter case there.
pub open spec fn signature_at(blob: Seq<u8>, p: Seq<char>, i: int) -> bool {
    &&& 0 <= i
    &&& i + p.len() <= blob.len()
    &&& forall|k: int| 0 <= k < p.len() ==> lower_byte(#[trigger] blob[i + k]) as char == p[k]
}

/// `p` stands somewhere in the bytes, whatever the letter case there.
pub open spec fn has_signature(blob: Seq<u8>, p: Seq<char>) -> bool {
    exists|i: int| signature_at(blob, p, i)
}

/// The media kind that the ASCII signatures in a blob tell.
pub open spec fn media_signature(blob: Seq<u8>) -> Option<MsgType> {
    if has_signature(blob, ".jpg"@) || has_signature(blob, ".png"@) || has_signature(blob, ".gif"@)
        || has_signature(blob, "gchatpic"@) {
        Some(MsgType::Image)
    } else if has_signature(blob, ".amr"@) || has_signature(blob, ".silk"@) || has_signature(
        blob,
        ".ptt"@,
    ) {
        Some(MsgType::Voice)
    } else if has_signature(blob, "shortvideo"@) || has_signature(blob, ".mp4"@) {
        Some(MsgType::Video)
    } else {
        None
    }
}

/// A character that a run of chat text may hold: common Han, ASCII, CJK punctuation,
/// full-width forms, emoji and symbols. Rare Han ends a run.
pub open spec fn chat_char(c: char) -> bool {
    ||| common_han(c)
    ||| c <= '\u{7F}'
    ||| '\u{3000}' <= c <= '\u{303F}'
    ||| '\u{FF00}' <= c <= '\u{FFEF}'
    ||| '\u{1F000}' <= c <= '\u{1FAFF}'
    ||| '\u{2600}' <= c <= '\u{27BF}'
}

/// Where the run of chat characters from `i` on ends.
pub open spec fn chat_run_end(s: Seq<char>, i: int) -> int
    decreases s.len() - i,
{
    if 0 <= i < s.len() && chat_char(s[i]) {
        chat_run_end(s, i + 1)
    } else {
        i
    }
}

/// A run ends at or behind where it is looked for, inside the text.
pub proof fn lemma_chat_run_end(s: Seq<char>, i: int)
    ensures
        i <= chat_run_end(s, i),
        0 <= i <= s.len() ==> chat_run_end(s, i) <= s.len(),
    decreases s.len() - i,
{
    if 0 <= i < s.len() && chat_char(s[i]) {
        lemma_chat_run_end(s, i + 1);
    }
}

/// The runs of chat characters from `i` on, each from its first common Han character.
pub open spec fn chat_runs(s: Seq<char>, i: int) -> Seq<Seq<char>>
    decreases s.len() - i,
{
    if i < 0 || i >= s.len() {
        Seq::empty()
    } else if !common_han(s[i]) {
        chat_runs(s, i + 1)
    } else {
        let j = chat_run_end(s, i);
        proof {
            lemma_chat_run_end(s, i + 1);
        }
        seq![s.subrange(i, j)] + chat_runs(s, j)
    }
}

/// The first longest run that is a valid text.
pub open spec fn best_chat_run(runs: Seq<Seq<char>>) -> Option<Seq<char>>
    decreases runs.len(),
{
    if runs.len() == 0 {
        None
    } else {
        let best = best_chat_run(runs.drop_last());
        let run = runs.last();
        if valid_chat_text(run) && (best is None || run.len() > best->0.len()) {
            Some(run)
        } else {
            best
        }
    }
}

/// A character that a run of ASCII text may hold: letters, digits, punctuation and
/// white space.
pub open spec fn ascii_text_char(c: char) -> bool {
    '!' <= c <= '~' || c == ' ' || c == '\t' || c == '\n' || c == '\r' || c == '\u{C}'
}

/// Where the run of ASCII text from `i` on ends.
pub open spec fn ascii_run_end(s: Seq<char>, i: int) -> int
    decreases s.len() - i,
{
    if 0 <= i < s.len() && ascii_text_char(s[i]) {
        ascii_run_end(s, i + 1)
    } else {
        i
    }
}

/// A run ends at or behind where it is looked for, inside the text.
pub proof fn lemma_ascii_run_end(s: Seq<char>, i: int)
    ensures
        i <= ascii_run_end(s, i),
        0 <= i <= s.len() ==> ascii_run_end(s, i) <= s.len(),
    decreases s.len() - i,
{
    if 0 <= i < s.len() && ascii_text_char(s[i]) {
        lemma_ascii_run_end(s, i + 1);
    }
}

/// The trimmed runs of ASCII text from `i` on.
pub open spec fn ascii_runs(s: Seq<char>, i: int) -> Seq<Seq<char>>
    decreases s.len() - i,
{
    if i < 0 || i >= s.len() {
        Seq::empty()
    } else if !ascii_text_char(s[i]) {
        ascii_runs(s, i + 1)
    } else {
        let j = ascii_run_end(s, i);
        proof {
            lemma_ascii_run_end(s, i + 1);
        }
        seq![trim_seq(s.subrange(i, j))] + ascii_runs(s, j)
    }
}

/// How many characters are ASCII letters or digits.
pub open spec fn alnum_count(s: Seq<char>) -> nat
    decreases s.len(),
{
    if s.len() == 0 {
        0
    } else {
        alnum_count(s.drop_last()) + if is_alnum(s.last()) {
            1nat
        } else {
            0
        }
    }
}

/// The first longest run with at least two letters or digits.
pub open spec fn best_ascii_run(runs: Seq<Seq<char>>) -> Option<Seq<char>>
    decreases runs.len(),
{
    if runs.len() == 0 {
        None
    } else {
        let best = best_ascii_run(runs.drop_last());
        let run = runs.last();
        if alnum_count(run) >= MIN_TEXT_LEN && (best is None || run.len() > best->0.len()) {
            Some(run)
        } else {
            best
        }
    }
}

/// A text that tells of a poke, a recall by someone, or a new group name.
pub open spec fn system_phrase(s: Seq<char>) -> bool {
    contains_seq(s, "拍了拍"@) || contains_seq(s, "撤回了一条"@) || contains_seq(s, "修改群名"@)
        || contains_seq(s, "已将群名修改为"@)
}

/// What a blob that is wholly UTF-8 tells by its phrases or its JSON shape.
pub open spec fn recognized_text(s: Seq<char>) -> Option<ParsedModel> {
    if contains_seq(s, "你猜猜撤回了什么"@) {
        Some(simple_message(MsgType::Recall, s))
    } else if system_phrase(s) {
        Some(simple_message(MsgType::System, s))
    } else {
        match json_blob_text(trim_seq(s)) {
            Some(t) => Some(simple_message(MsgType::Other, t)),
            None => None,
        }
    }
}

/// The best run of readable text: Han first, then ASCII.
pub open spec fn readable_run(chars: Seq<char>) -> Option<Seq<char>> {
    match best_chat_run(chat_runs(chars, 0)) {
        Some(t) => Some(t),
        None => best_ascii_run(ascii_runs(chars, 0)),
    }
}

/// What the heuristic parser makes of a blob.
pub open spec fn heuristic_message(blob: Seq<u8>) -> ParsedModel {
    if blob.len() == 0 {
        simple_message(MsgType::Text, "[空]"@)
    } else if media_signature(blob) is Some {
        simple_message(media_signature(blob)->0, media_signature(blob)->0.placeholder())
    } else if blob.len() > MAX_TEXT_BLOB {
        simple_message(MsgType::Other, "[未知大消息]"@)
    } else if valid_utf8(blob) && recognized_text(decode_utf8(blob)) is Some {
        recognized_text(decode_utf8(blob))->0
    } else {
        match readable_run(lossy_text(blob)) {
            Some(t) => simple_message(MsgType::Text, t),
            None => simple_message(MsgType::Other, "[无法解析]"@),
        }
    }
}

/// Content types 1 and 6 hold text, 2, 4 and 5 media.
pub open spec fn is_text_segment(seg: SegmentModel) -> bool {
    seg.content_type == Some(1u64) || seg.content_type == Some(6u64)
}

/// See [`is_text_segment`].
pub open spec fn is_media_segment(seg: SegmentModel) -> bool {
    seg.content_type == Some(2u64) || seg.content_type == Some(4u64) || seg.content_type == Some(
        5u64,
    )
}

/// Some segment is of a content type that the structured pass reads.
pub open spec fn any_known(segs: Seq<SegmentModel>) -> bool {
    exists|i: int|
        0 <= i < segs.len() && (is_text_segment(#[trigger] segs[i]) || is_media_segment(segs[i]))
}

/// The texts of the text segments, in order, without the empty ones.
pub open spec fn segment_lines(segs: Seq<SegmentModel>) -> Seq<Seq<char>>
    decreases segs.len(),
{
    if segs.len() == 0 {
        Seq::empty()
    } else {
        let before = segment_lines(segs.drop_last());
        match segs.last().text {
            Some(t) => if is_text_segment(segs.last()) && t.len() > 0 {
                before.push(t)
            } else {
                before
            },
            None => before,
        }
    }
}

/// The first media segment that carries metadata: its kind and the metadata.
pub open spec fn first_media(segs: Seq<SegmentModel>) -> Option<(MsgType, MediaModel)>
    decreases segs.len(),
{
    if segs.len() == 0 {
        None
    } else {
        let before = first_media(segs.drop_last());
        let seg = segs.last();
        if before is None && is_media_segment(seg) && seg.media is Some {
            let kind = if seg.content_type == Some(2u64) {
                MsgType::Image
            } else if seg.content_type == Some(4u64) {
                MsgType::Voice
            } else {
                MsgType::Video
            };
            Some((kind, media_of_segment(seg.media->0)))
        } else {
            before
        }
    }
}

/// What the structured pass makes of decoded segments: the media kind wins, the text is
/// kept as caption. Without a known segment, or with nothing to show, it has no result.
pub open spec fn structured_message(segs: Seq<SegmentModel>) -> Option<ParsedModel> {
    let text = join_seq(segment_lines(segs), "\n"@);
    if !any_known(segs) {
        None
    } else {
        match first_media(segs) {
            Some((kind, media)) => Some(
                ParsedModel {
                    msg_type: kind,
                    content: if text.len() > 0 {
                        text
                    } else {
                        kind.placeholder()
                    },
                    media: Some(media),
                },
            ),
            None => if text.len() > 0 {
                Some(simple_message(MsgType::Text, text))
            } else {
                None
            },
        }
    }
}

/// What a message blob reads as.
pub open spec fn message_of(blob: Seq<u8>) -> ParsedModel {
    match structured_message(decoded_body(blob)) {
        Some(p) => p,
        None => heuristic_message(blob),
    }
}

fn is_common_han(c: char) -> (r: bool)
    ensures
        r == common_han(c),
{
    '\u{4E00}' <= c && c <= '\u{9FA5}'
}

/// More than 60% of at least two characters are common Han.
fn is_valid_chat_text(v: &Vec<char>, from: usize, to: usize) -> (r: bool)
    requires
        from <= to <= v.len(),
    ensures
        r == valid_chat_text(v@.subrange(from as int, to as int)),
{
    let ghost t = v@.subrange(from as int, to as int);
    let mut n: usize = 0;
    let mut i: usize = from;
    while i < to
        invariant
            from <= i <= to <= v.len(),
            t == v@.subrange(from as int, to as int),
            n == han_count(t.take(i - from)),
            n <= i - from,
        decreases to - i,
    {
        if is_common_han(v[i]) {
            n += 1;
        }
        i += 1;
        proof {
            let u = t.take(i - from);
            assert(u.drop_last() =~= t.take(i - from - 1));
            assert(u.last() == v@[i - 1]);
        }
    }
    assert(t.take(t.len() as int) =~= t);
    let len: usize = to - from;
    len >= MIN_TEXT_LEN && 5 * n as u128 > 3 * len as u128
}

/// JSON-structured message check (mini-program / share / card).
fn is_json_blob(v: &Vec<char>) -> (r: bool)
    ensures
        r == looks_like_json(v@),
{
    let mut n: usize = 0;
    let mut i: usize = 0;
    while i < v.len()
        invariant
            i <= v.len(),
            n == json_count(v@.take(i as int)),
            n <= i,
        decreases v.len() - i,
    {
        let c = v[i];
        if c == '{' || c == '}' || c == '"' || c == ':' || c == '[' || c == ']' {
            n += 1;
        }
        i += 1;
        assert(v@.take(i as int).drop_last() =~= v@.take(i - 1));
    }
    assert(v@.take(v@.len() as int) =~= v@);
    v.len() >= 50 && 25 * n as u128 > 3 * v.len() as u128
}

/// The content of the JSON string that begins at `from`.
fn read_json_string(v: &Vec<char>, from: usize) -> (r: Vec<char>)
    requires
        from <= v.len(),
    ensures
        r@ == json_string_body(v@.skip(from as int)),
{
    let mut r: Vec<char> = Vec::new();
    let mut i: usize = from;
    assert(r@ + json_string_body(v@.skip(from as int)) =~= json_string_body(v@.skip(from as int)));
    while i < v.len() && v[i] != '"'
        invariant
            from <= i <= v.len(),
            json_string_body(v@.skip(from as int)) == r@ + json_string_body(v@.skip(i as int)),
        decreases v.len() - i,
    {
        let ghost s = v@.skip(i as int);
        let ghost before = r@;
        if v[i] == '\\' {
            if i + 1 == v.len() {
                assert(before + json_string_body(s) =~= before);
                return r;
            }
            r.push(v[i + 1]);
            i += 2;
            assert(s.skip(2) =~= v@.skip(i as int));
            assert(before + json_string_body(s) =~= r@ + json_string_body(s.skip(2)));
        } else {
            r.push(v[i]);
            i += 1;
            assert(s.drop_first() =~= v@.skip(i as int));
            assert(before + json_string_body(s) =~= r@ + json_string_body(s.drop_first()));
        }
    }
    assert(r@ + json_string_body(v@.skip(i as int)) =~= r@);
    r
}

/// Replaces each pair `a`, `b` by `to`, from left to right.
fn replace_pair(v: &Vec<char>, a: char, b: char, to: char) -> (r: Vec<char>)
    ensures
        r@ == replace_pair_seq(v@, a, b, to),
{
    let mut r: Vec<char> = Vec::new();
    let mut i: usize = 0;
    assert(v@.skip(0) =~= v@);
    assert(r@ + replace_pair_seq(v@, a, b, to) =~= replace_pair_seq(v@, a, b, to));
    while i < v.len()
        invariant
            i <= v.len(),
            replace_pair_seq(v@, a, b, to) == r@ + replace_pair_seq(v@.skip(i as int), a, b, to),
        decreases v.len() - i,
    {
        let ghost s = v@.skip(i as int);
        let ghost before = r@;
        if v.len() - i >= 2 && v[i] == a && v[i + 1] == b {
            r.push(to);
            i += 2;
            assert(s.skip(2) =~= v@.skip(i as int));
            assert(before + replace_pair_seq(s, a, b, to) =~= r@ + replace_pair_seq(
                s.skip(2),
                a,
                b,
                to,
            ));
        } else {
            r.push(v[i]);
            i += 1;
            assert(s.drop_first() =~= v@.skip(i as int));
            assert(before + replace_pair_seq(s, a, b, to) =~= r@ + replace_pair_seq(
                s.drop_first(),
                a,
                b,
                to,
            ));
        }
    }
    assert(r@ + replace_pair_seq(v@.skip(i as int), a, b, to) =~= r@);
    r
}

/// Extract a single JSON string field value (handles \" escapes).
fn extract_json_field(text: &Vec<char>, field_name: &str) -> (r: Option<String>)
    ensures
        opt_view(r) == json_field(text@, field_name@),
{
    let mut search = "\"".to_owned();
    search.append(field_name);
    search.append("\":\"");
    let open = chars_of(search.as_str());
    match find_from(text, &open, 0) {
        None => None,
        Some(pos) => {
            assert(pos + open@.len() <= text.len());
            let body = read_json_string(text, pos + open.len());
            let body = replace_pair(&body, '\\', '/', '/');
            let body = replace_pair(&body, '\\', 'n', ' ');
            let body = replace_pair(&body, '\\', 't', ' ');
            let raw = string_of(&body);
            let cleaned = trim(raw.as_str());
            if cleaned.as_str().is_empty() {
                None
            } else {
                Some(cleaned)
            }
        },
    }
}

/// The prompt without a leading bracketed label like "[小程序]".
fn strip_label(p: String) -> (r: String)
    ensures
        r@ == without_label(p@),
{
    let v = chars_of(p.as_str());
    match find_char(&v, ']') {
        Some(i) => if v[0] == '[' {
            let raw = string_of_range(&v, i + 1, v.len());
            assert(raw@ =~= p@.skip(i + 1));
            trim_start(raw.as_str())
        } else {
            p
        },
        None => p,
    }
}

/// Joins a part that is not there yet.
fn push_distinct(parts: &mut Vec<String>, part: Option<String>)
    ensures
        views(final(parts)@) == with_distinct(views(old(parts)@), opt_view(part)),
{
    if let Some(s) = part {
        if !has_string(parts, s.as_str()) {
            let ghost added = s@;
            let ghost before = parts@;
            parts.push(s);
            assert(views(parts@) =~= views(before).push(added));
        }
    }
}

/// Whether some part contains the line.
fn some_contains(parts: &Vec<String>, line: &str) -> (r: bool)
    ensures
        r == exists|i: int|
            0 <= i < views(parts@).len() && contains_seq(#[trigger] views(parts@)[i], line@),
{
    let mut i: usize = 0;
    while i < parts.len()
        invariant
            i <= parts.len(),
            forall|j: int| 0 <= j < i ==> !contains_seq(#[trigger] views(parts@)[j], line@),
        decreases parts.len() - i,
    {
        if contains(parts[i].as_str(), line) {
            assert(contains_seq(views(parts@)[i as int], line@));
            return true;
        }
        i += 1;
    }
    false
}

/// Joins the sender's line unless some part contains it.
fn push_nick(parts: &mut Vec<String>, nick: Option<String>)
    ensures
        views(final(parts)@) == with_nick(views(old(parts)@), opt_view(nick)),
{
    if let Some(n) = nick {
        let mut line = "来自: ".to_owned();
        line.append(n.as_str());
        if !some_contains(parts, line.as_str()) {
            let ghost added = line@;
            let ghost before = parts@;
            parts.push(line);
            assert(views(parts@) =~= views(before).push(added));
        }
    }
}

/// Try to extract human-readable content from a JSON-structured message (mini-program /
/// share / card). `None` when not JSON-structured.
fn extract_json_blob(text: &str) -> (r: Option<String>)
    ensures
        opt_view(r) == json_blob_text(text@),
{
    let v = chars_of(text);
    if !is_json_blob(&v) {
        return None;
    }
    let mut parts: Vec<String> = Vec::new();
    assert(views(parts@) =~= Seq::empty());
    if let Some(p) = extract_json_field(&v, "prompt") {
        let cleaned = strip_label(p);
        if !cleaned.as_str().is_empty() {
            let ghost c = cleaned@;
            parts.push(cleaned);
            assert(views(parts@) =~= seq![c]);
        }
    }
    push_distinct(&mut parts, extract_json_field(&v, "desc"));
    push_distinct(&mut parts, extract_json_field(&v, "title"));
    push_nick(&mut parts, extract_json_field(&v, "nick"));
    assert(views(parts@).len() == parts@.len());
    if parts.len() == 0 {
        Some("[小程序/分享]".to_owned())
    } else {
        Some(join(&parts, " | "))
    }
}

/// Whether `p` stands in the bytes, whatever the letter case there.
fn has_pattern(blob: &[u8], p: &str) -> (r: bool)
    ensures
        r == has_signature(blob@, p@),
{
    let pv = chars_of(p);
    if pv.len() > blob.len() {
        return false;
    }
    let last: usize = blob.len() - pv.len();
    let mut i: usize = 0;
    while i <= last
        invariant
            pv@ == p@,
            i <= last + 1,
            last + pv.len() == blob.len(),
            forall|j: int| 0 <= j < i ==> !signature_at(blob@, p@, j),
        decreases last + 1 - i,
    {
        let mut k: usize = 0;
        while k < pv.len()
            invariant
                pv@ == p@,
                k <= pv.len(),
                i <= last,
                last + pv.len() == blob.len(),
                forall|j: int|
                    0 <= j < k ==> lower_byte(#[trigger] blob@[i + j]) as char == p@[j],
            ensures
                k < pv.len() ==> !signature_at(blob@, p@, i as int),
                k == pv.len() ==> signature_at(blob@, p@, i as int),
            decreases pv.len() - k,
        {
            let b: u8 = blob[i + k];
            let low: u8 = if 65 <= b && b <= 90 {
                b + 32
            } else {
                b
            };
            if low as char != pv[k] {
                assert(lower_byte(blob@[i + k]) as char != p@[k as int]);
                break;
            }
            k += 1;
        }
        if k == pv.len() {
            return true;
        }
        if i == last {
            assert forall|j: int| !signature_at(blob@, p@, j) by {}
            return false;
        }
        i += 1;
    }
    false
}

fn media_type_from_bytes(blob: &[u8]) -> (r: Option<MsgType>)
    ensures
        r == media_signature(blob@),
{
    if has_pattern(blob, ".jpg") || has_pattern(blob, ".png") || has_pattern(blob, ".gif")
        || has_pattern(blob, "gchatpic") {
        return Some(MsgType::Image);
    }
    if has_pattern(blob, ".amr") || has_pattern(blob, ".silk") || has_pattern(blob, ".ptt") {
        return Some(MsgType::Voice);
    }
    if has_pattern(blob, "shortvideo") || has_pattern(blob, ".mp4") {
        return Some(MsgType::Video);
    }
    None
}

fn is_chat_char(c: char) -> (r: bool)
    ensures
        r == chat_char(c),
{
    is_common_han(c) || c <= '\u{7F}' || ('\u{3000}' <= c && c <= '\u{303F}') || ('\u{FF00}' <= c && c
        <= '\u{FFEF}') || ('\u{1F000}' <= c && c <= '\u{1FAFF}') || ('\u{2600}' <= c && c
        <= '\u{27BF}')
}

/// Find the first longest run of characters that passes the validity check, scanning
/// forward from common Han characters. A budget of three steps a character is never
/// used up, and no budget ever grows.
fn scan_from(chars: &Vec<char>, budget: &mut usize) -> (r: Option<String>)
    requires
        *old(budget) >= 3 * chars.len(),
    ensures
        opt_view(r) == best_chat_run(chat_runs(chars@, 0)),
        *old(budget) - 3 * chars.len() <= *final(budget) <= *old(budget),
{
    let ghost all = chat_runs(chars@, 0);
    let ghost mut done: Seq<Seq<char>> = Seq::empty();
    let mut best: Option<(usize, usize)> = None;
    let mut i: usize = 0;
    assert(done + all =~= all);
    while i < chars.len()
        invariant
            i <= chars.len(),
            *old(budget) >= 3 * chars.len(),
            *old(budget) - 3 * i <= *budget <= *old(budget),
            all == done + chat_runs(chars@, i as int),
            match best {
                Some((a, b)) => a <= b <= chars.len() && best_chat_run(done) == Some(
                    chars@.subrange(a as int, b as int),
                ),
                None => best_chat_run(done) is None,
            },
        ensures
            i == chars.len(),
        decreases chars.len() - i,
    {
        if *budget == 0 {
            break;
        }
        *budget -= 1;
        if !is_common_han(chars[i]) {
            i += 1;
            continue;
        }
        let mut j: usize = i;
        while j < chars.len()
            invariant_except_break
                *budget >= *old(budget) - 3 * i - 1 - (j - i),
            invariant
                i <= j <= chars.len(),
                *old(budget) >= 3 * chars.len(),
                *budget <= *old(budget),
                i < chars.len(),
                chat_run_end(chars@, i as int) == chat_run_end(chars@, j as int),
            ensures
                *budget >= *old(budget) - 3 * i - 2 - (j - i),
                j == chat_run_end(chars@, i as int),
            decreases chars.len() - j,
        {
            if *budget == 0 {
                break;
            }
            *budget -= 1;
            if !is_chat_char(chars[j]) {
                break;
            }
            j += 1;
        }
        proof {
            lemma_chat_run_end(chars@, i + 1);
        }
        let ghost run = chars@.subrange(i as int, j as int);
        if is_valid_chat_text(chars, i, j) {
            let longer = match best {
                Some((a, b)) => j - i > b - a,
                None => true,
            };
            if longer {
                best = Some((i, j));
            }
        }
        proof {
            let next = done.push(run);
            assert(next.drop_last() =~= done);
            assert(all =~= next + chat_runs(chars@, j as int));
            done = next;
        }
        i = j;
    }
    assert(done + chat_runs(chars@, i as int) =~= done);
    match best {
        Some((a, b)) => Some(string_of_range(chars, a, b)),
        None => None,
    }
}

fn is_ascii_text_char(c: char) -> (r: bool)
    ensures
        r == ascii_text_char(c),
{
    ('!' <= c && c <= '~') || c == ' ' || c == '\t' || c == '\n' || c == '\r' || c == '\u{C}'
}

fn count_alnum(v: &Vec<char>) -> (n: usize)
    ensures
        n == alnum_count(v@),
{
    let mut n: usize = 0;
    let mut i: usize = 0;
    while i < v.len()
        invariant
            i <= v.len(),
            n == alnum_count(v@.take(i as int)),
            n <= i,
        decreases v.len() - i,
    {
        if char_is_alnum(v[i]) {
            n += 1;
        }
        i += 1;
        assert(v@.take(i as int).drop_last() =~= v@.take(i - 1));
    }
    assert(v@.take(v@.len() as int) =~= v@);
    n
}

/// ASCII fallback scan: the first longest trimmed run of printable ASCII with at least
/// two alphanumerics. A budget of three steps a character is never used up, and no budget
/// ever grows.
fn scan_ascii(chars: &Vec<char>, budget: &mut usize) -> (r: Option<String>)
    requires
        *old(budget) >= 3 * chars.len(),
    ensures
        opt_view(r) == best_ascii_run(ascii_runs(chars@, 0)),
        *old(budget) - 3 * chars.len() <= *final(budget) <= *old(budget),
{
    let ghost all = ascii_runs(chars@, 0);
    let ghost mut done: Seq<Seq<char>> = Seq::empty();
    let mut best: Option<String> = None;
    let mut best_len: usize = 0;
    let mut i: usize = 0;
    assert(done + all =~= all);
    while i < chars.len()
        invariant
            i <= chars.len(),
            *old(budget) >= 3 * chars.len(),
            *old(budget) - 3 * i <= *budget <= *old(budget),
            all == done + ascii_runs(chars@, i as int),
            opt_view(best) == best_ascii_run(done),
            best_len == (match best {
                Some(s) => s@.len(),
                None => 0,
            }),
        ensures
            i == chars.len(),
        decreases chars.len() - i,
    {
        if *budget == 0 {
            break;
        }
        *budget -= 1;
        if !is_ascii_text_char(chars[i]) {
            i += 1;
            continue;
        }
        let mut j: usize = i;
        while j < chars.len()
            invariant_except_break
                *budget >= *old(budget) - 3 * i - 1 - (j - i),
            invariant
                i <= j <= chars.len(),
                *old(budget) >= 3 * chars.len(),
                *budget <= *old(budget),
                i < chars.len(),
                ascii_run_end(chars@, i as int) == ascii_run_end(chars@, j as int),
            ensures
                *budget >= *old(budget) - 3 * i - 2 - (j - i),
                j == ascii_run_end(chars@, i as int),
            decreases chars.len() - j,
        {
            if *budget == 0 {
                break;
            }
            *budget -= 1;
            if !is_ascii_text_char(chars[j]) {
                break;
            }
            j += 1;
        }
        proof {
            lemma_ascii_run_end(chars@, i + 1);
        }
        let cand = string_of_range(chars, i, j);
        let trimmed = trim(cand.as_str());
        let ghost run = trimmed@;
        let tv = chars_of(trimmed.as_str());
        proof {
            let next = done.push(run);
            assert(next.drop_last() =~= done);
            assert(all =~= next + ascii_runs(chars@, j as int));
            if alnum_count(run) >= MIN_TEXT_LEN {
                assert(run.len() > 0);
            }
            done = next;
        }
        if count_alnum(&tv) >= MIN_TEXT_LEN && tv.len() > best_len {
            best_len = tv.len();
            best = Some(trimmed);
        }
        i = j;
    }
    assert(done + ascii_runs(chars@, i as int) =~= done);
    best
}

/// Appends a line, with a line break before it unless it is the first.
fn push_line(text: &mut String, line: &str, Ghost(lines): Ghost<Seq<Seq<char>>>)
    requires
        old(text)@ == join_seq(lines, "\n"@),
        old(text)@.len() > 0 <==> lines.len() > 0,
        line@.len() > 0,
    ensures
        final(text)@ == join_seq(lines.push(line@), "\n"@),
        final(text)@.len() > 0,
{
    let ghost before = text@;
    if !text.as_str().is_empty() {
        text.append("\n");
    }
    text.append(line);
    proof {
        let now = lines.push(line@);
        assert(now.drop_last() =~= lines);
        if lines.len() == 0 {
            assert(text@ =~= now[0]);
        } else {
            assert(text@ =~= before + "\n"@ + line@);
        }
    }
}

/// Structured 40800 decode. `Some` only when the blob carries a real top-level 40800
/// field and at least one known content type: 1/6 text (45101 / 47602 emoji display
/// text), 2 image / 4 voice / 5 video (exact media metadata; the first media segment
/// wins). A result shows something, and carries media exactly where it is no text.
pub fn extract_structured(blob: &[u8]) -> (r: Option<ParsedMessage>)
    ensures
        r is Some == structured_message(decoded_body(blob@)) is Some,
        r is Some ==> r->0@ == structured_message(decoded_body(blob@))->0,
        (forall|i: int|
            0 <= i < decoded_body(blob@).len() ==> !known_content_type(
                (#[trigger] decoded_body(blob@)[i]).content_type,
            )) ==> r is None,
        r is Some ==> {
            let p = r->0;
            &&& p.content@.len() > 0
            &&& p.msg_type is Text || p.msg_type is Image || p.msg_type is Voice
                || p.msg_type is Video
            &&& p.media is Some <==> !(p.msg_type is Text)
        },
{
    proof {
        law_structured_results(blob@);
    }
    let segments = parse_msg_body(blob);
    let ghost segs = segment_views(segments@);
    let mut text = String::new();
    let mut media: Option<MediaInfo> = None;
    let mut media_type: Option<MsgType> = None;
    let mut saw_known = false;
    for seg in it: segments
        invariant
            it.seq() == segments@,
            segs == segment_views(segments@),
            text@ == join_seq(segment_lines(segs.take(it.index() as int)), "\n"@),
            text@.len() > 0 <==> segment_lines(segs.take(it.index() as int)).len() > 0,
            saw_known == any_known(segs.take(it.index() as int)),
            match first_media(segs.take(it.index() as int)) {
                Some((kind, m)) => media_type == Some(kind) && opt_media(media) == Some(m),
                None => media_type is None && media is None,
            },
    {
        let ghost now = segs.take(it.index() + 1);
        let ghost before = segs.take(it.index() as int);
        proof {
            assert(now.drop_last() =~= before);
            assert(now.last() == seg@);
            assert(forall|i: int| 0 <= i < before.len() ==> now[i] == before[i]);
            if any_known(before) {
                let i = choose|i: int|
                    0 <= i < before.len() && (is_text_segment(#[trigger] before[i])
                        || is_media_segment(before[i]));
                assert(is_text_segment(now[i]) || is_media_segment(now[i]));
            }
            if is_text_segment(seg@) || is_media_segment(seg@) {
                assert(any_known(now)) by {
                    assert(is_text_segment(now[before.len() as int]) || is_media_segment(
                        now[before.len() as int],
                    ));
                }
            } else if any_known(now) {
                let i = choose|i: int|
                    0 <= i < now.len() && (is_text_segment(#[trigger] now[i]) || is_media_segment(
                        now[i],
                    ));
                assert(i < before.len());
                assert(is_text_segment(before[i]) || is_media_segment(before[i]));
            }
        }
        match seg.content_type {
            Some(1) | Some(6) => {
                saw_known = true;
                if let Some(t) = seg.text {
                    if !t.as_str().is_empty() {
                        push_line(&mut text, t.as_str(), Ghost(segment_lines(before)));
                    }
                }
            },
            Some(2) | Some(4) | Some(5) => {
                saw_known = true;
                if media.is_none() {
                    if let Some(m) = seg.media {
                        media = Some(MediaInfo::from_segment(m));
                        media_type = match seg.content_type {
                            Some(2) => Some(MsgType::Image),
                            Some(4) => Some(MsgType::Voice),
                            _ => Some(MsgType::Video),
                        };
                    }
                }
            },
            _ => {},
        }
    }
    assert(segs.take(segs.len() as int) =~= segs);
    if !saw_known {
        return None;
    }
    let empty = text.as_str().is_empty();
    match media_type {
        Some(kind) => {
            let content = if empty {
                kind.media_placeholder().to_owned()
            } else {
                text
            };
            Some(ParsedMessage { msg_type: kind, content, media })
        },
        None => if empty {
            None
        } else {
            Some(ParsedMessage { msg_type: MsgType::Text, content: text, media })
        },
    }
}

/// What a text tells by its phrases or its JSON shape.
fn recognize_text(s: String) -> (r: Option<ParsedMessage>)
    ensures
        r is Some == recognized_text(s@) is Some,
        r is Some ==> r->0@ == recognized_text(s@)->0,
{
    if contains(s.as_str(), "你猜猜撤回了什么") {
        return Some(ParsedMessage::simple(MsgType::Recall, s.as_str()));
    }
    if contains(s.as_str(), "拍了拍") || contains(s.as_str(), "撤回了一条") || contains(
        s.as_str(),
        "修改群名",
    ) || contains(s.as_str(), "已将群名修改为") {
        return Some(ParsedMessage::simple(MsgType::System, s.as_str()));
    }
    let trimmed = trim(s.as_str());
    match extract_json_blob(trimmed.as_str()) {
        Some(t) => Some(ParsedMessage::simple(MsgType::Other, t.as_str())),
        None => None,
    }
}

/// Extract readable text from a message BLOB without a schema.
pub fn extract_text(blob: &[u8]) -> (r: ParsedMessage)
    ensures
        r@ == heuristic_message(blob@),
{
    if blob.len() == 0 {
        return ParsedMessage::simple(MsgType::Text, "[空]");
    }
    if let Some(m) = media_type_from_bytes(blob) {
        return ParsedMessage::simple(m, m.media_placeholder());
    }
    if blob.len() > MAX_TEXT_BLOB {
        return ParsedMessage::simple(MsgType::Other, "[未知大消息]");
    }
    if let Some(s) = utf8_string(blob) {
        if let Some(p) = recognize_text(s) {
            return p;
        }
    }
    let lossy = decode_lossy(blob);
    let chars = chars_of(lossy.as_str());
    let mut budget: usize = blob.len() * 50;
    if let Some(text) = scan_from(&chars, &mut budget) {
        return ParsedMessage::simple(MsgType::Text, text.as_str());
    }
    if let Some(text) = scan_ascii(&chars, &mut budget) {
        return ParsedMessage::simple(MsgType::Text, text.as_str());
    }
    ParsedMessage::simple(MsgType::Other, "[无法解析]")
}

/// Parse one message BLOB: structured wire decode first, heuristic fallback. The
/// structured pass only wins for a real top-level 40800 field with known content types.
pub fn extract_message(blob: &[u8]) -> (r: ParsedMessage)
    ensures
        r@ == message_of(blob@),
{
    match extract_structured(blob) {
        Some(p) => p,
        None => extract_text(blob),
    }
}

/// Without a segment of a known content type a blob reads as the heuristic reads it.
pub proof fn law_unknown_segments_fall_back(blob: Seq<u8>)
    requires
        !any_known(decoded_body(blob)),
    ensures
        message_of(blob) == heuristic_message(blob),
{
}

/// A content type that the structured pass reads: text, image, voice, video or emoji.
pub open spec fn known_content_type(t: Option<u64>) -> bool {
    match t {
        Some(t) => t == 1 || t == 2 || t == 4 || t == 5 || t == 6,
        None => false,
    }
}

proof fn lemma_first_media_kind(segs: Seq<SegmentModel>)
    ensures
        match first_media(segs) {
            Some((kind, m)) => kind is Image || kind is Voice || kind is Video,
            None => true,
        },
    decreases segs.len(),
{
    if segs.len() > 0 {
        lemma_first_media_kind(segs.drop_last());
    }
}

/// The structured pass has no result without a segment of content type 1, 2, 4, 5 or 6.
/// A result of it shows something, is a text or of a media kind, and carries media
/// metadata exactly where it is no text.
pub proof fn law_structured_results(blob: Seq<u8>)
    ensures
        ({
            let segs = decoded_body(blob);
            let r = structured_message(segs);
            &&& (forall|i: int|
                0 <= i < segs.len() ==> !known_content_type((#[trigger] segs[i]).content_type))
                ==> r is None
            &&& r is Some ==> {
                let p = r->0;
                &&& p.content.len() > 0
                &&& p.msg_type is Text || p.msg_type is Image || p.msg_type is Voice
                    || p.msg_type is Video
                &&& p.media is Some <==> !(p.msg_type is Text)
            }
        }),
{
    let segs = decoded_body(blob);
    lemma_first_media_kind(segs);
    reveal_strlit("[image]");
    reveal_strlit("[voice]");
    reveal_strlit("[video]");
}

/// The blob of a text message: one segment of content type 1 with the text.
pub open spec fn text_message_blob(text: Seq<char>) -> Seq<u8> {
    encode_body(seq![encode_fields(text_message_fields(text))])
}

/// The fields of a text segment.
pub open spec fn text_message_fields(text: Seq<char>) -> Seq<WireField> {
    seq![
        WireField { field: FIELD_CONTENT_TYPE, wire: 0, value: Some(WireValue::Varint(1)) },
        WireField {
            field: FIELD_TEXT,
            wire: 2,
            value: Some(WireValue::Bytes(encode_utf8(text))),
        },
    ]
}

/// A structured text message reads back as exactly its text, whatever words or media
/// signatures the text mentions.
pub proof fn law_structured_text_stays_text(text: Seq<char>)
    requires
        text.len() > 0,
        encode_utf8(text).len() < 0x1_0000_0000_0000_0000,
        encode_fields(text_message_fields(text)).len() < 0x1_0000_0000_0000_0000,
    ensures
        message_of(text_message_blob(text)) == simple_message(MsgType::Text, text),
{
    let fs = text_message_fields(text);
    let bytes = encode_fields(fs);
    law_body_round_trip(seq![bytes]);
    law_fields_survive_any_tail(fs, Seq::empty(), true);
    assert(bytes + Seq::<u8>::empty() =~= bytes);
    assert(wire_fields(Seq::<u8>::empty(), true) =~= Seq::empty());
    assert(fs + Seq::<WireField>::empty() =~= fs);
    vstd::utf8::encode_utf8_valid_utf8(text);
    vstd::utf8::encode_utf8_decode_utf8(text);
    let seg = decoded_segment(bytes);
    let segs = decoded_body(text_message_blob(text));
    assert(segs =~= seq![seg]);
    let one = fs.drop_last();
    assert(last_varint(fs, FIELD_CONTENT_TYPE) == last_varint(one, FIELD_CONTENT_TYPE));
    assert(one.last() == fs[0]);
    assert(seg.content_type == Some(1u64));
    assert(seg.text == Some(text));
    assert(is_text_segment(segs[0]));
    assert(segs.drop_last() =~= Seq::empty());
    assert(segment_lines(segs.drop_last()) =~= Seq::empty());
    assert(segment_lines(segs) =~= seq![text]);
    assert(first_media(segs.drop_last()) is None);
}

proof fn lemma_single_segment(seg: SegmentModel)
    ensures
        segment_lines(seq![seg]) == (match seg.text {
            Some(t) => if is_text_segment(seg) && t.len() > 0 {
                seq![t]
            } else {
                Seq::empty()
            },
            None => Seq::empty(),
        }),
        any_known(seq![seg]) == (is_text_segment(seg) || is_media_segment(seg)),
        seq![seg].drop_last() =~= Seq::empty(),
{
    let one = seq![seg];
    assert(one.drop_last() =~= Seq::empty());
    assert(segment_lines(one.drop_last()) =~= Seq::empty());
    match seg.text {
        Some(t) => {
            assert(Seq::<Seq<char>>::empty().push(t) =~= seq![t]);
        },
        None => {},
    }
    if is_text_segment(seg) || is_media_segment(seg) {
        assert(is_text_segment(one[0]) || is_media_segment(one[0]));
    }
}

/// A message of one media segment and no text reads as that kind of medium: content type 2
/// is an image, 4 a voice and 5 a video. Its content is the kind's placeholder, and it
/// carries the segment's metadata.
pub proof fn law_structured_media(fs: Seq<WireField>, t: u64)
    requires
        forall|i: int| 0 <= i < fs.len() ==> encodable(#[trigger] fs[i]),
        t == 2 || t == 4 || t == 5,
        reread(fs).media is Some,
        reread(fs).text is None,
        encode_fields(fs.push(number_field(45002, t))).len() < 0x1_0000_0000_0000_0000,
    ensures
        ({
            let p = message_of(encode_body(seq![encode_fields(fs.push(number_field(45002, t)))]));
            let m = reread(fs).media->0;
            &&& t == 2 ==> p.msg_type is Image && p.content == "[image]"@
            &&& t == 4 ==> p.msg_type is Voice && p.content == "[voice]"@
            &&& t == 5 ==> p.msg_type is Video && p.content == "[video]"@
            &&& p.media is Some
            &&& p.media->0.uuid == m.uuid
            &&& p.media->0.md5 == m.md5_hex
            &&& p.media->0.file_name == m.file_name
            &&& p.media->0.size == m.size
            &&& p.media->0.width == m.width
            &&& p.media->0.height == m.height
            &&& p.media->0.local_path == m.local_path
            &&& p.media->0.urls == m.urls
        }),
{
    let all = fs.push(number_field(45002, t));
    let bytes = encode_fields(all);
    let seg = reread(all);
    law_number_fields_read_back(fs, t);
    law_fields_keep_to_their_slots(fs, number_field(45002, t));
    law_body_round_trip(seq![bytes]);
    let segs = decoded_body(encode_body(seq![bytes]));
    assert(segs =~= seq![seg]);
    lemma_single_segment(seg);
    assert(join_seq(Seq::<Seq<char>>::empty(), "\n"@) =~= Seq::<char>::empty());
    assert(first_media(segs.drop_last()) is None);
}

/// The kinds that the segments' content types tell: of the first media segment that
/// carries metadata, whatever stands before or behind it.
pub proof fn law_first_medium_wins(x: Seq<SegmentModel>, m: SegmentModel, y: Seq<SegmentModel>)
    requires
        forall|i: int|
            0 <= i < x.len() ==> (#[trigger] x[i]).media is None || x[i].content_type == Some(1u64)
                || x[i].content_type == Some(6u64) || x[i].content_type is None,
        m.media is Some,
        m.content_type is Some,
    ensures
        ({
            let r = structured_message(x + seq![m] + y);
            let t = m.content_type->0;
            &&& t == 2 ==> r is Some && r->0.msg_type is Image
            &&& t == 4 ==> r is Some && r->0.msg_type is Voice
            &&& t == 5 ==> r is Some && r->0.msg_type is Video
            &&& t == 2 || t == 4 || t == 5 ==> r->0.media == Some(media_of_segment(m.media->0))
        }),
{
    let t = m.content_type->0;
    if t == 2 || t == 4 || t == 5 {
        let all = x + seq![m] + y;
        lemma_no_media(x);
        lemma_first_media_behind(x, m, y);
        assert(all[x.len() as int] == m);
        assert(is_text_segment(all[x.len() as int]) || is_media_segment(all[x.len() as int]));
        assert(any_known(all));
        assert(x.push(m).drop_last() =~= x);
        assert(x.push(m).last() == m);
    }
}

proof fn lemma_no_media(x: Seq<SegmentModel>)
    requires
        forall|i: int|
            0 <= i < x.len() ==> (#[trigger] x[i]).media is None || x[i].content_type == Some(1u64)
                || x[i].content_type == Some(6u64) || x[i].content_type is None,
    ensures
        first_media(x) is None,
    decreases x.len(),
{
    if x.len() > 0 {
        let b = x.drop_last();
        assert forall|i: int| 0 <= i < b.len() implies (#[trigger] b[i]).media is None
            || b[i].content_type == Some(1u64) || b[i].content_type == Some(6u64)
            || b[i].content_type is None by {
            assert(b[i] == x[i]);
        }
        lemma_no_media(b);
        assert(x.last() == x[x.len() - 1]);
    }
}

proof fn lemma_first_media_behind(x: Seq<SegmentModel>, m: SegmentModel, y: Seq<SegmentModel>)
    requires
        first_media(x) is None,
        m.media is Some,
        is_media_segment(m),
    ensures
        first_media(x + seq![m] + y) == first_media(x.push(m)),
        first_media(x.push(m)) is Some,
    decreases y.len(),
{
    let all = x + seq![m] + y;
    assert(x.push(m).drop_last() =~= x);
    if y.len() == 0 {
        assert(all =~= x.push(m));
    } else {
        lemma_first_media_behind(x, m, y.drop_last());
        assert(all.drop_last() =~= x + seq![m] + y.drop_last());
    }
}

/// The texts of text segments are the lines of a message: two texts join by a line break,
/// and a medium takes the text of the segments around it as its caption.
pub proof fn law_structured_texts_join(a: Seq<SegmentModel>, b: Seq<SegmentModel>)
    requires
        structured_message(a) is Some,
        structured_message(b) is Some,
        structured_message(a)->0.msg_type is Text,
    ensures
        ({
            let p = structured_message(a)->0;
            let q = structured_message(b)->0;
            let r = structured_message(a + b);
            &&& r is Some
            &&& r->0.msg_type == q.msg_type
            &&& r->0.media == q.media
            &&& q.msg_type is Text ==> r->0.content == p.content + "\n"@ + q.content
            &&& (forall|i: int| 0 <= i < b.len() ==> (#[trigger] b[i]).text is None)
                ==> r->0.content == p.content
        }),
{
    lemma_lines_concatenate(a, b);
    lemma_first_media_concatenates(a, b);
    lemma_first_media_kind(a);
    lemma_first_media_kind(b);
    let i = choose|i: int|
        0 <= i < a.len() && (is_text_segment(#[trigger] a[i]) || is_media_segment(a[i]));
    assert((a + b)[i] == a[i]);
    assert(any_known(a + b));
    assert(segment_lines(a).len() > 0) by {
        if segment_lines(a).len() == 0 {
            assert(join_seq(segment_lines(a), "\n"@).len() == 0);
        }
    }
    if segment_lines(b).len() > 0 {
        crate::text::law_join(segment_lines(a), segment_lines(b), Seq::empty(), "\n"@);
        lemma_lines_not_empty(b);
    } else {
        assert(segment_lines(a) + segment_lines(b) =~= segment_lines(a));
    }
    if forall|i: int| 0 <= i < b.len() ==> (#[trigger] b[i]).text is None {
        lemma_no_lines(b);
    }
}

proof fn lemma_lines_not_empty(b: Seq<SegmentModel>)
    requires
        segment_lines(b).len() > 0,
    ensures
        join_seq(segment_lines(b), "\n"@).len() > 0,
    decreases b.len(),
{
    let lines = segment_lines(b);
    let before = segment_lines(b.drop_last());
    if before.len() == lines.len() {
        lemma_lines_not_empty(b.drop_last());
    } else if lines.len() > 1 {
        assert(lines.drop_last() =~= before);
        assert(lines.last().len() > 0);
    }
}

proof fn lemma_no_lines(b: Seq<SegmentModel>)
    requires
        forall|i: int| 0 <= i < b.len() ==> (#[trigger] b[i]).text is None,
    ensures
        segment_lines(b).len() == 0,
    decreases b.len(),
{
    if b.len() > 0 {
        let c = b.drop_last();
        assert forall|i: int| 0 <= i < c.len() implies (#[trigger] c[i]).text is None by {
            assert(c[i] == b[i]);
        }
        lemma_no_lines(c);
        assert(b.last() == b[b.len() - 1]);
    }
}

proof fn lemma_lines_concatenate(a: Seq<SegmentModel>, b: Seq<SegmentModel>)
    ensures
        segment_lines(a + b) == segment_lines(a) + segment_lines(b),
    decreases b.len(),
{
    if b.len() == 0 {
        assert(a + b =~= a);
        assert(segment_lines(a) + segment_lines(b) =~= segment_lines(a));
    } else {
        lemma_lines_concatenate(a, b.drop_last());
        assert((a + b).drop_last() =~= a + b.drop_last());
        assert((a + b).last() == b.last());
        assert(segment_lines(a + b) =~= segment_lines(a) + segment_lines(b));
    }
}

proof fn lemma_first_media_concatenates(a: Seq<SegmentModel>, b: Seq<SegmentModel>)
    ensures
        first_media(a + b) == (if first_media(a) is Some {
            first_media(a)
        } else {
            first_media(b)
        }),
    decreases b.len(),
{
    if b.len() == 0 {
        assert(a + b =~= a);
    } else {
        lemma_first_media_concatenates(a, b.drop_last());
        assert((a + b).drop_last() =~= a + b.drop_last());
        assert((a + b).last() == b.last());
    }
}

/// Bytes as characters.
pub open spec fn ascii_text(w: Seq<u8>) -> Seq<char> {
    w.map_values(|b: u8| b as char)
}

/// The bytes are something, `mark` in letters of any size, and something more.
pub open spec fn carries(blob: Seq<u8>, mark: Seq<char>) -> bool {
    exists|a: Seq<u8>, w: Seq<u8>, b: Seq<u8>|
        blob == #[trigger] (a + w + b) && crate::text::lower_seq(ascii_text(w)) == mark
}

proof fn lemma_carries(blob: Seq<u8>, mark: Seq<char>)
    requires
        forall|i: int| 0 <= i < mark.len() ==> #[trigger] mark[i] <= '\u{7f}',
    ensures
        carries(blob, mark) <==> has_signature(blob, mark),
{
    if carries(blob, mark) {
        let (a, w, b) = choose|a: Seq<u8>, w: Seq<u8>, b: Seq<u8>|
            blob == #[trigger] (a + w + b) && crate::text::lower_seq(ascii_text(w)) == mark;
        let low = crate::text::lower_seq(ascii_text(w));
        assert(low.len() == w.len());
        assert forall|k: int| 0 <= k < mark.len() implies lower_byte(#[trigger] blob[a.len() + k]) as char
            == mark[k] by {
            assert(blob[a.len() + k] == w[k]);
            assert(low[k] == crate::text::lower_char(ascii_text(w)[k]));
        }
        assert(signature_at(blob, mark, a.len() as int));
    }
    if has_signature(blob, mark) {
        let i = choose|i: int| signature_at(blob, mark, i);
        let a = blob.take(i);
        let w = blob.subrange(i, i + mark.len());
        let b = blob.skip(i + mark.len());
        assert(blob =~= a + w + b);
        let low = crate::text::lower_seq(ascii_text(w));
        assert forall|k: int| 0 <= k < mark.len() implies low[k] == mark[k] by {
            assert(blob[i + k] == w[k]);
            assert(lower_byte(blob[i + k]) as char == mark[k]);
            assert(low[k] == crate::text::lower_char(ascii_text(w)[k]));
        }
        assert(low =~= mark);
    }
}

/// Without a structured body, bytes that carry an image's mark read as an image; without
/// one, those that carry a voice's mark as a voice; without either, those that carry a
/// video's mark as a video. The letters' size does not matter.
pub proof fn law_media_marks(blob: Seq<u8>)
    ensures
        ({
            let image = carries(blob, ".jpg"@) || carries(blob, ".png"@) || carries(blob, ".gif"@)
                || carries(blob, "gchatpic"@);
            let voice = carries(blob, ".amr"@) || carries(blob, ".silk"@) || carries(blob, ".ptt"@);
            let video = carries(blob, "shortvideo"@) || carries(blob, ".mp4"@);
            let p = heuristic_message(blob);
            &&& image ==> p.msg_type is Image && p.content == "[image]"@
            &&& !image && voice ==> p.msg_type is Voice && p.content == "[voice]"@
            &&& !image && !voice && video ==> p.msg_type is Video && p.content == "[video]"@
            &&& !image && !voice && !video ==> !(p.msg_type is Image) && !(p.msg_type is Voice)
                && !(p.msg_type is Video)
            &&& p.media is None
        }),
{
    reveal_strlit(".jpg");
    reveal_strlit(".png");
    reveal_strlit(".gif");
    reveal_strlit("gchatpic");
    reveal_strlit(".amr");
    reveal_strlit(".silk");
    reveal_strlit(".ptt");
    reveal_strlit("shortvideo");
    reveal_strlit(".mp4");
    lemma_carries(blob, ".jpg"@);
    lemma_carries(blob, ".png"@);
    lemma_carries(blob, ".gif"@);
    lemma_carries(blob, "gchatpic"@);
    lemma_carries(blob, ".amr"@);
    lemma_carries(blob, ".silk"@);
    lemma_carries(blob, ".ptt"@);
    lemma_carries(blob, "shortvideo"@);
    lemma_carries(blob, ".mp4"@);
    if blob.len() == 0 {
        assert(!has_signature(blob, ".jpg"@));
        assert(!has_signature(blob, ".png"@));
        assert(!has_signature(blob, ".gif"@));
        assert(!has_signature(blob, "gchatpic"@));
        assert(!has_signature(blob, ".amr"@));
        assert(!has_signature(blob, ".silk"@));
        assert(!has_signature(blob, ".ptt"@));
        assert(!has_signature(blob, "shortvideo"@));
        assert(!has_signature(blob, ".mp4"@));
    }
}

/// Without a media mark, the text of a recall is a recall, and that of a poke, of a message
/// that someone took back and of a group's new name a system message: wherever in the text
/// the phrase stands, and with the whole text as content.
pub proof fn law_phrases(a: Seq<char>, b: Seq<char>)
    ensures
        ({
            let recall = a + "你猜猜撤回了什么"@ + b;
            let poke = a + "拍了拍"@ + b;
            let back = a + "撤回了一条"@ + b;
            let rename = a + "修改群名"@ + b;
            let renamed = a + "已将群名修改为"@ + b;
            &&& plain_blob(encode_utf8(recall)) ==> heuristic_message(encode_utf8(recall))
                == simple_message(MsgType::Recall, recall)
            &&& plain_blob(encode_utf8(poke)) && !contains_seq(poke, "你猜猜撤回了什么"@)
                ==> heuristic_message(encode_utf8(poke)) == simple_message(MsgType::System, poke)
            &&& plain_blob(encode_utf8(back)) && !contains_seq(back, "你猜猜撤回了什么"@)
                ==> heuristic_message(encode_utf8(back)) == simple_message(MsgType::System, back)
            &&& plain_blob(encode_utf8(rename)) && !contains_seq(rename, "你猜猜撤回了什么"@)
                ==> heuristic_message(encode_utf8(rename)) == simple_message(
                MsgType::System,
                rename,
            )
            &&& plain_blob(encode_utf8(renamed)) && !contains_seq(renamed, "你猜猜撤回了什么"@)
                ==> heuristic_message(encode_utf8(renamed)) == simple_message(
                MsgType::System,
                renamed,
            )
        }),
{
    let recall = a + "你猜猜撤回了什么"@ + b;
    let poke = a + "拍了拍"@ + b;
    let back = a + "撤回了一条"@ + b;
    let rename = a + "修改群名"@ + b;
    let renamed = a + "已将群名修改为"@ + b;
    crate::text::law_contains(recall, "你猜猜撤回了什么"@);
    crate::text::law_contains(poke, "拍了拍"@);
    crate::text::law_contains(back, "撤回了一条"@);
    crate::text::law_contains(rename, "修改群名"@);
    crate::text::law_contains(renamed, "已将群名修改为"@);
    vstd::utf8::encode_utf8_valid_utf8(recall);
    vstd::utf8::encode_utf8_decode_utf8(recall);
    vstd::utf8::encode_utf8_valid_utf8(poke);
    vstd::utf8::encode_utf8_decode_utf8(poke);
    vstd::utf8::encode_utf8_valid_utf8(back);
    vstd::utf8::encode_utf8_decode_utf8(back);
    vstd::utf8::encode_utf8_valid_utf8(rename);
    vstd::utf8::encode_utf8_decode_utf8(rename);
    vstd::utf8::encode_utf8_valid_utf8(renamed);
    vstd::utf8::encode_utf8_decode_utf8(renamed);
}

/// Bytes that are no medium: there are some, at most 65536, and no media mark is among
/// them.
pub open spec fn plain_blob(blob: Seq<u8>) -> bool {
    0 < blob.len() <= 65536 && media_signature(blob) is None
}

/// Of the runs of chat text the first longest one is read that has at least two characters,
/// more than three fifths of them Han.
pub proof fn law_best_chat_run(runs: Seq<Seq<char>>)
    ensures
        match best_chat_run(runs) {
            Some(r) => {
                &&& r.len() >= 2
                &&& 5 * han_count(r) > 3 * r.len()
                &&& exists|i: int|
                    0 <= i < runs.len() && #[trigger] runs[i] == r && (forall|j: int|
                        0 <= j < i && 5 * han_count(#[trigger] runs[j]) > 3 * runs[j].len()
                            && runs[j].len() >= 2 ==> runs[j].len() < r.len())
                &&& forall|j: int|
                    0 <= j < runs.len() && (#[trigger] runs[j]).len() >= 2 && 5 * han_count(runs[j])
                        > 3 * runs[j].len() ==> runs[j].len() <= r.len()
            },
            None => forall|j: int|
                0 <= j < runs.len() ==> (#[trigger] runs[j]).len() < 2 || 5 * han_count(runs[j])
                    <= 3 * runs[j].len(),
        },
    decreases runs.len(),
{
    if runs.len() > 0 {
        let before = runs.drop_last();
        law_best_chat_run(before);
        assert forall|j: int| 0 <= j < before.len() implies before[j] == #[trigger] runs[j] by {}
        let last = runs.last();
        assert(runs[runs.len() - 1] == last);
        match best_chat_run(before) {
            Some(r) => {
                let i = choose|i: int|
                    0 <= i < before.len() && #[trigger] before[i] == r && (forall|j: int|
                        0 <= j < i && 5 * han_count(#[trigger] before[j]) > 3 * before[j].len()
                            && before[j].len() >= 2 ==> before[j].len() < r.len());
                if best_chat_run(runs) == Some(r) {
                    assert(runs[i] == r);
                    assert forall|j: int|
                        0 <= j < i && 5 * han_count(#[trigger] runs[j]) > 3 * runs[j].len()
                            && runs[j].len() >= 2 implies runs[j].len() < r.len() by {
                        assert(before[j] == runs[j]);
                    }
                }
            },
            None => {},
        }
        if best_chat_run(runs) == Some(last) && valid_chat_text(last) {
            let n = runs.len() - 1;
            if best_chat_run(before) != Some(last) {
                assert forall|j: int|
                    0 <= j < n && 5 * han_count(#[trigger] runs[j]) > 3 * runs[j].len()
                        && runs[j].len() >= 2 implies runs[j].len() < last.len() by {
                    assert(before[j] == runs[j]);
                }
            }
        }
    }
}

/// Of the runs of printable ASCII the first longest one is read that has at least two
/// letters or digits.
pub proof fn law_best_ascii_run(runs: Seq<Seq<char>>)
    ensures
        match best_ascii_run(runs) {
            Some(r) => {
                &&& alnum_count(r) >= 2
                &&& exists|i: int|
                    0 <= i < runs.len() && #[trigger] runs[i] == r && (forall|j: int|
                        0 <= j < i && alnum_count(#[trigger] runs[j]) >= 2 ==> runs[j].len() < r.len())
                &&& forall|j: int|
                    0 <= j < runs.len() && alnum_count(#[trigger] runs[j]) >= 2 ==> runs[j].len() <= r.len()
            },
            None => forall|j: int|
                0 <= j < runs.len() ==> alnum_count(#[trigger] runs[j]) < 2,
        },
    decreases runs.len(),
{
    if runs.len() > 0 {
        let before = runs.drop_last();
        law_best_ascii_run(before);
        assert forall|j: int| 0 <= j < before.len() implies before[j] == #[trigger] runs[j] by {}
        let last = runs.last();
        assert(runs[runs.len() - 1] == last);
        match best_ascii_run(before) {
            Some(r) => {
                let i = choose|i: int|
                    0 <= i < before.len() && #[trigger] before[i] == r && (forall|j: int|
                        0 <= j < i && alnum_count(#[trigger] before[j]) >= 2 ==> before[j].len() < r.len());
                if best_ascii_run(runs) == Some(r) {
                    assert(runs[i] == r);
                    assert forall|j: int|
                        0 <= j < i && alnum_count(#[trigger] runs[j]) >= 2 implies runs[j].len() < r.len() by {
                        assert(before[j] == runs[j]);
                    }
                }
            },
            None => {},
        }
        if best_ascii_run(runs) == Some(last) && alnum_count(last) >= MIN_TEXT_LEN {
            let n = runs.len() - 1;
            if best_ascii_run(before) != Some(last) {
                assert forall|j: int|
                    0 <= j < n && alnum_count(#[trigger] runs[j]) >= 2 implies runs[j].len() < last.len() by {
                    assert(before[j] == runs[j]);
                }
            }
        }
    }
}

/// Letters and digits count, one by one, and nothing else does.
pub proof fn law_alnum_count(s: Seq<char>, c: char)
    ensures
        alnum_count(Seq::empty()) == 0,
        alnum_count(s.push(c)) == alnum_count(s) + if ('0' <= c <= '9') || ('a' <= c <= 'z') || ('A'
            <= c <= 'Z') {
            1int
        } else {
            0
        },
{
    assert(s.push(c).drop_last() =~= s);
}

/// A text looks like JSON where it has fifty characters and more than 12 in a hundred are
/// braces, brackets, quotes or colons.
pub proof fn law_json_shape(s: Seq<char>, c: char)
    ensures
        looks_like_json(s) <==> s.len() >= 50 && 100 * json_count(s) > 12 * s.len(),
        json_count(Seq::empty()) == 0,
        json_count(s.push(c)) == json_count(s) + if c == '{' || c == '}' || c == '[' || c == ']' || c
            == '"' || c == ':' {
            1int
        } else {
            0
        },
{
    assert(s.push(c).drop_last() =~= s);
}

/// A label in brackets at a prompt's front is dropped, with the white space behind it; a
/// prompt without one stays.
pub proof fn law_labels_are_dropped(l: Seq<char>, r: Seq<char>, p: Seq<char>)
    requires
        forall|i: int| 0 <= i < l.len() ==> #[trigger] l[i] != ']',
    ensures
        without_label("["@ + l + "]"@ + r) == trim_start_seq(r),
        p.len() > 0 && p[0] != '[' ==> without_label(p) == p,
{
    reveal_strlit("[");
    reveal_strlit("]");
    let s = "["@ + l + "]"@ + r;
    crate::text::law_char_places(s, ']');
    let n = (l.len() + 1) as int;
    assert(s[n] == ']');
    assert forall|j: int| 0 <= j < n implies #[trigger] s[j] != ']' by {
        if j > 0 {
            assert(s[j] == l[j - 1]);
        }
    }
    let f = first_char(s, ']', 0);
    assert(f == Some(n)) by {
        if f is None {
            assert(s[n] != ']');
        } else if f->0 < n {
            assert(s[f->0] != ']');
        } else if f->0 > n {
            assert(s[n] != ']');
        }
    }
    assert(s.skip(n + 1) =~= r);
}

/// How many characters of a text are Han, by how it is put together: a Han character
/// (U+4E00 to U+9FA5) counts, another one does not.
pub proof fn law_han_count(s: Seq<char>, c: char)
    ensures
        han_count(Seq::empty()) == 0,
        '\u{4E00}' <= c <= '\u{9FA5}' ==> han_count(s.push(c)) == han_count(s) + 1,
        !('\u{4E00}' <= c <= '\u{9FA5}') ==> han_count(s.push(c)) == han_count(s),
{
    assert(s.push(c).drop_last() =~= s);
}

/// A run of chat text that stands alone, between characters that end it, is found whole:
/// from its first Han character to its end.
pub proof fn law_lone_chat_run_is_found(p: Seq<char>, h: Seq<char>, q: Seq<char>)
    requires
        forall|i: int| 0 <= i < p.len() ==> !common_han(#[trigger] p[i]),
        forall|i: int| 0 <= i < q.len() ==> !common_han(#[trigger] q[i]),
        q.len() > 0 ==> !chat_char(q[0]),
        h.len() >= 2,
        common_han(h[0]),
        forall|i: int| 0 <= i < h.len() ==> chat_char(#[trigger] h[i]),
        5 * han_count(h) > 3 * h.len(),
    ensures
        readable_run(p + h + q) == Some(h),
{
    let s = p + h + q;
    lemma_no_han_no_runs(s, 0, p.len() as int);
    lemma_run_reaches(s, p.len() as int, (p.len() + h.len()) as int);
    lemma_no_han_no_runs(s, (p.len() + h.len()) as int, s.len() as int);
    assert(s[p.len() as int] == h[0]);
    assert(s.subrange(p.len() as int, (p.len() + h.len()) as int) =~= h);
    assert(chat_runs(s, s.len() as int) =~= Seq::empty());
    assert(chat_runs(s, 0) =~= seq![h]);
    assert(seq![h].drop_last() =~= Seq::empty());
    assert(best_chat_run(seq![h].drop_last()) is None);
}

proof fn lemma_no_han_no_runs(s: Seq<char>, i: int, j: int)
    requires
        0 <= i <= j <= s.len(),
        forall|k: int| i <= k < j ==> !common_han(#[trigger] s[k]),
    ensures
        chat_runs(s, i) == chat_runs(s, j),
    decreases j - i,
{
    if i < j {
        lemma_no_han_no_runs(s, i + 1, j);
    }
}

proof fn lemma_run_reaches(s: Seq<char>, i: int, j: int)
    requires
        0 <= i <= j <= s.len(),
        forall|k: int| i <= k < j ==> chat_char(#[trigger] s[k]),
        j < s.len() ==> !chat_char(s[j]),
    ensures
        chat_run_end(s, i) == j,
    decreases j - i,
{
    if i < j {
        lemma_run_reaches(s, i + 1, j);
    }
}

/// Where no Han run reads, the longest run of printable ASCII with two letters or digits
/// does: one that stands alone is found, trimmed.
pub proof fn law_lone_ascii_run_is_found(p: Seq<char>, h: Seq<char>, q: Seq<char>)
    requires
        forall|i: int|
            0 <= i < p.len() ==> !ascii_text_char(#[trigger] p[i]) && !common_han(p[i]),
        forall|i: int|
            0 <= i < q.len() ==> !ascii_text_char(#[trigger] q[i]) && !common_han(q[i]),
        forall|i: int| 0 <= i < h.len() ==> ascii_text_char(#[trigger] h[i]),
        alnum_count(trim_seq(h)) >= 2,
        h.len() > 0,
    ensures
        readable_run(p + h + q) == Some(trim_seq(h)),
{
    let s = p + h + q;
    assert forall|k: int| 0 <= k < s.len() implies !common_han(#[trigger] s[k]) by {
        if k < p.len() {
            assert(s[k] == p[k]);
        } else if k < p.len() + h.len() {
            assert(ascii_text_char(h[k - p.len()]));
        } else {
            assert(s[k] == q[k - p.len() - h.len()]);
        }
    }
    lemma_no_han_no_runs(s, 0, s.len() as int);
    assert(chat_runs(s, s.len() as int) =~= Seq::empty());
    lemma_no_ascii_no_runs(s, 0, p.len() as int);
    lemma_ascii_run_reaches(s, p.len() as int, (p.len() + h.len()) as int);
    lemma_no_ascii_no_runs(s, (p.len() + h.len()) as int, s.len() as int);
    assert(s[p.len() as int] == h[0]);
    assert(s.subrange(p.len() as int, (p.len() + h.len()) as int) =~= h);
    assert(ascii_runs(s, s.len() as int) =~= Seq::empty());
    assert(ascii_runs(s, 0) =~= seq![trim_seq(h)]);
    assert(seq![trim_seq(h)].drop_last() =~= Seq::empty());
    assert(best_ascii_run(seq![trim_seq(h)].drop_last()) is None);
}

proof fn lemma_no_ascii_no_runs(s: Seq<char>, i: int, j: int)
    requires
        0 <= i <= j <= s.len(),
        forall|k: int| i <= k < j ==> !ascii_text_char(#[trigger] s[k]),
    ensures
        ascii_runs(s, i) == ascii_runs(s, j),
    decreases j - i,
{
    if i < j {
        lemma_no_ascii_no_runs(s, i + 1, j);
    }
}

proof fn lemma_ascii_run_reaches(s: Seq<char>, i: int, j: int)
    requires
        0 <= i <= j <= s.len(),
        forall|k: int| i <= k < j ==> ascii_text_char(#[trigger] s[k]),
        j < s.len() ==> !ascii_text_char(s[j]),
    ensures
        ascii_run_end(s, i) == j,
    decreases j - i,
{
    if i < j {
        lemma_ascii_run_reaches(s, i + 1, j);
    }
}

/// What stands in for what cannot be read: nothing at all, a large blob, and bytes without
/// any readable run. What a readable run gives is a text.
pub proof fn law_unreadable_blobs(blob: Seq<u8>)
    ensures
        ({
            let p = heuristic_message(blob);
            let mark = media_signature(blob) is Some;
            &&& blob.len() == 0 ==> p.msg_type is Text && p.content == "[空]"@
            &&& blob.len() > 65536 && !mark ==> p.msg_type is Other && p.content == "[未知大消息]"@
            &&& plain_blob(blob) && !valid_utf8(blob) ==> (match readable_run(lossy_text(blob)) {
                Some(t) => p.msg_type is Text && p.content == t,
                None => p.msg_type is Other && p.content == "[无法解析]"@,
            })
        }),
{
}

/// A JSON string field reads as its value: what stands between the quotes behind the first
/// such name, where it is plain and has no white space at its ends.
pub proof fn law_json_field(a: Seq<char>, name: Seq<char>, v: Seq<char>, b: Seq<char>)
    requires
        v.len() > 0,
        forall|i: int| 0 <= i < v.len() ==> #[trigger] v[i] != '"' && v[i] != '\\',
        !crate::text::white_space(v[0]),
        !crate::text::white_space(v.last()),
        first_occurrence(
            a + "\""@ + name + "\":\""@ + v + "\""@ + b,
            "\""@ + name + "\":\""@,
            0,
        ) == Some(a.len() as int),
    ensures
        json_field(a + "\""@ + name + "\":\""@ + v + "\""@ + b, name) == Some(v),
{
    reveal_strlit("\"");
    let open = "\""@ + name + "\":\""@;
    let s = a + "\""@ + name + "\":\""@ + v + "\""@ + b;
    let rest = v + "\""@ + b;
    assert(s.skip((a.len() + open.len()) as int) =~= rest);
    lemma_json_body(v, "\""@ + b);
    assert(rest =~= v + ("\""@ + b));
    lemma_no_pair(v, '/', '/');
    lemma_no_pair(v, 'n', ' ');
    lemma_no_pair(v, 't', ' ');
    assert(crate::text::trim_start_seq(v) == v);
    assert(trim_seq(v) == v);
}

proof fn lemma_json_body(v: Seq<char>, tail: Seq<char>)
    requires
        forall|i: int| 0 <= i < v.len() ==> #[trigger] v[i] != '"' && v[i] != '\\',
        tail.len() > 0,
        tail[0] == '"',
    ensures
        json_string_body(v + tail) == v,
    decreases v.len(),
{
    if v.len() == 0 {
        assert(v + tail =~= tail);
        assert(v =~= Seq::empty());
    } else {
        let w = v.drop_first();
        assert forall|i: int| 0 <= i < w.len() implies #[trigger] w[i] != '"' && w[i] != '\\' by {
            assert(w[i] == v[i + 1]);
        }
        lemma_json_body(w, tail);
        assert((v + tail).drop_first() =~= w + tail);
        assert((v + tail)[0] == v[0]);
        assert(seq![v[0]] + w =~= v);
    }
}

proof fn lemma_no_pair(v: Seq<char>, b: char, to: char)
    requires
        forall|i: int| 0 <= i < v.len() ==> #[trigger] v[i] != '\\',
    ensures
        replace_pair_seq(v, '\\', b, to) == v,
    decreases v.len(),
{
    if v.len() > 0 {
        let w = v.drop_first();
        assert forall|i: int| 0 <= i < w.len() implies #[trigger] w[i] != '\\' by {
            assert(w[i] == v[i + 1]);
        }
        lemma_no_pair(w, b, to);
        assert(v[0] != '\\');
        assert(seq![v[0]] + w =~= v);
    }
}

/// What a card displays: its prompt without a bracketed label, its description, its title
/// and its sender's line, each once and in this order, parted by bars.
pub proof fn law_card_parts(text: Seq<char>)
    requires
        looks_like_json(text),
    ensures
        ({
            let prompt = json_field(text, "prompt"@);
            let desc = json_field(text, "desc"@);
            let title = json_field(text, "title"@);
            let nick = json_field(text, "nick"@);
            let shown = json_blob_text(text);
            &&& shown is Some
            &&& prompt is None && desc is None && title is None && nick is None ==> shown == Some(
                "[小程序/分享]"@,
            )
            &&& prompt is None && desc is Some && title is None && nick is None ==> shown == desc
            &&& prompt is None && desc is None && title is Some && nick is None ==> shown == title
            &&& prompt is None && desc is None && title is None && nick is Some ==> shown == Some(
                "来自: "@ + nick->0,
            )
            &&& prompt is Some && prompt->0[0] != '[' && prompt->0.len() > 0 && desc is None
                && title is None && nick is None ==> shown == prompt
            &&& prompt is None && desc is Some && title is Some && desc != title && nick is None
                ==> shown == Some(desc->0 + " | "@ + title->0)
            &&& prompt is None && desc is Some && desc == title && nick is None ==> shown == desc
        }),
{
    let prompt = json_field(text, "prompt"@);
    let desc = json_field(text, "desc"@);
    let title = json_field(text, "title"@);
    let nick = json_field(text, "nick"@);
    let none = Seq::<Seq<char>>::empty();
    if prompt is None {
        assert(none.push(desc->0) =~= seq![desc->0]);
        assert(none.push(title->0) =~= seq![title->0]);
        assert(none.push("来自: "@ + nick->0) =~= seq!["来自: "@ + nick->0]);
        assert(!none.contains(desc->0));
        assert(!none.contains(title->0));
        assert(seq![desc->0].contains(title->0) <==> desc->0 == title->0) by {
            assert(seq![desc->0][0] == desc->0);
        }
        let two = seq![desc->0].push(title->0);
        assert(two.drop_last() =~= seq![desc->0]);
        assert(two.last() == title->0);
        assert(join_seq(seq![desc->0], " | "@) == desc->0);
        assert(join_seq(two.drop_last(), " | "@) == desc->0);
    } else if prompt->0.len() > 0 && prompt->0[0] != '[' {
        assert(without_label(prompt->0) == prompt->0);
        assert(desc is None && title is None && nick is None ==> json_parts(text) == seq![
            prompt->0,
        ]);
    }
}

/// A structured body goes before everything that the bytes may look like otherwise.
pub proof fn law_structure_goes_first(blob: Seq<u8>)
    ensures
        structured_message(decoded_body(blob)) is Some ==> Some(message_of(blob))
            == structured_message(decoded_body(blob)),
        structured_message(decoded_body(blob)) is None ==> message_of(blob) == heuristic_message(
            blob,
        ),
{
}

/// A part is joined to others once, behind them; the sender's line is joined unless some
/// part has it in it already.
pub proof fn law_parts_are_not_repeated(parts: Seq<Seq<char>>, s: Seq<char>, n: Seq<char>)
    ensures
        with_distinct(parts, None) == parts,
        parts.contains(s) ==> with_distinct(parts, Some(s)) == parts,
        !parts.contains(s) ==> with_distinct(parts, Some(s)) == parts.push(s),
        with_nick(parts, None) == parts,
        ({
            let line = "来自: "@ + n;
            let told = exists|i: int, a: Seq<char>, b: Seq<char>|
                0 <= i < parts.len() && #[trigger] parts[i] == #[trigger] (a + line + b);
            &&& told ==> with_nick(parts, Some(n)) == parts
            &&& !told ==> with_nick(parts, Some(n)) == parts.push(line)
        }),
{
    let line = "来自: "@ + n;
    if exists|i: int, a: Seq<char>, b: Seq<char>|
        0 <= i < parts.len() && #[trigger] parts[i] == #[trigger] (a + line + b) {
        let (i, a, b) = choose|i: int, a: Seq<char>, b: Seq<char>|
            0 <= i < parts.len() && #[trigger] parts[i] == #[trigger] (a + line + b);
        crate::text::law_contains(parts[i], line);
        assert(contains_seq(parts[i], line));
    } else {
        assert forall|i: int| 0 <= i < parts.len() implies !contains_seq(#[trigger] parts[i], line) by {
            crate::text::law_contains(parts[i], line);
            if contains_seq(parts[i], line) {
                let (a, b) = choose|a: Seq<char>, b: Seq<char>|
                    parts[i] == #[trigger] (a + line + b);
                assert(parts[i] == (a + line + b));
            }
        }
    }
}

/// A card with everything shows its prompt, its description, its title and its sender, in
/// this order.
pub proof fn law_full_cards(text: Seq<char>, p: Seq<char>, d: Seq<char>, t: Seq<char>, n: Seq<char>)
    requires
        json_field(text, "prompt"@) == Some(p),
        json_field(text, "desc"@) == Some(d),
        json_field(text, "title"@) == Some(t),
        json_field(text, "nick"@) == Some(n),
        without_label(p).len() > 0,
        without_label(p) != d,
        without_label(p) != t,
        d != t,
        forall|a: Seq<char>, b: Seq<char>|
            #![trigger (a + ("来自: "@ + n) + b)]
            without_label(p) != (a + ("来自: "@ + n) + b) && d != (a + ("来自: "@ + n) + b) && t != (a
                + ("来自: "@ + n) + b),
    ensures
        json_parts(text) == seq![without_label(p), d, t, "来自: "@ + n],
{
    let q = without_label(p);
    let line = "来自: "@ + n;
    let one = seq![q];
    let two = seq![q, d];
    let three = seq![q, d, t];
    assert(!one.contains(d));
    assert(one.push(d) =~= two);
    assert(!two.contains(t)) by {
        if two.contains(t) {
            let i = choose|i: int| 0 <= i < two.len() && two[i] == t;
            assert(two[0] == q && two[1] == d);
        }
    }
    assert(two.push(t) =~= three);
    law_parts_are_not_repeated(three, t, n);
    assert(three[0] == q && three[1] == d && three[2] == t);
    assert(three.push(line) =~= seq![q, d, t, line]);
    assert(!(exists|i: int, a: Seq<char>, b: Seq<char>|
        0 <= i < three.len() && #[trigger] three[i] == #[trigger] (a + line + b)));
    assert(with_distinct(one, Some(d)) == two);
    assert(with_distinct(two, Some(t)) == three);
}

} // verus!

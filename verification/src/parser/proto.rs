//! Minimal protobuf wire-format reader for the "40800" message body.
//!
//! ```proto
//! message MsgBody { repeated MsgContent content = 40800; }
//! // MsgContent: 45001 seg id, 45002 content type, 45003 media subtype,
//! // 45101 text body, 47602 emoji display text,
//! // media: 45503 uuid, 45402 file name, 45406 raw 16B md5, 45424 md5 hex,
//! // 45405 size, 45411/45412 width/height,
//! // 45802/45803/45804 thumb/preview/original CDN urls, 45812 local path
//! ```
//!
//! Deliberately schema-light: a flat two-level scan that skips unknown fields by wire
//! type. Truncated or malformed payloads yield partial results.

use vstd::prelude::*;
use vstd::utf8::{decode_utf8, encode_utf8, valid_utf8};

use crate::text::{opt_view, utf8_string, views};

verus! {

/// Top-level message-body field: repeated MsgContent.
pub const FIELD_MSG_CONTENT: u64 = 40800;

pub const FIELD_SEG_ID: u64 = 45001;

pub const FIELD_CONTENT_TYPE: u64 = 45002;

pub const FIELD_MEDIA_SUBTYPE: u64 = 45003;

pub const FIELD_TEXT: u64 = 45101;

pub const FIELD_EMOJI_ID: u64 = 47601;

pub const FIELD_EMOJI_TEXT: u64 = 47602;

pub const FIELD_UUID: u64 = 45503;

pub const FIELD_FILE_NAME: u64 = 45402;

pub const FIELD_RAW_MD5: u64 = 45406;

pub const FIELD_MD5_HEX: u64 = 45424;

pub const FIELD_SIZE: u64 = 45405;

pub const FIELD_WIDTH: u64 = 45411;

pub const FIELD_HEIGHT: u64 = 45412;

pub const FIELD_URL_THUMB: u64 = 45802;

pub const FIELD_URL_PREVIEW: u64 = 45803;

pub const FIELD_URL_ORIGINAL: u64 = 45804;

pub const FIELD_LOCAL_PATH: u64 = 45812;

pub const FIELD_CDN_HOST: u64 = 45816;

/// Reads an LSB-first base-128 varint of at most `left` bytes from the front of `s`. The
/// value is taken modulo 2^64. Second comes what stands behind the bytes that were read.
pub open spec fn varint_within(s: Seq<u8>, left: nat) -> (Option<u64>, Seq<u8>)
    decreases left,
{
    if left == 0 || s.len() == 0 {
        (None, s)
    } else if s[0] < 128 {
        (Some(s[0] as u64), s.drop_first())
    } else {
        let (high, rest) = varint_within(s.drop_first(), (left - 1) as nat);
        match high {
            Some(h) => (
                Some((((s[0] - 128) + 128 * h) % 0x1_0000_0000_0000_0000) as u64),
                rest,
            ),
            None => (None, rest),
        }
    }
}

/// Reads a varint from the front of `s`; more than ten bytes are malformed.
pub open spec fn varint(s: Seq<u8>) -> (Option<u64>, Seq<u8>) {
    varint_within(s, 10)
}

/// Takes `n` bytes off the front of `s`, where there are as many.
pub open spec fn take_bytes(s: Seq<u8>, n: int) -> (Option<Seq<u8>>, Seq<u8>) {
    if n <= s.len() {
        (Some(s.take(n)), s.skip(n))
    } else {
        (None, s)
    }
}

/// Reads a length-delimited value: varint length prefix and payload.
pub open spec fn len_bytes(s: Seq<u8>) -> (Option<Seq<u8>>, Seq<u8>) {
    match varint(s) {
        (Some(n), rest) => take_bytes(rest, n as int),
        (None, rest) => (None, rest),
    }
}

/// A value on the wire.
pub enum WireValue {
    Varint(u64),
    Bytes(Seq<u8>),
    /// Four or eight bytes that no known field has.
    Fixed,
}

/// Reads a value of wire type `wire` from the front of `s`. Groups (3 and 4) are not
/// supported.
pub open spec fn wire_value(s: Seq<u8>, wire: u64) -> (Option<WireValue>, Seq<u8>) {
    if wire == 0 {
        match varint(s) {
            (Some(v), rest) => (Some(WireValue::Varint(v)), rest),
            (None, rest) => (None, rest),
        }
    } else if wire == 2 {
        match len_bytes(s) {
            (Some(b), rest) => (Some(WireValue::Bytes(b)), rest),
            (None, rest) => (None, rest),
        }
    } else if wire == 1 || wire == 5 {
        match take_bytes(s, if wire == 1 { 8int } else { 4int }) {
            (Some(b), rest) => (Some(WireValue::Fixed), rest),
            (None, rest) => (None, rest),
        }
    } else {
        (None, s)
    }
}

/// A tag and the value that follows it, if one could be read.
pub struct WireField {
    pub field: u64,
    pub wire: u64,
    pub value: Option<WireValue>,
}

/// The segment fields that are read as varints.
pub open spec fn segment_varint_field(field: u64) -> bool {
    field == FIELD_SEG_ID || field == FIELD_CONTENT_TYPE || field == FIELD_MEDIA_SUBTYPE || field
        == FIELD_EMOJI_ID || field == FIELD_SIZE || field == FIELD_WIDTH || field == FIELD_HEIGHT
}

/// The segment fields that hold CDN addresses.
pub open spec fn url_field(field: u64) -> bool {
    field == FIELD_URL_THUMB || field == FIELD_URL_PREVIEW || field == FIELD_URL_ORIGINAL || field
        == FIELD_CDN_HOST
}

/// The segment fields that are read as bytes.
pub open spec fn segment_bytes_field(field: u64) -> bool {
    field == FIELD_TEXT || field == FIELD_EMOJI_TEXT || field == FIELD_UUID || field
        == FIELD_FILE_NAME || field == FIELD_RAW_MD5 || field == FIELD_MD5_HEX || field
        == FIELD_LOCAL_PATH || url_field(field)
}

/// A field that the segment decoder knows, on the wire type that it expects.
pub open spec fn segment_field(field: u64, wire: u64) -> bool {
    (wire == 0 && segment_varint_field(field)) || (wire == 2 && segment_bytes_field(field))
}

/// A varint read off a text leaves a shorter text behind it.
pub proof fn lemma_varint_rest(s: Seq<u8>, left: nat)
    ensures
        varint_within(s, left).1.len() <= s.len(),
        varint_within(s, left).0 is Some ==> varint_within(s, left).1.len() < s.len(),
    decreases left,
{
    if left > 0 && s.len() > 0 && s[0] >= 128 {
        lemma_varint_rest(s.drop_first(), (left - 1) as nat);
    }
}

/// Reading a value never lengthens what is left.
pub proof fn lemma_wire_value_rest(s: Seq<u8>, wire: u64)
    ensures
        wire_value(s, wire).1.len() <= s.len(),
{
    lemma_varint_rest(s, 10);
}

/// The fields of a message, in order. Reading stops at the first tag or value that is
/// malformed. Inside a segment it goes on behind a known field whose value was cut off.
pub open spec fn wire_fields(s: Seq<u8>, in_segment: bool) -> Seq<WireField>
    decreases s.len(),
{
    match varint(s) {
        (Some(tag), after_tag) => {
            let field = tag / 8;
            let wire = tag % 8;
            let (value, rest) = wire_value(after_tag, wire);
            proof {
                lemma_varint_rest(s, 10);
                lemma_wire_value_rest(after_tag, wire);
            }
            if value is None && !(in_segment && segment_field(field, wire)) {
                Seq::empty()
            } else {
                seq![WireField { field, wire, value }] + wire_fields(rest, in_segment)
            }
        },
        (None, rest) => Seq::empty(),
    }
}

/// The value of the last varint field `field`.
pub open spec fn last_varint(fs: Seq<WireField>, field: u64) -> Option<u64>
    decreases fs.len(),
{
    if fs.len() == 0 {
        None
    } else if fs.last().field == field && fs.last().wire == 0 {
        match fs.last().value {
            Some(WireValue::Varint(v)) => Some(v),
            _ => None,
        }
    } else {
        last_varint(fs.drop_last(), field)
    }
}

/// The payload of the last length-delimited field `field`.
pub open spec fn last_bytes(fs: Seq<WireField>, field: u64) -> Option<Seq<u8>>
    decreases fs.len(),
{
    if fs.len() == 0 {
        None
    } else if fs.last().field == field && fs.last().wire == 2 {
        match fs.last().value {
            Some(WireValue::Bytes(b)) => Some(b),
            _ => None,
        }
    } else {
        last_bytes(fs.drop_last(), field)
    }
}

/// The text of bytes that are UTF-8.
pub open spec fn utf8_text(b: Option<Seq<u8>>) -> Option<Seq<char>> {
    match b {
        Some(b) => if valid_utf8(b) {
            Some(decode_utf8(b))
        } else {
            None
        },
        None => None,
    }
}

/// The text of bytes that are UTF-8 and not empty.
pub open spec fn utf8_nonempty(b: Option<Seq<u8>>) -> Option<Seq<char>> {
    match utf8_text(b) {
        Some(s) => if s.len() > 0 {
            Some(s)
        } else {
            None
        },
        None => None,
    }
}

/// The address that a field holds, if it holds one.
pub open spec fn field_url(f: WireField) -> Option<Seq<char>> {
    if url_field(f.field) && f.wire == 2 {
        match f.value {
            Some(WireValue::Bytes(b)) => utf8_nonempty(Some(b)),
            _ => None,
        }
    } else {
        None
    }
}

/// The addresses among the fields, in field order.
pub open spec fn all_urls(fs: Seq<WireField>) -> Seq<Seq<char>>
    decreases fs.len(),
{
    if fs.len() == 0 {
        Seq::empty()
    } else {
        match field_url(fs.last()) {
            Some(u) => all_urls(fs.drop_last()).push(u),
            None => all_urls(fs.drop_last()),
        }
    }
}

/// Two's complement reading of 64 bits.
pub open spec fn signed64(v: u64) -> int {
    if v < 0x8000_0000_0000_0000 {
        v as int
    } else {
        v - 0x1_0000_0000_0000_0000
    }
}

/// Two's complement reading of the low 32 bits.
pub open spec fn signed32(v: u64) -> int {
    if v % 0x1_0000_0000 < 0x8000_0000 {
        (v % 0x1_0000_0000) as int
    } else {
        v % 0x1_0000_0000 - 0x1_0000_0000
    }
}

/// The media metadata among a segment's fields.
pub open spec fn media_of_fields(fs: Seq<WireField>) -> MediaSegmentModel {
    MediaSegmentModel {
        uuid: utf8_text(last_bytes(fs, FIELD_UUID)),
        file_name: utf8_text(last_bytes(fs, FIELD_FILE_NAME)),
        raw_md5: last_bytes(fs, FIELD_RAW_MD5),
        md5_hex: utf8_text(last_bytes(fs, FIELD_MD5_HEX)),
        size: match last_varint(fs, FIELD_SIZE) {
            Some(v) => Some(signed64(v) as i64),
            None => None,
        },
        width: match last_varint(fs, FIELD_WIDTH) {
            Some(v) => Some(signed32(v) as i32),
            None => None,
        },
        height: match last_varint(fs, FIELD_HEIGHT) {
            Some(v) => Some(signed32(v) as i32),
            None => None,
        },
        local_path: utf8_text(last_bytes(fs, FIELD_LOCAL_PATH)),
        urls: all_urls(fs),
    }
}

/// Whether metadata holds more than dimensions.
pub open spec fn carries_media(m: MediaSegmentModel) -> bool {
    m.uuid is Some || m.file_name is Some || m.raw_md5 is Some || m.md5_hex is Some || m.size is Some
        || m.local_path is Some || m.urls.len() > 0
}

/// The segment that a list of fields describes.
pub open spec fn segment_of_fields(fs: Seq<WireField>) -> SegmentModel {
    SegmentModel {
        seg_id: last_varint(fs, FIELD_SEG_ID),
        content_type: last_varint(fs, FIELD_CONTENT_TYPE),
        media_subtype: last_varint(fs, FIELD_MEDIA_SUBTYPE),
        text: match utf8_nonempty(last_bytes(fs, FIELD_TEXT)) {
            Some(s) => Some(s),
            None => utf8_nonempty(last_bytes(fs, FIELD_EMOJI_TEXT)),
        },
        media: if carries_media(media_of_fields(fs)) {
            Some(media_of_fields(fs))
        } else {
            None
        },
    }
}

/// The segment that a MsgContent payload encodes.
pub open spec fn decoded_segment(bytes: Seq<u8>) -> SegmentModel {
    segment_of_fields(wire_fields(bytes, true))
}

/// The segments among the fields of a message body.
pub open spec fn segments_of_fields(fs: Seq<WireField>) -> Seq<SegmentModel>
    decreases fs.len(),
{
    if fs.len() == 0 {
        Seq::empty()
    } else {
        let before = segments_of_fields(fs.drop_last());
        match fs.last().value {
            Some(WireValue::Bytes(b)) => if fs.last().field == FIELD_MSG_CONTENT {
                before.push(decoded_segment(b))
            } else {
                before
            },
            _ => before,
        }
    }
}

/// The segments that a message body encodes.
pub open spec fn decoded_body(blob: Seq<u8>) -> Seq<SegmentModel> {
    segments_of_fields(wire_fields(blob, false))
}

/// Media metadata extracted from one media segment (content type 2/4/5).
#[derive(Debug)]
pub struct MediaSegment {
    /// File UUID (45503).
    pub uuid: Option<String>,
    /// File name (45402), often "md5.ext".
    pub file_name: Option<String>,
    /// 16-byte raw MD5 (45406); kept as bytes, never hex-encoded.
    pub raw_md5: Option<Vec<u8>>,
    /// Image MD5 hex string (45424).
    pub md5_hex: Option<String>,
    /// File size in bytes (45405).
    pub size: Option<i64>,
    /// Image width (45411).
    pub width: Option<i32>,
    /// Image height (45412).
    pub height: Option<i32>,
    /// Local cache path (45812).
    pub local_path: Option<String>,
    /// CDN URLs in field order (45802 thumb / 45803 preview / 45804 original).
    pub urls: Vec<String>,
}

/// What a [`MediaSegment`] holds.
pub struct MediaSegmentModel {
    pub uuid: Option<Seq<char>>,
    pub file_name: Option<Seq<char>>,
    pub raw_md5: Option<Seq<u8>>,
    pub md5_hex: Option<Seq<char>>,
    pub size: Option<i64>,
    pub width: Option<i32>,
    pub height: Option<i32>,
    pub local_path: Option<Seq<char>>,
    pub urls: Seq<Seq<char>>,
}

impl View for MediaSegment {
    type V = MediaSegmentModel;

    open spec fn view(&self) -> MediaSegmentModel {
        MediaSegmentModel {
            uuid: opt_view(self.uuid),
            file_name: opt_view(self.file_name),
            raw_md5: match self.raw_md5 {
                Some(b) => Some(b@),
                None => None,
            },
            md5_hex: opt_view(self.md5_hex),
            size: self.size,
            width: self.width,
            height: self.height,
            local_path: opt_view(self.local_path),
            urls: views(self.urls@),
        }
    }
}

impl Default for MediaSegment {
    fn default() -> (r: Self)
        ensures
            r@ == media_of_fields(Seq::empty()),
    {
        let r = MediaSegment {
            uuid: None,
            file_name: None,
            raw_md5: None,
            md5_hex: None,
            size: None,
            width: None,
            height: None,
            local_path: None,
            urls: Vec::new(),
        };
        assert(r@.urls =~= Seq::empty());
        r
    }
}

impl MediaSegment {
    /// True when the segment actually carried image/voice/video fields.
    fn has_media(&self) -> (r: bool)
        ensures
            r == carries_media(self@),
    {
        self.uuid.is_some() || self.file_name.is_some() || self.raw_md5.is_some()
            || self.md5_hex.is_some() || self.size.is_some() || self.local_path.is_some()
            || self.urls.len() > 0
    }
}

/// One decoded MsgContent segment.
#[derive(Debug)]
pub struct ParsedSegment {
    /// Segment-level ID (45001), never the table PK "40001".
    pub seg_id: Option<u64>,
    /// Content type (45002): 1 Text / 2 Image / 3 File / 4 Ptt / 5 Video / 6 QQFace /
    /// 7 Reply / 8 GrayTip / 9 RedBag / 10 Ark / 11 MarketFace / 14 Markdown /
    /// 16 LegacyForward / 17 MarkdownButton / 21 LiveRecord.
    pub content_type: Option<u64>,
    /// Media subtype (45003): 1 image / 2 voice / 7 video / 11 file.
    pub media_subtype: Option<u64>,
    /// Text body (45101, UTF-8) with emoji display text (47602) as fallback.
    pub text: Option<String>,
    /// Media metadata when the segment carried media fields.
    pub media: Option<MediaSegment>,
}

/// What a [`ParsedSegment`] holds.
pub struct SegmentModel {
    pub seg_id: Option<u64>,
    pub content_type: Option<u64>,
    pub media_subtype: Option<u64>,
    pub text: Option<Seq<char>>,
    pub media: Option<MediaSegmentModel>,
}

impl View for ParsedSegment {
    type V = SegmentModel;

    open spec fn view(&self) -> SegmentModel {
        SegmentModel {
            seg_id: self.seg_id,
            content_type: self.content_type,
            media_subtype: self.media_subtype,
            text: opt_view(self.text),
            media: match self.media {
                Some(m) => Some(m@),
                None => None,
            },
        }
    }
}

/// The segments of a list.
pub open spec fn segment_views(v: Seq<ParsedSegment>) -> Seq<SegmentModel> {
    v.map_values(|s: ParsedSegment| s@)
}

/// Cursor over a wire-format buffer. All reads are bounds-checked; a malformed or
/// truncated payload yields `None`.
pub struct Cursor<'a> {
    pub buf: &'a [u8],
    pub pos: usize,
}

impl<'a> Cursor<'a> {
    /// The cursor stands inside the buffer, or at its end.
    pub open spec fn wf(&self) -> bool {
        self.pos <= self.buf@.len()
    }

    /// What is left to read.
    pub open spec fn rest(&self) -> Seq<u8> {
        self.buf@.skip(self.pos as int)
    }

    /// A cursor at the front of a buffer.
    pub fn new(buf: &'a [u8]) -> (r: Self)
        ensures
            r.wf(),
            r.buf == buf,
            r.pos == 0,
            r.rest() == buf@,
    {
        let r = Cursor { buf, pos: 0 };
        assert(r.rest() =~= buf@);
        r
    }

    fn read_varint_within(&mut self, left: u32) -> (r: Option<u64>)
        requires
            old(self).wf(),
        ensures
            final(self).wf(),
            final(self).buf == old(self).buf,
            (r, final(self).rest()) == varint_within(old(self).rest(), left as nat),
        decreases left,
    {
        if left == 0 || self.pos >= self.buf.len() {
            return None;
        }
        let ghost s = self.rest();
        let b: u8 = self.buf[self.pos];
        self.pos += 1;
        assert(self.rest() =~= s.drop_first());
        if b < 128 {
            return Some(b as u64);
        }
        match self.read_varint_within(left - 1) {
            Some(h) => {
                let wide: u128 = (b - 128) as u128 + 128 * h as u128;
                Some((wide % 0x1_0000_0000_0000_0000) as u64)
            },
            None => None,
        }
    }

    /// LSB-first base-128 varint (at most 10 bytes). A number's encoding reads back as the
    /// number and is used up. Nothing is read exactly where none of the next ten bytes is
    /// below 0x80.
    pub fn read_varint(&mut self) -> (r: Option<u64>)
        requires
            old(self).wf(),
        ensures
            final(self).wf(),
            final(self).buf == old(self).buf,
            (r, final(self).rest()) == varint(old(self).rest()),
            forall|v: u64|
                (#[trigger] encode_varint(v as nat)).is_prefix_of(old(self).rest()) ==> r == Some(v)
                    && final(self).pos == old(self).pos + encode_varint(v as nat).len(),
            r is None <==> forall|i: int|
                old(self).pos <= i < old(self).pos + 10 && i < old(self).buf@.len()
                    ==> #[trigger] old(self).buf@[i] >= 0x80,
            old(self).pos <= final(self).pos <= old(self).pos + 10,
    {
        let ghost s = self.rest();
        let r = self.read_varint_within(10);
        proof {
            law_varint_read(s);
            assert(self.rest().len() == self.buf@.len() - self.pos);
            assert forall|v: u64| (#[trigger] encode_varint(v as nat)).is_prefix_of(s) implies r
                == Some(v) && self.pos == old(self).pos + encode_varint(v as nat).len() by {
                let e = encode_varint(v as nat);
                let tail = s.skip(e.len() as int);
                assert(e + tail =~= s);
                law_varint_round_trip(v, tail);
            }
            let b = old(self).buf@;
            let at = old(self).pos as int;
            assert forall|i: int| 0 <= i < s.len() implies #[trigger] s[i] == b[at + i] by {}
            if forall|i: int| at <= i < at + 10 && i < b.len() ==> #[trigger] b[i] >= 0x80 {
                assert forall|i: int| 0 <= i < 10 && i < s.len() implies #[trigger] s[i] >= 0x80 by {
                    assert(b[at + i] >= 0x80);
                }
            }
            if r is None {
                assert forall|i: int| at <= i < at + 10 && i < b.len() implies #[trigger] b[i]
                    >= 0x80 by {
                    assert(s[i - at] >= 0x80);
                }
            }
        }
        r
    }

    /// Read a tag: (field_number, wire_type).
    fn read_tag(&mut self) -> (r: Option<(u64, u64)>)
        requires
            old(self).wf(),
        ensures
            final(self).wf(),
            final(self).buf == old(self).buf,
            final(self).rest() == varint(old(self).rest()).1,
            r == (match varint(old(self).rest()).0 {
                Some(tag) => Some(((tag / 8) as u64, (tag % 8) as u64)),
                None => None,
            }),
    {
        match self.read_varint() {
            Some(tag) => Some((tag / 8, tag % 8)),
            None => None,
        }
    }

    fn read_bytes(&mut self, len: u64) -> (r: Option<&'a [u8]>)
        requires
            old(self).wf(),
        ensures
            final(self).wf(),
            final(self).buf == old(self).buf,
            (opt_bytes(r), final(self).rest()) == take_bytes(old(self).rest(), len as int),
    {
        let left: usize = self.buf.len() - self.pos;
        if len > left as u64 {
            return None;
        }
        let end: usize = self.pos + len as usize;
        let ghost s = self.rest();
        let out: &'a [u8] = vstd::slice::slice_subrange(self.buf, self.pos, end);
        assert(out@ =~= s.take(len as int));
        self.pos = end;
        assert(self.rest() =~= s.skip(len as int));
        Some(out)
    }

    /// Length-delimited value: varint length prefix + payload.
    fn read_len_bytes(&mut self) -> (r: Option<&'a [u8]>)
        requires
            old(self).wf(),
        ensures
            final(self).wf(),
            final(self).buf == old(self).buf,
            (opt_bytes(r), final(self).rest()) == len_bytes(old(self).rest()),
    {
        match self.read_varint() {
            Some(len) => self.read_bytes(len),
            None => None,
        }
    }

    /// A length-delimited UTF-8 text.
    fn read_text(&mut self) -> (r: Option<String>)
        requires
            old(self).wf(),
        ensures
            final(self).wf(),
            final(self).buf == old(self).buf,
            opt_view(r) == utf8_text(len_bytes(old(self).rest()).0),
            final(self).rest() == len_bytes(old(self).rest()).1,
    {
        match self.read_len_bytes() {
            Some(b) => str_from_bytes(b),
            None => None,
        }
    }

    /// Skip one value of the given wire type. Wire types 3/4 (groups) are not supported:
    /// `false` makes the caller stop decoding.
    fn skip(&mut self, wire: u64) -> (r: bool)
        requires
            old(self).wf(),
        ensures
            final(self).wf(),
            final(self).buf == old(self).buf,
            r == wire_value(old(self).rest(), wire).0 is Some,
            final(self).rest() == wire_value(old(self).rest(), wire).1,
    {
        if wire == 0 {
            self.read_varint().is_some()
        } else if wire == 1 {
            self.read_bytes(8).is_some()
        } else if wire == 2 {
            self.read_len_bytes().is_some()
        } else if wire == 5 {
            self.read_bytes(4).is_some()
        } else {
            false
        }
    }
}

/// The view of optional bytes.
spec fn opt_bytes(o: Option<&[u8]>) -> Option<Seq<u8>> {
    match o {
        Some(b) => Some(b@),
        None => None,
    }
}

fn str_from_bytes(bytes: &[u8]) -> (r: Option<String>)
    ensures
        opt_view(r) == utf8_text(Some(bytes@)),
{
    utf8_string(bytes)
}

fn to_i64(v: u64) -> (r: i64)
    ensures
        r == signed64(v),
{
    if v < 0x8000_0000_0000_0000 {
        v as i64
    } else {
        -((0xffff_ffff_ffff_ffff - v) as i64) - 1
    }
}

fn to_i32(v: u64) -> (r: i32)
    ensures
        r == signed32(v),
{
    let low: u64 = v % 0x1_0000_0000;
    if low < 0x8000_0000 {
        low as i32
    } else {
        -((0xffff_ffff - low) as i32) - 1
    }
}

/// One more field at the end of a list.
proof fn lemma_push_field(fs: Seq<WireField>, f: WireField)
    ensures
        forall|id: u64| #[trigger]
            last_varint(fs.push(f), id) == if f.field == id && f.wire == 0 {
                match f.value {
                    Some(WireValue::Varint(v)) => Some(v),
                    _ => None,
                }
            } else {
                last_varint(fs, id)
            },
        forall|id: u64| #[trigger]
            last_bytes(fs.push(f), id) == if f.field == id && f.wire == 2 {
                match f.value {
                    Some(WireValue::Bytes(b)) => Some(b),
                    _ => None,
                }
            } else {
                last_bytes(fs, id)
            },
        all_urls(fs.push(f)) == match field_url(f) {
            Some(u) => all_urls(fs).push(u),
            None => all_urls(fs),
        },
{
    assert(fs.push(f).drop_last() =~= fs);
}

/// What has been gathered of a segment so far.
struct SegmentState<'a> {
    seg_id: Option<u64>,
    content_type: Option<u64>,
    media_subtype: Option<u64>,
    text_raw: Option<&'a [u8]>,
    emoji_text: Option<&'a [u8]>,
    media: MediaSegment,
}

impl<'a> SegmentState<'a> {
    /// The state holds what the fields `fs` say.
    spec fn holds(&self, fs: Seq<WireField>) -> bool {
        &&& self.seg_id == last_varint(fs, FIELD_SEG_ID)
        &&& self.content_type == last_varint(fs, FIELD_CONTENT_TYPE)
        &&& self.media_subtype == last_varint(fs, FIELD_MEDIA_SUBTYPE)
        &&& opt_bytes(self.text_raw) == last_bytes(fs, FIELD_TEXT)
        &&& opt_bytes(self.emoji_text) == last_bytes(fs, FIELD_EMOJI_TEXT)
        &&& self.media@ == media_of_fields(fs)
    }

    /// Reads the value of a known varint field.
    fn take_varint(&mut self, cursor: &mut Cursor<'a>, field: u64, Ghost(fs): Ghost<Seq<WireField>>)
        requires
            old(cursor).wf(),
            segment_varint_field(field),
            old(self).holds(fs),
        ensures
            final(cursor).wf(),
            final(cursor).buf == old(cursor).buf,
            final(cursor).rest() == wire_value(old(cursor).rest(), 0).1,
            final(self).holds(
                fs.push(
                    WireField { field, wire: 0, value: wire_value(old(cursor).rest(), 0).0 },
                ),
            ),
    {
        proof {
            lemma_push_field(
                fs,
                WireField { field, wire: 0, value: wire_value(cursor.rest(), 0).0 },
            );
        }
        let v: Option<u64> = cursor.read_varint();
        if field == FIELD_SEG_ID {
            self.seg_id = v;
        } else if field == FIELD_CONTENT_TYPE {
            self.content_type = v;
        } else if field == FIELD_MEDIA_SUBTYPE {
            self.media_subtype = v;
        } else if field == FIELD_SIZE {
            self.media.size = match v {
                Some(n) => Some(to_i64(n)),
                None => None,
            };
        } else if field == FIELD_WIDTH {
            self.media.width = match v {
                Some(n) => Some(to_i32(n)),
                None => None,
            };
        } else if field == FIELD_HEIGHT {
            self.media.height = match v {
                Some(n) => Some(to_i32(n)),
                None => None,
            };
        }
    }

    /// Reads the value of a known length-delimited field.
    fn take_bytes_field(
        &mut self,
        cursor: &mut Cursor<'a>,
        field: u64,
        Ghost(fs): Ghost<Seq<WireField>>,
    )
        requires
            old(cursor).wf(),
            segment_bytes_field(field),
            old(self).holds(fs),
        ensures
            final(cursor).wf(),
            final(cursor).buf == old(cursor).buf,
            final(cursor).rest() == wire_value(old(cursor).rest(), 2).1,
            final(self).holds(
                fs.push(
                    WireField { field, wire: 2, value: wire_value(old(cursor).rest(), 2).0 },
                ),
            ),
    {
        let ghost urls = self.media.urls@;
        proof {
            lemma_push_field(
                fs,
                WireField { field, wire: 2, value: wire_value(cursor.rest(), 2).0 },
            );
        }
        if field == FIELD_TEXT {
            self.text_raw = cursor.read_len_bytes();
        } else if field == FIELD_EMOJI_TEXT {
            self.emoji_text = cursor.read_len_bytes();
        } else if field == FIELD_UUID {
            self.media.uuid = cursor.read_text();
        } else if field == FIELD_FILE_NAME {
            self.media.file_name = cursor.read_text();
        } else if field == FIELD_RAW_MD5 {
            self.media.raw_md5 = match cursor.read_len_bytes() {
                Some(b) => Some(vstd::slice::slice_to_vec(b)),
                None => None,
            };
        } else if field == FIELD_MD5_HEX {
            self.media.md5_hex = cursor.read_text();
        } else if field == FIELD_LOCAL_PATH {
            self.media.local_path = cursor.read_text();
        } else {
            match cursor.read_text() {
                Some(u) => {
                    if !u.as_str().is_empty() {
                        self.media.urls.push(u);
                        assert(views(self.media.urls@) =~= views(urls).push(u@));
                    }
                },
                None => {},
            }
        }
    }

    /// The segment that was gathered.
    fn finish(self) -> (r: ParsedSegment)
        ensures
            forall|fs: Seq<WireField>| self.holds(fs) ==> r@ == segment_of_fields(fs),
    {
        let mut text = nonempty_text(self.text_raw);
        if text.is_none() {
            text = nonempty_text(self.emoji_text);
        }
        let media = if self.media.has_media() {
            Some(self.media)
        } else {
            None
        };
        ParsedSegment {
            seg_id: self.seg_id,
            content_type: self.content_type,
            media_subtype: self.media_subtype,
            text,
            media,
        }
    }
}

fn nonempty_text(b: Option<&[u8]>) -> (r: Option<String>)
    ensures
        opt_view(r) == utf8_nonempty(opt_bytes(b)),
{
    match b {
        Some(b) => match str_from_bytes(b) {
            Some(s) => if s.as_str().is_empty() {
                None
            } else {
                Some(s)
            },
            None => None,
        },
        None => None,
    }
}

fn is_segment_varint_field(field: u64) -> (r: bool)
    ensures
        r == segment_varint_field(field),
{
    field == FIELD_SEG_ID || field == FIELD_CONTENT_TYPE || field == FIELD_MEDIA_SUBTYPE || field
        == FIELD_EMOJI_ID || field == FIELD_SIZE || field == FIELD_WIDTH || field == FIELD_HEIGHT
}

fn is_segment_bytes_field(field: u64) -> (r: bool)
    ensures
        r == segment_bytes_field(field),
{
    field == FIELD_TEXT || field == FIELD_EMOJI_TEXT || field == FIELD_UUID || field
        == FIELD_FILE_NAME || field == FIELD_RAW_MD5 || field == FIELD_MD5_HEX || field
        == FIELD_LOCAL_PATH || field == FIELD_URL_THUMB || field == FIELD_URL_PREVIEW || field
        == FIELD_URL_ORIGINAL || field == FIELD_CDN_HOST
}

/// Decode one MsgContent segment (payload already stripped of its 40800 wrapper).
/// Unknown fields are skipped by wire type; a truncated segment keeps whatever decoded
/// so far.
fn decode_segment(bytes: &[u8]) -> (r: ParsedSegment)
    ensures
        r@ == decoded_segment(bytes@),
{
    let mut cursor = Cursor::new(bytes);
    let mut st = SegmentState {
        seg_id: None,
        content_type: None,
        media_subtype: None,
        text_raw: None,
        emoji_text: None,
        media: MediaSegment::default(),
    };
    let ghost mut done: Seq<WireField> = Seq::empty();
    let ghost all = wire_fields(bytes@, true);
    assert(done + wire_fields(cursor.rest(), true) =~= all);
    loop
        invariant_except_break
            all == done + wire_fields(cursor.rest(), true),
        invariant
            cursor.wf(),
            st.holds(done),
            all == wire_fields(bytes@, true),
        ensures
            st.holds(all),
        decreases cursor.rest().len(),
    {
        let ghost s = cursor.rest();
        proof {
            lemma_varint_rest(s, 10);
        }
        match cursor.read_tag() {
            None => {
                assert(all =~= done);
                break;
            },
            Some((field, wire)) => {
                let ghost f = WireField {
                    field,
                    wire,
                    value: wire_value(cursor.rest(), wire).0,
                };
                proof {
                    lemma_wire_value_rest(cursor.rest(), wire);
                    lemma_push_field(done, f);
                }
                if wire == 0 && is_segment_varint_field(field) {
                    st.take_varint(&mut cursor, field, Ghost(done));
                } else if wire == 2 && is_segment_bytes_field(field) {
                    st.take_bytes_field(&mut cursor, field, Ghost(done));
                } else if !cursor.skip(wire) {
                    assert(all =~= done);
                    break;
                }
                proof {
                    let next = done.push(f);
                    assert(all =~= next + wire_fields(cursor.rest(), true));
                    done = next;
                }
            },
        }
    }
    st.finish()
}

/// Parse the top-level MsgBody: repeated MsgContent segments on field 40800. Malformed
/// input yields whatever decoded cleanly; an empty result means "not a structured
/// message body".
pub fn parse_msg_body(blob: &[u8]) -> (r: Vec<ParsedSegment>)
    ensures
        segment_views(r@) == decoded_body(blob@),
{
    let mut out: Vec<ParsedSegment> = Vec::new();
    let mut cursor = Cursor::new(blob);
    let ghost mut done: Seq<WireField> = Seq::empty();
    let ghost all = wire_fields(blob@, false);
    assert(done + wire_fields(cursor.rest(), false) =~= all);
    assert(segment_views(out@) =~= segments_of_fields(done));
    loop
        invariant_except_break
            all == done + wire_fields(cursor.rest(), false),
        invariant
            cursor.wf(),
            segment_views(out@) == segments_of_fields(done),
            all == wire_fields(blob@, false),
        ensures
            segment_views(out@) == segments_of_fields(all),
        decreases cursor.rest().len(),
    {
        let ghost s = cursor.rest();
        proof {
            lemma_varint_rest(s, 10);
        }
        match cursor.read_tag() {
            None => {
                assert(all =~= done);
                break;
            },
            Some((field, wire)) => {
                let ghost f = WireField {
                    field,
                    wire,
                    value: wire_value(cursor.rest(), wire).0,
                };
                proof {
                    lemma_wire_value_rest(cursor.rest(), wire);
                    assert(done.push(f).drop_last() =~= done);
                }
                if field == FIELD_MSG_CONTENT && wire == 2 {
                    match cursor.read_len_bytes() {
                        Some(seg) => {
                            let ghost before = out@;
                            let parsed = decode_segment(seg);
                            out.push(parsed);
                            assert(segment_views(out@) =~= segment_views(before).push(parsed@));
                        },
                        None => {
                            assert(all =~= done);
                            break;
                        },
                    }
                } else if !cursor.skip(wire) {
                    assert(all =~= done);
                    break;
                }
                proof {
                    let next = done.push(f);
                    assert(all =~= next + wire_fields(cursor.rest(), false));
                    done = next;
                }
            },
        }
    }
    out
}

/// The varint encoding of a number.
pub open spec fn encode_varint(v: nat) -> Seq<u8>
    decreases v,
{
    if v < 128 {
        seq![v as u8]
    } else {
        seq![(128 + v % 128) as u8] + encode_varint(v / 128)
    }
}

/// A field of one of the two encodings that the decoder reads values from.
pub open spec fn encodable(f: WireField) -> bool {
    &&& f.field < 0x2000_0000_0000_0000
    &&& match f.value {
        Some(WireValue::Varint(v)) => f.wire == 0,
        Some(WireValue::Bytes(b)) => f.wire == 2 && b.len() < 0x1_0000_0000_0000_0000,
        _ => false,
    }
}

/// The encoding of a field: tag, then value.
pub open spec fn encode_field(f: WireField) -> Seq<u8> {
    let tag = encode_varint((f.field * 8 + f.wire) as nat);
    match f.value {
        Some(WireValue::Varint(v)) => tag + encode_varint(v as nat),
        Some(WireValue::Bytes(b)) => tag + (encode_varint(b.len()) + b),
        _ => tag,
    }
}

/// The encodings of the fields, one after the other.
pub open spec fn encode_fields(fs: Seq<WireField>) -> Seq<u8>
    decreases fs.len(),
{
    if fs.len() == 0 {
        Seq::empty()
    } else {
        encode_field(fs[0]) + encode_fields(fs.drop_first())
    }
}

/// The message body that carries the given segment payloads.
pub open spec fn encode_body(segments: Seq<Seq<u8>>) -> Seq<u8> {
    encode_fields(content_fields(segments))
}

/// The content fields that carry the given segment payloads.
pub open spec fn content_fields(segments: Seq<Seq<u8>>) -> Seq<WireField> {
    segments.map_values(
        |b: Seq<u8>|
            WireField { field: FIELD_MSG_CONTENT, wire: 2, value: Some(WireValue::Bytes(b)) },
    )
}

spec fn fits(v: nat, bytes: nat) -> bool
    decreases bytes,
{
    bytes > 0 && (v < 128 || fits(v / 128, (bytes - 1) as nat))
}

proof fn lemma_varint_fits(v: nat, left: nat, tail: Seq<u8>)
    requires
        v < 0x1_0000_0000_0000_0000,
        fits(v, left),
    ensures
        varint_within(encode_varint(v) + tail, left) == (Some(v as u64), tail),
    decreases left,
{
    let s = encode_varint(v) + tail;
    if v < 128 {
        assert(s.drop_first() =~= tail);
    } else {
        lemma_varint_fits(v / 128, (left - 1) as nat, tail);
        assert(s.drop_first() =~= encode_varint(v / 128) + tail);
        assert(s[0] - 128 == v % 128);
    }
}

/// A number's varint encoding reads back as the number, whatever follows it.
pub proof fn law_varint_round_trip(v: u64, tail: Seq<u8>)
    ensures
        varint(encode_varint(v as nat) + tail) == (Some(v), tail),
{
    reveal_with_fuel(fits, 11);
    lemma_varint_fits(v as nat, 10, tail);
}

/// How many bytes reading a varint of at most `left` bytes uses up.
pub open spec fn varint_bytes(s: Seq<u8>, left: nat) -> nat
    decreases left,
{
    if left == 0 || s.len() == 0 {
        0
    } else if s[0] < 128 {
        1
    } else {
        1 + varint_bytes(s.drop_first(), (left - 1) as nat)
    }
}

proof fn lemma_varint_read(s: Seq<u8>, left: nat)
    ensures
        varint_within(s, left).0 is None <==> forall|i: int|
            0 <= i < left && i < s.len() ==> #[trigger] s[i] >= 128,
        varint_bytes(s, left) <= left,
        varint_bytes(s, left) <= s.len(),
        varint_within(s, left).1 == s.skip(varint_bytes(s, left) as int),
        varint_within(s, left).0 is Some ==> varint_bytes(s, left) > 0 && s[varint_bytes(s, left)
            - 1] < 128,
        forall|i: int| 0 <= i < varint_bytes(s, left) - 1 ==> #[trigger] s[i] >= 128,
    decreases left,
{
    if left == 0 || s.len() == 0 {
        assert(s.skip(0) =~= s);
    } else if s[0] < 128 {
        assert(s.skip(1) =~= s.drop_first());
    } else {
        let t = s.drop_first();
        let less = (left - 1) as nat;
        lemma_varint_read(t, less);
        let n = varint_bytes(t, less) as int;
        assert(t.skip(n) =~= s.skip(n + 1));
        assert forall|i: int| 0 <= i < t.len() implies #[trigger] t[i] == s[i + 1] by {}
        if forall|i: int| 0 <= i < less && i < t.len() ==> #[trigger] t[i] >= 128 {
            assert forall|i: int| 0 <= i < left && i < s.len() implies #[trigger] s[i] >= 128 by {
                if i > 0 {
                    assert(t[i - 1] == s[i]);
                }
            }
        } else {
            let i = choose|i: int| 0 <= i < less && i < t.len() && !(#[trigger] t[i] >= 128);
            assert(s[i + 1] < 128);
        }
        assert forall|i: int| 0 <= i < n implies #[trigger] s[i] >= 128 by {
            if i > 0 {
                assert(t[i - 1] == s[i]);
            }
        }
    }
}

/// Nothing is read exactly where none of the first ten bytes ends a varint, that is, none
/// is below 0x80. Otherwise the first such byte is the last one used up. What is left is
/// what stands behind the bytes that were used up, at most ten.
pub proof fn law_varint_read(s: Seq<u8>)
    ensures
        varint(s).0 is None <==> forall|i: int|
            0 <= i < 10 && i < s.len() ==> #[trigger] s[i] >= 0x80,
        varint_bytes(s, 10) <= 10,
        varint_bytes(s, 10) <= s.len(),
        varint(s).1 == s.skip(varint_bytes(s, 10) as int),
        varint(s).0 is Some ==> varint_bytes(s, 10) > 0 && s[varint_bytes(s, 10) - 1] < 0x80,
        forall|i: int| 0 <= i < varint_bytes(s, 10) - 1 ==> #[trigger] s[i] >= 0x80,
{
    lemma_varint_read(s, 10);
}

/// A field's encoding reads back as the field, whatever follows it.
pub proof fn law_field_round_trip(f: WireField, tail: Seq<u8>, in_segment: bool)
    requires
        encodable(f),
    ensures
        wire_fields(encode_field(f) + tail, in_segment) == seq![f] + wire_fields(tail, in_segment),
{
    let tag = (f.field * 8 + f.wire) as u64;
    assert(tag / 8 == f.field && tag % 8 == f.wire);
    match f.value {
        Some(WireValue::Varint(v)) => {
            let body = encode_varint(v as nat) + tail;
            assert(encode_field(f) + tail =~= encode_varint(tag as nat) + body);
            law_varint_round_trip(tag, body);
            law_varint_round_trip(v, tail);
        },
        Some(WireValue::Bytes(b)) => {
            let body = encode_varint(b.len()) + (b + tail);
            assert(encode_field(f) + tail =~= encode_varint(tag as nat) + body);
            law_varint_round_trip(tag, body);
            law_varint_round_trip(b.len() as u64, b + tail);
            assert((b + tail).take(b.len() as int) =~= b);
            assert((b + tail).skip(b.len() as int) =~= tail);
        },
        _ => {},
    }
}

/// Well-formed fields survive whatever stands behind them, a truncated tail included.
pub proof fn law_fields_survive_any_tail(fs: Seq<WireField>, tail: Seq<u8>, in_segment: bool)
    requires
        forall|i: int| 0 <= i < fs.len() ==> encodable(#[trigger] fs[i]),
    ensures
        wire_fields(encode_fields(fs) + tail, in_segment) == fs + wire_fields(tail, in_segment),
    decreases fs.len(),
{
    if fs.len() == 0 {
        assert(encode_fields(fs) + tail =~= tail);
        assert(fs + wire_fields(tail, in_segment) =~= wire_fields(tail, in_segment));
    } else {
        let more = fs.drop_first();
        assert forall|i: int| 0 <= i < more.len() implies encodable(#[trigger] more[i]) by {
            assert(more[i] == fs[i + 1]);
        }
        law_fields_survive_any_tail(more, tail, in_segment);
        assert(encode_fields(fs) + tail =~= encode_field(fs[0]) + (encode_fields(more) + tail));
        law_field_round_trip(fs[0], encode_fields(more) + tail, in_segment);
        assert(fs + wire_fields(tail, in_segment) =~= seq![fs[0]] + (more + wire_fields(
            tail,
            in_segment,
        )));
    }
}

proof fn lemma_varint_extends(s: Seq<u8>, left: nat, more: Seq<u8>)
    ensures
        varint_within(s, left).0 is Some ==> varint_within(s + more, left) == (
            varint_within(s, left).0,
            varint_within(s, left).1 + more,
        ),
    decreases left,
{
    if left > 0 && s.len() > 0 {
        assert((s + more).drop_first() =~= s.drop_first() + more);
        lemma_varint_extends(s.drop_first(), (left - 1) as nat, more);
    }
}

proof fn lemma_take_bytes_extends(s: Seq<u8>, n: int, more: Seq<u8>)
    requires
        n >= 0,
    ensures
        take_bytes(s, n).0 is Some ==> take_bytes(s + more, n) == (
            take_bytes(s, n).0,
            take_bytes(s, n).1 + more,
        ),
{
    if n <= s.len() {
        assert((s + more).take(n) =~= s.take(n));
        assert((s + more).skip(n) =~= s.skip(n) + more);
    }
}

proof fn lemma_wire_value_extends(s: Seq<u8>, wire: u64, more: Seq<u8>)
    ensures
        wire_value(s, wire).0 is Some ==> wire_value(s + more, wire) == (
            wire_value(s, wire).0,
            wire_value(s, wire).1 + more,
        ),
{
    lemma_varint_extends(s, 10, more);
    lemma_take_bytes_extends(s, 8, more);
    lemma_take_bytes_extends(s, 4, more);
    match varint(s) {
        (Some(n), rest) => lemma_take_bytes_extends(rest, n as int, more),
        (None, rest) => {},
    }
}

/// Bytes that are complete fields, one after the other, of any wire type that can be read.
pub open spec fn complete_fields(s: Seq<u8>) -> bool
    decreases s.len(),
{
    s.len() == 0 || match varint(s) {
        (Some(tag), after_tag) => {
            let (value, rest) = wire_value(after_tag, tag % 8);
            proof {
                lemma_varint_rest(s, 10);
                lemma_wire_value_rest(after_tag, tag % 8);
            }
            value is Some && complete_fields(rest)
        },
        (None, rest) => false,
    }
}

/// The fields of complete fields and of what follows them are the fields of both, one
/// after the other.
pub proof fn law_fields_concatenate(a: Seq<u8>, b: Seq<u8>, in_segment: bool)
    requires
        complete_fields(a),
    ensures
        wire_fields(a + b, in_segment) == wire_fields(a, in_segment) + wire_fields(b, in_segment),
    decreases a.len(),
{
    if a.len() == 0 {
        assert(a + b =~= b);
        assert(wire_fields(a, in_segment) =~= Seq::empty());
        assert(wire_fields(a, in_segment) + wire_fields(b, in_segment) =~= wire_fields(
            b,
            in_segment,
        ));
    } else {
        let tag = varint(a).0->0;
        let after_tag = varint(a).1;
        let (value, rest) = wire_value(after_tag, tag % 8);
        lemma_varint_rest(a, 10);
        lemma_wire_value_rest(after_tag, tag % 8);
        lemma_varint_extends(a, 10, b);
        lemma_wire_value_extends(after_tag, tag % 8, b);
        law_fields_concatenate(rest, b, in_segment);
        let f = WireField { field: tag / 8, wire: tag % 8, value };
        assert(wire_fields(a, in_segment) == seq![f] + wire_fields(rest, in_segment));
        assert(wire_fields(a + b, in_segment) == seq![f] + wire_fields(rest + b, in_segment));
        assert(wire_fields(a + b, in_segment) =~= wire_fields(a, in_segment) + wire_fields(
            b,
            in_segment,
        ));
    }
}

proof fn lemma_segments_concatenate(x: Seq<WireField>, y: Seq<WireField>)
    ensures
        segments_of_fields(x + y) == segments_of_fields(x) + segments_of_fields(y),
    decreases y.len(),
{
    if y.len() == 0 {
        assert(x + y =~= x);
        assert(segments_of_fields(x) + segments_of_fields(y) =~= segments_of_fields(x));
    } else {
        lemma_segments_concatenate(x, y.drop_last());
        assert((x + y).drop_last() =~= x + y.drop_last());
        assert((x + y).last() == y.last());
        assert(segments_of_fields(x + y) =~= segments_of_fields(x) + segments_of_fields(y));
    }
}

/// A body behind complete fields adds its segments to theirs: bodies concatenate.
pub proof fn law_bodies_concatenate(a: Seq<u8>, b: Seq<u8>)
    requires
        complete_fields(a),
    ensures
        decoded_body(a + b) == decoded_body(a) + decoded_body(b),
{
    law_fields_concatenate(a, b, false);
    lemma_segments_concatenate(wire_fields(a, false), wire_fields(b, false));
}

proof fn lemma_cut_fields(s: Seq<u8>, more: Seq<u8>)
    ensures
        wire_fields(s, false).is_prefix_of(wire_fields(s + more, false)),
    decreases s.len(),
{
    let whole = wire_fields(s + more, false);
    if varint(s).0 is None || wire_value(varint(s).1, varint(s).0->0 % 8).0 is None {
        assert(wire_fields(s, false) =~= Seq::empty());
        assert(whole.subrange(0, 0) =~= Seq::empty());
    } else {
        let tag = varint(s).0->0;
        let after_tag = varint(s).1;
        let (value, rest) = wire_value(after_tag, tag % 8);
        lemma_varint_rest(s, 10);
        lemma_wire_value_rest(after_tag, tag % 8);
        lemma_varint_extends(s, 10, more);
        lemma_wire_value_extends(after_tag, tag % 8, more);
        lemma_cut_fields(rest, more);
        let f = WireField { field: tag / 8, wire: tag % 8, value };
        let few = wire_fields(rest, false);
        let all = wire_fields(rest + more, false);
        assert(wire_fields(s, false) == seq![f] + few);
        assert(whole == seq![f] + all);
        assert(few =~= all.subrange(0, few.len() as int));
        assert(seq![f] + few =~= whole.subrange(0, (few.len() + 1) as int));
    }
}

/// Cutting a body off only drops segments from the end: those that are left are the first
/// ones of the whole body, as they were.
pub proof fn law_cut_body_keeps_first_segments(blob: Seq<u8>, n: int)
    requires
        0 <= n <= blob.len(),
    ensures
        decoded_body(blob.take(n)).is_prefix_of(decoded_body(blob)),
{
    let s = blob.take(n);
    let more = blob.skip(n);
    assert(s + more =~= blob);
    lemma_cut_fields(s, more);
    let few = wire_fields(s, false);
    let all = wire_fields(blob, false);
    let rest = all.skip(few.len() as int);
    assert(few + rest =~= all) by {
        assert(few =~= all.subrange(0, few.len() as int));
    }
    lemma_segments_concatenate(few, rest);
    let kept = decoded_body(s);
    assert(kept =~= decoded_body(blob).subrange(0, kept.len() as int));
}

/// A field that the segment decoder does not know changes nothing, wherever it stands.
pub proof fn law_unknown_fields_are_skipped(a: Seq<WireField>, f: WireField, b: Seq<WireField>)
    requires
        !segment_field(f.field, f.wire),
    ensures
        segment_of_fields(a.push(f) + b) == segment_of_fields(a + b),
{
    lemma_unknown_field(a, f, b);
}

proof fn lemma_unknown_field(a: Seq<WireField>, f: WireField, b: Seq<WireField>)
    requires
        !segment_field(f.field, f.wire),
    ensures
        forall|id: u64|
            segment_varint_field(id) ==> #[trigger] last_varint(a.push(f) + b, id) == last_varint(
                a + b,
                id,
            ),
        forall|id: u64|
            segment_bytes_field(id) ==> #[trigger] last_bytes(a.push(f) + b, id) == last_bytes(
                a + b,
                id,
            ),
        all_urls(a.push(f) + b) == all_urls(a + b),
    decreases b.len(),
{
    if b.len() == 0 {
        assert(a.push(f) + b =~= a.push(f));
        assert(a + b =~= a);
        lemma_push_field(a, f);
    } else {
        let c = b.drop_last();
        lemma_unknown_field(a, f, c);
        assert(a.push(f) + b =~= (a.push(f) + c).push(b.last()));
        assert(a + b =~= (a + c).push(b.last()));
        lemma_push_field(a.push(f) + c, b.last());
        lemma_push_field(a + c, b.last());
    }
}

/// A body made of segments decodes to those segments, in their order.
pub proof fn law_body_round_trip(segments: Seq<Seq<u8>>)
    requires
        forall|i: int|
            0 <= i < segments.len() ==> (#[trigger] segments[i]).len() < 0x1_0000_0000_0000_0000,
    ensures
        decoded_body(encode_body(segments)) == segments.map_values(
            |b: Seq<u8>| decoded_segment(b),
        ),
{
    let fs = content_fields(segments);
    assert forall|i: int| 0 <= i < fs.len() implies encodable(#[trigger] fs[i]) by {
        assert(segments[i].len() < 0x1_0000_0000_0000_0000);
    }
    law_fields_survive_any_tail(fs, Seq::empty(), false);
    assert(encode_fields(fs) + Seq::<u8>::empty() =~= encode_fields(fs));
    assert(wire_fields(Seq::<u8>::empty(), false) =~= Seq::empty());
    assert(fs + Seq::<WireField>::empty() =~= fs);
    lemma_segments_of_content(segments);
}

proof fn lemma_segments_of_content(segments: Seq<Seq<u8>>)
    ensures
        segments_of_fields(content_fields(segments)) == segments.map_values(
            |b: Seq<u8>| decoded_segment(b),
        ),
    decreases segments.len(),
{
    let fs = content_fields(segments);
    let model = segments.map_values(|b: Seq<u8>| decoded_segment(b));
    if segments.len() == 0 {
        assert(model =~= Seq::empty());
    } else {
        lemma_segments_of_content(segments.drop_last());
        assert(fs.drop_last() =~= content_fields(segments.drop_last()));
        assert(model =~= segments.drop_last().map_values(|b: Seq<u8>| decoded_segment(b)).push(
            decoded_segment(segments.last()),
        ));
    }
}

/// A varint field.
pub open spec fn number_field(id: u64, v: u64) -> WireField {
    WireField { field: id, wire: 0, value: Some(WireValue::Varint(v)) }
}

/// A length-delimited field.
pub open spec fn bytes_field(id: u64, b: Seq<u8>) -> WireField {
    WireField { field: id, wire: 2, value: Some(WireValue::Bytes(b)) }
}

/// What the segment made of the given fields, encoded, decodes to.
pub open spec fn reread(fs: Seq<WireField>) -> SegmentModel {
    decoded_segment(encode_fields(fs))
}

proof fn lemma_reread(fs: Seq<WireField>)
    requires
        forall|i: int| 0 <= i < fs.len() ==> encodable(#[trigger] fs[i]),
    ensures
        reread(fs) == segment_of_fields(fs),
{
    law_fields_survive_any_tail(fs, Seq::empty(), true);
    assert(encode_fields(fs) + Seq::<u8>::empty() =~= encode_fields(fs));
    assert(wire_fields(Seq::<u8>::empty(), true) =~= Seq::empty());
    assert(fs + Seq::<WireField>::empty() =~= fs);
}

proof fn lemma_reread_with(fs: Seq<WireField>, f: WireField)
    requires
        forall|i: int| 0 <= i < fs.len() ==> encodable(#[trigger] fs[i]),
        encodable(f),
    ensures
        reread(fs.push(f)) == segment_of_fields(fs.push(f)),
        reread(fs) == segment_of_fields(fs),
{
    let all = fs.push(f);
    assert forall|i: int| 0 <= i < all.len() implies encodable(#[trigger] all[i]) by {
        if i < fs.len() {
            assert(all[i] == fs[i]);
        }
    }
    lemma_reread(all);
    lemma_reread(fs);
    lemma_push_field(fs, f);
}

/// Whatever stands before it, a number field that is encoded into a segment reads back in
/// its own slot: 45001 is the segment's id, 45002 its content type, 45003 its media
/// subtype.
pub proof fn law_number_fields_read_back(fs: Seq<WireField>, v: u64)
    requires
        forall|i: int| 0 <= i < fs.len() ==> encodable(#[trigger] fs[i]),
    ensures
        reread(fs.push(number_field(45001, v))).seg_id == Some(v),
        reread(fs.push(number_field(45002, v))).content_type == Some(v),
        reread(fs.push(number_field(45003, v))).media_subtype == Some(v),
{
    lemma_reread_with(fs, number_field(45001, v));
    lemma_reread_with(fs, number_field(45002, v));
    lemma_reread_with(fs, number_field(45003, v));
    lemma_push_field(fs, number_field(45001, v));
    lemma_push_field(fs, number_field(45002, v));
    lemma_push_field(fs, number_field(45003, v));
}

/// Whatever stands before it, 45405 reads back as the size in bytes, 45411 as the width and
/// 45412 as the height: signed numbers of 64 and of 32 bits, which differ from what is
/// encoded by nothing or by one turn of their range.
pub proof fn law_measures_read_back(fs: Seq<WireField>, v: u64, d: u32)
    requires
        forall|i: int| 0 <= i < fs.len() ==> encodable(#[trigger] fs[i]),
    ensures
        ({
            let m = reread(fs.push(number_field(45405, v))).media;
            &&& m is Some && m->0.size is Some
            &&& m->0.size->0 == v || m->0.size->0 == v - 0x1_0000_0000_0000_0000
        }),
        reread(fs).media is Some ==> {
            let m = reread(fs.push(number_field(45411, d as u64))).media;
            &&& m is Some && m->0.width is Some
            &&& m->0.width->0 == d || m->0.width->0 == d - 0x1_0000_0000
        },
        reread(fs).media is Some ==> {
            let m = reread(fs.push(number_field(45412, d as u64))).media;
            &&& m is Some && m->0.height is Some
            &&& m->0.height->0 == d || m->0.height->0 == d - 0x1_0000_0000
        },
{
    lemma_reread_with(fs, number_field(45405, v));
    lemma_push_field(fs, number_field(45405, v));
    lemma_reread_with(fs, number_field(45411, d as u64));
    lemma_push_field(fs, number_field(45411, d as u64));
    lemma_reread_with(fs, number_field(45412, d as u64));
    lemma_push_field(fs, number_field(45412, d as u64));
}

/// Whatever stands before it, a text that is encoded into a segment reads back in its own
/// slot: 45101 is the text, 45503 the file's uuid, 45402 its name, 45424 its md5, 45812
/// where it is cached, and 45802, 45803, 45804 and 45816 are addresses, which add up.
/// 45406 are bytes that are kept as they are.
pub proof fn law_text_fields_read_back(fs: Seq<WireField>, t: Seq<char>, raw: Seq<u8>)
    requires
        forall|i: int| 0 <= i < fs.len() ==> encodable(#[trigger] fs[i]),
        t.len() > 0,
        encode_utf8(t).len() < 0x1_0000_0000_0000_0000,
        raw.len() < 0x1_0000_0000_0000_0000,
    ensures
        ({
            let b = encode_utf8(t);
            let before = all_urls(fs);
            &&& reread(fs.push(bytes_field(45101, b))).text == Some(t)
            &&& reread(fs.push(bytes_field(45503, b))).media->0.uuid == Some(t)
            &&& reread(fs.push(bytes_field(45402, b))).media->0.file_name == Some(t)
            &&& reread(fs.push(bytes_field(45424, b))).media->0.md5_hex == Some(t)
            &&& reread(fs.push(bytes_field(45812, b))).media->0.local_path == Some(t)
            &&& reread(fs.push(bytes_field(45802, b))).media->0.urls == before.push(t)
            &&& reread(fs.push(bytes_field(45803, b))).media->0.urls == before.push(t)
            &&& reread(fs.push(bytes_field(45804, b))).media->0.urls == before.push(t)
            &&& reread(fs.push(bytes_field(45816, b))).media->0.urls == before.push(t)
            &&& reread(fs.push(bytes_field(45406, raw))).media->0.raw_md5 == Some(raw)
            &&& reread(fs.push(bytes_field(45503, b))).media is Some
            &&& reread(fs.push(bytes_field(45402, b))).media is Some
            &&& reread(fs.push(bytes_field(45424, b))).media is Some
            &&& reread(fs.push(bytes_field(45812, b))).media is Some
            &&& reread(fs.push(bytes_field(45802, b))).media is Some
            &&& reread(fs.push(bytes_field(45406, raw))).media is Some
        }),
{
    let b = encode_utf8(t);
    vstd::utf8::encode_utf8_valid_utf8(t);
    vstd::utf8::encode_utf8_decode_utf8(t);
    lemma_reread_with(fs, bytes_field(45101, b));
    lemma_push_field(fs, bytes_field(45101, b));
    lemma_reread_with(fs, bytes_field(45503, b));
    lemma_push_field(fs, bytes_field(45503, b));
    lemma_reread_with(fs, bytes_field(45402, b));
    lemma_push_field(fs, bytes_field(45402, b));
    lemma_reread_with(fs, bytes_field(45424, b));
    lemma_push_field(fs, bytes_field(45424, b));
    lemma_reread_with(fs, bytes_field(45812, b));
    lemma_push_field(fs, bytes_field(45812, b));
    lemma_reread_with(fs, bytes_field(45802, b));
    lemma_push_field(fs, bytes_field(45802, b));
    lemma_reread_with(fs, bytes_field(45803, b));
    lemma_push_field(fs, bytes_field(45803, b));
    lemma_reread_with(fs, bytes_field(45804, b));
    lemma_push_field(fs, bytes_field(45804, b));
    lemma_reread_with(fs, bytes_field(45816, b));
    lemma_push_field(fs, bytes_field(45816, b));
    lemma_reread_with(fs, bytes_field(45406, raw));
    lemma_push_field(fs, bytes_field(45406, raw));
}

/// The display text of an emoji (47602) is a segment's text where it has no other; a text
/// (45101) goes before it, in whichever order they stand.
pub proof fn law_emoji_text(fs: Seq<WireField>, t: Seq<char>, e: Seq<char>)
    requires
        forall|i: int| 0 <= i < fs.len() ==> encodable(#[trigger] fs[i]),
        t.len() > 0,
        e.len() > 0,
        encode_utf8(t).len() < 0x1_0000_0000_0000_0000,
        encode_utf8(e).len() < 0x1_0000_0000_0000_0000,
    ensures
        ({
            let text = bytes_field(45101, encode_utf8(t));
            let emoji = bytes_field(47602, encode_utf8(e));
            &&& reread(fs).text is None ==> reread(fs.push(emoji)).text == Some(e)
            &&& reread(fs.push(emoji).push(text)).text == Some(t)
            &&& reread(fs.push(text).push(emoji)).text == Some(t)
        }),
{
    let text = bytes_field(45101, encode_utf8(t));
    let emoji = bytes_field(47602, encode_utf8(e));
    vstd::utf8::encode_utf8_valid_utf8(t);
    vstd::utf8::encode_utf8_decode_utf8(t);
    vstd::utf8::encode_utf8_valid_utf8(e);
    vstd::utf8::encode_utf8_decode_utf8(e);
    lemma_reread_with(fs, emoji);
    lemma_reread_with(fs, text);
    lemma_push_field(fs, emoji);
    lemma_push_field(fs, text);
    let a = fs.push(emoji);
    assert forall|i: int| 0 <= i < a.len() implies encodable(#[trigger] a[i]) by {
        if i < fs.len() {
            assert(a[i] == fs[i]);
        }
    }
    let b = fs.push(text);
    assert forall|i: int| 0 <= i < b.len() implies encodable(#[trigger] b[i]) by {
        if i < fs.len() {
            assert(b[i] == fs[i]);
        }
    }
    lemma_reread_with(a, text);
    lemma_push_field(a, text);
    lemma_reread_with(b, emoji);
    lemma_push_field(b, emoji);
}

/// A field changes no slot but its own: what a number or text field of one id adds leaves
/// the text, content type and media fields of the other ids as they were.
pub proof fn law_fields_keep_to_their_slots(fs: Seq<WireField>, f: WireField)
    requires
        forall|i: int| 0 <= i < fs.len() ==> encodable(#[trigger] fs[i]),
        encodable(f),
    ensures
        ({
            let a = reread(fs);
            let b = reread(fs.push(f));
            &&& f.field != 45001 ==> b.seg_id == a.seg_id
            &&& f.field != 45002 ==> b.content_type == a.content_type
            &&& f.field != 45003 ==> b.media_subtype == a.media_subtype
            &&& f.field != 45101 && f.field != 47602 ==> b.text == a.text
            &&& a.media is Some && b.media is Some ==> {
                let x = a.media->0;
                let y = b.media->0;
                &&& f.field != 45503 ==> y.uuid == x.uuid
                &&& f.field != 45402 ==> y.file_name == x.file_name
                &&& f.field != 45406 ==> y.raw_md5 == x.raw_md5
                &&& f.field != 45424 ==> y.md5_hex == x.md5_hex
                &&& f.field != 45405 ==> y.size == x.size
                &&& f.field != 45411 ==> y.width == x.width
                &&& f.field != 45412 ==> y.height == x.height
                &&& f.field != 45812 ==> y.local_path == x.local_path
                &&& f.field != 45802 && f.field != 45803 && f.field != 45804 && f.field != 45816
                    ==> y.urls == x.urls
            }
            &&& f.field != 45503 && f.field != 45402 && f.field != 45406 && f.field != 45424
                && f.field != 45405 && f.field != 45812 && f.field != 45802 && f.field != 45803
                && f.field != 45804 && f.field != 45816 ==> (b.media is Some == a.media is Some)
        }),
{
    lemma_reread_with(fs, f);
    lemma_push_field(fs, f);
}

} // verus!

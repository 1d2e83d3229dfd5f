//! Parsed message types.

use vstd::prelude::*;

use crate::parser::proto::{MediaSegment, MediaSegmentModel};
use crate::text::{
    char_is_hex, chars_of, clone_opt, clone_strings, find_last_char, is_hex, last_char, lower_ascii,
    lower_seq, opt_str_view, opt_view, string_of_range, trim, trim_seq, views,
};

verus! {

/// Message category recognized by the parser.
#[derive(Debug, Clone, Copy, PartialEq, Eq, Structural)]
pub enum MsgType {
    Text,
    Image,
    Voice,
    Video,
    Recall,
    System,
    Other,
}

impl MsgType {
    /// The native `localType` number of a category.
    pub open spec fn code_of(self) -> int {
        match self {
            MsgType::Text => 0,
            MsgType::Image => 3,
            MsgType::Voice => 4,
            MsgType::Video => 5,
            MsgType::Recall => 6,
            MsgType::System => 7,
            MsgType::Other => 1,
        }
    }

    /// The ChatLab type number of a category.
    pub open spec fn chatlab_of(self) -> int {
        match self {
            MsgType::Text => 0,
            MsgType::Image => 1,
            MsgType::Voice => 2,
            MsgType::Video => 3,
            MsgType::System => 80,
            MsgType::Recall => 81,
            MsgType::Other => 99,
        }
    }

    /// The media kind's name, for a media category.
    pub open spec fn media_name(self) -> Option<Seq<char>> {
        match self {
            MsgType::Image => Some("image"@),
            MsgType::Voice => Some("voice"@),
            MsgType::Video => Some("video"@),
            _ => None,
        }
    }

    /// What a media message without a caption displays.
    pub open spec fn placeholder(self) -> Seq<char> {
        match self {
            MsgType::Image => "[image]"@,
            MsgType::Voice => "[voice]"@,
            MsgType::Video => "[video]"@,
            _ => "[media]"@,
        }
    }

    /// Numeric `localType` of the native message shape.
    pub fn code(self) -> (r: i64)
        ensures
            r == self.code_of(),
    {
        match self {
            MsgType::Text => 0,
            MsgType::Image => 3,
            MsgType::Voice => 4,
            MsgType::Video => 5,
            MsgType::Recall => 6,
            MsgType::System => 7,
            MsgType::Other => 1,
        }
    }

    /// The category of a native `localType`; a number that is no category's reads as
    /// [`MsgType::Other`].
    pub open spec fn of_code(code: int) -> MsgType {
        if code == 0 {
            MsgType::Text
        } else if code == 3 {
            MsgType::Image
        } else if code == 4 {
            MsgType::Voice
        } else if code == 5 {
            MsgType::Video
        } else if code == 6 {
            MsgType::Recall
        } else if code == 7 {
            MsgType::System
        } else {
            MsgType::Other
        }
    }

    /// The category of a native `localType`.
    pub fn from_code(code: i64) -> (r: Self)
        ensures
            r == MsgType::of_code(code as int),
    {
        match code {
            0 => MsgType::Text,
            3 => MsgType::Image,
            4 => MsgType::Voice,
            5 => MsgType::Video,
            6 => MsgType::Recall,
            7 => MsgType::System,
            _ => MsgType::Other,
        }
    }

    /// Canonical ChatLab type number, a code space of its own.
    pub fn chatlab_type(self) -> (r: i64)
        ensures
            r == self.chatlab_of(),
    {
        match self {
            MsgType::Text => 0,
            MsgType::Image => 1,
            MsgType::Voice => 2,
            MsgType::Video => 3,
            MsgType::System => 80,
            MsgType::Recall => 81,
            MsgType::Other => 99,
        }
    }

    /// `mediaType` name of the media kinds ("image"/"voice"/"video").
    pub fn media_type_str(self) -> (r: Option<&'static str>)
        ensures
            opt_str_view(r) == self.media_name(),
    {
        match self {
            MsgType::Image => Some("image"),
            MsgType::Voice => Some("voice"),
            MsgType::Video => Some("video"),
            _ => None,
        }
    }

    /// Display placeholder for media messages ("[image]"/"[voice]"/"[video]"): one
    /// spelling shared by the structured and heuristic parser paths.
    pub fn media_placeholder(self) -> (r: &'static str)
        ensures
            r@ == self.placeholder(),
    {
        match self {
            MsgType::Image => "[image]",
            MsgType::Voice => "[voice]",
            MsgType::Video => "[video]",
            _ => "[media]",
        }
    }
}

/// A category's native code reads back as the category.
pub proof fn law_code_round_trip(t: MsgType)
    ensures
        MsgType::of_code(t.code_of()) == t,
{
}

/// The ChatLab code 6 is unassigned and never comes up.
pub proof fn law_chatlab_code_is_never_unassigned(t: MsgType)
    ensures
        t.chatlab_of() != 6,
{
}

/// Distinct categories have distinct codes, in either code space.
pub proof fn law_codes_are_distinct(a: MsgType, b: MsgType)
    requires
        a.code_of() == b.code_of() || a.chatlab_of() == b.chatlab_of(),
    ensures
        a == b,
{
}

/// Media metadata parsed from a structured message segment (image/voice/video).
/// All optional: absent fields stay absent.
#[derive(Debug)]
pub struct MediaInfo {
    /// File UUID (45503).
    pub uuid: Option<String>,
    /// Image MD5 hex string (45424): the media store lookup key.
    pub md5: Option<String>,
    /// File name (45402), often "md5.ext".
    pub file_name: Option<String>,
    /// File size in bytes (45405).
    pub size: Option<i64>,
    /// Image width (45411).
    pub width: Option<i32>,
    /// Image height (45412).
    pub height: Option<i32>,
    /// Local cache path (45812).
    pub local_path: Option<String>,
    /// CDN URLs (45802 thumb / 45803 preview / 45804 original).
    pub urls: Vec<String>,
    /// Store lookup key, computed once at parse time (see [`MediaInfo::key`]).
    pub key: Option<String>,
}

/// What a [`MediaInfo`] holds.
pub struct MediaModel {
    pub uuid: Option<Seq<char>>,
    pub md5: Option<Seq<char>>,
    pub file_name: Option<Seq<char>>,
    pub size: Option<i64>,
    pub width: Option<i32>,
    pub height: Option<i32>,
    pub local_path: Option<Seq<char>>,
    pub urls: Seq<Seq<char>>,
    pub key: Option<Seq<char>>,
}

impl View for MediaInfo {
    type V = MediaModel;

    open spec fn view(&self) -> MediaModel {
        MediaModel {
            uuid: opt_view(self.uuid),
            md5: opt_view(self.md5),
            file_name: opt_view(self.file_name),
            size: self.size,
            width: self.width,
            height: self.height,
            local_path: opt_view(self.local_path),
            urls: views(self.urls@),
            key: opt_view(self.key),
        }
    }
}

/// The view of optional media metadata.
pub open spec fn opt_media(o: Option<MediaInfo>) -> Option<MediaModel> {
    match o {
        Some(m) => Some(m@),
        None => None,
    }
}

/// Thirty-two hexadecimal digits.
pub open spec fn is_md5_hex(s: Seq<char>) -> bool {
    s.len() == 32 && forall|i: int| 0 <= i < s.len() ==> is_hex(#[trigger] s[i])
}

/// What stands before the last dot of a file name.
pub open spec fn name_stem(name: Seq<char>) -> Option<Seq<char>> {
    match last_char(name, '.', name.len() as int) {
        Some(i) => Some(name.subrange(0, i)),
        None => None,
    }
}

/// The md5 that a file name of the shape "MD5.ext" spells, in small letters.
pub open spec fn md5_of_name(name: Option<Seq<char>>) -> Option<Seq<char>> {
    match name {
        Some(n) => match name_stem(n) {
            Some(stem) => if is_md5_hex(trim_seq(stem)) {
                Some(lower_seq(trim_seq(stem)))
            } else {
                None
            },
            None => None,
        },
        None => None,
    }
}

/// `o` where it holds a non-empty text.
pub open spec fn non_empty(o: Option<Seq<char>>) -> Option<Seq<char>> {
    match o {
        Some(s) => if s.len() > 0 {
            Some(s)
        } else {
            None
        },
        None => None,
    }
}

/// The store key of a medium: its md5 in small letters, else the md5 that its file name
/// spells, else its uuid.
pub open spec fn media_key(
    md5: Option<Seq<char>>,
    file_name: Option<Seq<char>>,
    uuid: Option<Seq<char>>,
) -> Option<Seq<char>> {
    match non_empty(md5) {
        Some(s) => Some(lower_seq(s)),
        None => match md5_of_name(file_name) {
            Some(s) => Some(s),
            None => non_empty(uuid),
        },
    }
}

/// The metadata that a decoded media segment turns into.
pub open spec fn media_of_segment(seg: MediaSegmentModel) -> MediaModel {
    MediaModel {
        uuid: seg.uuid,
        md5: seg.md5_hex,
        file_name: seg.file_name,
        size: seg.size,
        width: seg.width,
        height: seg.height,
        local_path: seg.local_path,
        urls: seg.urls,
        key: media_key(seg.md5_hex, seg.file_name, seg.uuid),
    }
}

/// Whether `s` is thirty-two hexadecimal digits.
pub fn is_hex32(s: &str) -> (r: bool)
    ensures
        r == is_md5_hex(s@),
{
    let v = chars_of(s);
    if v.len() != 32 {
        return false;
    }
    let mut i: usize = 0;
    while i < v.len()
        invariant
            i <= v.len(),
            v@ == s@,
            forall|j: int| 0 <= j < i ==> is_hex(#[trigger] v@[j]),
        decreases v.len() - i,
    {
        if !char_is_hex(v[i]) {
            assert(!is_hex(s@[i as int]));
            return false;
        }
        i += 1;
    }
    true
}

/// Image files are named "<UPPERCASE_MD5>.ext": a 32-hex stem is a usable md5 key when
/// the 45424 field is empty.
pub fn md5_from_file_name(name: Option<&str>) -> (r: Option<String>)
    ensures
        opt_view(r) == md5_of_name(opt_str_view(name)),
{
    match name {
        None => None,
        Some(n) => {
            let v = chars_of(n);
            match find_last_char(&v, '.') {
                None => None,
                Some(i) => {
                    let raw = string_of_range(&v, 0, i);
                    let stem = trim(raw.as_str());
                    if is_hex32(stem.as_str()) {
                        Some(lower_ascii(stem.as_str()))
                    } else {
                        None
                    }
                },
            }
        },
    }
}

impl MediaInfo {
    /// Store lookup key: md5 hex (45424, or extracted from the "MD5.ext" file-name
    /// shape), else uuid; `None` when nothing is present. md5 keys are in small letters,
    /// so that one image has one key. Computed once at parse time.
    pub fn key(&self) -> (r: Option<&str>)
        ensures
            opt_str_view(r) == self@.key,
    {
        match &self.key {
            Some(k) => Some(k.as_str()),
            None => None,
        }
    }

    /// The key of this metadata's md5, file name and uuid.
    fn compute_key(&self) -> (r: Option<String>)
        ensures
            opt_view(r) == media_key(self@.md5, self@.file_name, self@.uuid),
    {
        if let Some(s) = &self.md5 {
            if !s.as_str().is_empty() {
                return Some(lower_ascii(s.as_str()));
            }
        }
        let name: Option<&str> = match &self.file_name {
            Some(n) => Some(n.as_str()),
            None => None,
        };
        let derived = md5_from_file_name(name);
        if derived.is_some() {
            return derived;
        }
        match &self.uuid {
            Some(u) => if u.as_str().is_empty() {
                None
            } else {
                Some(u.clone())
            },
            None => None,
        }
    }

    /// The metadata of a decoded media segment, its key computed.
    pub fn from_segment(seg: MediaSegment) -> (r: MediaInfo)
        ensures
            r@ == media_of_segment(seg@),
    {
        let mut info = MediaInfo {
            uuid: seg.uuid,
            md5: seg.md5_hex,
            file_name: seg.file_name,
            size: seg.size,
            width: seg.width,
            height: seg.height,
            local_path: seg.local_path,
            urls: seg.urls,
            key: None,
        };
        info.key = info.compute_key();
        info
    }
}

impl Clone for MediaInfo {
    fn clone(&self) -> (r: Self)
        ensures
            r@ == self@,
    {
        MediaInfo {
            uuid: clone_opt(&self.uuid),
            md5: clone_opt(&self.md5),
            file_name: clone_opt(&self.file_name),
            size: self.size,
            width: self.width,
            height: self.height,
            local_path: clone_opt(&self.local_path),
            urls: clone_strings(&self.urls),
            key: clone_opt(&self.key),
        }
    }
}

impl Default for MediaInfo {
    fn default() -> (r: Self)
        ensures
            r@ == (MediaModel {
                uuid: None,
                md5: None,
                file_name: None,
                size: None,
                width: None,
                height: None,
                local_path: None,
                urls: Seq::empty(),
                key: None,
            }),
    {
        let r = MediaInfo {
            uuid: None,
            md5: None,
            file_name: None,
            size: None,
            width: None,
            height: None,
            local_path: None,
            urls: Vec::new(),
            key: None,
        };
        assert(views(r.urls@) =~= Seq::empty());
        r
    }
}

impl vstd::std_specs::convert::FromSpecImpl<MediaSegment> for MediaInfo {
    open spec fn obeys_from_spec() -> bool {
        false
    }

    open spec fn from_spec(seg: MediaSegment) -> MediaInfo {
        arbitrary()
    }
}

impl From<MediaSegment> for MediaInfo {
    fn from(seg: MediaSegment) -> (r: MediaInfo)
        ensures
            r@ == media_of_segment(seg@),
    {
        MediaInfo::from_segment(seg)
    }
}

/// Two spellings of one md5 that differ in letter case only give one key.
pub proof fn law_media_key_ignores_md5_case(
    a: Seq<char>,
    b: Seq<char>,
    name: Option<Seq<char>>,
    uuid: Option<Seq<char>>,
)
    requires
        a.len() > 0,
        lower_seq(a) == lower_seq(b),
    ensures
        media_key(Some(a), name, uuid) == media_key(Some(b), name, uuid),
{
    assert(lower_seq(a).len() == a.len() && lower_seq(b).len() == b.len());
}

/// Result of parsing one message BLOB.
#[derive(Debug)]
pub struct ParsedMessage {
    pub msg_type: MsgType,
    pub content: String,
    /// Structured media metadata (image/voice/video); `None` for text/system messages
    /// and for blobs the structured parser could not decode.
    pub media: Option<MediaInfo>,
}

/// What a [`ParsedMessage`] holds.
pub struct ParsedModel {
    pub msg_type: MsgType,
    pub content: Seq<char>,
    pub media: Option<MediaModel>,
}

impl View for ParsedMessage {
    type V = ParsedModel;

    open spec fn view(&self) -> ParsedModel {
        ParsedModel {
            msg_type: self.msg_type,
            content: self.content@,
            media: opt_media(self.media),
        }
    }
}

/// A parse result without structured metadata.
pub open spec fn simple_message(msg_type: MsgType, content: Seq<char>) -> ParsedModel {
    ParsedModel { msg_type, content, media: None }
}

impl ParsedMessage {
    /// Build a parse result without structured media metadata.
    pub fn simple(msg_type: MsgType, content: &str) -> (r: Self)
        ensures
            r@ == simple_message(msg_type, content@),
    {
        ParsedMessage { msg_type, content: content.to_owned(), media: None }
    }
}

impl Clone for ParsedMessage {
    fn clone(&self) -> (r: Self)
        ensures
            r@ == self@,
    {
        ParsedMessage {
            msg_type: self.msg_type,
            content: self.content.clone(),
            media: match &self.media {
                Some(m) => Some(m.clone()),
                None => None,
            },
        }
    }
}

/// A conversation is a group or a private chat.
#[derive(Debug, Clone, Copy, PartialEq, Eq, Structural)]
pub enum ChatType {
    Group,
    C2c,
}

impl Default for ChatType {
    fn default() -> (r: Self)
        ensures
            r is Group,
    {
        ChatType::Group
    }
}

impl ChatType {
    /// The session type's name.
    pub open spec fn name(self) -> Seq<char> {
        match self {
            ChatType::Group => "group"@,
            ChatType::C2c => "private"@,
        }
    }

    /// Session `type`: 2 = group, 1 = private.
    pub fn weflow_code(self) -> (r: i64)
        ensures
            r == (if self is Group {
                2int
            } else {
                1int
            }),
    {
        match self {
            ChatType::Group => 2,
            ChatType::C2c => 1,
        }
    }

    /// Session type name: "group" or "private".
    pub fn as_str(self) -> (r: &'static str)
        ensures
            r@ == self.name(),
    {
        match self {
            ChatType::Group => "group",
            ChatType::C2c => "private",
        }
    }
}

/// A single chat record (row from group_msg_table / c2c_msg_table).
#[derive(Debug)]
pub struct MessageRecord {
    pub rowid: i64,
    /// Column "40001": message seq (high 32 bits carry the unix timestamp).
    pub seq: i64,
    pub ts: i64,
    pub chat_type: ChatType,
    /// Group: group id ("40021"); c2c: peer uid ("40020").
    pub talker: String,
    /// Sender uid ("40020" in group table; c2c peer for c2c table).
    pub from_uid: String,
    /// Sender nickname ("40093"): the global, context-free name. Group cards ("40090")
    /// live in `card` and only display inside their group.
    pub from_nick: String,
    /// Sender group card ("40090", group table only). `None` for c2c rows and versions
    /// without the column.
    pub card: Option<String>,
    /// Raw "40013" direction (0 other / 1,2 self / 3 system); `None` when the column is
    /// absent.
    pub direction: Option<i64>,
    pub parsed: ParsedMessage,
}

/// What a [`MessageRecord`] holds.
pub struct RecordModel {
    pub rowid: i64,
    pub seq: i64,
    pub ts: i64,
    pub chat_type: ChatType,
    pub talker: Seq<char>,
    pub from_uid: Seq<char>,
    pub from_nick: Seq<char>,
    pub card: Option<Seq<char>>,
    pub direction: Option<i64>,
    pub parsed: ParsedModel,
}

impl View for MessageRecord {
    type V = RecordModel;

    open spec fn view(&self) -> RecordModel {
        RecordModel {
            rowid: self.rowid,
            seq: self.seq,
            ts: self.ts,
            chat_type: self.chat_type,
            talker: self.talker@,
            from_uid: self.from_uid@,
            from_nick: self.from_nick@,
            card: opt_view(self.card),
            direction: self.direction,
            parsed: self.parsed@,
        }
    }
}

/// The records of a list.
pub open spec fn record_views(v: Seq<MessageRecord>) -> Seq<RecordModel> {
    v.map_values(|m: MessageRecord| m@)
}

impl Clone for MessageRecord {
    fn clone(&self) -> (r: Self)
        ensures
            r@ == self@,
    {
        MessageRecord {
            rowid: self.rowid,
            seq: self.seq,
            ts: self.ts,
            chat_type: self.chat_type,
            talker: self.talker.clone(),
            from_uid: self.from_uid.clone(),
            from_nick: self.from_nick.clone(),
            card: clone_opt(&self.card),
            direction: self.direction,
            parsed: self.parsed.clone(),
        }
    }
}

/// The time that a message seq carries in its high 32 bits.
pub open spec fn seq_time(seq: int) -> int {
    seq / 0x1_0000_0000
}

/// The message time stands in the high 32 bits of the "40001" seq value.
pub fn seq_to_time(seq: i64) -> (r: i64)
    ensures
        r == seq_time(seq as int),
{
    if seq >= 0 {
        seq / 0x1_0000_0000
    } else {
        -1 - (-1 - seq) / 0x1_0000_0000
    }
}

/// A seq made of a time and a 32-bit counter gives the time back.
pub proof fn law_seq_time(ts: int, low: int)
    requires
        0 <= low < 0x1_0000_0000,
    ensures
        seq_time(ts * 0x1_0000_0000 + low) == ts,
{
}

/// 1 where the raw direction says "sent by me", else 0.
pub open spec fn sent_by_me(d: Option<i64>) -> int {
    if d == Some(1i64) || d == Some(2i64) {
        1
    } else {
        0
    }
}

/// Map the raw "40013" direction to `isSend` (1 = sent by me): 0 (other) -> 0, 1/2
/// (self) -> 1, 3 (system) and any unknown value -> 0.
pub fn direction_to_is_send(d: i64) -> (r: i64)
    ensures
        r == sent_by_me(Some(d)),
{
    match d {
        1 | 2 => 1,
        _ => 0,
    }
}

/// The categories' numbers and names, one by one: the native code, the ChatLab code, and
/// what media are called. Only images, voices and videos are media; what stands in for
/// their content is their name in brackets.
pub proof fn law_category_tables(t: MsgType)
    ensures
        t is Text ==> t.code_of() == 0 && t.chatlab_of() == 0,
        t is Image ==> t.code_of() == 3 && t.chatlab_of() == 1 && t.media_name() == Some("image"@),
        t is Voice ==> t.code_of() == 4 && t.chatlab_of() == 2 && t.media_name() == Some("voice"@),
        t is Video ==> t.code_of() == 5 && t.chatlab_of() == 3 && t.media_name() == Some("video"@),
        t is Recall ==> t.code_of() == 6 && t.chatlab_of() == 81,
        t is System ==> t.code_of() == 7 && t.chatlab_of() == 80,
        t is Other ==> t.code_of() == 1 && t.chatlab_of() == 99,
        t.media_name() is Some <==> t is Image || t is Voice || t is Video,
        t.media_name() is Some ==> t.placeholder() == "["@ + t.media_name()->0 + "]"@,
{
    reveal_strlit("[");
    reveal_strlit("]");
    reveal_strlit("image");
    reveal_strlit("voice");
    reveal_strlit("video");
    reveal_strlit("[image]");
    reveal_strlit("[voice]");
    reveal_strlit("[video]");
    if t.media_name() is Some {
        assert(t.placeholder() =~= "["@ + t.media_name()->0 + "]"@);
    }
}

/// A number that is no category's code reads as another category.
pub proof fn law_unknown_codes_are_other(code: int)
    requires
        forall|t: MsgType| #[trigger] t.code_of() != code,
    ensures
        MsgType::of_code(code) is Other,
{
    assert(MsgType::Text.code_of() != code);
    assert(MsgType::Image.code_of() != code);
    assert(MsgType::Voice.code_of() != code);
    assert(MsgType::Video.code_of() != code);
    assert(MsgType::Recall.code_of() != code);
    assert(MsgType::System.code_of() != code);
}

/// What a media segment tells is kept field by field.
pub proof fn law_media_fields_are_kept(seg: MediaSegmentModel)
    ensures
        media_of_segment(seg).uuid == seg.uuid,
        media_of_segment(seg).md5 == seg.md5_hex,
        media_of_segment(seg).file_name == seg.file_name,
        media_of_segment(seg).size == seg.size,
        media_of_segment(seg).width == seg.width,
        media_of_segment(seg).height == seg.height,
        media_of_segment(seg).local_path == seg.local_path,
        media_of_segment(seg).urls == seg.urls,
{
}

/// The store key of a medium: its md5 in small letters where it has one; else, where its
/// file name is an md5 and an extension, that md5 in small letters; else its uuid. Without
/// any of them it has none.
pub proof fn law_media_key(seg: MediaSegmentModel, hash: Seq<char>, ext: Seq<char>)
    requires
        is_md5_hex(hash),
        forall|i: int| 0 <= i < ext.len() ==> #[trigger] ext[i] != '.',
    ensures
        ({
            let key = media_of_segment(seg).key;
            let no_md5 = seg.md5_hex is None || seg.md5_hex->0.len() == 0;
            let no_uuid = seg.uuid is None || seg.uuid->0.len() == 0;
            &&& !no_md5 ==> key == Some(lower_seq(seg.md5_hex->0))
            &&& no_md5 && seg.file_name == Some(hash + "."@ + ext) ==> key == Some(lower_seq(hash))
            &&& no_md5 && seg.file_name is None && !no_uuid ==> key == seg.uuid
            &&& no_md5 && seg.file_name is Some && !seg.file_name->0.contains('.') && !no_uuid
                ==> key == seg.uuid
            &&& no_md5 && no_uuid && seg.file_name is None ==> key is None
        }),
{
    reveal_strlit(".");
    let n = hash + "."@ + ext;
    crate::text::law_char_places(n, '.');
    let i = last_char(n, '.', n.len() as int);
    assert(n[32] == '.');
    assert forall|j: int| 32 < j < n.len() implies #[trigger] n[j] != '.' by {
        assert(n[j] == ext[j - 33]);
    }
    assert(i == Some(32int)) by {
        if i is None {
            assert(n[32] != '.');
        } else if i->0 < 32 {
            assert(n[32] != '.');
        }
    }
    assert(n.subrange(0, 32) =~= hash);
    crate::text::law_trim(hash);
    lemma_hex_untrimmed(hash);
    if seg.file_name is Some && !seg.file_name->0.contains('.') {
        let f = seg.file_name->0;
        crate::text::law_char_places(f, '.');
        if last_char(f, '.', f.len() as int) is Some {
            assert(f.contains('.'));
        }
    }
}

proof fn lemma_hex_untrimmed(s: Seq<char>)
    requires
        is_md5_hex(s),
    ensures
        trim_seq(s) == s,
{
    assert(is_hex(s[0]));
    assert(is_hex(s[31]));
    assert(!crate::text::white_space(s[0]));
    assert(!crate::text::white_space(s.last()));
}

/// A message is one's own where its direction is 1 or 2, and in no other case.
pub proof fn law_own_messages(d: Option<i64>)
    ensures
        sent_by_me(d) == 1 <==> d is Some && (d->0 == 1 || d->0 == 2),
        sent_by_me(d) == 1 || sent_by_me(d) == 0,
{
}

/// Groups and private chats have these names.
pub proof fn law_chat_type_names(t: ChatType)
    ensures
        t is Group ==> t.name() == "group"@,
        t is C2c ==> t.name() == "private"@,
{
}

/// A later second gives a later time, and the counter in a seq changes nothing.
pub proof fn law_seq_times_are_ordered(a: int, b: int)
    requires
        a <= b,
    ensures
        seq_time(a) <= seq_time(b),
        seq_time(a + 0x1_0000_0000) == seq_time(a) + 1,
{
}

/// Media metadata is seen as what its fields hold, each under its own name.
pub proof fn law_media_view(v: MediaInfo)
    ensures
        v.uuid is Some ==> v@.uuid == Some(v.uuid->0@),
        v.uuid is None ==> v@.uuid is None,
        v.md5 is Some ==> v@.md5 == Some(v.md5->0@),
        v.md5 is None ==> v@.md5 is None,
        v.file_name is Some ==> v@.file_name == Some(v.file_name->0@),
        v.file_name is None ==> v@.file_name is None,
        v@.size == v.size,
        v@.width == v.width,
        v@.height == v.height,
        v.local_path is Some ==> v@.local_path == Some(v.local_path->0@),
        v.local_path is None ==> v@.local_path is None,
        v@.urls.len() == v.urls@.len(),
        forall|i: int|
            0 <= i < v.urls@.len() ==> #[trigger] v@.urls[i] == v.urls@[i]@,
        v.key is Some ==> v@.key == Some(v.key->0@),
        v.key is None ==> v@.key is None,
{
}

/// A parsed message is seen as what its fields hold, each under its own name.
pub proof fn law_parsed_view(v: ParsedMessage)
    ensures
        v@.msg_type == v.msg_type,
        v@.content == v.content@,
        v.media is Some ==> v@.media == Some(v.media->0@),
        v.media is None ==> v@.media is None,
{
}

/// A record is seen as what its fields hold, each under its own name.
pub proof fn law_record_view(v: MessageRecord)
    ensures
        v@.rowid == v.rowid,
        v@.seq == v.seq,
        v@.ts == v.ts,
        v@.chat_type == v.chat_type,
        v@.talker == v.talker@,
        v@.from_uid == v.from_uid@,
        v@.from_nick == v.from_nick@,
        v.card is Some ==> v@.card == Some(v.card->0@),
        v.card is None ==> v@.card is None,
        v@.direction == v.direction,
        v@.parsed == v.parsed@,
{
}

} // verus!

//! Pushed event payloads: event / sessionId / sessionType / rawid / avatarUrl /
//! sourceName / groupName / content / timestamp, the `sync` baseline event with its
//! watermarks, and the media metadata of `message.new`. Media paths are never pushed:
//! clients fetch bytes by the advertised media id.

use vstd::prelude::*;

use crate::parser::types::{opt_media, ChatType, MediaInfo, MediaModel};
use crate::text::{clone_opt, clone_strings, decimal, decimal_i64, opt_view, views};

verus! {

/// Media metadata as it is pushed: without the local cache path, which is machine-local,
/// mostly stale, and would leak the host's layout.
#[derive(Debug)]
pub struct PushMedia {
    pub uuid: Option<String>,
    pub md5: Option<String>,
    pub file_name: Option<String>,
    pub size: Option<i64>,
    pub width: Option<i32>,
    pub height: Option<i32>,
    pub urls: Vec<String>,
}

/// What a [`PushMedia`] holds.
pub struct PushMediaModel {
    pub uuid: Option<Seq<char>>,
    pub md5: Option<Seq<char>>,
    pub file_name: Option<Seq<char>>,
    pub size: Option<i64>,
    pub width: Option<i32>,
    pub height: Option<i32>,
    pub urls: Seq<Seq<char>>,
}

impl View for PushMedia {
    type V = PushMediaModel;

    open spec fn view(&self) -> PushMediaModel {
        PushMediaModel {
            uuid: opt_view(self.uuid),
            md5: opt_view(self.md5),
            file_name: opt_view(self.file_name),
            size: self.size,
            width: self.width,
            height: self.height,
            urls: views(self.urls@),
        }
    }
}

/// The pushed part of media metadata.
pub open spec fn pushed(m: MediaModel) -> PushMediaModel {
    PushMediaModel {
        uuid: m.uuid,
        md5: m.md5,
        file_name: m.file_name,
        size: m.size,
        width: m.width,
        height: m.height,
        urls: m.urls,
    }
}

/// The pushed part of optional media metadata.
pub open spec fn opt_pushed(o: Option<MediaModel>) -> Option<PushMediaModel> {
    match o {
        Some(m) => Some(pushed(m)),
        None => None,
    }
}

impl<'a> vstd::std_specs::convert::FromSpecImpl<&'a MediaInfo> for PushMedia {
    open spec fn obeys_from_spec() -> bool {
        false
    }

    open spec fn from_spec(m: &'a MediaInfo) -> PushMedia {
        arbitrary()
    }
}

impl<'a> From<&'a MediaInfo> for PushMedia {
    fn from(m: &'a MediaInfo) -> (r: PushMedia)
        ensures
            r@ == pushed(m@),
    {
        PushMedia {
            uuid: clone_opt(&m.uuid),
            md5: clone_opt(&m.md5),
            file_name: clone_opt(&m.file_name),
            size: m.size,
            width: m.width,
            height: m.height,
            urls: clone_strings(&m.urls),
        }
    }
}

/// Where a file is on this machine never reaches a client: media that differ in their
/// local path alone are pushed the same.
pub proof fn law_paths_are_not_pushed(a: MediaModel, b: MediaModel)
    requires
        a == (MediaModel { local_path: a.local_path, ..b }),
    ensures
        pushed(a) == pushed(b),
{
}

/// A pushed event.
#[derive(Debug)]
pub struct Event {
    pub event: String,
    pub session_id: String,
    pub session_type: String,
    pub group_name: Option<String>,
    pub rawid: String,
    pub avatar_url: Option<String>,
    pub source_name: Option<String>,
    pub content: String,
    pub timestamp: i64,
    /// Media metadata of image, voice and video messages.
    pub media: Option<PushMedia>,
    /// Key under which the media can be fetched.
    pub media_id: Option<String>,
    pub last_rowid_group: Option<i64>,
    pub last_rowid_c2c: Option<i64>,
}

/// What an [`Event`] holds.
pub struct EventModel {
    pub event: Seq<char>,
    pub session_id: Seq<char>,
    pub session_type: Seq<char>,
    pub group_name: Option<Seq<char>>,
    pub rawid: Seq<char>,
    pub avatar_url: Option<Seq<char>>,
    pub source_name: Option<Seq<char>>,
    pub content: Seq<char>,
    pub timestamp: i64,
    pub media: Option<PushMediaModel>,
    pub media_id: Option<Seq<char>>,
    pub last_rowid_group: Option<i64>,
    pub last_rowid_c2c: Option<i64>,
}

impl View for Event {
    type V = EventModel;

    open spec fn view(&self) -> EventModel {
        EventModel {
            event: self.event@,
            session_id: self.session_id@,
            session_type: self.session_type@,
            group_name: opt_view(self.group_name),
            rawid: self.rawid@,
            avatar_url: opt_view(self.avatar_url),
            source_name: opt_view(self.source_name),
            content: self.content@,
            timestamp: self.timestamp,
            media: match self.media {
                Some(m) => Some(m@),
                None => None,
            },
            media_id: opt_view(self.media_id),
            last_rowid_group: self.last_rowid_group,
            last_rowid_c2c: self.last_rowid_c2c,
        }
    }
}

/// The events of a list.
pub open spec fn event_views(v: Seq<Event>) -> Seq<EventModel> {
    v.map_values(|e: Event| e@)
}

/// A message event.
pub open spec fn message_event(
    name: Seq<char>,
    chat_type: ChatType,
    session_id: Seq<char>,
    group_name: Option<Seq<char>>,
    rawid: int,
    source_name: Option<Seq<char>>,
    content: Seq<char>,
    timestamp: i64,
    media: Option<PushMediaModel>,
    media_id: Option<Seq<char>>,
) -> EventModel {
    EventModel {
        event: name,
        session_id,
        session_type: chat_type.name(),
        group_name,
        rawid: decimal(rawid),
        avatar_url: None,
        source_name,
        content,
        timestamp,
        media,
        media_id,
        last_rowid_group: None,
        last_rowid_c2c: None,
    }
}

/// A baseline event: the current watermarks.
pub open spec fn sync_event(group: i64, c2c: i64, ts: i64) -> EventModel {
    EventModel {
        event: "sync"@,
        session_id: Seq::empty(),
        session_type: Seq::empty(),
        group_name: None,
        rawid: Seq::empty(),
        avatar_url: None,
        source_name: None,
        content: Seq::empty(),
        timestamp: ts,
        media: None,
        media_id: None,
        last_rowid_group: Some(group),
        last_rowid_c2c: Some(c2c),
    }
}

impl Event {
    /// A new message.
    pub fn message_new(
        chat_type: ChatType,
        session_id: String,
        group_name: Option<String>,
        rawid: i64,
        source_name: Option<String>,
        content: String,
        timestamp: i64,
        media: Option<MediaInfo>,
        media_id: Option<String>,
    ) -> (r: Self)
        ensures
            r@ == message_event(
                "message.new"@,
                chat_type,
                session_id@,
                opt_view(group_name),
                rawid as int,
                opt_view(source_name),
                content@,
                timestamp,
                opt_pushed(opt_media(media)),
                opt_view(media_id),
            ),
    {
        Event {
            event: "message.new".to_owned(),
            session_id,
            session_type: chat_type.as_str().to_owned(),
            group_name,
            rawid: decimal_i64(rawid),
            avatar_url: None,
            source_name,
            content,
            timestamp,
            media: match &media {
                Some(m) => Some(PushMedia::from(m)),
                None => None,
            },
            media_id,
            last_rowid_group: None,
            last_rowid_c2c: None,
        }
    }

    /// A recalled message. Revoke events never carry media.
    pub fn message_revoke(
        chat_type: ChatType,
        session_id: String,
        group_name: Option<String>,
        rawid: i64,
        source_name: Option<String>,
        content: String,
        timestamp: i64,
    ) -> (r: Self)
        ensures
            r@ == message_event(
                "message.revoke"@,
                chat_type,
                session_id@,
                opt_view(group_name),
                rawid as int,
                opt_view(source_name),
                content@,
                timestamp,
                None,
                None,
            ),
    {
        Event {
            event: "message.revoke".to_owned(),
            session_id,
            session_type: chat_type.as_str().to_owned(),
            group_name,
            rawid: decimal_i64(rawid),
            avatar_url: None,
            source_name,
            content,
            timestamp,
            media: None,
            media_id: None,
            last_rowid_group: None,
            last_rowid_c2c: None,
        }
    }

    /// `sync` baseline event.
    pub fn sync(watermark_group: i64, watermark_c2c: i64, ts: i64) -> (r: Self)
        ensures
            r@ == sync_event(watermark_group, watermark_c2c, ts),
    {
        Event {
            event: "sync".to_owned(),
            session_id: String::new(),
            session_type: String::new(),
            group_name: None,
            rawid: String::new(),
            avatar_url: None,
            source_name: None,
            content: String::new(),
            timestamp: ts,
            media: None,
            media_id: None,
            last_rowid_group: Some(watermark_group),
            last_rowid_c2c: Some(watermark_c2c),
        }
    }
}

/// What is pushed of a medium: everything but its path on disk.
pub proof fn law_pushed_media(m: MediaModel)
    ensures
        pushed(m).uuid == m.uuid,
        pushed(m).md5 == m.md5,
        pushed(m).file_name == m.file_name,
        pushed(m).size == m.size,
        pushed(m).width == m.width,
        pushed(m).height == m.height,
        pushed(m).urls == m.urls,
        opt_pushed(Some(m)) == Some(pushed(m)),
        opt_pushed(None) is None,
{
}

/// A sync event tells both watermarks and its time, each in its own field, and nothing of a
/// message.
pub proof fn law_sync_events(group: i64, c2c: i64, ts: i64)
    ensures
        ({
            let e = sync_event(group, c2c, ts);
            &&& e.event == "sync"@
            &&& e.last_rowid_group == Some(group)
            &&& e.last_rowid_c2c == Some(c2c)
            &&& e.timestamp == ts
            &&& e.session_id.len() == 0 && e.session_type.len() == 0 && e.rawid.len() == 0
            &&& e.content.len() == 0
            &&& e.group_name is None && e.source_name is None && e.avatar_url is None
            &&& e.media is None && e.media_id is None
        }),
{
}

/// A message event tells what it was made of, each in its own field, and no watermark.
pub proof fn law_message_events(
    name: Seq<char>,
    chat_type: ChatType,
    session_id: Seq<char>,
    group_name: Option<Seq<char>>,
    rawid: int,
    source_name: Option<Seq<char>>,
    content: Seq<char>,
    timestamp: i64,
    media: Option<PushMediaModel>,
    media_id: Option<Seq<char>>,
)
    ensures
        ({
            let e = message_event(
                name,
                chat_type,
                session_id,
                group_name,
                rawid,
                source_name,
                content,
                timestamp,
                media,
                media_id,
            );
            &&& e.event == name
            &&& e.session_id == session_id
            &&& chat_type is Group ==> e.session_type == "group"@
            &&& chat_type is C2c ==> e.session_type == "private"@
            &&& e.group_name == group_name
            &&& crate::text::signed_value(e.rawid) == Some(rawid)
            &&& e.source_name == source_name
            &&& e.content == content
            &&& e.timestamp == timestamp
            &&& e.media == media
            &&& e.media_id == media_id
            &&& e.avatar_url is None
            &&& e.last_rowid_group is None && e.last_rowid_c2c is None
        }),
{
    crate::text::law_decimal_value(rawid);
}

/// An event is seen as what its fields hold.
pub proof fn law_event_views(e: Event)
    ensures
        e@.event == e.event@,
        e@.session_id == e.session_id@,
        e@.session_type == e.session_type@,
        e@.rawid == e.rawid@,
        e@.content == e.content@,
        e@.timestamp == e.timestamp,
        e@.last_rowid_group == e.last_rowid_group,
        e@.last_rowid_c2c == e.last_rowid_c2c,
        e.group_name is Some ==> e@.group_name == Some(e.group_name->0@),
        e.group_name is None ==> e@.group_name is None,
        e.source_name is Some ==> e@.source_name == Some(e.source_name->0@),
        e.source_name is None ==> e@.source_name is None,
        e.avatar_url is None ==> e@.avatar_url is None,
        e.media_id is Some ==> e@.media_id == Some(e.media_id->0@),
        e.media_id is None ==> e@.media_id is None,
        e.media is Some ==> e@.media == Some(e.media->0@),
        e.media is None ==> e@.media is None,
{
}

/// A pushed medium is seen as what its fields hold, each under its own name.
pub proof fn law_push_media_view(v: PushMedia)
    ensures
        v.uuid is Some ==> v@.uuid == Some(v.uuid->0@),
        v.uuid is None ==> v@.uuid is None,
        v.md5 is Some ==> v@.md5 == Some(v.md5->0@),
        v.md5 is None ==> v@.md5 is None,
        v.file_name is Some ==> v@.file_name == Some(v.file_name->0@),
        v.file_name is None ==> v@.file_name is None,
        v@.size == v.size,
        v@.width == v.width,
        v@.height == v.height,
        v@.urls.len() == v.urls@.len(),
        forall|i: int|
            0 <= i < v.urls@.len() ==> #[trigger] v@.urls[i] == v.urls@[i]@,
{
}

} // verus!

//! Session list, newest last message first, in the native or the ChatLab shape.

use vstd::prelude::*;

use crate::server::handlers::{clamp, clamped};
use crate::store::query::{
    page, queried_sessions, query_sessions, session_views, SessionInfo, SessionModel,
};
use crate::store::Store;
use crate::text::{opt_view, same};

verus! {

/// Request parameters.
#[derive(Debug)]
pub struct Params {
    pub keyword: Option<String>,
    pub limit: usize,
    pub offset: usize,
    pub format: Option<String>,
    pub access_token: Option<String>,
}

/// The page size without a `limit`.
pub fn default_limit() -> (r: usize)
    ensures
        r == 100,
{
    100
}

impl Default for Params {
    fn default() -> (r: Self)
        ensures
            r.keyword is None,
            r.limit == 100,
            r.offset == 0,
            r.format is None,
            r.access_token is None,
    {
        Params {
            keyword: None,
            limit: default_limit(),
            offset: 0,
            format: None,
            access_token: None,
        }
    }
}

/// A session in the ChatLab shape.
#[derive(Debug)]
pub struct ChatlabSession {
    pub id: String,
    pub name: String,
    pub platform: String,
    pub session_type: String,
    pub message_count: i64,
    pub last_message_at: i64,
}

/// What a [`ChatlabSession`] holds.
pub struct ChatlabSessionModel {
    pub id: Seq<char>,
    pub name: Seq<char>,
    pub platform: Seq<char>,
    pub session_type: Seq<char>,
    pub message_count: int,
    pub last_message_at: int,
}

impl View for ChatlabSession {
    type V = ChatlabSessionModel;

    open spec fn view(&self) -> ChatlabSessionModel {
        ChatlabSessionModel {
            id: self.id@,
            name: self.name@,
            platform: self.platform@,
            session_type: self.session_type@,
            message_count: self.message_count as int,
            last_message_at: self.last_message_at as int,
        }
    }
}

/// The sessions of a list.
pub open spec fn chatlab_session_views(v: Seq<ChatlabSession>) -> Seq<ChatlabSessionModel> {
    v.map_values(|s: ChatlabSession| s@)
}

/// A session in the ChatLab shape.
pub open spec fn chatlab_session(s: SessionModel) -> ChatlabSessionModel {
    ChatlabSessionModel {
        id: s.username,
        name: s.display_name,
        platform: "qq"@,
        session_type: if s.session_type == 2 {
            "group"@
        } else {
            "private"@
        },
        message_count: 0,
        last_message_at: s.last_timestamp,
    }
}

/// Reply in either shape.
#[derive(Debug)]
pub enum SessionsReply {
    Native(Vec<SessionInfo>),
    Chatlab(Vec<ChatlabSession>),
}

fn to_chatlab(s: &SessionInfo) -> (r: ChatlabSession)
    ensures
        r@ == chatlab_session(s@),
{
    ChatlabSession {
        id: s.username.clone(),
        name: s.display_name.clone(),
        platform: "qq".to_owned(),
        session_type: if s.session_type == 2 {
            "group".to_owned()
        } else {
            "private".to_owned()
        },
        message_count: 0,
        last_message_at: s.last_timestamp,
    }
}

/// The page of sessions that was asked for.
pub fn handle(store: &Store, params: &Params) -> (r: SessionsReply)
    requires
        store.wf(),
    ensures
        ({
            let got = page(
                queried_sessions(store@, opt_view(params.keyword)),
                params.offset as int,
                clamped(params.limit as int, 1, 10000),
            );
            match r {
                SessionsReply::Native(v) => opt_view(params.format) != Some("chatlab"@)
                    && session_views(v@) == got,
                SessionsReply::Chatlab(v) => opt_view(params.format) == Some("chatlab"@)
                    && chatlab_session_views(v@) == got.map_values(
                    |s: SessionModel| chatlab_session(s),
                ),
            }
        }),
{
    let limit: usize = clamp(params.limit, 1, 10000);
    let keyword: Option<&str> = match &params.keyword {
        Some(k) => Some(k.as_str()),
        None => None,
    };
    let chatlab = match &params.format {
        Some(f) => same(f.as_str(), "chatlab"),
        None => false,
    };
    let sessions = query_sessions(store, keyword, limit, params.offset);
    if !chatlab {
        return SessionsReply::Native(sessions);
    }
    let mut out: Vec<ChatlabSession> = Vec::new();
    let mut i: usize = 0;
    while i < sessions.len()
        invariant
            i <= sessions.len(),
            out.len() == i,
            forall|k: int| 0 <= k < i ==> (#[trigger] out@[k])@ == chatlab_session(sessions@[k]@),
        decreases sessions.len() - i,
    {
        out.push(to_chatlab(&sessions[i]));
        i += 1;
    }
    assert(chatlab_session_views(out@) =~= session_views(sessions@).map_values(
        |s: SessionModel| chatlab_session(s),
    ));
    SessionsReply::Chatlab(out)
}

/// A session in the ChatLab form tells its conversation: the talker, what it is called, its
/// kind and the time of its newest message.
pub proof fn law_chatlab_sessions(s: crate::store::StoreModel, c: crate::store::ConversationModel)
    ensures
        ({
            let o = chatlab_session(crate::store::query::session_of(s, c));
            &&& o.id == c.talker
            &&& o.name == s.session_name(c.chat_type, c.talker)
            &&& o.platform == "qq"@
            &&& c.chat_type is Group ==> o.session_type == "group"@
            &&& c.chat_type is C2c ==> o.session_type == "private"@
            &&& o.message_count == 0
            &&& forall|i: int|
                0 <= i < c.msgs.len() ==> (#[trigger] c.msgs[i]).ts <= o.last_message_at
            &&& c.msgs.len() > 0 ==> exists|i: int|
                0 <= i < c.msgs.len() && (#[trigger] c.msgs[i]).ts == o.last_message_at
        }),
{
    crate::store::query::law_sessions_tell_their_conversations(s, c);
}

/// A session is seen as what its fields hold, each under its own name.
pub proof fn law_session_view(v: ChatlabSession)
    ensures
        v@.id == v.id@,
        v@.name == v.name@,
        v@.platform == v.platform@,
        v@.session_type == v.session_type@,
        v@.message_count == v.message_count,
        v@.last_message_at == v.last_message_at,
{
}

} // verus!

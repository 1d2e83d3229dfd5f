//! Messages of one session: native rows, with or without a media export, or the ChatLab
//! envelope.

use vstd::prelude::*;

use crate::parser::types::{ChatType, MsgType};
use crate::server::error::{ApiError, ApiErrorModel};
use crate::server::handlers::chatlab_pull::{
    bound_of, chatlab_views, collect_members, member_views, members_of, nickname, nickname_in,
    ChatlabMember, ChatlabMemberModel, ChatlabMessage, ChatlabMessageModel, ChatlabMeta,
    ChatlabMetaModel,
};
use crate::server::handlers::{clamp, clamped, parse_opt_bound, FlexBool};
use crate::server::{account_views, ready_account, ready_qq, AccountState};
use crate::store::media_export::ExportOptions;
use crate::store::query::{
    classify_talker, out_views, page, queried, query_messages, shown_rows, talker_type, MessageOut,
    MessageOutModel, MessageQuery,
};
use crate::store::{ConversationModel, Store, StoreModel};
use crate::text::{opt_str_view, opt_view, same, views};

verus! {

/// Request parameters.
#[derive(Debug)]
pub struct Params {
    pub talker: Option<String>,
    pub limit: usize,
    pub offset: usize,
    pub start: Option<String>,
    pub end: Option<String>,
    pub keyword: Option<String>,
    /// ChatLab output switch.
    pub chatlab: FlexBool,
    pub format: Option<String>,
    /// Media export switch.
    pub media: FlexBool,
    /// Per-kind export switches, on unless set to false.
    pub image: FlexBool,
    pub voice: FlexBool,
    pub video: FlexBool,
    pub emoji: FlexBool,
    pub access_token: Option<String>,
}

/// The page size without a `limit`.
pub fn default_limit() -> (r: usize)
    ensures
        r == 100,
{
    100
}

impl Default for Params {
    fn default() -> (r: Self)
        ensures
            r.talker is None,
            r.limit == 100,
            r.offset == 0,
            r.start is None,
            r.end is None,
            r.keyword is None,
            r.chatlab is Unset,
            r.format is None,
            r.media is Unset,
            r.image is Unset,
            r.voice is Unset,
            r.video is Unset,
            r.emoji is Unset,
            r.access_token is None,
    {
        Params {
            talker: None,
            limit: default_limit(),
            offset: 0,
            start: None,
            end: None,
            keyword: None,
            chatlab: FlexBool::Unset,
            format: None,
            media: FlexBool::Unset,
            image: FlexBool::Unset,
            voice: FlexBool::Unset,
            video: FlexBool::Unset,
            emoji: FlexBool::Unset,
            access_token: None,
        }
    }
}

/// How a reply is shaped.
#[derive(Debug, Clone, Copy, PartialEq, Eq, Structural)]
pub enum ReplyMode {
    /// The ChatLab envelope, without any export.
    Chatlab,
    /// Native rows with their media exported.
    Export,
    /// Native rows.
    Plain,
}

/// How the reply to a request is shaped: ChatLab output goes before an export.
pub open spec fn mode_of(p: Params) -> ReplyMode {
    if p.chatlab is True || opt_view(p.format) == Some("chatlab"@) {
        ReplyMode::Chatlab
    } else if p.media is True {
        ReplyMode::Export
    } else {
        ReplyMode::Plain
    }
}

/// How the reply to a request is shaped.
pub fn reply_mode(params: &Params) -> (r: ReplyMode)
    ensures
        r == mode_of(*params),
{
    let by_format = match &params.format {
        Some(f) => same(f.as_str(), "chatlab"),
        None => false,
    };
    if params.chatlab.is_true() || by_format {
        ReplyMode::Chatlab
    } else if params.media.is_true() {
        ReplyMode::Export
    } else {
        ReplyMode::Plain
    }
}

/// The export switches of a request: on unless set to false.
pub fn export_options(params: &Params) -> (r: ExportOptions)
    ensures
        r.image == !(params.image is False),
        r.voice == !(params.voice is False),
        r.video == !(params.video is False),
        r.emoji == !(params.emoji is False),
{
    ExportOptions {
        image: !params.image.is_false(),
        voice: !params.voice.is_false(),
        video: !params.video.is_false(),
        emoji: !params.emoji.is_false(),
    }
}

fn as_text(o: &Option<String>) -> (r: Option<&str>)
    ensures
        opt_str_view(r) == opt_view(*o),
{
    match o {
        Some(s) => Some(s.as_str()),
        None => None,
    }
}

/// The rows that a request asks for, and whether more follow: an error where no talker is
/// named. A talker without a conversation has no rows.
pub fn handle(store: &Store, params: &Params) -> (r: Result<(Vec<MessageOut>, bool), ApiError>)
    requires
        store.wf(),
    ensures
        match params.talker {
            None => r is Err && r->Err_0@ == (ApiErrorModel {
                code: 400,
                message: "缺少必填参数 talker"@,
            }),
            Some(talker) => {
                let all = queried(
                    store@,
                    talker@,
                    bound_of(opt_view(params.start), false),
                    bound_of(opt_view(params.end), true),
                    opt_view(params.keyword),
                );
                let limit = clamped(params.limit as int, 1, 10000);
                &&& r is Ok
                &&& out_views((r->Ok_0).0@) == shown_rows(
                    store@,
                    page(all, params.offset as int, limit),
                )
                &&& (r->Ok_0).1 == (all.len() > params.offset + limit)
            },
        },
{
    let talker: &String = match &params.talker {
        Some(t) => t,
        None => return Err(ApiError::bad_request("缺少必填参数 talker")),
    };
    let start = parse_opt_bound(as_text(&params.start), false);
    let end = parse_opt_bound(as_text(&params.end), true);
    assert(start == bound_of(opt_view(params.start), false));
    assert(end == bound_of(opt_view(params.end), true));
    let q = MessageQuery {
        talker: talker.as_str(),
        limit: clamp(params.limit, 1, 10000),
        offset: params.offset,
        start,
        end,
        keyword: as_text(&params.keyword),
    };
    Ok(query_messages(store, &q))
}

/// How many of the first `n` rows carry media metadata.
pub open spec fn media_rows(items: Seq<MessageOutModel>, n: int) -> nat
    decreases n,
{
    if n <= 0 {
        0
    } else {
        media_rows(items, n - 1) + if items[n - 1].media is Some {
            1nat
        } else {
            0
        }
    }
}

/// How many rows carry media metadata.
pub fn media_count(items: &Vec<MessageOut>) -> (n: usize)
    ensures
        n == media_rows(out_views(items@), items@.len() as int),
{
    let mut n: usize = 0;
    let mut i: usize = 0;
    while i < items.len()
        invariant
            i <= items.len(),
            n == media_rows(out_views(items@), i as int),
            n <= i,
        decreases items.len() - i,
    {
        assert(out_views(items@)[i as int] == items@[i as int]@);
        if items[i].media.is_some() {
            n += 1;
        }
        i += 1;
    }
    n
}

/// The native envelope: rows, paging and what is said of media.
#[derive(Debug)]
pub struct Envelope {
    pub talker: String,
    pub count: usize,
    pub has_more: bool,
    pub media_enabled: bool,
    /// The export root, empty without an export.
    pub export_path: String,
    /// Exported messages, or messages with media metadata without an export.
    pub media_count: usize,
    pub messages: Vec<MessageOut>,
}

/// The envelope of rows: `export` is the export root and how many messages were exported,
/// where an export ran.
pub fn envelope(
    talker: &str,
    messages: Vec<MessageOut>,
    has_more: bool,
    export: Option<(&str, usize)>,
) -> (r: Envelope)
    ensures
        r.talker@ == talker@,
        r.count == messages@.len(),
        r.has_more == has_more,
        r.media_enabled,
        match export {
            Some((path, n)) => r.export_path@ == path@ && r.media_count == n,
            None => r.export_path@ == Seq::<char>::empty() && r.media_count == media_rows(
                out_views(messages@),
                messages@.len() as int,
            ),
        },
        r.messages == messages,
{
    let count: usize = messages.len();
    let (export_path, media) = match export {
        Some((path, n)) => (path.to_owned(), n),
        None => (String::new(), media_count(&messages)),
    };
    Envelope {
        talker: talker.to_owned(),
        count,
        has_more,
        media_enabled: true,
        export_path,
        media_count: media,
        messages,
    }
}

/// ChatLab envelope of a page of rows.
#[derive(Debug)]
pub struct ChatlabEnvelope {
    pub meta: ChatlabMeta,
    pub members: Vec<ChatlabMember>,
    pub messages: Vec<ChatlabMessage>,
}

/// What a [`ChatlabEnvelope`] holds.
pub struct ChatlabEnvelopeModel {
    pub meta: ChatlabMetaModel,
    pub members: Seq<ChatlabMemberModel>,
    pub messages: Seq<ChatlabMessageModel>,
}

impl View for ChatlabEnvelope {
    type V = ChatlabEnvelopeModel;

    open spec fn view(&self) -> ChatlabEnvelopeModel {
        ChatlabEnvelopeModel {
            meta: self.meta@,
            members: member_views(self.members@),
            messages: chatlab_views(self.messages@),
        }
    }
}

/// The chat type and talker that cards are looked up under: none without a conversation.
pub open spec fn card_scope(c: Option<ConversationModel>) -> (ChatType, Seq<char>) {
    match c {
        Some(c) => (c.chat_type, c.talker),
        None => (ChatType::C2c, Seq::empty()),
    }
}

/// The ChatLab message of a row.
pub open spec fn chatlab_row(
    s: StoreModel,
    scope: (ChatType, Seq<char>),
    m: MessageOutModel,
) -> ChatlabMessageModel {
    ChatlabMessageModel {
        sender: m.sender_username,
        account_name: s.person_name(m.sender_username),
        group_nickname: nickname_in(s, scope.0, scope.1, m.sender_username),
        timestamp: m.create_time,
        message_type: MsgType::of_code(m.local_type).chatlab_of(),
        content: m.content,
        platform_message_id: m.server_id,
    }
}

/// The senders of rows.
pub open spec fn row_senders(items: Seq<MessageOutModel>) -> Seq<Seq<char>> {
    items.map_values(|m: MessageOutModel| m.sender_username)
}

/// The ChatLab envelope of a page: its senders once each, its rows oldest first.
pub open spec fn chatlab_envelope_of(
    s: StoreModel,
    owner: Seq<char>,
    talker: Seq<char>,
    items: Seq<MessageOutModel>,
) -> ChatlabEnvelopeModel {
    let conv = s.found_conversation(talker);
    let scope = card_scope(conv);
    ChatlabEnvelopeModel {
        meta: ChatlabMetaModel {
            name: match conv {
                Some(c) => s.session_name(c.chat_type, c.talker),
                None => talker,
            },
            platform: "qq"@,
            chat_type: match conv {
                Some(c) => c.chat_type.name(),
                None => talker_type(talker).name(),
            },
            group_id: talker,
            owner_id: owner,
        },
        members: members_of(s, scope.0, scope.1, row_senders(items)),
        messages: items.reverse().map_values(|m: MessageOutModel| chatlab_row(s, scope, m)),
    }
}

fn chatlab_of_row(store: &Store, chat_type: ChatType, talker: &str, m: &MessageOut) -> (r: ChatlabMessage)
    requires
        store.wf(),
    ensures
        r@ == chatlab_row(store@, (chat_type, talker@), m@),
{
    let uid = m.sender_username.as_str();
    ChatlabMessage {
        sender: m.sender_username.clone(),
        account_name: store.display_uid(uid),
        group_nickname: nickname(store, chat_type, talker, uid),
        timestamp: m.create_time,
        message_type: MsgType::from_code(m.local_type).chatlab_type(),
        content: m.content.clone(),
        platform_message_id: m.server_id.clone(),
    }
}

/// ChatLab envelope of a page of rows: `accountName` and `groupNickname` are kept apart,
/// unlike the merged sender name of the native rows.
pub fn chatlab_envelope(
    store: &Store,
    accounts: &Vec<AccountState>,
    talker: &str,
    items: &Vec<MessageOut>,
) -> (r: ChatlabEnvelope)
    requires
        store.wf(),
    ensures
        r@ == chatlab_envelope_of(
            store@,
            ready_qq(account_views(accounts@)),
            talker@,
            out_views(items@),
        ),
{
    let ghost s = store@;
    let ghost all = out_views(items@);
    let conv = store.find_conversation(talker);
    let (chat_type, name) = match conv {
        Some(c) => (c.chat_type, store.display_name(c.chat_type, c.talker.as_str())),
        None => (classify_talker(talker).0, talker.to_owned()),
    };
    proof {
        reveal_strlit("");
        assert(""@ =~= Seq::<char>::empty());
    }
    let (scope_type, scope_talker): (ChatType, &str) = match conv {
        Some(c) => (c.chat_type, c.talker.as_str()),
        None => (ChatType::C2c, ""),
    };
    let ghost scope = card_scope(s.found_conversation(talker@));
    assert(scope == (scope_type, scope_talker@));
    let mut uids: Vec<String> = Vec::new();
    let mut i: usize = 0;
    while i < items.len()
        invariant
            i <= items.len(),
            uids.len() == i,
            forall|k: int| 0 <= k < i ==> #[trigger] uids@[k]@ == items@[k].sender_username@,
        decreases items.len() - i,
    {
        uids.push(items[i].sender_username.clone());
        i += 1;
    }
    assert(views(uids@) =~= row_senders(all));
    let mut messages: Vec<ChatlabMessage> = Vec::new();
    let mut k: usize = items.len();
    while k > 0
        invariant
            k <= items.len(),
            store.wf(),
            s == store@,
            all == out_views(items@),
            scope == (scope_type, scope_talker@),
            messages.len() == items.len() - k,
            forall|j: int|
                0 <= j < messages.len() ==> (#[trigger] messages@[j])@ == chatlab_row(
                    s,
                    scope,
                    all.reverse()[j],
                ),
        decreases k,
    {
        assert(all.reverse()[items.len() - k] == items@[k - 1]@);
        messages.push(chatlab_of_row(store, scope_type, scope_talker, &items[k - 1]));
        k -= 1;
    }
    assert(chatlab_views(messages@) =~= all.reverse().map_values(
        |m: MessageOutModel| chatlab_row(s, scope, m),
    ));
    ChatlabEnvelope {
        meta: ChatlabMeta {
            name,
            platform: "qq".to_owned(),
            chat_type: chat_type.as_str().to_owned(),
            group_id: talker.to_owned(),
            owner_id: ready_account(accounts),
        },
        members: collect_members(store, scope_type, scope_talker, &uids),
        messages,
    }
}

/// Native rows and ChatLab messages agree on each record: the type codes are two code
/// spaces of one category, and the card that the merged sender name may show stands apart
/// from the account's own name.
pub proof fn law_native_and_chatlab_agree(
    s: StoreModel,
    r: crate::parser::types::RecordModel,
)
    requires
        r.from_uid.len() > 0,
    ensures
        ({
            let row = crate::store::query::shown_row(s, r);
            let lab = chatlab_row(s, (r.chat_type, r.talker), row);
            &&& lab == crate::server::handlers::chatlab_pull::chatlab_of(
                s,
                r.chat_type,
                r.talker,
                r,
            )
            &&& row.sender_name == if lab.group_nickname.len() > 0 {
                lab.group_nickname
            } else {
                lab.account_name
            }
        }),
{
    crate::parser::types::law_code_round_trip(r.parsed.msg_type);
}

/// An envelope in the ChatLab form tells the rows field by field, the last row first: who
/// sent it, when, what it says, its type's number and its server id.
pub proof fn law_chatlab_rows_tell_their_rows(
    s: StoreModel,
    owner: Seq<char>,
    talker: Seq<char>,
    items: Seq<MessageOutModel>,
    i: int,
)
    requires
        0 <= i < items.len(),
    ensures
        ({
            let got = chatlab_envelope_of(s, owner, talker, items).messages;
            let o = items[items.len() - 1 - i];
            let m = got[i];
            &&& got.len() == items.len()
            &&& m.sender == o.sender_username
            &&& m.timestamp == o.create_time
            &&& m.content == o.content
            &&& m.platform_message_id == o.server_id
            &&& m.account_name == s.person_name(o.sender_username)
            &&& s.found_conversation(talker) is None ==> m.group_nickname.len() == 0
        }),
{
}

/// The rows of records in the ChatLab form tell the records field by field, the last one
/// first.
pub proof fn law_chatlab_rows_tell_their_records(
    s: StoreModel,
    owner: Seq<char>,
    talker: Seq<char>,
    rs: Seq<crate::parser::types::RecordModel>,
    c: ConversationModel,
    i: int,
)
    requires
        0 <= i < rs.len(),
        s.found_conversation(talker) == Some(c),
    ensures
        ({
            let got = chatlab_envelope_of(s, owner, talker, shown_rows(s, rs)).messages;
            let r = rs[rs.len() - 1 - i];
            let m = got[i];
            &&& got.len() == rs.len()
            &&& m.sender == r.from_uid
            &&& m.timestamp == r.ts
            &&& m.content == r.parsed.content
            &&& crate::text::signed_value(m.platform_message_id) == Some(r.seq as int)
            &&& m.account_name == s.person_name(r.from_uid)
            &&& r.parsed.msg_type is Text ==> m.message_type == 0
            &&& r.parsed.msg_type is Image ==> m.message_type == 1
            &&& r.parsed.msg_type is Voice ==> m.message_type == 2
            &&& r.parsed.msg_type is Video ==> m.message_type == 3
            &&& r.parsed.msg_type is System ==> m.message_type == 80
            &&& r.parsed.msg_type is Recall ==> m.message_type == 81
            &&& r.parsed.msg_type is Other ==> m.message_type == 99
            &&& s.card(c.chat_type, c.talker, r.from_uid) is Some ==> Some(m.group_nickname)
                == s.card(c.chat_type, c.talker, r.from_uid)
            &&& s.card(c.chat_type, c.talker, r.from_uid) is None ==> m.group_nickname.len() == 0
        }),
{
    let r = rs[rs.len() - 1 - i];
    crate::store::query::law_rows_tell_their_records(s, r);
    law_chatlab_rows_tell_their_rows(s, owner, talker, shown_rows(s, rs), i);
    let o = shown_rows(s, rs)[rs.len() - 1 - i];
    assert(o == crate::store::query::shown_row(s, r));
    assert(chatlab_envelope_of(s, owner, talker, shown_rows(s, rs)).messages[i] == chatlab_row(
        s,
        (c.chat_type, c.talker),
        o,
    ));
}

/// Rows that stand newest first come out oldest first in the ChatLab form.
pub proof fn law_chatlab_rows_are_chronological(
    s: StoreModel,
    owner: Seq<char>,
    talker: Seq<char>,
    items: Seq<MessageOutModel>,
)
    requires
        forall|i: int, j: int|
            0 <= i < j < items.len() ==> (#[trigger] items[i]).create_time >= (
            #[trigger] items[j]).create_time,
    ensures
        ({
            let got = chatlab_envelope_of(s, owner, talker, items).messages;
            forall|i: int, j: int|
                0 <= i < j < got.len() ==> (#[trigger] got[i]).timestamp <= (
                #[trigger] got[j]).timestamp
        }),
{
    let got = chatlab_envelope_of(s, owner, talker, items).messages;
    assert forall|i: int, j: int| 0 <= i < j < got.len() implies (#[trigger] got[i]).timestamp <= (
    #[trigger] got[j]).timestamp by {
        assert(items[items.len() - 1 - j].create_time >= items[items.len() - 1 - i].create_time);
    }
}

/// An envelope's description: what the chat is called, its kind, the talker asked for and
/// the owner. A talker without a conversation is told by itself: digits alone are a group.
pub proof fn law_chatlab_envelope_meta(
    s: StoreModel,
    owner: Seq<char>,
    talker: Seq<char>,
    items: Seq<MessageOutModel>,
)
    ensures
        ({
            let meta = chatlab_envelope_of(s, owner, talker, items).meta;
            let conv = s.found_conversation(talker);
            let number = forall|i: int| 0 <= i < talker.len() ==> '0' <= #[trigger] talker[i] <= '9';
            &&& meta.platform == "qq"@
            &&& meta.group_id == talker
            &&& meta.owner_id == owner
            &&& conv is Some ==> meta.name == s.session_name(conv->0.chat_type, conv->0.talker)
            &&& conv is None ==> meta.name == talker
            &&& conv is Some && conv->0.chat_type is Group ==> meta.chat_type == "group"@
            &&& conv is Some && conv->0.chat_type is C2c ==> meta.chat_type == "private"@
            &&& conv is None && number ==> meta.chat_type == "group"@
            &&& conv is None && !number ==> meta.chat_type == "private"@
        }),
{
    if forall|i: int| 0 <= i < talker.len() ==> '0' <= #[trigger] talker[i] <= '9' {
        assert forall|i: int| 0 <= i < talker.len() implies crate::text::is_digit(
            #[trigger] talker[i],
        ) by {}
    } else {
        let i = choose|i: int| 0 <= i < talker.len() && !('0' <= #[trigger] talker[i] <= '9');
        assert(!crate::text::is_digit(talker[i]));
    }
}

/// An envelope's members are the senders of its rows, each with a uid once, and no one
/// else.
pub proof fn law_chatlab_envelope_members(
    s: StoreModel,
    owner: Seq<char>,
    talker: Seq<char>,
    items: Seq<MessageOutModel>,
    u: Seq<char>,
)
    ensures
        ({
            let got = chatlab_envelope_of(s, owner, talker, items);
            &&& (exists|i: int|
                0 <= i < got.members.len() && (#[trigger] got.members[i]).platform_id == u)
                <==> u.len() > 0 && exists|i: int|
                0 <= i < items.len() && (#[trigger] items[i]).sender_username == u
            &&& forall|i: int|
                0 <= i < got.members.len() ==> (#[trigger] got.members[i]).account_name
                    == s.person_name(got.members[i].platform_id)
        }),
{
    let uids = row_senders(items);
    crate::server::handlers::chatlab_pull::law_members_are_the_senders(uids);
    let got = chatlab_envelope_of(s, owner, talker, items);
    let ds = crate::server::handlers::chatlab_pull::distinct_senders(uids);
    if exists|i: int| 0 <= i < got.members.len() && (#[trigger] got.members[i]).platform_id == u {
        let i = choose|i: int|
            0 <= i < got.members.len() && (#[trigger] got.members[i]).platform_id == u;
        assert(ds[i] == u);
        assert(ds.contains(u));
        let k = choose|k: int| 0 <= k < uids.len() && uids[k] == u;
        assert(items[k].sender_username == u);
    }
    if u.len() > 0 && exists|i: int|
        0 <= i < items.len() && (#[trigger] items[i]).sender_username == u {
        let i = choose|i: int| 0 <= i < items.len() && (#[trigger] items[i]).sender_username == u;
        assert(uids[i] == u);
        assert(uids.contains(u));
        assert(ds.contains(u));
        let k = choose|k: int| 0 <= k < ds.len() && ds[k] == u;
        assert(got.members[k].platform_id == u);
    }
}

/// A reply is in the ChatLab form where that is asked for by either parameter, whatever
/// else is; else media is exported where that is asked for; else the rows stay plain.
pub proof fn law_reply_modes(p: Params)
    ensures
        mode_of(p) is Chatlab <==> p.chatlab is True || (p.format is Some && p.format->0@
            == "chatlab"@),
        mode_of(p) is Export <==> !(mode_of(p) is Chatlab) && p.media is True,
        mode_of(p) is Plain <==> !(mode_of(p) is Chatlab) && !(p.media is True),
{
}

/// The rows with media are counted, each once.
pub proof fn law_media_rows_are_counted(items: Seq<MessageOutModel>)
    ensures
        media_rows(items, items.len() as int) == items.filter(
            |m: MessageOutModel| m.media is Some,
        ).len(),
    decreases items.len(),
{
    reveal(Seq::filter);
    if items.len() > 0 {
        law_media_rows_are_counted(items.drop_last());
        lemma_media_rows_front(items, items.drop_last(), items.len() - 1);
    }
}

proof fn lemma_media_rows_front(a: Seq<MessageOutModel>, b: Seq<MessageOutModel>, n: int)
    requires
        n <= a.len(),
        n <= b.len(),
        forall|i: int| 0 <= i < n ==> #[trigger] a[i] == b[i],
    ensures
        media_rows(a, n) == media_rows(b, n),
    decreases n,
{
    if n > 0 {
        assert(a[n - 1] == b[n - 1]);
        lemma_media_rows_front(a, b, n - 1);
    }
}

} // verus!

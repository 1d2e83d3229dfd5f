//! Members of a group chat, derived from its messages.

use vstd::prelude::*;
use vstd::string::StringExecFns;

use crate::parser::types::{record_views, ChatType, MessageRecord, RecordModel};
use crate::server::error::{ApiError, ApiErrorModel};
use crate::server::handlers::chatlab_pull::{distinct_senders, senders_of};
use crate::store::{or_text, text_or_empty, Store, StoreModel};
use crate::strmap::assoc;
use crate::text::{has_string, opt_view, same, views};

verus! {

/// Request parameters.
#[derive(Debug)]
pub struct Params {
    pub chatroom_id: Option<String>,
    /// Alias for `chatroom_id`.
    pub talker: Option<String>,
    pub include_message_counts: Option<String>,
    /// Alias for `include_message_counts`.
    pub with_counts: Option<String>,
    /// Accepted; there is no member cache to refresh.
    pub force_refresh: Option<String>,
    pub access_token: Option<String>,
}

impl Default for Params {
    fn default() -> (r: Self)
        ensures
            r.chatroom_id is None,
            r.talker is None,
            r.include_message_counts is None,
            r.with_counts is None,
            r.force_refresh is None,
            r.access_token is None,
    {
        Params {
            chatroom_id: None,
            talker: None,
            include_message_counts: None,
            with_counts: None,
            force_refresh: None,
            access_token: None,
        }
    }
}

/// A member row.
#[derive(Debug)]
pub struct Member {
    pub wxid: String,
    pub display_name: String,
    pub nickname: String,
    pub remark: String,
    pub alias: String,
    pub group_nickname: String,
    pub avatar_url: String,
    pub is_owner: bool,
    pub is_friend: bool,
    pub message_count: Option<usize>,
}

/// What a [`Member`] holds.
pub struct MemberModel {
    pub wxid: Seq<char>,
    pub display_name: Seq<char>,
    pub nickname: Seq<char>,
    pub remark: Seq<char>,
    pub alias: Seq<char>,
    pub group_nickname: Seq<char>,
    pub avatar_url: Seq<char>,
    pub is_owner: bool,
    pub is_friend: bool,
    pub message_count: Option<int>,
}

impl View for Member {
    type V = MemberModel;

    open spec fn view(&self) -> MemberModel {
        MemberModel {
            wxid: self.wxid@,
            display_name: self.display_name@,
            nickname: self.nickname@,
            remark: self.remark@,
            alias: self.alias@,
            group_nickname: self.group_nickname@,
            avatar_url: self.avatar_url@,
            is_owner: self.is_owner,
            is_friend: self.is_friend,
            message_count: match self.message_count {
                Some(n) => Some(n as int),
                None => None,
            },
        }
    }
}

/// The members of a list.
pub open spec fn group_member_views(v: Seq<Member>) -> Seq<MemberModel> {
    v.map_values(|m: Member| m@)
}

/// The nickname of a sender's first message.
pub open spec fn first_nick(msgs: Seq<RecordModel>, uid: Seq<char>) -> Seq<char>
    decreases msgs.len(),
{
    if msgs.len() == 0 {
        Seq::empty()
    } else if msgs[0].from_uid == uid {
        msgs[0].from_nick
    } else {
        first_nick(msgs.drop_first(), uid)
    }
}

/// How many messages a sender sent.
pub open spec fn sent_count(msgs: Seq<RecordModel>, uid: Seq<char>) -> nat
    decreases msgs.len(),
{
    if msgs.len() == 0 {
        0
    } else {
        sent_count(msgs.drop_last(), uid) + if msgs.last().from_uid == uid {
            1nat
        } else {
            0
        }
    }
}

/// The member row of a sender.
pub open spec fn group_member(
    s: StoreModel,
    room: Seq<char>,
    msgs: Seq<RecordModel>,
    uid: Seq<char>,
    with_counts: bool,
) -> MemberModel {
    MemberModel {
        wxid: uid,
        display_name: first_nick(msgs, uid),
        nickname: first_nick(msgs, uid),
        remark: or_text(assoc(s.names.uid_remark, uid), Seq::empty()),
        alias: Seq::empty(),
        group_nickname: s.sender_name(ChatType::Group, room, uid),
        avatar_url: Seq::empty(),
        is_owner: false,
        is_friend: false,
        message_count: if with_counts {
            Some(sent_count(msgs, uid) as int)
        } else {
            None
        },
    }
}

/// The members of a group: its senders in the order of their first message.
pub open spec fn group_members(
    s: StoreModel,
    room: Seq<char>,
    msgs: Seq<RecordModel>,
    with_counts: bool,
) -> Seq<MemberModel> {
    distinct_senders(senders_of(msgs)).map_values(
        |uid: Seq<char>| group_member(s, room, msgs, uid, with_counts),
    )
}

/// A parameter that switches on.
pub open spec fn switched_on(o: Option<Seq<char>>) -> bool {
    o == Some("1"@) || o == Some("true"@)
}

fn is_on(o: &Option<String>) -> (r: bool)
    ensures
        r == switched_on(opt_view(*o)),
{
    match o {
        Some(s) => same(s.as_str(), "1") || same(s.as_str(), "true"),
        None => false,
    }
}

fn find_nick(msgs: &Vec<MessageRecord>, uid: &str) -> (r: String)
    ensures
        r@ == first_nick(record_views(msgs@), uid@),
{
    let ghost all = record_views(msgs@);
    let mut i: usize = 0;
    assert(all.skip(0) =~= all);
    while i < msgs.len()
        invariant
            i <= msgs.len(),
            all == record_views(msgs@),
            first_nick(all, uid@) == first_nick(all.skip(i as int), uid@),
        decreases msgs.len() - i,
    {
        assert(all.skip(i as int)[0] == msgs@[i as int]@);
        assert(all.skip(i as int).drop_first() =~= all.skip(i + 1));
        if same(msgs[i].from_uid.as_str(), uid) {
            return msgs[i].from_nick.clone();
        }
        i += 1;
    }
    String::new()
}

fn count_sent(msgs: &Vec<MessageRecord>, uid: &str) -> (n: usize)
    ensures
        n == sent_count(record_views(msgs@), uid@),
{
    let ghost all = record_views(msgs@);
    let mut n: usize = 0;
    let mut i: usize = 0;
    assert(all.take(0) =~= Seq::<RecordModel>::empty());
    while i < msgs.len()
        invariant
            i <= msgs.len(),
            all == record_views(msgs@),
            n == sent_count(all.take(i as int), uid@),
            n <= i,
        decreases msgs.len() - i,
    {
        proof {
            let now = all.take(i + 1);
            assert(now.drop_last() =~= all.take(i as int));
            assert(now.last() == msgs@[i as int]@);
        }
        if same(msgs[i].from_uid.as_str(), uid) {
            n += 1;
        }
        i += 1;
    }
    assert(all.take(all.len() as int) =~= all);
    n
}

fn sender_order(msgs: &Vec<MessageRecord>) -> (r: Vec<String>)
    ensures
        views(r@) == distinct_senders(senders_of(record_views(msgs@))),
{
    let ghost all = senders_of(record_views(msgs@));
    let mut seen: Vec<String> = Vec::new();
    let mut i: usize = 0;
    assert(all.take(0) =~= Seq::<Seq<char>>::empty());
    assert(views(seen@) =~= Seq::<Seq<char>>::empty());
    while i < msgs.len()
        invariant
            i <= msgs.len(),
            all == senders_of(record_views(msgs@)),
            views(seen@) == distinct_senders(all.take(i as int)),
        decreases msgs.len() - i,
    {
        proof {
            let now = all.take(i + 1);
            assert(now.drop_last() =~= all.take(i as int));
            assert(now.last() == msgs@[i as int].from_uid@);
        }
        let uid = msgs[i].from_uid.as_str();
        if !uid.is_empty() && !has_string(&seen, uid) {
            let ghost before = seen@;
            seen.push(uid.to_owned());
            assert(views(seen@) =~= views(before).push(uid@));
        }
        i += 1;
    }
    assert(all.take(all.len() as int) =~= all);
    seen
}

/// Reply: the room and its members.
#[derive(Debug)]
pub struct MembersReply {
    pub chatroom_id: String,
    pub members: Vec<Member>,
}

/// The room that a request names.
pub open spec fn room_of(p: Params) -> Option<Seq<char>> {
    if p.chatroom_id is Some {
        opt_view(p.chatroom_id)
    } else {
        opt_view(p.talker)
    }
}

/// The members of the group that was asked for: an error where none is named or there is
/// no such group.
pub fn handle(store: &Store, params: &Params) -> (r: Result<MembersReply, ApiError>)
    requires
        store.wf(),
    ensures
        match room_of(*params) {
            None => r is Err && r->Err_0@ == (ApiErrorModel {
                code: 400,
                message: "缺少必填参数 chatroomId"@,
            }),
            Some(room) => match store@.conversation(ChatType::Group, room) {
                None => r is Err && r->Err_0@ == (ApiErrorModel {
                    code: 404,
                    message: "群聊不存在: "@ + room,
                }),
                Some(c) => r is Ok && r->Ok_0.chatroom_id@ == room && group_member_views(
                    r->Ok_0.members@,
                ) == group_members(
                    store@,
                    room,
                    c.msgs,
                    switched_on(opt_view(params.include_message_counts)) || switched_on(
                        opt_view(params.with_counts),
                    ),
                ),
            },
        },
{
    let room: &String = match &params.chatroom_id {
        Some(r) => r,
        None => match &params.talker {
            Some(r) => r,
            None => return Err(ApiError::bad_request("缺少必填参数 chatroomId")),
        },
    };
    let with_counts = is_on(&params.include_message_counts) || is_on(&params.with_counts);
    let conv = match store.conversation(ChatType::Group, room.as_str()) {
        Some(c) => c,
        None => {
            let mut message = "群聊不存在: ".to_owned();
            message.append(room.as_str());
            return Err(ApiError::not_found(message.as_str()));
        },
    };
    let ghost s = store@;
    let ghost msgs = record_views(conv.msgs@);
    let uids = sender_order(&conv.msgs);
    let mut members: Vec<Member> = Vec::new();
    let mut i: usize = 0;
    while i < uids.len()
        invariant
            i <= uids.len(),
            store.wf(),
            s == store@,
            msgs == record_views(conv.msgs@),
            members.len() == i,
            forall|k: int|
                0 <= k < i ==> (#[trigger] members@[k])@ == group_member(
                    s,
                    room@,
                    msgs,
                    uids@[k]@,
                    with_counts,
                ),
        decreases uids.len() - i,
    {
        let uid = uids[i].as_str();
        let nick = find_nick(&conv.msgs, uid);
        members.push(
            Member {
                wxid: uid.to_owned(),
                display_name: nick.clone(),
                nickname: nick,
                remark: text_or_empty(&store.names.uid_remark, uid),
                alias: String::new(),
                group_nickname: store.display_sender(ChatType::Group, room.as_str(), uid),
                avatar_url: String::new(),
                is_owner: false,
                is_friend: false,
                message_count: if with_counts {
                    Some(count_sent(&conv.msgs, uid))
                } else {
                    None
                },
            },
        );
        i += 1;
    }
    assert(group_member_views(members@) =~= group_members(s, room@, msgs, with_counts)) by {
        assert forall|k: int| 0 <= k < members@.len() implies #[trigger] group_member_views(
            members@,
        )[k] == group_members(s, room@, msgs, with_counts)[k] by {
            assert(views(uids@)[k] == uids@[k]@);
        }
    }
    Ok(MembersReply { chatroom_id: room.clone(), members })
}

/// A member is told by uid, by the nickname of their first message here, by their remark, by
/// what they are called in this group, and, where asked for, by how many messages are
/// theirs.
pub proof fn law_group_members_tell_people(
    s: StoreModel,
    room: Seq<char>,
    msgs: Seq<RecordModel>,
    with_counts: bool,
    i: int,
    v: Seq<char>,
)
    requires
        0 <= i < group_members(s, room, msgs, with_counts).len(),
    ensures
        ({
            let m = group_members(s, room, msgs, with_counts)[i];
            &&& m.nickname == m.display_name
            &&& exists|k: int|
                0 <= k < msgs.len() && (#[trigger] msgs[k]).from_uid == m.wxid && m.nickname
                    == msgs[k].from_nick && forall|j: int|
                    0 <= j < k ==> (#[trigger] msgs[j]).from_uid != m.wxid
            &&& assoc(s.names.uid_remark, m.wxid) == Some(v) ==> m.remark == v
            &&& assoc(s.names.uid_remark, m.wxid) is None ==> m.remark.len() == 0
            &&& m.group_nickname == s.sender_name(ChatType::Group, room, m.wxid)
            &&& m.alias.len() == 0 && m.avatar_url.len() == 0 && !m.is_owner && !m.is_friend
            &&& with_counts ==> m.message_count == Some(
                msgs.filter(|r: RecordModel| r.from_uid == m.wxid).len() as int,
            )
            &&& !with_counts ==> m.message_count is None
        }),
{
    let uids = senders_of(msgs);
    let m = group_members(s, room, msgs, with_counts)[i];
    crate::server::handlers::chatlab_pull::law_members_are_the_senders(uids);
    assert(distinct_senders(uids)[i] == m.wxid);
    assert(distinct_senders(uids).contains(m.wxid));
    let k = choose|k: int| 0 <= k < uids.len() && uids[k] == m.wxid;
    assert(msgs[k].from_uid == m.wxid);
    lemma_first_nick(msgs, m.wxid);
    lemma_sent_count(msgs, m.wxid);
}

proof fn lemma_first_nick(msgs: Seq<RecordModel>, uid: Seq<char>)
    requires
        exists|k: int| 0 <= k < msgs.len() && (#[trigger] msgs[k]).from_uid == uid,
    ensures
        exists|k: int|
            0 <= k < msgs.len() && (#[trigger] msgs[k]).from_uid == uid && first_nick(msgs, uid)
                == msgs[k].from_nick && forall|j: int|
                0 <= j < k ==> (#[trigger] msgs[j]).from_uid != uid,
    decreases msgs.len(),
{
    if msgs[0].from_uid != uid {
        let rest = msgs.drop_first();
        let k = choose|k: int| 0 <= k < msgs.len() && (#[trigger] msgs[k]).from_uid == uid;
        assert(rest[k - 1].from_uid == uid);
        lemma_first_nick(rest, uid);
        let j = choose|k: int|
            0 <= k < rest.len() && (#[trigger] rest[k]).from_uid == uid && first_nick(rest, uid)
                == rest[k].from_nick && forall|j: int|
                0 <= j < k ==> (#[trigger] rest[j]).from_uid != uid;
        assert(msgs[j + 1] == rest[j]);
        assert forall|i: int| 0 <= i < j + 1 implies (#[trigger] msgs[i]).from_uid != uid by {
            if i > 0 {
                assert(rest[i - 1] == msgs[i]);
            }
        }
    }
}

proof fn lemma_sent_count(msgs: Seq<RecordModel>, uid: Seq<char>)
    ensures
        sent_count(msgs, uid) == msgs.filter(|r: RecordModel| r.from_uid == uid).len(),
    decreases msgs.len(),
{
    reveal(Seq::filter);
    if msgs.len() > 0 {
        lemma_sent_count(msgs.drop_last(), uid);
    }
}

/// The members of a group are the senders of its messages, each once.
pub proof fn law_group_members_are_the_senders(
    s: StoreModel,
    room: Seq<char>,
    msgs: Seq<RecordModel>,
    with_counts: bool,
    u: Seq<char>,
)
    ensures
        ({
            let all = group_members(s, room, msgs, with_counts);
            &&& (exists|i: int| 0 <= i < all.len() && (#[trigger] all[i]).wxid == u) <==> u.len()
                > 0 && exists|k: int| 0 <= k < msgs.len() && (#[trigger] msgs[k]).from_uid == u
            &&& forall|i: int, j: int|
                0 <= i < j < all.len() ==> (#[trigger] all[i]).wxid != (#[trigger] all[j]).wxid
        }),
{
    let uids = senders_of(msgs);
    let ds = distinct_senders(uids);
    let all = group_members(s, room, msgs, with_counts);
    crate::server::handlers::chatlab_pull::law_members_are_the_senders(uids);
    if exists|i: int| 0 <= i < all.len() && (#[trigger] all[i]).wxid == u {
        let i = choose|i: int| 0 <= i < all.len() && (#[trigger] all[i]).wxid == u;
        assert(ds[i] == u);
        assert(ds.contains(u));
        let k = choose|k: int| 0 <= k < uids.len() && uids[k] == u;
        assert(msgs[k].from_uid == u);
    }
    if u.len() > 0 && exists|k: int| 0 <= k < msgs.len() && (#[trigger] msgs[k]).from_uid == u {
        let k = choose|k: int| 0 <= k < msgs.len() && (#[trigger] msgs[k]).from_uid == u;
        assert(uids[k] == u);
        assert(uids.contains(u));
        assert(ds.contains(u));
        let i = choose|i: int| 0 <= i < ds.len() && ds[i] == u;
        assert(all[i].wxid == u);
    }
    assert forall|i: int, j: int| 0 <= i < j < all.len() implies (#[trigger] all[i]).wxid != (
    #[trigger] all[j]).wxid by {
        assert(ds[i] != ds[j]);
    }
}

/// The room is the one of its own parameter, else the talker's; counts are asked for by `1`
/// or `true`.
pub proof fn law_room_and_counts(p: Params, s: Seq<char>)
    ensures
        p.chatroom_id is Some ==> room_of(p) == Some(p.chatroom_id->0@),
        p.chatroom_id is None && p.talker is Some ==> room_of(p) == Some(p.talker->0@),
        p.chatroom_id is None && p.talker is None ==> room_of(p) is None,
        switched_on(Some(s)) <==> s == seq!['1'] || s == seq!['t', 'r', 'u', 'e'],
        !switched_on(None),
{
    reveal_strlit("1");
    reveal_strlit("true");
    assert("1"@ =~= seq!['1']);
    assert("true"@ =~= seq!['t', 'r', 'u', 'e']);
}

/// A member is seen as what its fields hold, each under its own name.
pub proof fn law_member_view(v: Member)
    ensures
        v@.wxid == v.wxid@,
        v@.display_name == v.display_name@,
        v@.nickname == v.nickname@,
        v@.remark == v.remark@,
        v@.alias == v.alias@,
        v@.group_nickname == v.group_nickname@,
        v@.avatar_url == v.avatar_url@,
        v@.is_owner == v.is_owner,
        v@.is_friend == v.is_friend,
{
}

} // verus!

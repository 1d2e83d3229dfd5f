//! ChatLab Pull protocol: incremental reading of one session with a `sync` pagination
//! block, and the ChatLab shapes that the messages endpoint shares.

use vstd::prelude::*;
use vstd::string::StringExecFns;

use crate::order::{ints, law_sorted_places};
use crate::parser::types::{record_views, ChatType, MessageRecord, RecordModel};
use crate::server::error::{ApiError, ApiErrorModel};
use crate::server::handlers::{opt_bound, opt_time, parse_opt_bound};
use crate::server::{ready_account, ready_qq, AccountState, account_views};
use crate::store::{
    chrono_leq, chrono_order, lemma_age_orders, older, or_text, sort_oldest_first, Conversation,
    ConversationModel, Store, StoreModel,
};
use crate::text::{
    decimal, decimal_i64, has_string, opt_view, parse_unsigned, unsigned_value, views,
};

verus! {

/// Request parameters. Every one is lenient: what cannot be parsed falls back to its
/// default.
#[derive(Debug)]
pub struct Params {
    pub since: Option<String>,
    pub end: Option<String>,
    pub limit: Option<String>,
    pub offset: Option<String>,
    pub access_token: Option<String>,
}

impl Default for Params {
    fn default() -> (r: Self)
        ensures
            r.since is None,
            r.end is None,
            r.limit is None,
            r.offset is None,
            r.access_token is None,
    {
        Params { since: None, end: None, limit: None, offset: None, access_token: None }
    }
}

/// The largest page, and the default.
pub const MAX_PULL: u64 = 5000;

/// The natural number of an optional parameter, if it is one that fits.
pub open spec fn number_param(o: Option<Seq<char>>) -> Option<int> {
    match o {
        Some(s) => match unsigned_value(s) {
            Some(n) => if n <= u64::MAX {
                Some(n as int)
            } else {
                None
            },
            None => None,
        },
        None => None,
    }
}

/// The page size asked for, between 1 and the largest.
pub open spec fn page_limit(o: Option<Seq<char>>) -> int {
    match number_param(o) {
        Some(n) => if n < 1 {
            1
        } else if n > MAX_PULL {
            MAX_PULL as int
        } else {
            n
        },
        None => MAX_PULL as int,
    }
}

/// The offset asked for.
pub open spec fn page_offset(o: Option<Seq<char>>) -> int {
    match number_param(o) {
        Some(n) => n,
        None => 0,
    }
}

/// A message lies behind `since` and not behind `end`.
pub open spec fn in_window(r: RecordModel, since: Option<i64>, end: Option<i64>) -> bool {
    (since is Some ==> r.ts > since->0) && (end is Some ==> r.ts <= end->0)
}

/// The messages of the window among those at the given places.
pub open spec fn window_at(
    msgs: Seq<RecordModel>,
    places: Seq<int>,
    since: Option<i64>,
    end: Option<i64>,
) -> Seq<RecordModel>
    decreases places.len(),
{
    if places.len() == 0 {
        Seq::empty()
    } else {
        let before = window_at(msgs, places.drop_last(), since, end);
        if in_window(msgs[places.last()], since, end) {
            before.push(msgs[places.last()])
        } else {
            before
        }
    }
}

/// The messages of the window, oldest first.
pub open spec fn window(msgs: Seq<RecordModel>, since: Option<i64>, end: Option<i64>) -> Seq<
    RecordModel,
> {
    window_at(msgs, chrono_order(msgs), since, end)
}

/// Where the page from `start` ends, looked for from `k` on: a page holds at least
/// `limit` messages and never splits a second.
pub open spec fn page_stop(w: Seq<RecordModel>, start: int, limit: int, k: int) -> int
    decreases w.len() - k,
{
    if k < 0 || k >= w.len() {
        w.len() as int
    } else if k > start && w[k].ts != w[k - 1].ts && k - start >= limit {
        k
    } else {
        page_stop(w, start, limit, k + 1)
    }
}

/// One page of a pull: where it begins and ends in the window.
pub struct PullPage {
    pub start: int,
    pub stop: int,
}

/// The page of a window.
pub open spec fn pull_page(w: Seq<RecordModel>, offset: int, limit: int) -> PullPage {
    let start = if offset < w.len() {
        offset
    } else {
        w.len() as int
    };
    PullPage { start, stop: page_stop(w, start, limit, start) }
}

/// ChatLab message.
#[derive(Debug)]
pub struct ChatlabMessage {
    pub sender: String,
    pub account_name: String,
    pub group_nickname: String,
    pub timestamp: i64,
    pub message_type: i64,
    pub content: String,
    pub platform_message_id: String,
}

/// What a [`ChatlabMessage`] holds.
pub struct ChatlabMessageModel {
    pub sender: Seq<char>,
    pub account_name: Seq<char>,
    pub group_nickname: Seq<char>,
    pub timestamp: int,
    pub message_type: int,
    pub content: Seq<char>,
    pub platform_message_id: Seq<char>,
}

impl View for ChatlabMessage {
    type V = ChatlabMessageModel;

    open spec fn view(&self) -> ChatlabMessageModel {
        ChatlabMessageModel {
            sender: self.sender@,
            account_name: self.account_name@,
            group_nickname: self.group_nickname@,
            timestamp: self.timestamp as int,
            message_type: self.message_type as int,
            content: self.content@,
            platform_message_id: self.platform_message_id@,
        }
    }
}

/// The messages of a list.
pub open spec fn chatlab_views(v: Seq<ChatlabMessage>) -> Seq<ChatlabMessageModel> {
    v.map_values(|m: ChatlabMessage| m@)
}

/// ChatLab member: a sender of the page.
#[derive(Debug)]
pub struct ChatlabMember {
    pub platform_id: String,
    pub account_name: String,
    pub group_nickname: String,
    /// Always empty: there is no avatar source.
    pub avatar: String,
}

/// What a [`ChatlabMember`] holds.
pub struct ChatlabMemberModel {
    pub platform_id: Seq<char>,
    pub account_name: Seq<char>,
    pub group_nickname: Seq<char>,
    pub avatar: Seq<char>,
}

impl View for ChatlabMember {
    type V = ChatlabMemberModel;

    open spec fn view(&self) -> ChatlabMemberModel {
        ChatlabMemberModel {
            platform_id: self.platform_id@,
            account_name: self.account_name@,
            group_nickname: self.group_nickname@,
            avatar: self.avatar@,
        }
    }
}

/// The members of a list.
pub open spec fn member_views(v: Seq<ChatlabMember>) -> Seq<ChatlabMemberModel> {
    v.map_values(|m: ChatlabMember| m@)
}

/// The card of a sender in a conversation, or the empty text. It is kept apart from the
/// account's own name.
pub open spec fn nickname_in(
    s: StoreModel,
    chat_type: ChatType,
    talker: Seq<char>,
    uid: Seq<char>,
) -> Seq<char> {
    or_text(s.card(chat_type, talker, uid), Seq::empty())
}

/// The member of a sender.
pub open spec fn member_of(
    s: StoreModel,
    chat_type: ChatType,
    talker: Seq<char>,
    uid: Seq<char>,
) -> ChatlabMemberModel {
    ChatlabMemberModel {
        platform_id: uid,
        account_name: s.person_name(uid),
        group_nickname: nickname_in(s, chat_type, talker, uid),
        avatar: Seq::empty(),
    }
}

/// The distinct senders, in the order of their first message; rows without a sender count
/// for none.
pub open spec fn distinct_senders(uids: Seq<Seq<char>>) -> Seq<Seq<char>>
    decreases uids.len(),
{
    if uids.len() == 0 {
        Seq::empty()
    } else {
        let before = distinct_senders(uids.drop_last());
        if uids.last().len() > 0 && !before.contains(uids.last()) {
            before.push(uids.last())
        } else {
            before
        }
    }
}

/// The members of a page.
pub open spec fn members_of(
    s: StoreModel,
    chat_type: ChatType,
    talker: Seq<char>,
    uids: Seq<Seq<char>>,
) -> Seq<ChatlabMemberModel> {
    distinct_senders(uids).map_values(|uid: Seq<char>| member_of(s, chat_type, talker, uid))
}

/// The ChatLab message of a record.
pub open spec fn chatlab_of(
    s: StoreModel,
    chat_type: ChatType,
    talker: Seq<char>,
    r: RecordModel,
) -> ChatlabMessageModel {
    ChatlabMessageModel {
        sender: r.from_uid,
        account_name: s.person_name(r.from_uid),
        group_nickname: nickname_in(s, chat_type, talker, r.from_uid),
        timestamp: r.ts as int,
        message_type: r.parsed.msg_type.chatlab_of(),
        content: r.parsed.content,
        platform_message_id: decimal(r.seq as int),
    }
}

/// The senders of records.
pub open spec fn senders_of(rs: Seq<RecordModel>) -> Seq<Seq<char>> {
    rs.map_values(|r: RecordModel| r.from_uid)
}

/// ChatLab meta block.
#[derive(Debug)]
pub struct ChatlabMeta {
    pub name: String,
    pub platform: String,
    pub chat_type: String,
    pub group_id: String,
    /// The ready account, or empty.
    pub owner_id: String,
}

/// What a [`ChatlabMeta`] holds.
pub struct ChatlabMetaModel {
    pub name: Seq<char>,
    pub platform: Seq<char>,
    pub chat_type: Seq<char>,
    pub group_id: Seq<char>,
    pub owner_id: Seq<char>,
}

impl View for ChatlabMeta {
    type V = ChatlabMetaModel;

    open spec fn view(&self) -> ChatlabMetaModel {
        ChatlabMetaModel {
            name: self.name@,
            platform: self.platform@,
            chat_type: self.chat_type@,
            group_id: self.group_id@,
            owner_id: self.owner_id@,
        }
    }
}

/// Cursors for the next pull.
#[derive(Debug, Clone, Copy)]
pub struct SyncBlock {
    pub has_more: bool,
    pub next_since: i64,
    pub next_offset: u64,
    pub watermark: i64,
}

/// Reply to a pull.
#[derive(Debug)]
pub struct PullReply {
    pub meta: ChatlabMeta,
    pub members: Vec<ChatlabMember>,
    pub messages: Vec<ChatlabMessage>,
    pub sync: SyncBlock,
}

/// What a [`PullReply`] holds.
pub struct PullModel {
    pub meta: ChatlabMetaModel,
    pub members: Seq<ChatlabMemberModel>,
    pub messages: Seq<ChatlabMessageModel>,
    pub has_more: bool,
    pub next_since: int,
    pub next_offset: int,
    pub watermark: int,
}

impl View for PullReply {
    type V = PullModel;

    open spec fn view(&self) -> PullModel {
        PullModel {
            meta: self.meta@,
            members: member_views(self.members@),
            messages: chatlab_views(self.messages@),
            has_more: self.sync.has_more,
            next_since: self.sync.next_since as int,
            next_offset: self.sync.next_offset as int,
            watermark: self.sync.watermark as int,
        }
    }
}

/// The records of a page.
pub open spec fn page_records(w: Seq<RecordModel>, p: PullPage) -> Seq<RecordModel> {
    w.subrange(p.start, p.stop)
}

/// The time that the next pull goes on from: the last one of the page.
pub open spec fn page_last_ts(w: Seq<RecordModel>, p: PullPage, since: Option<i64>) -> int {
    if p.start < p.stop {
        w[p.stop - 1].ts as int
    } else {
        match since {
            Some(s) => s as int,
            None => 0,
        }
    }
}

/// The offset of the next pull: 0, unless the time could not advance.
pub open spec fn next_offset(w: Seq<RecordModel>, p: PullPage, since: Option<i64>) -> int {
    let floor = match since {
        Some(s) => s as int,
        None => i64::MIN as int,
    };
    if p.stop < w.len() && page_last_ts(w, p, since) <= floor {
        p.stop
    } else {
        0
    }
}

/// The reply to a pull from a conversation.
pub open spec fn pulled(
    s: StoreModel,
    c: ConversationModel,
    owner: Seq<char>,
    since: Option<i64>,
    end: Option<i64>,
    offset: int,
    limit: int,
    now: i64,
) -> PullModel {
    let w = window(c.msgs, since, end);
    let p = pull_page(w, offset, limit);
    let page = page_records(w, p);
    let watermark = match end {
        Some(e) => e as int,
        None => now as int,
    };
    let has_more = p.stop < w.len();
    PullModel {
        meta: ChatlabMetaModel {
            name: s.session_name(c.chat_type, c.talker),
            platform: "qq"@,
            chat_type: c.chat_type.name(),
            group_id: c.talker,
            owner_id: owner,
        },
        members: members_of(s, c.chat_type, c.talker, senders_of(page)),
        messages: page.map_values(|r: RecordModel| chatlab_of(s, c.chat_type, c.talker, r)),
        has_more,
        next_since: if has_more {
            page_last_ts(w, p, since)
        } else {
            watermark
        },
        next_offset: next_offset(w, p, since),
        watermark,
    }
}

/// The card of a sender in a conversation, or the empty text.
pub fn nickname(store: &Store, chat_type: ChatType, talker: &str, uid: &str) -> (r: String)
    requires
        store.wf(),
    ensures
        r@ == nickname_in(store@, chat_type, talker@, uid@),
{
    match store.group_card(chat_type, talker, uid) {
        Some(card) => card.to_owned(),
        None => String::new(),
    }
}

/// The members of a page with the given senders.
pub fn collect_members(store: &Store, chat_type: ChatType, talker: &str, uids: &Vec<String>) -> (r: Vec<
    ChatlabMember,
>)
    requires
        store.wf(),
    ensures
        member_views(r@) == members_of(store@, chat_type, talker@, views(uids@)),
{
    let ghost all = views(uids@);
    let ghost s = store@;
    let mut seen: Vec<String> = Vec::new();
    let mut out: Vec<ChatlabMember> = Vec::new();
    let mut i: usize = 0;
    assert(all.take(0) =~= Seq::<Seq<char>>::empty());
    assert(views(seen@) =~= Seq::<Seq<char>>::empty());
    assert(member_views(out@) =~= views(seen@).map_values(
        |uid: Seq<char>| member_of(s, chat_type, talker@, uid),
    ));
    while i < uids.len()
        invariant
            i <= uids.len(),
            all == views(uids@),
            s == store@,
            store.wf(),
            views(seen@) == distinct_senders(all.take(i as int)),
            member_views(out@) == views(seen@).map_values(
                |uid: Seq<char>| member_of(s, chat_type, talker@, uid),
            ),
        decreases uids.len() - i,
    {
        proof {
            let now = all.take(i + 1);
            assert(now.drop_last() =~= all.take(i as int));
            assert(now.last() == uids@[i as int]@);
        }
        let uid = uids[i].as_str();
        if !uid.is_empty() && !has_string(&seen, uid) {
            let ghost seen_before = seen@;
            let ghost out_before = out@;
            let m = ChatlabMember {
                platform_id: uid.to_owned(),
                account_name: store.display_uid(uid),
                group_nickname: nickname(store, chat_type, talker, uid),
                avatar: String::new(),
            };
            let ghost added = m@;
            seen.push(uid.to_owned());
            out.push(m);
            proof {
                assert(views(seen@) =~= views(seen_before).push(uid@));
                assert(member_views(out@) =~= member_views(out_before).push(added));
                assert(member_views(out@) =~= views(seen@).map_values(
                    |uid: Seq<char>| member_of(s, chat_type, talker@, uid),
                ));
            }
        }
        i += 1;
    }
    assert(all.take(all.len() as int) =~= all);
    out
}

fn is_in_window(m: &MessageRecord, since: Option<i64>, end: Option<i64>) -> (r: bool)
    ensures
        r == in_window(m@, since, end),
{
    let behind = match since {
        Some(s) => m.ts > s,
        None => true,
    };
    let before = match end {
        Some(e) => m.ts <= e,
        None => true,
    };
    behind && before
}

/// The places of the messages of the window, oldest first.
fn window_places(
    msgs: &Vec<MessageRecord>,
    since: Option<i64>,
    end: Option<i64>,
) -> (r: Vec<usize>)
    ensures
        forall|i: int| 0 <= i < r.len() ==> #[trigger] r@[i] < msgs.len(),
        at(record_views(msgs@), r@) == window(record_views(msgs@), since, end),
{
    let ghost all = record_views(msgs@);
    let order = sort_oldest_first(msgs);
    let ghost places = ints(order@);
    let mut r: Vec<usize> = Vec::new();
    let mut i: usize = 0;
    assert(places.take(0) =~= Seq::<int>::empty());
    assert(at(all, r@) =~= Seq::<RecordModel>::empty());
    while i < order.len()
        invariant
            i <= order.len(),
            all == record_views(msgs@),
            places == ints(order@),
            forall|k: int| 0 <= k < order.len() ==> #[trigger] order@[k] < msgs.len(),
            forall|k: int| 0 <= k < r.len() ==> #[trigger] r@[k] < msgs.len(),
            at(all, r@) == window_at(all, places.take(i as int), since, end),
        decreases order.len() - i,
    {
        proof {
            let now = places.take(i + 1);
            assert(now.drop_last() =~= places.take(i as int));
            assert(now.last() == order@[i as int]);
            assert(all[now.last()] == msgs@[order@[i as int] as int]@);
        }
        if is_in_window(&msgs[order[i]], since, end) {
            let ghost before = r@;
            r.push(order[i]);
            assert(at(all, r@) =~= at(all, before).push(all[order@[i as int] as int]));
        }
        i += 1;
    }
    assert(places.take(places.len() as int) =~= places);
    r
}

/// The messages at machine places.
spec fn at(msgs: Seq<RecordModel>, places: Seq<usize>) -> Seq<RecordModel> {
    places.map_values(|i: usize| msgs[i as int])
}

/// Where the page of a window ends.
fn find_page_stop(
    msgs: &Vec<MessageRecord>,
    places: &Vec<usize>,
    start: usize,
    limit: u64,
) -> (stop: usize)
    requires
        start <= places.len(),
        forall|i: int| 0 <= i < places.len() ==> #[trigger] places@[i] < msgs.len(),
    ensures
        stop == page_stop(at(record_views(msgs@), places@), start as int, limit as int, start as int),
        start <= stop <= places.len(),
{
    let ghost w = at(record_views(msgs@), places@);
    let mut k: usize = start;
    while k < places.len()
        invariant
            start <= k <= places.len(),
            w == at(record_views(msgs@), places@),
            forall|i: int| 0 <= i < places.len() ==> #[trigger] places@[i] < msgs.len(),
            page_stop(w, start as int, limit as int, start as int) == page_stop(
                w,
                start as int,
                limit as int,
                k as int,
            ),
        decreases places.len() - k,
    {
        assert(w[k as int] == msgs@[places@[k as int] as int]@);
        if k > start {
            assert(w[k - 1] == msgs@[places@[k - 1] as int]@);
            if msgs[places[k]].ts != msgs[places[k - 1]].ts && (k - start) as u64 >= limit {
                return k;
            }
        }
        k += 1;
    }
    k
}

/// The number of an optional parameter.
fn parse_number(o: &Option<String>) -> (r: Option<u64>)
    ensures
        r is Some == number_param(opt_view(*o)) is Some,
        r is Some ==> r->0 == number_param(opt_view(*o))->0,
{
    match o {
        Some(s) => parse_unsigned(s.as_str(), u64::MAX),
        None => None,
    }
}

/// The page size asked for.
pub fn parse_limit(o: &Option<String>) -> (r: u64)
    ensures
        r == page_limit(opt_view(*o)),
{
    match parse_number(o) {
        Some(n) => if n < 1 {
            1
        } else if n > MAX_PULL {
            MAX_PULL
        } else {
            n
        },
        None => MAX_PULL,
    }
}

/// The offset asked for.
pub fn parse_offset(o: &Option<String>) -> (r: u64)
    ensures
        r == page_offset(opt_view(*o)),
{
    match parse_number(o) {
        Some(n) => n,
        None => 0,
    }
}

/// The bound of an optional parameter, as a machine number.
pub open spec fn bound_of(o: Option<Seq<char>>, is_end: bool) -> Option<i64> {
    match opt_bound(o, is_end) {
        Some(t) => Some(t as i64),
        None => None,
    }
}

fn bound(o: &Option<String>, is_end: bool) -> (r: Option<i64>)
    ensures
        r == bound_of(opt_view(*o), is_end),
{
    let s: Option<&str> = match o {
        Some(s) => Some(s.as_str()),
        None => None,
    };
    let r = parse_opt_bound(s, is_end);
    assert(opt_time(r) == opt_bound(opt_view(*o), is_end));
    r
}

fn senders(msgs: &Vec<MessageRecord>, places: &Vec<usize>, start: usize, stop: usize) -> (r: Vec<
    String,
>)
    requires
        start <= stop <= places.len(),
        forall|i: int| 0 <= i < places.len() ==> #[trigger] places@[i] < msgs.len(),
    ensures
        views(r@) == senders_of(
            at(record_views(msgs@), places@).subrange(start as int, stop as int),
        ),
{
    let ghost w = at(record_views(msgs@), places@);
    let mut r: Vec<String> = Vec::new();
    let mut k: usize = start;
    while k < stop
        invariant
            start <= k <= stop <= places.len(),
            w == at(record_views(msgs@), places@),
            forall|i: int| 0 <= i < places.len() ==> #[trigger] places@[i] < msgs.len(),
            r.len() == k - start,
            forall|i: int| 0 <= i < r.len() ==> #[trigger] r@[i]@ == w[start + i].from_uid,
        decreases stop - k,
    {
        assert(w[k as int] == msgs@[places@[k as int] as int]@);
        r.push(msgs[places[k]].from_uid.clone());
        k += 1;
    }
    assert(views(r@) =~= senders_of(w.subrange(start as int, stop as int)));
    r
}

fn chatlab_message(store: &Store, chat_type: ChatType, talker: &str, m: &MessageRecord) -> (r: ChatlabMessage)
    requires
        store.wf(),
    ensures
        r@ == chatlab_of(store@, chat_type, talker@, m@),
{
    let uid = m.from_uid.as_str();
    ChatlabMessage {
        sender: m.from_uid.clone(),
        account_name: store.display_uid(uid),
        group_nickname: nickname(store, chat_type, talker, uid),
        timestamp: m.ts,
        message_type: m.parsed.msg_type.chatlab_type(),
        content: m.parsed.content.clone(),
        platform_message_id: decimal_i64(m.seq),
    }
}

fn page_messages(
    store: &Store,
    conv: &Conversation,
    places: &Vec<usize>,
    start: usize,
    stop: usize,
) -> (r: Vec<ChatlabMessage>)
    requires
        store.wf(),
        start <= stop <= places.len(),
        forall|i: int| 0 <= i < places.len() ==> #[trigger] places@[i] < conv.msgs.len(),
    ensures
        chatlab_views(r@) == at(record_views(conv.msgs@), places@).subrange(
            start as int,
            stop as int,
        ).map_values(|m: RecordModel| chatlab_of(store@, conv.chat_type, conv.talker@, m)),
{
    let ghost w = at(record_views(conv.msgs@), places@);
    let mut r: Vec<ChatlabMessage> = Vec::new();
    let mut k: usize = start;
    while k < stop
        invariant
            start <= k <= stop <= places.len(),
            store.wf(),
            w == at(record_views(conv.msgs@), places@),
            forall|i: int| 0 <= i < places.len() ==> #[trigger] places@[i] < conv.msgs.len(),
            r.len() == k - start,
            forall|i: int|
                0 <= i < r.len() ==> (#[trigger] r@[i])@ == chatlab_of(
                    store@,
                    conv.chat_type,
                    conv.talker@,
                    w[start + i],
                ),
        decreases stop - k,
    {
        assert(w[k as int] == conv.msgs@[places@[k as int] as int]@);
        r.push(chatlab_message(store, conv.chat_type, conv.talker.as_str(), &conv.msgs[places[k]]));
        k += 1;
    }
    assert(chatlab_views(r@) =~= w.subrange(start as int, stop as int).map_values(
        |m: RecordModel| chatlab_of(store@, conv.chat_type, conv.talker@, m),
    ));
    r
}

/// The reply to a pull of one page: `now` is the current time in seconds.
pub fn pull(
    store: &Store,
    conv: &Conversation,
    owner: &str,
    since: Option<i64>,
    end: Option<i64>,
    offset: u64,
    limit: u64,
    now: i64,
) -> (r: PullReply)
    requires
        store.wf(),
        limit >= 1,
    ensures
        r@ == pulled(store@, conv@, owner@, since, end, offset as int, limit as int, now),
{
    let ghost w = window(conv@.msgs, since, end);
    let places = window_places(&conv.msgs, since, end);
    let total: usize = places.len();
    let start: usize = if offset < total as u64 {
        offset as usize
    } else {
        total
    };
    let stop: usize = find_page_stop(&conv.msgs, &places, start, limit);
    let ghost p = pull_page(w, offset as int, limit as int);
    assert(p.start == start && p.stop == stop);
    let has_more = stop < total;
    let last_ts: i64 = if start < stop {
        assert(w[stop - 1] == conv.msgs@[places@[stop - 1] as int]@);
        conv.msgs[places[stop - 1]].ts
    } else {
        match since {
            Some(s) => s,
            None => 0,
        }
    };
    let floor: i64 = match since {
        Some(s) => s,
        None => i64::MIN,
    };
    let watermark: i64 = match end {
        Some(e) => e,
        None => now,
    };
    let uids = senders(&conv.msgs, &places, start, stop);
    let talker = conv.talker.as_str();
    PullReply {
        meta: ChatlabMeta {
            name: store.display_name(conv.chat_type, talker),
            platform: "qq".to_owned(),
            chat_type: conv.chat_type.as_str().to_owned(),
            group_id: conv.talker.clone(),
            owner_id: owner.to_owned(),
        },
        members: collect_members(store, conv.chat_type, talker, &uids),
        messages: page_messages(store, conv, &places, start, stop),
        sync: SyncBlock {
            has_more,
            next_since: if has_more {
                last_ts
            } else {
                watermark
            },
            next_offset: if has_more && last_ts <= floor {
                stop as u64
            } else {
                0
            },
            watermark,
        },
    }
}

/// The reply to a pull request for session `id`: an error where the session does not
/// exist.
pub fn handle(
    store: &Store,
    accounts: &Vec<AccountState>,
    id: &str,
    params: &Params,
    now: i64,
) -> (r: Result<PullReply, ApiError>)
    requires
        store.wf(),
    ensures
        match store@.found_conversation(id@) {
            Some(c) => r is Ok && r->Ok_0@ == pulled(
                store@,
                c,
                ready_qq(account_views(accounts@)),
                bound_of(opt_view(params.since), false),
                bound_of(opt_view(params.end), true),
                page_offset(opt_view(params.offset)),
                page_limit(opt_view(params.limit)),
                now,
            ),
            None => r is Err && r->Err_0@ == (ApiErrorModel {
                code: 404,
                message: "会话不存在: "@ + id@,
            }),
        },
{
    let limit: u64 = parse_limit(&params.limit);
    let offset: u64 = parse_offset(&params.offset);
    let since = bound(&params.since, false);
    let end = bound(&params.end, true);
    match store.find_conversation(id) {
        Some(conv) => {
            let owner = ready_account(accounts);
            Ok(pull(store, conv, owner.as_str(), since, end, offset, limit, now))
        },
        None => {
            let mut message = "会话不存在: ".to_owned();
            message.append(id);
            Err(ApiError::not_found(message.as_str()))
        },
    }
}

/// The messages behind a time.
spec fn behind(w: Seq<RecordModel>, t: i64) -> Seq<RecordModel>
    decreases w.len(),
{
    if w.len() == 0 {
        Seq::empty()
    } else if w.last().ts > t {
        behind(w.drop_last(), t).push(w.last())
    } else {
        behind(w.drop_last(), t)
    }
}

proof fn lemma_window_behind(
    msgs: Seq<RecordModel>,
    places: Seq<int>,
    since: Option<i64>,
    end: Option<i64>,
    t: i64,
)
    requires
        since is Some ==> since->0 <= t,
    ensures
        window_at(msgs, places, Some(t), end) == behind(window_at(msgs, places, since, end), t),
    decreases places.len(),
{
    if places.len() > 0 {
        lemma_window_behind(msgs, places.drop_last(), since, end, t);
        let before = window_at(msgs, places.drop_last(), since, end);
        let r = msgs[places.last()];
        if in_window(r, since, end) {
            assert(before.push(r).drop_last() =~= before);
        }
    }
}

proof fn lemma_behind_split(w: Seq<RecordModel>, t: i64, k: int)
    requires
        0 <= k <= w.len(),
        forall|i: int| 0 <= i < k ==> (#[trigger] w[i]).ts <= t,
        forall|i: int| k <= i < w.len() ==> (#[trigger] w[i]).ts > t,
    ensures
        behind(w, t) == w.skip(k),
    decreases w.len(),
{
    if w.len() == 0 {
        assert(w.skip(k) =~= Seq::empty());
    } else {
        let v = w.drop_last();
        if k < w.len() {
            lemma_behind_split(v, t, k);
            assert(w.skip(k) =~= v.skip(k).push(w.last()));
        } else {
            lemma_behind_split(v, t, k - 1);
            assert(w.skip(k) =~= v.skip(k - 1));
        }
    }
}

proof fn lemma_window_members(
    msgs: Seq<RecordModel>,
    places: Seq<int>,
    since: Option<i64>,
    end: Option<i64>,
) -> (at: Seq<int>)
    ensures
        at.len() == window_at(msgs, places, since, end).len(),
        forall|i: int|
            0 <= i < at.len() ==> 0 <= #[trigger] at[i] < places.len() && window_at(
                msgs,
                places,
                since,
                end,
            )[i] == msgs[places[at[i]]] && in_window(msgs[places[at[i]]], since, end),
        forall|i: int, j: int| 0 <= i < j < at.len() ==> #[trigger] at[i] < #[trigger] at[j],
    decreases places.len(),
{
    if places.len() == 0 {
        Seq::empty()
    } else {
        let before = lemma_window_members(msgs, places.drop_last(), since, end);
        if in_window(msgs[places.last()], since, end) {
            before.push(places.len() - 1)
        } else {
            before
        }
    }
}

/// A window holds messages of the window only, oldest first.
pub proof fn law_window_is_chronological(
    msgs: Seq<RecordModel>,
    since: Option<i64>,
    end: Option<i64>,
)
    ensures
        forall|i: int|
            0 <= i < window(msgs, since, end).len() ==> in_window(
                #[trigger] window(msgs, since, end)[i],
                since,
                end,
            ),
        forall|i: int, j: int|
            0 <= i < j < window(msgs, since, end).len() ==> !older(
                #[trigger] window(msgs, since, end)[j],
                #[trigger] window(msgs, since, end)[i],
            ),
{
    let w = window(msgs, since, end);
    let places = chrono_order(msgs);
    lemma_age_orders(msgs);
    law_sorted_places(msgs.len(), chrono_leq(msgs));
    let at = lemma_window_members(msgs, places, since, end);
    assert forall|i: int| 0 <= i < w.len() implies in_window(#[trigger] w[i], since, end) by {
        assert(w[i] == msgs[places[at[i]]]);
    }
    assert forall|i: int, j: int| 0 <= i < j < w.len() implies !older(
        #[trigger] w[j],
        #[trigger] w[i],
    ) by {
        assert(at[i] < at[j]);
        assert(chrono_leq(msgs)(places[at[i]], places[at[j]]));
    }
}

proof fn lemma_page_stop(w: Seq<RecordModel>, start: int, limit: int, k: int)
    requires
        0 <= start <= k <= w.len(),
        limit >= 1,
    ensures
        ({
            let stop = page_stop(w, start, limit, k);
            &&& k <= stop <= w.len()
            &&& start < w.len() ==> stop > start
            &&& stop < w.len() ==> w[stop].ts != w[stop - 1].ts && stop - start >= limit
        }),
    decreases w.len() - k,
{
    if k < w.len() && !(k > start && w[k].ts != w[k - 1].ts && k - start >= limit) {
        lemma_page_stop(w, start, limit, k + 1);
    }
}

/// A page never splits a second: where more follows, going on from the time of the page's
/// last message gives exactly what follows, and that time has advanced.
pub proof fn law_pull_continues(
    msgs: Seq<RecordModel>,
    since: Option<i64>,
    end: Option<i64>,
    limit: int,
)
    requires
        limit >= 1,
    ensures
        ({
            let w = window(msgs, since, end);
            let p = pull_page(w, 0, limit);
            &&& p.start == 0
            &&& w.len() > 0 ==> p.stop > 0
            &&& p.stop <= w.len()
            &&& p.stop < w.len() ==> {
                let t = w[p.stop - 1].ts;
                &&& p.stop >= limit
                &&& since is Some ==> t > since->0
                &&& window(msgs, Some(t), end) == w.skip(p.stop)
            }
        }),
{
    let w = window(msgs, since, end);
    let p = pull_page(w, 0, limit);
    law_window_is_chronological(msgs, since, end);
    lemma_page_stop(w, 0, limit, 0);
    if p.stop < w.len() {
        let t = w[p.stop - 1].ts;
        assert(in_window(w[p.stop - 1], since, end));
        assert forall|i: int| 0 <= i < p.stop implies (#[trigger] w[i]).ts <= t by {
            if i < p.stop - 1 {
                assert(!older(w[p.stop - 1], w[i]));
            }
        }
        assert forall|i: int| p.stop <= i < w.len() implies (#[trigger] w[i]).ts > t by {
            assert(!older(w[p.stop], w[p.stop - 1]));
            if i > p.stop {
                assert(!older(w[i], w[p.stop]));
            }
        }
        lemma_window_behind(msgs, chrono_order(msgs), since, end, t);
        lemma_behind_split(w, t, p.stop);
    }
}

/// What at most `n` pulls in a row serve, each going on from the cursors of the one
/// before.
pub open spec fn drained(
    msgs: Seq<RecordModel>,
    since: Option<i64>,
    end: Option<i64>,
    offset: int,
    limit: int,
    n: nat,
) -> Seq<RecordModel>
    decreases n,
{
    let w = window(msgs, since, end);
    let p = pull_page(w, offset, limit);
    if n == 0 {
        Seq::empty()
    } else if p.stop < w.len() {
        page_records(w, p) + drained(
            msgs,
            Some(page_last_ts(w, p, since) as i64),
            end,
            next_offset(w, p, since),
            limit,
            (n - 1) as nat,
        )
    } else {
        page_records(w, p)
    }
}

/// A client that echoes both cursors back sees every message once, oldest first, and
/// needs no more pulls than there are messages, and one. Times at the very lower end of
/// the machine's range are left out: a window without a lower bound cannot advance past
/// them.
pub proof fn law_pulls_drain(
    msgs: Seq<RecordModel>,
    since: Option<i64>,
    end: Option<i64>,
    limit: int,
    n: nat,
)
    requires
        limit >= 1,
        n > window(msgs, since, end).len(),
        since is None ==> forall|i: int|
            0 <= i < msgs.len() ==> (#[trigger] msgs[i]).ts > i64::MIN,
    ensures
        drained(msgs, since, end, 0, limit, n) == window(msgs, since, end),
    decreases n,
{
    let w = window(msgs, since, end);
    let p = pull_page(w, 0, limit);
    law_pull_continues(msgs, since, end, limit);
    if p.stop < w.len() {
        let t = w[p.stop - 1].ts;
        let at = lemma_window_members(msgs, chrono_order(msgs), since, end);
        lemma_age_orders(msgs);
        law_sorted_places(msgs.len(), chrono_leq(msgs));
        assert(w[p.stop - 1] == msgs[chrono_order(msgs)[at[p.stop - 1]]]);
        assert(0 <= chrono_order(msgs)[at[p.stop - 1]] < msgs.len());
        assert(t > i64::MIN);
        assert(next_offset(w, p, since) == 0);
        law_pulls_drain(msgs, Some(t), end, limit, (n - 1) as nat);
        assert(page_records(w, p) + w.skip(p.stop) =~= w);
    } else {
        assert(page_records(w, p) =~= w);
    }
}

proof fn lemma_window_contains(
    msgs: Seq<RecordModel>,
    places: Seq<int>,
    since: Option<i64>,
    end: Option<i64>,
    r: RecordModel,
)
    ensures
        window_at(msgs, places, since, end).contains(r) <==> in_window(r, since, end) && exists|
            i: int,
        |
            0 <= i < places.len() && msgs[#[trigger] places[i]] == r,
    decreases places.len(),
{
    if places.len() > 0 {
        let front = places.drop_last();
        let n = places.len() - 1;
        lemma_window_contains(msgs, front, since, end, r);
        let before = window_at(msgs, front, since, end);
        let all = window_at(msgs, places, since, end);
        if all.contains(r) {
            let k = choose|k: int| 0 <= k < all.len() && all[k] == r;
            if k < before.len() {
                assert(before[k] == r);
                let i = choose|i: int| 0 <= i < front.len() && msgs[#[trigger] front[i]] == r;
                assert(msgs[places[i]] == r);
            } else {
                assert(msgs[places[n]] == r);
            }
        }
        if in_window(r, since, end) && exists|i: int|
            0 <= i < places.len() && msgs[#[trigger] places[i]] == r {
            let i = choose|i: int| 0 <= i < places.len() && msgs[#[trigger] places[i]] == r;
            if i < n {
                assert(msgs[front[i]] == r);
                let k = choose|k: int| 0 <= k < before.len() && before[k] == r;
                assert(all[k] == r);
            } else {
                assert(all[before.len() as int] == r);
            }
        }
    }
}

/// A window holds exactly the messages that are behind its start and not behind its end,
/// in order of time and of their rows within one second; a window without bounds holds as
/// many as there are.
pub proof fn law_window_is_complete(
    msgs: Seq<RecordModel>,
    since: Option<i64>,
    end: Option<i64>,
    r: RecordModel,
)
    ensures
        window(msgs, since, end).contains(r) <==> {
            &&& msgs.contains(r)
            &&& since is Some ==> r.ts > since->0
            &&& end is Some ==> r.ts <= end->0
        },
        forall|i: int, j: int|
            0 <= i < j < window(msgs, since, end).len() ==> {
                let a = #[trigger] window(msgs, since, end)[i];
                let b = #[trigger] window(msgs, since, end)[j];
                a.ts < b.ts || (a.ts == b.ts && a.rowid <= b.rowid)
            },
        since is None && end is None ==> window(msgs, since, end).len() == msgs.len(),
{
    let order = chrono_order(msgs);
    crate::store::lemma_age_orders(msgs);
    law_sorted_places(msgs.len(), crate::store::chrono_leq(msgs));
    lemma_window_contains(msgs, order, since, end, r);
    law_window_is_chronological(msgs, since, end);
    if msgs.contains(r) {
        let p = choose|p: int| 0 <= p < msgs.len() && msgs[p] == r;
        let all = crate::order::places(msgs.len());
        assert(all[p] == p);
        assert(all.contains(p));
        order.to_multiset_ensures();
        all.to_multiset_ensures();
        assert(order.to_multiset().count(p) > 0);
        assert(order.contains(p));
        let i = choose|i: int| 0 <= i < order.len() && order[i] == p;
        assert(msgs[order[i]] == r);
    }
    if exists|i: int| 0 <= i < order.len() && msgs[#[trigger] order[i]] == r {
        let i = choose|i: int| 0 <= i < order.len() && msgs[#[trigger] order[i]] == r;
        assert(0 <= order[i] < msgs.len());
        assert(msgs.contains(r));
    }
    if since is None && end is None {
        lemma_unbounded_window(msgs, order);
    }
    let w = window(msgs, since, end);
    assert forall|i: int, j: int| 0 <= i < j < w.len() implies {
        let a = #[trigger] w[i];
        let b = #[trigger] w[j];
        a.ts < b.ts || (a.ts == b.ts && a.rowid <= b.rowid)
    } by {
        assert(!older(w[j], w[i]));
    }
}

proof fn lemma_unbounded_window(msgs: Seq<RecordModel>, places: Seq<int>)
    ensures
        window_at(msgs, places, None, None).len() == places.len(),
    decreases places.len(),
{
    if places.len() > 0 {
        lemma_unbounded_window(msgs, places.drop_last());
    }
}

/// The message is of the same second as the one before it.
pub open spec fn goes_on(w: Seq<RecordModel>, i: int) -> bool {
    w[i].ts == w[i - 1].ts
}

proof fn lemma_page_ends(w: Seq<RecordModel>, start: int, limit: int, k: int)
    requires
        0 <= start <= k <= w.len(),
        forall|i: int|
            start < i < k && i - start >= limit ==> #[trigger] goes_on(w, i),
    ensures
        ({
            let stop = page_stop(w, start, limit, k);
            &&& k <= stop <= w.len()
            &&& stop < w.len() ==> stop > start && w[stop].ts != w[stop - 1].ts && stop - start
                >= limit
            &&& forall|i: int|
                start < i < stop && i - start >= limit ==> #[trigger] goes_on(w, i)
        }),
    decreases w.len() - k,
{
    if k < w.len() {
        if k > start && w[k].ts != w[k - 1].ts && k - start >= limit {
        } else {
            lemma_page_ends(w, start, limit, k + 1);
        }
    }
}

/// A page begins at its offset. It holds as many messages as its limit where there are so
/// many, never parts messages of one second, and is over its limit only by messages of the
/// second that the limit fell into.
pub proof fn law_pages_end_between_seconds(w: Seq<RecordModel>, offset: int, limit: int)
    requires
        0 <= offset,
        limit >= 1,
    ensures
        ({
            let p = pull_page(w, offset, limit);
            &&& offset <= w.len() ==> p.start == offset
            &&& offset > w.len() ==> p.start == w.len()
            &&& p.start <= p.stop <= w.len()
            &&& p.stop < w.len() ==> p.stop - p.start >= limit && w[p.stop].ts != w[p.stop - 1].ts
            &&& forall|i: int|
                p.start + limit <= i < p.stop ==> #[trigger] goes_on(w, i)
            &&& p.start < w.len() ==> p.start < p.stop
        }),
{
    let start = if offset < w.len() {
        offset
    } else {
        w.len() as int
    };
    lemma_page_ends(w, start, limit, start);
}

/// A pull hands out the records of its page in order, each told field by field: who sent
/// it, when, what it says, its type's number and its seq in decimal.
pub proof fn law_pulled_messages_tell_their_records(
    s: StoreModel,
    c: ConversationModel,
    owner: Seq<char>,
    since: Option<i64>,
    end: Option<i64>,
    offset: int,
    limit: int,
    now: i64,
    i: int,
)
    requires
        0 <= offset,
        limit >= 1,
        ({
            let w = window(c.msgs, since, end);
            offset + i < w.len() && 0 <= i < limit
        }),
    ensures
        ({
            let r = window(c.msgs, since, end)[offset + i];
            let got = pulled(s, c, owner, since, end, offset, limit, now).messages;
            let m = got[i];
            &&& i < got.len()
            &&& m.sender == r.from_uid
            &&& m.timestamp == r.ts
            &&& m.content == r.parsed.content
            &&& crate::text::signed_value(m.platform_message_id) == Some(r.seq as int)
            &&& m.account_name == s.person_name(r.from_uid)
            &&& r.parsed.msg_type is Text ==> m.message_type == 0
            &&& r.parsed.msg_type is Image ==> m.message_type == 1
            &&& r.parsed.msg_type is Voice ==> m.message_type == 2
            &&& r.parsed.msg_type is Video ==> m.message_type == 3
            &&& r.parsed.msg_type is System ==> m.message_type == 80
            &&& r.parsed.msg_type is Recall ==> m.message_type == 81
            &&& r.parsed.msg_type is Other ==> m.message_type == 99
            &&& c.chat_type is C2c ==> m.group_nickname.len() == 0
        }),
{
    let w = window(c.msgs, since, end);
    law_pages_end_between_seconds(w, offset, limit);
    crate::text::law_decimal_value(w[offset + i].seq as int);
}

/// A record told in the ChatLab form: each field is the record's own, and the nickname is
/// the sender's card of the very group, where there is one.
pub proof fn law_chatlab_messages_tell_their_records(
    s: StoreModel,
    group: Seq<char>,
    r: RecordModel,
    cards: crate::store::TextMap,
    v: Seq<char>,
)
    ensures
        ({
            let m = chatlab_of(s, ChatType::Group, group, r);
            let p = chatlab_of(s, ChatType::C2c, group, r);
            let known = crate::strmap::assoc(
                s.group_cards,
                crate::store::conv_key_of(ChatType::Group, group),
            );
            &&& m.sender == r.from_uid && p.sender == r.from_uid
            &&& m.timestamp == r.ts && p.timestamp == r.ts
            &&& m.content == r.parsed.content && p.content == r.parsed.content
            &&& crate::text::signed_value(m.platform_message_id) == Some(r.seq as int)
            &&& m.account_name == s.person_name(r.from_uid)
            &&& known == Some(cards) && crate::store::gives(cards, r.from_uid, v)
                ==> m.group_nickname == v
            &&& known == Some(cards) && crate::store::gives_none(cards, r.from_uid)
                ==> m.group_nickname.len() == 0
            &&& known is None ==> m.group_nickname.len() == 0
            &&& p.group_nickname.len() == 0
        }),
{
    crate::text::law_decimal_value(r.seq as int);
}

/// A pull's description: what the chat is called, its kind, its talker and its owner.
pub proof fn law_pulled_meta(
    s: StoreModel,
    c: ConversationModel,
    owner: Seq<char>,
    since: Option<i64>,
    end: Option<i64>,
    offset: int,
    limit: int,
    now: i64,
)
    ensures
        ({
            let meta = pulled(s, c, owner, since, end, offset, limit, now).meta;
            &&& meta.name == s.session_name(c.chat_type, c.talker)
            &&& meta.platform == "qq"@
            &&& c.chat_type is Group ==> meta.chat_type == "group"@
            &&& c.chat_type is C2c ==> meta.chat_type == "private"@
            &&& meta.group_id == c.talker
            &&& meta.owner_id == owner
        }),
{
}

/// What a pull says of the rest: there is more exactly where messages of the window stand
/// behind the page. Then the next pull goes on behind the page's last second, else behind
/// the watermark, which is the window's end or the present.
pub proof fn law_pulled_sync_block(
    s: StoreModel,
    c: ConversationModel,
    owner: Seq<char>,
    since: Option<i64>,
    end: Option<i64>,
    offset: int,
    limit: int,
    now: i64,
)
    requires
        0 <= offset,
        limit >= 1,
    ensures
        ({
            let w = window(c.msgs, since, end);
            let got = pulled(s, c, owner, since, end, offset, limit, now);
            &&& offset <= w.len() ==> (got.has_more <==> offset + got.messages.len() < w.len())
            &&& offset > w.len() ==> !got.has_more && got.messages.len() == 0
            &&& end is Some ==> got.watermark == end->0
            &&& end is None ==> got.watermark == now
            &&& !got.has_more ==> got.next_since == got.watermark && got.next_offset == 0
            &&& got.has_more ==> got.messages.len() > 0 && got.next_since
                == got.messages.last().timestamp
            &&& since is Some || got.next_since > i64::MIN ==> got.next_offset == 0
            &&& got.has_more && since is None && got.next_since == i64::MIN ==> got.next_offset
                == offset + got.messages.len()
        }),
{
    let w = window(c.msgs, since, end);
    law_pages_end_between_seconds(w, offset, limit);
    law_window_is_chronological(c.msgs, since, end);
    let p = pull_page(w, offset, limit);
    if p.start < p.stop {
        assert(in_window(w[p.stop - 1], since, end));
    }
}

/// A limit that reads as a number is held between one and five thousand, and one that does
/// not is five thousand; an offset that does not is zero.
pub proof fn law_page_params(n: u64)
    ensures
        1 <= n <= 5000 ==> page_limit(Some(decimal(n as int))) == n,
        n < 1 ==> page_limit(Some(decimal(n as int))) == 1,
        n > 5000 ==> page_limit(Some(decimal(n as int))) == 5000,
        page_limit(None) == 5000,
        page_offset(Some(decimal(n as int))) == n,
        page_offset(None) == 0,
        forall|s: Seq<char>|
            crate::text::unsigned_value(s) is None ==> page_limit(Some(s)) == 5000
                && #[trigger] page_offset(Some(s)) == 0,
{
    crate::text::law_decimal_value(n as int);
    crate::text::lemma_decimal_nat_value(n as nat);
}

/// The members of a page are its senders: each that has a uid once, in the order in which
/// they first come, and no one else.
pub proof fn law_members_are_the_senders(uids: Seq<Seq<char>>)
    ensures
        forall|u: Seq<char>| #[trigger]
            distinct_senders(uids).contains(u) <==> uids.contains(u) && u.len() > 0,
        forall|i: int, j: int|
            0 <= i < j < distinct_senders(uids).len() ==> #[trigger] distinct_senders(uids)[i]
                != #[trigger] distinct_senders(uids)[j],
        forall|more: Seq<Seq<char>>| #[trigger]
            distinct_senders(uids + more).len() >= distinct_senders(uids).len() && distinct_senders(
                uids + more,
            ).take(distinct_senders(uids).len() as int) == distinct_senders(uids),
    decreases uids.len(),
{
    lemma_distinct_senders(uids);
    assert forall|more: Seq<Seq<char>>| #[trigger]
        distinct_senders(uids + more).len() >= distinct_senders(uids).len() && distinct_senders(
            uids + more,
        ).take(distinct_senders(uids).len() as int) == distinct_senders(uids) by {
        lemma_more_senders(uids, more);
    }
}

proof fn lemma_more_senders(uids: Seq<Seq<char>>, more: Seq<Seq<char>>)
    ensures
        distinct_senders(uids + more).len() >= distinct_senders(uids).len(),
        distinct_senders(uids + more).take(distinct_senders(uids).len() as int)
            == distinct_senders(uids),
    decreases more.len(),
{
    if more.len() == 0 {
        assert(uids + more =~= uids);
        assert(distinct_senders(uids).take(distinct_senders(uids).len() as int)
            =~= distinct_senders(uids));
    } else {
        lemma_more_senders(uids, more.drop_last());
        assert((uids + more).drop_last() =~= uids + more.drop_last());
        assert(distinct_senders(uids + more).take(distinct_senders(uids).len() as int)
            =~= distinct_senders(uids + more.drop_last()).take(
            distinct_senders(uids).len() as int,
        ));
    }
}

proof fn lemma_distinct_senders(uids: Seq<Seq<char>>)
    ensures
        forall|u: Seq<char>| #[trigger]
            distinct_senders(uids).contains(u) <==> uids.contains(u) && u.len() > 0,
        forall|i: int, j: int|
            0 <= i < j < distinct_senders(uids).len() ==> #[trigger] distinct_senders(uids)[i]
                != #[trigger] distinct_senders(uids)[j],
    decreases uids.len(),
{
    if uids.len() > 0 {
        let front = uids.drop_last();
        lemma_distinct_senders(front);
        let before = distinct_senders(front);
        let all = distinct_senders(uids);
        assert forall|u: Seq<char>| #[trigger] all.contains(u) implies uids.contains(u) && u.len()
            > 0 by {
            let k = choose|k: int| 0 <= k < all.len() && all[k] == u;
            if k < before.len() {
                assert(before[k] == u);
                assert(before.contains(u));
                let i = choose|i: int| 0 <= i < front.len() && front[i] == u;
                assert(uids[i] == u);
            } else {
                assert(uids[uids.len() - 1] == u);
            }
        }
        assert forall|u: Seq<char>| uids.contains(u) && u.len() > 0 implies #[trigger] all.contains(
            u,
        ) by {
            let i = choose|i: int| 0 <= i < uids.len() && uids[i] == u;
            if i < front.len() {
                assert(front[i] == u);
                assert(before.contains(u));
                let k = choose|k: int| 0 <= k < before.len() && before[k] == u;
                assert(all[k] == u);
            } else if before.contains(u) {
                let k = choose|k: int| 0 <= k < before.len() && before[k] == u;
                assert(all[k] == u);
            } else {
                assert(all[before.len() as int] == u);
            }
        }
        assert forall|i: int, j: int| 0 <= i < j < all.len() implies #[trigger] all[i]
            != #[trigger] all[j] by {
            if j < before.len() {
                assert(before[i] != before[j]);
            } else {
                assert(before[i] == all[i]);
                assert(before.contains(all[i]));
            }
        }
    }
}

/// Each member is told by uid, by what they are called everywhere and by their card of the
/// group.
pub proof fn law_members_tell_people(
    s: StoreModel,
    chat_type: ChatType,
    talker: Seq<char>,
    uids: Seq<Seq<char>>,
    i: int,
)
    requires
        0 <= i < distinct_senders(uids).len(),
    ensures
        ({
            let all = members_of(s, chat_type, talker, uids);
            let uid = distinct_senders(uids)[i];
            &&& all.len() == distinct_senders(uids).len()
            &&& all[i].platform_id == uid
            &&& all[i].account_name == s.person_name(uid)
            &&& all[i].avatar.len() == 0
            &&& chat_type is C2c ==> all[i].group_nickname.len() == 0
            &&& s.card(chat_type, talker, uid) is Some ==> Some(all[i].group_nickname) == s.card(
                chat_type,
                talker,
                uid,
            )
            &&& s.card(chat_type, talker, uid) is None ==> all[i].group_nickname.len() == 0
        }),
{
}

/// A pull's members are the senders of its messages, and no one else.
pub proof fn law_pulled_members(
    s: StoreModel,
    c: ConversationModel,
    owner: Seq<char>,
    since: Option<i64>,
    end: Option<i64>,
    offset: int,
    limit: int,
    now: i64,
    u: Seq<char>,
)
    requires
        0 <= offset,
        limit >= 1,
    ensures
        ({
            let got = pulled(s, c, owner, since, end, offset, limit, now);
            (exists|i: int| 0 <= i < got.members.len() && (#[trigger] got.members[i]).platform_id
                == u) <==> u.len() > 0 && exists|i: int|
                0 <= i < got.messages.len() && (#[trigger] got.messages[i]).sender == u
        }),
{
    let w = window(c.msgs, since, end);
    let p = pull_page(w, offset, limit);
    law_pages_end_between_seconds(w, offset, limit);
    let page = page_records(w, p);
    let uids = senders_of(page);
    law_members_are_the_senders(uids);
    let got = pulled(s, c, owner, since, end, offset, limit, now);
    let ds = distinct_senders(uids);
    if exists|i: int| 0 <= i < got.members.len() && (#[trigger] got.members[i]).platform_id == u {
        let i = choose|i: int|
            0 <= i < got.members.len() && (#[trigger] got.members[i]).platform_id == u;
        assert(ds[i] == u);
        assert(ds.contains(u));
        let k = choose|k: int| 0 <= k < uids.len() && uids[k] == u;
        assert(got.messages[k].sender == u);
    }
    if u.len() > 0 && exists|i: int|
        0 <= i < got.messages.len() && (#[trigger] got.messages[i]).sender == u {
        let i = choose|i: int| 0 <= i < got.messages.len() && (#[trigger] got.messages[i]).sender == u;
        assert(uids[i] == u);
        assert(uids.contains(u));
        assert(ds.contains(u));
        let k = choose|k: int| 0 <= k < ds.len() && ds[k] == u;
        assert(got.members[k].platform_id == u);
    }
}

/// A message is seen as what its fields hold, each under its own name.
pub proof fn law_chatlab_message_view(v: ChatlabMessage)
    ensures
        v@.sender == v.sender@,
        v@.account_name == v.account_name@,
        v@.group_nickname == v.group_nickname@,
        v@.timestamp == v.timestamp,
        v@.message_type == v.message_type,
        v@.content == v.content@,
        v@.platform_message_id == v.platform_message_id@,
{
}

/// A member is seen as what its fields hold, each under its own name.
pub proof fn law_chatlab_member_view(v: ChatlabMember)
    ensures
        v@.platform_id == v.platform_id@,
        v@.account_name == v.account_name@,
        v@.group_nickname == v.group_nickname@,
        v@.avatar == v.avatar@,
{
}

/// A description is seen as what its fields hold, each under its own name.
pub proof fn law_chatlab_meta_view(v: ChatlabMeta)
    ensures
        v@.name == v.name@,
        v@.platform == v.platform@,
        v@.chat_type == v.chat_type@,
        v@.group_id == v.group_id@,
        v@.owner_id == v.owner_id@,
{
}

/// A reply is seen as what its fields hold, each under its own name.
pub proof fn law_pull_reply_view(v: PullReply)
    ensures
        v@.meta == v.meta@,
        v@.members.len() == v.members@.len(),
        forall|i: int|
            0 <= i < v.members@.len() ==> #[trigger] v@.members[i] == v.members@[i]@,
        v@.messages.len() == v.messages@.len(),
        forall|i: int|
            0 <= i < v.messages@.len() ==> #[trigger] v@.messages[i] == v.messages@[i]@,
        v@.has_more == v.sync.has_more,
        v@.next_since == v.sync.next_since,
        v@.next_offset == v.sync.next_offset,
        v@.watermark == v.sync.watermark,
{
}

} // verus!

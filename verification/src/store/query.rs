//! Read-side queries over the in-memory index.

use vstd::prelude::*;
use vstd::relations::total_ordering;

use crate::order::{
    ints, kept, law_sorted_places, lemma_all_kept, lemma_kept, sort_places, sorted_places,
};
use crate::parser::types::{
    direction_to_is_send, opt_media, record_views, sent_by_me, ChatType, MediaInfo, MediaModel,
    MessageRecord, MsgType, RecordModel,
};
use crate::store::names::{add_senders, with_senders};
use crate::store::{
    lemma_age_orders, newest_leq, newest_order, older, or_text, sort_newest_first, text_get,
    text_or_empty, texts, Conversation, ConversationModel, MediaEntry, Store, StoreModel, TextMap,
};
use crate::strmap::{
    assoc, distinct_keys, law_put_then_get, lemma_mapped, lemma_place, lemma_place_at, place, put,
    StrMap,
};
use crate::text::{
    char_is_digit, chars_of, clone_opt, contains, contains_seq, decimal, decimal_i64, is_digit,
    lemma_seq_le_antisymmetric, lemma_seq_le_reflexive, lemma_seq_le_total,
    lemma_seq_le_transitive, lowered, opt_str_view, opt_view, same, seq_le, text_le, to_lower,
};

verus! {

/// Session row.
#[derive(Debug)]
pub struct SessionInfo {
    pub username: String,
    pub display_name: String,
    /// 2 = group, 1 = private.
    pub session_type: i64,
    pub last_timestamp: i64,
    pub unread_count: i64,
}

/// What a [`SessionInfo`] holds.
pub struct SessionModel {
    pub username: Seq<char>,
    pub display_name: Seq<char>,
    pub session_type: int,
    pub last_timestamp: int,
    pub unread_count: int,
}

impl View for SessionInfo {
    type V = SessionModel;

    open spec fn view(&self) -> SessionModel {
        SessionModel {
            username: self.username@,
            display_name: self.display_name@,
            session_type: self.session_type as int,
            last_timestamp: self.last_timestamp as int,
            unread_count: self.unread_count as int,
        }
    }
}

/// The sessions of a list.
pub open spec fn session_views(v: Seq<SessionInfo>) -> Seq<SessionModel> {
    v.map_values(|s: SessionInfo| s@)
}

/// Message row.
#[derive(Debug)]
pub struct MessageOut {
    pub local_id: i64,
    pub server_id: String,
    pub local_type: i64,
    pub create_time: i64,
    pub is_send: i64,
    /// Sender uid: the stable identity.
    pub sender_username: String,
    /// Sender display name in this conversation.
    pub sender_name: String,
    pub content: String,
    pub raw_content: String,
    pub parsed_content: String,
    pub media_type: Option<String>,
    pub media: Option<MediaInfo>,
    /// Key under which the media can be fetched.
    pub media_id: Option<String>,
    /// Export fields, filled by a media export.
    pub media_file_name: Option<String>,
    pub media_url: Option<String>,
    pub media_local_path: Option<String>,
}

/// What a [`MessageOut`] holds.
pub struct MessageOutModel {
    pub local_id: int,
    pub server_id: Seq<char>,
    pub local_type: int,
    pub create_time: int,
    pub is_send: int,
    pub sender_username: Seq<char>,
    pub sender_name: Seq<char>,
    pub content: Seq<char>,
    pub raw_content: Seq<char>,
    pub parsed_content: Seq<char>,
    pub media_type: Option<Seq<char>>,
    pub media: Option<MediaModel>,
    pub media_id: Option<Seq<char>>,
    pub media_file_name: Option<Seq<char>>,
    pub media_url: Option<Seq<char>>,
    pub media_local_path: Option<Seq<char>>,
}

impl View for MessageOut {
    type V = MessageOutModel;

    open spec fn view(&self) -> MessageOutModel {
        MessageOutModel {
            local_id: self.local_id as int,
            server_id: self.server_id@,
            local_type: self.local_type as int,
            create_time: self.create_time as int,
            is_send: self.is_send as int,
            sender_username: self.sender_username@,
            sender_name: self.sender_name@,
            content: self.content@,
            raw_content: self.raw_content@,
            parsed_content: self.parsed_content@,
            media_type: opt_view(self.media_type),
            media: opt_media(self.media),
            media_id: opt_view(self.media_id),
            media_file_name: opt_view(self.media_file_name),
            media_url: opt_view(self.media_url),
            media_local_path: opt_view(self.media_local_path),
        }
    }
}

impl Clone for MessageOut {
    fn clone(&self) -> (r: Self)
        ensures
            r@ == self@,
    {
        MessageOut {
            local_id: self.local_id,
            server_id: self.server_id.clone(),
            local_type: self.local_type,
            create_time: self.create_time,
            is_send: self.is_send,
            sender_username: self.sender_username.clone(),
            sender_name: self.sender_name.clone(),
            content: self.content.clone(),
            raw_content: self.raw_content.clone(),
            parsed_content: self.parsed_content.clone(),
            media_type: clone_opt(&self.media_type),
            media: match &self.media {
                Some(m) => Some(m.clone()),
                None => None,
            },
            media_id: clone_opt(&self.media_id),
            media_file_name: clone_opt(&self.media_file_name),
            media_url: clone_opt(&self.media_url),
            media_local_path: clone_opt(&self.media_local_path),
        }
    }
}

/// The rows of a list.
pub open spec fn out_views(v: Seq<MessageOut>) -> Seq<MessageOutModel> {
    v.map_values(|m: MessageOut| m@)
}

/// The row of a record by itself: the sender by uid, the media under its own key.
pub open spec fn row_of(r: RecordModel) -> MessageOutModel {
    MessageOutModel {
        local_id: r.rowid as int,
        server_id: decimal(r.seq as int),
        local_type: r.parsed.msg_type.code_of(),
        create_time: r.ts as int,
        is_send: sent_by_me(r.direction),
        sender_username: r.from_uid,
        sender_name: r.from_uid,
        content: r.parsed.content,
        raw_content: r.parsed.content,
        parsed_content: r.parsed.content,
        media_type: r.parsed.msg_type.media_name(),
        media: r.parsed.media,
        media_id: match r.parsed.media {
            Some(m) => m.key,
            None => None,
        },
        media_file_name: None,
        media_url: None,
        media_local_path: None,
    }
}

/// The key of a medium, where the store can serve it.
pub open spec fn fetchable(s: StoreModel, media: Option<MediaModel>) -> Option<Seq<char>> {
    match media {
        Some(m) => match m.key {
            Some(k) => if assoc(s.media, k) is Some {
                Some(k)
            } else {
                None
            },
            None => None,
        },
        None => None,
    }
}

/// What a sender displays in a conversation; a row without a sender displays none.
pub open spec fn sender_label(
    s: StoreModel,
    chat_type: ChatType,
    talker: Seq<char>,
    uid: Seq<char>,
) -> Seq<char> {
    if uid.len() == 0 {
        Seq::empty()
    } else {
        s.sender_name(chat_type, talker, uid)
    }
}

/// The row of a record in a store: the sender by its display name there, the media id
/// only where the store can serve it.
pub open spec fn shown_row(s: StoreModel, r: RecordModel) -> MessageOutModel {
    MessageOutModel {
        sender_name: sender_label(s, r.chat_type, r.talker, r.from_uid),
        media_id: fetchable(s, r.parsed.media),
        ..row_of(r)
    }
}

/// The rows of records in a store.
pub open spec fn shown_rows(s: StoreModel, rs: Seq<RecordModel>) -> Seq<MessageOutModel> {
    rs.map_values(|r: RecordModel| shown_row(s, r))
}

impl MessageOut {
    /// The row of a record by itself. [`shape_row`] fits it to a store.
    pub fn from_record(r: &MessageRecord) -> (o: Self)
        ensures
            o@ == row_of(r@),
    {
        let is_send: i64 = match r.direction {
            Some(d) => direction_to_is_send(d),
            None => 0,
        };
        MessageOut {
            local_id: r.rowid,
            server_id: decimal_i64(r.seq),
            local_type: r.parsed.msg_type.code(),
            create_time: r.ts,
            is_send,
            sender_username: r.from_uid.clone(),
            sender_name: r.from_uid.clone(),
            content: r.parsed.content.clone(),
            raw_content: r.parsed.content.clone(),
            parsed_content: r.parsed.content.clone(),
            media_type: match r.parsed.msg_type.media_type_str() {
                Some(s) => Some(s.to_owned()),
                None => None,
            },
            media: match &r.parsed.media {
                Some(m) => Some(m.clone()),
                None => None,
            },
            media_id: match &r.parsed.media {
                Some(m) => clone_opt(&m.key),
                None => None,
            },
            media_file_name: None,
            media_url: None,
            media_local_path: None,
        }
    }
}

/// The key under which a medium can be fetched: present only when the store has a
/// registered entry, so that the media endpoint serves bytes.
pub fn fetchable_media_id(store: &Store, m: &MediaInfo) -> (r: Option<String>)
    requires
        store.wf(),
    ensures
        opt_view(r) == fetchable(store@, Some(m@)),
{
    proof {
        lemma_mapped(store.media@, |e: MediaEntry| e@);
    }
    match m.key() {
        Some(k) => if store.media.contains_key(k) {
            Some(k.to_owned())
        } else {
            None
        },
        None => None,
    }
}

/// A row with its media id kept only where the store can serve it.
pub fn with_fetchable_media_id(store: &Store, o: MessageOut) -> (r: MessageOut)
    requires
        store.wf(),
    ensures
        r@ == (MessageOutModel { media_id: fetchable(store@, o@.media), ..o@ }),
{
    let mut o = o;
    o.media_id = match &o.media {
        Some(m) => fetchable_media_id(store, m),
        None => None,
    };
    o
}

/// What a sender displays in a conversation; a row without a sender displays none.
pub fn label_sender(store: &Store, chat_type: ChatType, talker: &str, uid: &str) -> (r: String)
    requires
        store.wf(),
    ensures
        r@ == sender_label(store@, chat_type, talker@, uid@),
{
    if uid.is_empty() {
        String::new()
    } else {
        store.display_sender(chat_type, talker, uid)
    }
}

/// The row of a record in a store.
pub fn shape_row(store: &Store, r: &MessageRecord) -> (o: MessageOut)
    requires
        store.wf(),
    ensures
        o@ == shown_row(store@, r@),
{
    let mut o = with_fetchable_media_id(store, MessageOut::from_record(r));
    o.sender_name = label_sender(store, r.chat_type, r.talker.as_str(), r.from_uid.as_str());
    o
}

/// Which messages to read.
pub struct MessageQuery<'a> {
    pub talker: &'a str,
    pub limit: usize,
    pub offset: usize,
    pub start: Option<i64>,
    pub end: Option<i64>,
    pub keyword: Option<&'a str>,
}

/// A text holds the keyword, whatever the letter case of either.
pub open spec fn mentions(text: Seq<char>, keyword: Option<Seq<char>>) -> bool {
    match keyword {
        Some(k) => contains_seq(lowered(text), lowered(k)),
        None => true,
    }
}

/// A message lies within the time bounds and holds the keyword.
pub open spec fn wanted(
    r: RecordModel,
    start: Option<i64>,
    end: Option<i64>,
    keyword: Option<Seq<char>>,
) -> bool {
    &&& start is Some ==> r.ts >= start->0
    &&& end is Some ==> r.ts <= end->0
    &&& mentions(r.parsed.content, keyword)
}

/// The wanted messages among those at the given places, in that order.
pub open spec fn wanted_at(
    msgs: Seq<RecordModel>,
    places: Seq<int>,
    start: Option<i64>,
    end: Option<i64>,
    keyword: Option<Seq<char>>,
) -> Seq<RecordModel>
    decreases places.len(),
{
    if places.len() == 0 {
        Seq::empty()
    } else {
        let before = wanted_at(msgs, places.drop_last(), start, end, keyword);
        if wanted(msgs[places.last()], start, end, keyword) {
            before.push(msgs[places.last()])
        } else {
            before
        }
    }
}

/// The page of at most `limit` items behind the first `offset`.
pub open spec fn page<T>(s: Seq<T>, offset: int, limit: int) -> Seq<T> {
    let from = if offset < s.len() {
        offset
    } else {
        s.len() as int
    };
    let to = if from + limit < s.len() {
        from + limit
    } else {
        s.len() as int
    };
    s.subrange(from, to)
}

/// The messages that a query is about, newest first.
pub open spec fn queried(
    s: StoreModel,
    talker: Seq<char>,
    start: Option<i64>,
    end: Option<i64>,
    keyword: Option<Seq<char>>,
) -> Seq<RecordModel> {
    match s.found_conversation(talker) {
        Some(c) => wanted_at(c.msgs, newest_order(c.msgs), start, end, keyword),
        None => Seq::empty(),
    }
}

impl<'a> MessageQuery<'a> {
    /// The messages that this query is about, newest first.
    pub open spec fn result(&self, s: StoreModel) -> Seq<RecordModel> {
        queried(s, self.talker@, self.start, self.end, opt_str_view(self.keyword))
    }
}

proof fn lemma_wanted_extends(
    msgs: Seq<RecordModel>,
    places: Seq<int>,
    k: int,
    start: Option<i64>,
    end: Option<i64>,
    keyword: Option<Seq<char>>,
)
    requires
        0 <= k <= places.len(),
    ensures
        ({
            let some = wanted_at(msgs, places.take(k), start, end, keyword);
            let all = wanted_at(msgs, places, start, end, keyword);
            some.len() <= all.len() && all.take(some.len() as int) == some
        }),
    decreases places.len() - k,
{
    let some = wanted_at(msgs, places.take(k), start, end, keyword);
    let all = wanted_at(msgs, places, start, end, keyword);
    if k == places.len() {
        assert(places.take(k) =~= places);
        assert(all.take(all.len() as int) =~= all);
    } else {
        let next = wanted_at(msgs, places.take(k + 1), start, end, keyword);
        assert(places.take(k + 1).drop_last() =~= places.take(k));
        lemma_wanted_extends(msgs, places, k + 1, start, end, keyword);
        assert(next.take(some.len() as int) =~= some);
        assert(all.take(some.len() as int) =~= all.take(next.len() as int).take(some.len() as int));
    }
}

fn is_wanted(
    m: &MessageRecord,
    start: Option<i64>,
    end: Option<i64>,
    keyword: Option<&str>,
    lower_keyword: &Option<String>,
) -> (r: bool)
    requires
        lower_keyword is Some == keyword is Some,
        keyword is Some ==> lower_keyword->0@ == lowered(keyword->0@),
    ensures
        r == wanted(m@, start, end, opt_str_view(keyword)),
{
    if let Some(s) = start {
        if m.ts < s {
            return false;
        }
    }
    if let Some(e) = end {
        if m.ts > e {
            return false;
        }
    }
    match lower_keyword {
        Some(k) => {
            let lower = to_lower(m.parsed.content.as_str());
            contains(lower.as_str(), k.as_str())
        },
        None => true,
    }
}

fn lower_opt(keyword: Option<&str>) -> (r: Option<String>)
    ensures
        r is Some == keyword is Some,
        keyword is Some ==> r->0@ == lowered(keyword->0@),
{
    match keyword {
        Some(k) => Some(to_lower(k)),
        None => None,
    }
}

/// Messages for one session, newest first, and whether more follow behind the page.
pub fn query_messages(store: &Store, q: &MessageQuery<'_>) -> (r: (Vec<MessageOut>, bool))
    requires
        store.wf(),
    ensures
        out_views(r.0@) == shown_rows(
            store@,
            page(q.result(store@), q.offset as int, q.limit as int),
        ),
        r.1 == (q.result(store@).len() > q.offset + q.limit),
{
    let conv = match store.find_conversation(q.talker) {
        Some(c) => c,
        None => {
            let none: Vec<MessageOut> = Vec::new();
            assert(out_views(none@) =~= shown_rows(store@, page(q.result(store@), q.offset as int, q.limit as int)));
            return (none, false);
        },
    };
    let ghost msgs = record_views(conv.msgs@);
    let ghost kw = opt_str_view(q.keyword);
    let order = sort_newest_first(&conv.msgs);
    let ghost places = ints(order@);
    let lower = lower_opt(q.keyword);
    let mut out: Vec<MessageOut> = Vec::new();
    let mut skipped: usize = 0;
    let mut i: usize = 0;
    let ghost mut met: Seq<RecordModel> = Seq::empty();
    assert(places.take(0) =~= Seq::<int>::empty());
    assert(out_views(out@) =~= shown_rows(store@, page(met, q.offset as int, q.limit as int)));
    while i < order.len()
        invariant
            i <= order.len(),
            store.wf(),
            msgs == record_views(conv.msgs@),
            kw == opt_str_view(q.keyword),
            places == ints(order@),
            lower is Some == q.keyword is Some,
            q.keyword is Some ==> lower->0@ == lowered(q.keyword->0@),
            forall|k: int| 0 <= k < order.len() ==> #[trigger] order@[k] < conv.msgs.len(),
            q.result(store@) == wanted_at(msgs, places, q.start, q.end, kw),
            met == wanted_at(msgs, places.take(i as int), q.start, q.end, kw),
            skipped == (if met.len() < q.offset {
                met.len() as int
            } else {
                q.offset as int
            }),
            met.len() <= q.offset + q.limit,
            out_views(out@) == shown_rows(store@, page(met, q.offset as int, q.limit as int)),
        decreases order.len() - i,
    {
        let m = &conv.msgs[order[i]];
        proof {
            let now = places.take(i + 1);
            assert(now.drop_last() =~= places.take(i as int));
            assert(now.last() == order@[i as int]);
            assert(msgs[now.last()] == m@);
        }
        if is_wanted(m, q.start, q.end, q.keyword, &lower) {
            let ghost met_before = met;
            proof {
                met = met.push(m@);
            }
            if skipped < q.offset {
                skipped += 1;
                assert(page(met, q.offset as int, q.limit as int) =~= Seq::empty());
                assert(page(met_before, q.offset as int, q.limit as int) =~= Seq::empty());
            } else if out.len() >= q.limit {
                proof {
                    lemma_wanted_extends(msgs, places, i + 1, q.start, q.end, kw);
                    let all = q.result(store@);
                    assert(met.len() == q.offset + q.limit + 1) by {
                        assert(out_views(out@).len() == out@.len());
                    }
                    assert(page(all, q.offset as int, q.limit as int) =~= page(
                        met_before,
                        q.offset as int,
                        q.limit as int,
                    )) by {
                        assert(all.take(met.len() as int) == met);
                        assert forall|k: int| 0 <= k < met_before.len() implies all[k]
                            == met_before[k] by {
                            assert(all.take(met.len() as int)[k] == met[k]);
                        }
                    }
                }
                return (out, true);
            } else {
                let ghost before = out@;
                let row = shape_row(store, m);
                let ghost added = row@;
                out.push(row);
                proof {
                    assert(out_views(out@) =~= out_views(before).push(added));
                    assert(page(met, q.offset as int, q.limit as int) =~= page(
                        met_before,
                        q.offset as int,
                        q.limit as int,
                    ).push(m@));
                    assert(shown_rows(
                        store@,
                        page(met, q.offset as int, q.limit as int),
                    ) =~= shown_rows(
                        store@,
                        page(met_before, q.offset as int, q.limit as int),
                    ).push(shown_row(store@, m@)));
                }
            }
        }
        i += 1;
    }
    assert(places.take(places.len() as int) =~= places);
    (out, false)
}

/// Two neighbouring pages make one: nothing is lost or shown twice between them.
pub proof fn law_pages_join<T>(s: Seq<T>, offset: nat, a: nat, b: nat)
    ensures
        page(s, offset as int, a as int) + page(s, (offset + a) as int, b as int) == page(
            s,
            offset as int,
            (a + b) as int,
        ),
{
    assert(page(s, offset as int, a as int) + page(s, (offset + a) as int, b as int) =~= page(
        s,
        offset as int,
        (a + b) as int,
    ));
}

proof fn lemma_wanted_members(
    msgs: Seq<RecordModel>,
    places: Seq<int>,
    start: Option<i64>,
    end: Option<i64>,
    keyword: Option<Seq<char>>,
) -> (at: Seq<int>)
    ensures
        at.len() == wanted_at(msgs, places, start, end, keyword).len(),
        forall|i: int|
            0 <= i < at.len() ==> 0 <= #[trigger] at[i] < places.len() && wanted_at(
                msgs,
                places,
                start,
                end,
                keyword,
            )[i] == msgs[places[at[i]]] && wanted(msgs[places[at[i]]], start, end, keyword),
        forall|i: int, j: int| 0 <= i < j < at.len() ==> #[trigger] at[i] < #[trigger] at[j],
        forall|p: int|
            0 <= p < places.len() && wanted(msgs[#[trigger] places[p]], start, end, keyword)
                ==> at.contains(p),
    decreases places.len(),
{
    if places.len() == 0 {
        Seq::empty()
    } else {
        let before = lemma_wanted_members(msgs, places.drop_last(), start, end, keyword);
        let n = places.len() - 1;
        if wanted(msgs[places.last()], start, end, keyword) {
            let at = before.push(n);
            assert forall|p: int|
                0 <= p < places.len() && wanted(
                    msgs[#[trigger] places[p]],
                    start,
                    end,
                    keyword,
                ) implies at.contains(p) by {
                if p == n {
                    assert(at[before.len() as int] == n);
                } else {
                    assert(places.drop_last()[p] == places[p]);
                    let i = before.index_of(p);
                    assert(at[i] == p);
                }
            }
            at
        } else {
            assert forall|p: int|
                0 <= p < places.len() && wanted(
                    msgs[#[trigger] places[p]],
                    start,
                    end,
                    keyword,
                ) implies before.contains(p) by {
                assert(places.drop_last()[p] == places[p]);
            }
            before
        }
    }
}

/// A query is about exactly the wanted messages of its conversation, newest first.
pub proof fn law_queried_messages(
    s: StoreModel,
    talker: Seq<char>,
    start: Option<i64>,
    end: Option<i64>,
    keyword: Option<Seq<char>>,
)
    requires
        s.found_conversation(talker) is Some,
    ensures
        ({
            let all = s.found_conversation(talker)->0.msgs;
            let got = queried(s, talker, start, end, keyword);
            &&& forall|i: int, j: int| 0 <= i < j < got.len() ==> !older(#[trigger] got[i], #[trigger] got[j])
            &&& forall|r: RecordModel| #[trigger]
                got.contains(r) <==> all.contains(r) && wanted(r, start, end, keyword)
        }),
{
    let all = s.found_conversation(talker)->0.msgs;
    let got = queried(s, talker, start, end, keyword);
    let places = newest_order(all);
    lemma_age_orders(all);
    law_sorted_places(all.len(), newest_leq(all));
    let at = lemma_wanted_members(all, places, start, end, keyword);
    assert forall|i: int, j: int| 0 <= i < j < got.len() implies !older(
        #[trigger] got[i],
        #[trigger] got[j],
    ) by {
        assert(at[i] < at[j]);
        assert(newest_leq(all)(places[at[i]], places[at[j]]));
    }
    assert forall|r: RecordModel| #[trigger] got.contains(r) implies all.contains(r) && wanted(
        r,
        start,
        end,
        keyword,
    ) by {
        let i = got.index_of(r);
        assert(got[i] == all[places[at[i]]]);
        assert(0 <= places[at[i]] < all.len());
        assert(all[places[at[i]]] == r);
    }
    assert forall|r: RecordModel|
        all.contains(r) && wanted(r, start, end, keyword) implies #[trigger] got.contains(r) by {
        let k = all.index_of(r);
        assert(places.contains(k));
        let p = places.index_of(k);
        assert(msgs_at(all, places, p) == r);
        assert(at.contains(p));
        let i = at.index_of(p);
        assert(got[i] == r);
    }
}

spec fn msgs_at(msgs: Seq<RecordModel>, places: Seq<int>, p: int) -> RecordModel {
    msgs[places[p]]
}

/// The newest time among messages, or else `none`.
pub open spec fn newest_ts(msgs: Seq<RecordModel>, none: int) -> int
    decreases msgs.len(),
{
    if msgs.len() == 0 {
        none
    } else if msgs.len() == 1 {
        msgs[0].ts as int
    } else {
        let before = newest_ts(msgs.drop_last(), none);
        if msgs.last().ts > before {
            msgs.last().ts as int
        } else {
            before
        }
    }
}

/// The newest time is a message's, and no message is newer.
pub proof fn law_newest_ts(msgs: Seq<RecordModel>, none: int)
    requires
        msgs.len() > 0,
    ensures
        forall|i: int| 0 <= i < msgs.len() ==> (#[trigger] msgs[i]).ts <= newest_ts(msgs, none),
        exists|i: int| 0 <= i < msgs.len() && (#[trigger] msgs[i]).ts == newest_ts(msgs, none),
    decreases msgs.len(),
{
    if msgs.len() == 1 {
        assert(msgs[0].ts == newest_ts(msgs, none));
    } else {
        let before = msgs.drop_last();
        law_newest_ts(before, none);
        let k = choose|i: int|
            0 <= i < before.len() && (#[trigger] before[i]).ts == newest_ts(before, none);
        assert(msgs[k].ts == newest_ts(before, none));
        assert(msgs[msgs.len() - 1] == msgs.last());
        assert forall|i: int| 0 <= i < msgs.len() implies (#[trigger] msgs[i]).ts <= newest_ts(
            msgs,
            none,
        ) by {
            if i < before.len() {
                assert(before[i] == msgs[i]);
            }
        }
    }
}

/// Newest message time of a conversation. Appends do not re-sort, so the newest row is
/// the maximum, not the tail. An empty conversation has time 0.
fn conv_last_ts(c: &Conversation) -> (r: i64)
    ensures
        r == newest_ts(c@.msgs, 0),
{
    let ghost msgs = record_views(c.msgs@);
    if c.msgs.len() == 0 {
        return 0;
    }
    let mut best: i64 = c.msgs[0].ts;
    let mut i: usize = 1;
    assert(msgs.take(1)[0] == c.msgs@[0]@);
    while i < c.msgs.len()
        invariant
            1 <= i <= c.msgs.len(),
            msgs == record_views(c.msgs@),
            best == newest_ts(msgs.take(i as int), 0),
        decreases c.msgs.len() - i,
    {
        proof {
            let now = msgs.take(i + 1);
            assert(now.drop_last() =~= msgs.take(i as int));
            assert(now.last() == c.msgs@[i as int]@);
        }
        if c.msgs[i].ts > best {
            best = c.msgs[i].ts;
        }
        i += 1;
    }
    assert(msgs.take(msgs.len() as int) =~= msgs);
    best
}

/// The order of sessions: by newest message, newest first; what ties keeps its order.
pub open spec fn session_leq(convs: Seq<(Seq<char>, ConversationModel)>) -> spec_fn(
    int,
    int,
) -> bool {
    |i: int, j: int|
        newest_ts(convs[i].1.msgs, 0) > newest_ts(convs[j].1.msgs, 0) || (newest_ts(
            convs[i].1.msgs,
            0,
        ) == newest_ts(convs[j].1.msgs, 0) && i <= j)
}

/// The session of a conversation.
pub open spec fn session_of(s: StoreModel, c: ConversationModel) -> SessionModel {
    SessionModel {
        username: c.talker,
        display_name: s.session_name(c.chat_type, c.talker),
        session_type: if c.chat_type is Group {
            2
        } else {
            1
        },
        last_timestamp: newest_ts(c.msgs, 0),
        unread_count: 0,
    }
}

/// The session's name or id holds the keyword.
pub open spec fn session_matches(one: SessionModel, keyword: Option<Seq<char>>) -> bool {
    mentions(one.display_name, keyword) || mentions(one.username, keyword)
}

/// The sessions at the given places whose name or id holds the keyword.
pub open spec fn sessions_at(
    s: StoreModel,
    places: Seq<int>,
    keyword: Option<Seq<char>>,
) -> Seq<SessionModel>
    decreases places.len(),
{
    if places.len() == 0 {
        Seq::empty()
    } else {
        let before = sessions_at(s, places.drop_last(), keyword);
        let one = session_of(s, s.convs[places.last()].1);
        if session_matches(one, keyword) {
            before.push(one)
        } else {
            before
        }
    }
}

/// The sessions whose name or id holds the keyword, by newest message.
pub open spec fn queried_sessions(s: StoreModel, keyword: Option<Seq<char>>) -> Seq<SessionModel> {
    sessions_at(s, sorted_places(s.convs.len(), session_leq(s.convs)), keyword)
}

fn text_mentions(text: &str, keyword: Option<&str>, lower_keyword: &Option<String>) -> (r: bool)
    requires
        lower_keyword is Some == keyword is Some,
        keyword is Some ==> lower_keyword->0@ == lowered(keyword->0@),
    ensures
        r == mentions(text@, opt_str_view(keyword)),
{
    match lower_keyword {
        Some(k) => {
            let lower = to_lower(text);
            contains(lower.as_str(), k.as_str())
        },
        None => true,
    }
}

/// The newest message time of every conversation.
fn last_times(store: &Store) -> (r: Vec<i64>)
    ensures
        r.len() == store@.convs.len(),
        forall|i: int|
            0 <= i < r.len() ==> #[trigger] r@[i] == newest_ts(store@.convs[i].1.msgs, 0),
{
    let mut r: Vec<i64> = Vec::new();
    let mut i: usize = 0;
    while i < store.convs.len()
        invariant
            i <= store.convs@.len(),
            r.len() == i,
            store@.convs.len() == store.convs@.len(),
            forall|k: int|
                0 <= k < i ==> #[trigger] r@[k] == newest_ts(store@.convs[k].1.msgs, 0),
        decreases store.convs@.len() - i,
    {
        r.push(conv_last_ts(store.convs.value_at(i)));
        i += 1;
    }
    r
}

/// Every session that holds the keyword, by newest message.
fn all_sessions(store: &Store, keyword: Option<&str>) -> (r: Vec<SessionInfo>)
    requires
        store.wf(),
    ensures
        session_views(r@) == queried_sessions(store@, opt_str_view(keyword)),
{
    let ghost s = store@;
    let times = last_times(store);
    let n: usize = store.convs.len();
    let le = |i: usize, j: usize| -> (b: bool)
        requires
            i < times.len(),
            j < times.len(),
            forall|k: int|
                0 <= k < times.len() ==> #[trigger] times@[k] == newest_ts(
                    store@.convs[k].1.msgs,
                    0,
                ),
        ensures
            b == (session_leq(store@.convs))(i as int, j as int),
        { times[i] > times[j] || (times[i] == times[j] && i <= j) };
    let order = sort_places(n, le, Ghost(session_leq(s.convs)));
    let ghost places = ints(order@);
    let ghost kw = opt_str_view(keyword);
    let lower = lower_opt(keyword);
    let mut out: Vec<SessionInfo> = Vec::new();
    let mut i: usize = 0;
    assert(places.take(0) =~= Seq::<int>::empty());
    assert(session_views(out@) =~= Seq::<SessionModel>::empty());
    while i < order.len()
        invariant
            i <= order.len(),
            store.wf(),
            s == store@,
            n == s.convs.len(),
            n == store.convs@.len(),
            n == times.len(),
            places == ints(order@),
            kw == opt_str_view(keyword),
            lower is Some == keyword is Some,
            keyword is Some ==> lower->0@ == lowered(keyword->0@),
            forall|k: int| 0 <= k < order.len() ==> #[trigger] order@[k] < n,
            forall|k: int|
                0 <= k < times.len() ==> #[trigger] times@[k] == newest_ts(s.convs[k].1.msgs, 0),
            session_views(out@) == sessions_at(s, places.take(i as int), kw),
        decreases order.len() - i,
    {
        let c = store.convs.value_at(order[i]);
        proof {
            let now = places.take(i + 1);
            assert(now.drop_last() =~= places.take(i as int));
            assert(now.last() == order@[i as int]);
            assert(s.convs[now.last()].1 == c@);
        }
        let display_name = store.display_name(c.chat_type, c.talker.as_str());
        if text_mentions(display_name.as_str(), keyword, &lower) || text_mentions(
            c.talker.as_str(),
            keyword,
            &lower,
        ) {
            let ghost before = out@;
            let one = SessionInfo {
                username: c.talker.clone(),
                display_name,
                session_type: c.chat_type.weflow_code(),
                last_timestamp: times[order[i]],
                unread_count: 0,
            };
            let ghost added = one@;
            out.push(one);
            assert(session_views(out@) =~= session_views(before).push(added));
            assert(added == session_of(s, c@));
        }
        i += 1;
    }
    assert(places.take(places.len() as int) =~= places);
    out
}

/// Sessions sorted by last message time (newest first). The keyword matches id or
/// display name.
pub fn query_sessions(store: &Store, keyword: Option<&str>, limit: usize, offset: usize) -> (r: Vec<
    SessionInfo,
>)
    requires
        store.wf(),
    ensures
        session_views(r@) == page(
            queried_sessions(store@, opt_str_view(keyword)),
            offset as int,
            limit as int,
        ),
{
    let mut all = all_sessions(store, keyword);
    let ghost whole = all@;
    let from: usize = if offset < all.len() {
        offset
    } else {
        all.len()
    };
    let mut rest = all.split_off(from);
    if limit < rest.len() {
        rest.truncate(limit);
    }
    assert(session_views(rest@) =~= page(session_views(whole), offset as int, limit as int));
    rest
}

/// Which places hold sessions that the keyword matches.
pub open spec fn matching_sessions(s: StoreModel, keyword: Option<Seq<char>>) -> spec_fn(int) -> bool {
    |p: int| session_matches(session_of(s, s.convs[p].1), keyword)
}

proof fn lemma_sessions_at(s: StoreModel, places: Seq<int>, keyword: Option<Seq<char>>)
    ensures
        sessions_at(s, places, keyword) == kept(places, matching_sessions(s, keyword)).map_values(
            |p: int| session_of(s, s.convs[p].1),
        ),
    decreases places.len(),
{
    let f = matching_sessions(s, keyword);
    let all = kept(places, f).map_values(|p: int| session_of(s, s.convs[p].1));
    if places.len() > 0 {
        lemma_sessions_at(s, places.drop_last(), keyword);
        let before = kept(places.drop_last(), f).map_values(|p: int| session_of(s, s.convs[p].1));
        if f(places.last()) {
            assert(all =~= before.push(session_of(s, s.convs[places.last()].1)));
        }
    } else {
        assert(all =~= Seq::empty());
    }
}

/// The session list holds every conversation whose name or id holds the keyword, and
/// nothing else, by its newest message, newest first. Without a keyword it holds them all.
pub proof fn law_sessions_newest_first(s: StoreModel, keyword: Option<Seq<char>>)
    ensures
        ({
            let got = queried_sessions(s, keyword);
            &&& forall|i: int, j: int|
                0 <= i < j < got.len() ==> (#[trigger] got[i]).last_timestamp >= (
                #[trigger] got[j]).last_timestamp
            &&& forall|c: int|
                0 <= c < s.convs.len() && session_matches(
                    session_of(s, (#[trigger] s.convs[c]).1),
                    keyword,
                ) ==> got.contains(session_of(s, s.convs[c].1))
            &&& forall|i: int|
                0 <= i < got.len() ==> session_matches(#[trigger] got[i], keyword) && exists|c: int|
                    0 <= c < s.convs.len() && got[i] == session_of(s, (#[trigger] s.convs[c]).1)
            &&& got.len() <= s.convs.len()
            &&& keyword is None ==> got.len() == s.convs.len()
        }),
{
    let leq = session_leq(s.convs);
    assert(total_ordering(leq));
    let f = matching_sessions(s, keyword);
    let places = sorted_places(s.convs.len(), leq);
    law_sorted_places(s.convs.len(), leq);
    lemma_kept(places, f, leq);
    lemma_sessions_at(s, places, keyword);
    let mine = kept(places, f);
    let got = queried_sessions(s, keyword);
    assert forall|i: int, j: int| 0 <= i < j < got.len() implies (#[trigger] got[i]).last_timestamp
        >= (#[trigger] got[j]).last_timestamp by {
        assert(leq(mine[i], mine[j]));
    }
    assert forall|c: int|
        0 <= c < s.convs.len() && session_matches(
            session_of(s, (#[trigger] s.convs[c]).1),
            keyword,
        ) implies got.contains(session_of(s, s.convs[c].1)) by {
        assert(places.contains(c) && f(c));
        assert(mine.contains(c));
        assert(got[mine.index_of(c)] == session_of(s, s.convs[c].1));
    }
    assert forall|i: int| 0 <= i < got.len() implies session_matches(#[trigger] got[i], keyword)
        && exists|c: int|
        0 <= c < s.convs.len() && got[i] == session_of(s, (#[trigger] s.convs[c]).1) by {
        let p = mine[i];
        assert(f(p) && places.contains(p));
        assert(0 <= places[places.index_of(p)] < s.convs.len());
        assert(got[i] == session_of(s, s.convs[p].1));
    }
    if keyword is None {
        lemma_all_kept(places, f);
    }
}

/// Contact row.
#[derive(Debug)]
pub struct ContactOut {
    pub username: String,
    pub display_name: String,
    pub nickname: String,
    pub remark: String,
    /// The contact's QQ number, where a source exposes it; empty otherwise.
    pub alias: String,
    pub avatar_url: String,
    pub contact_type: String,
}

/// What a [`ContactOut`] holds.
pub struct ContactModel {
    pub username: Seq<char>,
    pub display_name: Seq<char>,
    pub nickname: Seq<char>,
    pub remark: Seq<char>,
    pub alias: Seq<char>,
    pub avatar_url: Seq<char>,
    pub contact_type: Seq<char>,
}

impl View for ContactOut {
    type V = ContactModel;

    open spec fn view(&self) -> ContactModel {
        ContactModel {
            username: self.username@,
            display_name: self.display_name@,
            nickname: self.nickname@,
            remark: self.remark@,
            alias: self.alias@,
            avatar_url: self.avatar_url@,
            contact_type: self.contact_type@,
        }
    }
}

/// The contacts of a list.
pub open spec fn contact_views(v: Seq<ContactOut>) -> Seq<ContactModel> {
    v.map_values(|c: ContactOut| c@)
}

/// The keys of `m` joined to those of `known`.
pub open spec fn with_keys(known: Seq<(Seq<char>, bool)>, m: TextMap) -> Seq<(Seq<char>, bool)>
    decreases m.len(),
{
    if m.len() == 0 {
        known
    } else {
        put(with_keys(known, m.drop_last()), m.last().0, true)
    }
}

/// The senders of the conversations' messages joined to `known`.
pub open spec fn with_all_senders(
    known: Seq<(Seq<char>, bool)>,
    convs: Seq<(Seq<char>, ConversationModel)>,
) -> Seq<(Seq<char>, bool)>
    decreases convs.len(),
{
    if convs.len() == 0 {
        known
    } else {
        with_senders(with_all_senders(known, convs.drop_last()), convs.last().1.msgs)
    }
}

/// The uids that the name maps know.
pub open spec fn named_uids(s: StoreModel) -> Seq<(Seq<char>, bool)> {
    with_keys(
        with_keys(
            with_keys(with_keys(Seq::empty(), s.uid_names), s.names.uid_remark),
            s.names.uid_nick,
        ),
        s.names.uid_qq,
    )
}

/// Every uid known to chat, remarks, profiles or the mapping: those of the name maps, and
/// the senders of the messages.
pub open spec fn known_uids(s: StoreModel) -> Seq<(Seq<char>, bool)> {
    with_all_senders(named_uids(s), s.convs)
}

/// The contact of a uid.
pub open spec fn contact_of(s: StoreModel, uid: Seq<char>) -> ContactModel {
    ContactModel {
        username: uid,
        display_name: s.person_name(uid),
        nickname: or_text(
            assoc(s.names.uid_nick, uid),
            or_text(assoc(s.uid_names, uid), Seq::empty()),
        ),
        remark: or_text(assoc(s.names.uid_remark, uid), Seq::empty()),
        alias: or_text(assoc(s.names.uid_qq, uid), Seq::empty()),
        avatar_url: Seq::empty(),
        contact_type: "friend"@,
    }
}

/// The order of contacts: by display name, whatever its letter case, then by uid.
pub open spec fn contact_leq(s: StoreModel, uids: Seq<(Seq<char>, bool)>) -> spec_fn(
    int,
    int,
) -> bool {
    |i: int, j: int|
        {
            let a = lowered(s.person_name(uids[i].0));
            let b = lowered(s.person_name(uids[j].0));
            if a != b {
                seq_le(a, b)
            } else if uids[i].0 != uids[j].0 {
                seq_le(uids[i].0, uids[j].0)
            } else {
                i <= j
            }
        }
}

/// The keyword matches a contact: by uid or nickname.
pub open spec fn contact_matches(s: StoreModel, uid: Seq<char>, keyword: Option<Seq<char>>) -> bool {
    mentions(uid, keyword) || mentions(contact_of(s, uid).nickname, keyword)
}

/// The contacts at the given places that the keyword matches.
pub open spec fn contacts_at(
    s: StoreModel,
    uids: Seq<(Seq<char>, bool)>,
    places: Seq<int>,
    keyword: Option<Seq<char>>,
) -> Seq<ContactModel>
    decreases places.len(),
{
    if places.len() == 0 {
        Seq::empty()
    } else {
        let before = contacts_at(s, uids, places.drop_last(), keyword);
        let uid = uids[places.last()].0;
        if contact_matches(s, uid, keyword) {
            before.push(contact_of(s, uid))
        } else {
            before
        }
    }
}

/// The contacts that the keyword matches, by display name and uid.
pub open spec fn queried_contacts(s: StoreModel, keyword: Option<Seq<char>>) -> Seq<ContactModel> {
    let uids = known_uids(s);
    contacts_at(s, uids, sorted_places(uids.len(), contact_leq(s, uids)), keyword)
}

/// Ordering contacts is total.
pub proof fn lemma_contact_order(s: StoreModel, uids: Seq<(Seq<char>, bool)>)
    ensures
        total_ordering(contact_leq(s, uids)),
{
    let leq = contact_leq(s, uids);
    assert forall|x: int, y: int| #[trigger] leq(x, y) && #[trigger] leq(y, x) implies x == y by {
        let a = lowered(s.person_name(uids[x].0));
        let b = lowered(s.person_name(uids[y].0));
        if a != b {
            lemma_seq_le_antisymmetric(a, b);
        } else if uids[x].0 != uids[y].0 {
            lemma_seq_le_antisymmetric(uids[x].0, uids[y].0);
        }
    }
    assert forall|x: int, y: int| #[trigger] leq(x, y) || #[trigger] leq(y, x) by {
        let a = lowered(s.person_name(uids[x].0));
        let b = lowered(s.person_name(uids[y].0));
        lemma_seq_le_total(a, b);
        lemma_seq_le_total(uids[x].0, uids[y].0);
    }
    assert forall|x: int, y: int, z: int| #[trigger]
        leq(x, y) && #[trigger] leq(y, z) implies leq(x, z) by {
        let a = lowered(s.person_name(uids[x].0));
        let b = lowered(s.person_name(uids[y].0));
        let c = lowered(s.person_name(uids[z].0));
        lemma_seq_le_reflexive(a);
        lemma_seq_le_reflexive(b);
        lemma_seq_le_reflexive(uids[x].0);
        lemma_seq_le_reflexive(uids[y].0);
        if seq_le(a, b) && seq_le(b, c) {
            lemma_seq_le_transitive(a, b, c);
        }
        if a == c && a != b {
            lemma_seq_le_antisymmetric(a, b);
        }
        if seq_le(uids[x].0, uids[y].0) && seq_le(uids[y].0, uids[z].0) {
            lemma_seq_le_transitive(uids[x].0, uids[y].0, uids[z].0);
        }
        if uids[x].0 == uids[z].0 && uids[x].0 != uids[y].0 && a == b && b == c {
            lemma_seq_le_antisymmetric(uids[x].0, uids[y].0);
        }
    }
}

/// Joins the keys of a map.
fn add_keys(known: &mut StrMap<bool>, m: &StrMap<String>)
    requires
        old(known).wf(),
        m.wf(),
    ensures
        final(known).wf(),
        final(known)@ == with_keys(old(known)@, texts(*m)),
{
    let ghost all = texts(*m);
    let mut i: usize = 0;
    assert(all.take(0) =~= Seq::empty());
    while i < m.len()
        invariant
            i <= m@.len(),
            all == texts(*m),
            all.len() == m@.len(),
            known.wf(),
            known@ == with_keys(old(known)@, all.take(i as int)),
        decreases m@.len() - i,
    {
        proof {
            let now = all.take(i + 1);
            assert(now.drop_last() =~= all.take(i as int));
            assert(now.last().0 == m@[i as int].0);
        }
        known.insert(m.key_at(i).clone(), true);
        i += 1;
    }
    assert(all.take(all.len() as int) =~= all);
}

/// Joins the senders of every message.
fn add_all_senders(known: &mut StrMap<bool>, store: &Store)
    requires
        old(known).wf(),
    ensures
        final(known).wf(),
        final(known)@ == with_all_senders(old(known)@, store@.convs),
{
    let ghost convs = store@.convs;
    let mut i: usize = 0;
    assert(convs.take(0) =~= Seq::empty());
    while i < store.convs.len()
        invariant
            i <= convs.len(),
            convs == store@.convs,
            convs.len() == store.convs@.len(),
            known.wf(),
            known@ == with_all_senders(old(known)@, convs.take(i as int)),
        decreases convs.len() - i,
    {
        let c = store.convs.value_at(i);
        proof {
            let now = convs.take(i + 1);
            assert(now.drop_last() =~= convs.take(i as int));
            assert(now.last().1 == c@);
        }
        add_senders(known, &c.msgs);
        i += 1;
    }
    assert(convs.take(convs.len() as int) =~= convs);
}

/// The contact of a uid.
fn contact(store: &Store, uid: &str) -> (r: ContactOut)
    requires
        store.wf(),
    ensures
        r@ == contact_of(store@, uid@),
{
    let nickname = match text_get(&store.names.uid_nick, uid) {
        Some(n) => n.to_owned(),
        None => text_or_empty(&store.uid_names, uid),
    };
    ContactOut {
        username: uid.to_owned(),
        display_name: store.display_uid(uid),
        nickname,
        remark: text_or_empty(&store.names.uid_remark, uid),
        alias: text_or_empty(&store.names.uid_qq, uid),
        avatar_url: String::new(),
        contact_type: "friend".to_owned(),
    }
}

/// The display names of the uids, in lower case.
fn lower_names(store: &Store, uids: &StrMap<bool>) -> (r: Vec<String>)
    requires
        store.wf(),
    ensures
        r.len() == uids@.len(),
        forall|i: int|
            0 <= i < r.len() ==> #[trigger] r@[i]@ == lowered(
                store@.person_name(uids@[i].0),
            ),
{
    let mut r: Vec<String> = Vec::new();
    let mut i: usize = 0;
    while i < uids.len()
        invariant
            i <= uids@.len(),
            store.wf(),
            r.len() == i,
            forall|k: int|
                0 <= k < i ==> #[trigger] r@[k]@ == lowered(
                    store@.person_name(uids@[k].0),
                ),
        decreases uids@.len() - i,
    {
        let name = store.display_uid(uids.key_at(i).as_str());
        r.push(to_lower(name.as_str()));
        i += 1;
    }
    r
}

/// Every contact that the keyword matches, in order.
fn all_contacts(store: &Store, keyword: Option<&str>) -> (r: Vec<ContactOut>)
    requires
        store.wf(),
    ensures
        contact_views(r@) == queried_contacts(store@, opt_str_view(keyword)),
{
    let ghost s = store@;
    let mut uids: StrMap<bool> = StrMap::new();
    add_keys(&mut uids, &store.uid_names);
    add_keys(&mut uids, &store.names.uid_remark);
    add_keys(&mut uids, &store.names.uid_nick);
    add_keys(&mut uids, &store.names.uid_qq);
    add_all_senders(&mut uids, store);
    let names = lower_names(store, &uids);
    let n: usize = uids.len();
    let le = |i: usize, j: usize| -> (b: bool)
        requires
            i < names.len(),
            j < names.len(),
            names.len() == uids@.len(),
            forall|k: int|
                0 <= k < names.len() ==> #[trigger] names@[k]@ == lowered(
                    store@.person_name(uids@[k].0),
                ),
        ensures
            b == (contact_leq(store@, uids@))(i as int, j as int),
        {
            let a = names[i].as_str();
            let b = names[j].as_str();
            let u = uids.key_at(i).as_str();
            let v = uids.key_at(j).as_str();
            if !same(a, b) {
                text_le(a, b)
            } else if !same(u, v) {
                text_le(u, v)
            } else {
                i <= j
            }
        };
    proof {
        lemma_contact_order(s, uids@);
    }
    let order = sort_places(n, le, Ghost(contact_leq(s, uids@)));
    let ghost places = ints(order@);
    let ghost kw = opt_str_view(keyword);
    let lower = lower_opt(keyword);
    let mut out: Vec<ContactOut> = Vec::new();
    let mut i: usize = 0;
    assert(places.take(0) =~= Seq::<int>::empty());
    assert(contact_views(out@) =~= Seq::<ContactModel>::empty());
    while i < order.len()
        invariant
            i <= order.len(),
            store.wf(),
            s == store@,
            n == uids@.len(),
            places == ints(order@),
            kw == opt_str_view(keyword),
            lower is Some == keyword is Some,
            keyword is Some ==> lower->0@ == lowered(keyword->0@),
            forall|k: int| 0 <= k < order.len() ==> #[trigger] order@[k] < n,
            contact_views(out@) == contacts_at(s, uids@, places.take(i as int), kw),
        decreases order.len() - i,
    {
        let c = contact(store, uids.key_at(order[i]).as_str());
        proof {
            let now = places.take(i + 1);
            assert(now.drop_last() =~= places.take(i as int));
            assert(now.last() == order@[i as int]);
        }
        if text_mentions(c.username.as_str(), keyword, &lower) || text_mentions(
            c.nickname.as_str(),
            keyword,
            &lower,
        ) {
            let ghost before = out@;
            let ghost added = c@;
            out.push(c);
            assert(contact_views(out@) =~= contact_views(before).push(added));
        }
        i += 1;
    }
    assert(places.take(places.len() as int) =~= places);
    out
}

/// Contacts: every uid seen in a message or known to the name maps, ordered by display name and
/// uid, and how many match in all.
pub fn query_contacts(store: &Store, keyword: Option<&str>, limit: usize, offset: usize) -> (r: (
    Vec<ContactOut>,
    usize,
))
    requires
        store.wf(),
    ensures
        contact_views(r.0@) == page(
            queried_contacts(store@, opt_str_view(keyword)),
            offset as int,
            limit as int,
        ),
        r.1 == queried_contacts(store@, opt_str_view(keyword)).len(),
{
    let mut all = all_contacts(store, keyword);
    let ghost whole = all@;
    let total: usize = all.len();
    let from: usize = if offset < total {
        offset
    } else {
        total
    };
    let mut rest = all.split_off(from);
    if limit < rest.len() {
        rest.truncate(limit);
    }
    assert(contact_views(rest@) =~= page(contact_views(whole), offset as int, limit as int));
    (rest, total)
}

/// Whether a uid is known to chat, remarks or profiles.
proof fn lemma_with_keys(known: Seq<(Seq<char>, bool)>, m: TextMap, k: Seq<char>)
    ensures
        assoc(with_keys(known, m), k) is Some <==> assoc(known, k) is Some || assoc(m, k) is Some,
        distinct_keys(known) ==> distinct_keys(with_keys(known, m)),
    decreases m.len(),
{
    if m.len() > 0 {
        let before = with_keys(known, m.drop_last());
        lemma_with_keys(known, m.drop_last(), k);
        law_put_then_get(before, m.last().0, true);
        lemma_place(m.drop_last(), k);
    }
}

/// The uid sent one of the messages.
pub open spec fn sent_one_of(msgs: Seq<RecordModel>, uid: Seq<char>) -> bool {
    uid.len() > 0 && exists|i: int| 0 <= i < msgs.len() && (#[trigger] msgs[i]).from_uid == uid
}

/// The uid sent a message of some conversation.
pub open spec fn sent_in(convs: Seq<(Seq<char>, ConversationModel)>, uid: Seq<char>) -> bool {
    exists|i: int| 0 <= i < convs.len() && sent_one_of((#[trigger] convs[i]).1.msgs, uid)
}

/// A store knows a uid: it sent a message, or a nickname, remark, profile or account number
/// is known of it.
pub open spec fn knows_uid(s: StoreModel, uid: Seq<char>) -> bool {
    ||| assoc(s.uid_names, uid) is Some
    ||| assoc(s.names.uid_remark, uid) is Some
    ||| assoc(s.names.uid_nick, uid) is Some
    ||| assoc(s.names.uid_qq, uid) is Some
    ||| sent_in(s.convs, uid)
}

proof fn lemma_with_senders(known: Seq<(Seq<char>, bool)>, msgs: Seq<RecordModel>, uid: Seq<char>)
    ensures
        assoc(with_senders(known, msgs), uid) is Some <==> assoc(known, uid) is Some || sent_one_of(
            msgs,
            uid,
        ),
        distinct_keys(known) ==> distinct_keys(with_senders(known, msgs)),
    decreases msgs.len(),
{
    if msgs.len() > 0 {
        let rest = msgs.drop_last();
        let before = with_senders(known, rest);
        lemma_with_senders(known, rest, uid);
        law_put_then_get(before, msgs.last().from_uid, true);
        if sent_one_of(rest, uid) {
            let i = choose|i: int| 0 <= i < rest.len() && (#[trigger] rest[i]).from_uid == uid;
            assert(msgs[i].from_uid == uid);
        }
        if sent_one_of(msgs, uid) {
            let i = choose|i: int| 0 <= i < msgs.len() && (#[trigger] msgs[i]).from_uid == uid;
            if i < rest.len() {
                assert(rest[i].from_uid == uid);
            }
        }
        if msgs.last().from_uid == uid && uid.len() > 0 {
            assert(msgs[msgs.len() - 1].from_uid == uid);
        }
    }
}

proof fn lemma_with_all_senders(
    known: Seq<(Seq<char>, bool)>,
    convs: Seq<(Seq<char>, ConversationModel)>,
    uid: Seq<char>,
)
    ensures
        assoc(with_all_senders(known, convs), uid) is Some <==> assoc(known, uid) is Some || sent_in(
            convs,
            uid,
        ),
        distinct_keys(known) ==> distinct_keys(with_all_senders(known, convs)),
    decreases convs.len(),
{
    if convs.len() > 0 {
        let rest = convs.drop_last();
        lemma_with_all_senders(known, rest, uid);
        lemma_with_senders(with_all_senders(known, rest), convs.last().1.msgs, uid);
        if sent_in(rest, uid) {
            let i = choose|i: int|
                0 <= i < rest.len() && sent_one_of((#[trigger] rest[i]).1.msgs, uid);
            assert(sent_one_of(convs[i].1.msgs, uid));
        }
        if sent_in(convs, uid) {
            let i = choose|i: int|
                0 <= i < convs.len() && sent_one_of((#[trigger] convs[i]).1.msgs, uid);
            if i < rest.len() {
                assert(sent_one_of(rest[i].1.msgs, uid));
            }
        }
        if sent_one_of(convs.last().1.msgs, uid) {
            assert(sent_one_of(convs[convs.len() - 1].1.msgs, uid));
        }
    }
}

proof fn lemma_known_uids(s: StoreModel, uid: Seq<char>)
    ensures
        assoc(known_uids(s), uid) is Some <==> knows_uid(s, uid),
        distinct_keys(known_uids(s)),
{
    let a = with_keys(Seq::empty(), s.uid_names);
    let b = with_keys(a, s.names.uid_remark);
    let c = with_keys(b, s.names.uid_nick);
    lemma_with_keys(Seq::empty(), s.uid_names, uid);
    lemma_with_keys(a, s.names.uid_remark, uid);
    lemma_with_keys(b, s.names.uid_nick, uid);
    lemma_with_keys(c, s.names.uid_qq, uid);
    lemma_with_all_senders(named_uids(s), s.convs, uid);
}

/// Which places hold contacts that the keyword matches.
pub open spec fn matching_contacts(
    s: StoreModel,
    uids: Seq<(Seq<char>, bool)>,
    keyword: Option<Seq<char>>,
) -> spec_fn(int) -> bool {
    |p: int| contact_matches(s, uids[p].0, keyword)
}

proof fn lemma_contacts_at(
    s: StoreModel,
    uids: Seq<(Seq<char>, bool)>,
    places: Seq<int>,
    keyword: Option<Seq<char>>,
)
    ensures
        contacts_at(s, uids, places, keyword) == kept(
            places,
            matching_contacts(s, uids, keyword),
        ).map_values(|p: int| contact_of(s, uids[p].0)),
    decreases places.len(),
{
    let f = matching_contacts(s, uids, keyword);
    let all = kept(places, f).map_values(|p: int| contact_of(s, uids[p].0));
    if places.len() > 0 {
        lemma_contacts_at(s, uids, places.drop_last(), keyword);
        let before = kept(places.drop_last(), f).map_values(|p: int| contact_of(s, uids[p].0));
        if f(places.last()) {
            assert(all =~= before.push(contact_of(s, uids[places.last()].0)));
        }
    } else {
        assert(all =~= Seq::empty());
    }
}

/// The contact list holds everyone that the store knows and the keyword matches, nobody
/// else and nobody twice, by display name and then by uid: paging through it loses and
/// repeats nobody.
pub proof fn law_contacts_are_complete(s: StoreModel, keyword: Option<Seq<char>>, uid: Seq<char>)
    ensures
        queried_contacts(s, keyword).contains(contact_of(s, uid)) <==> knows_uid(s, uid)
            && contact_matches(s, uid, keyword),
        forall|i: int|
            0 <= i < queried_contacts(s, keyword).len() ==> {
                let c = #[trigger] queried_contacts(s, keyword)[i];
                c == contact_of(s, c.username) && knows_uid(s, c.username) && contact_matches(
                    s,
                    c.username,
                    keyword,
                )
            },
        forall|i: int, j: int|
            0 <= i < j < queried_contacts(s, keyword).len() ==> {
                let a = #[trigger] queried_contacts(s, keyword)[i];
                let b = #[trigger] queried_contacts(s, keyword)[j];
                &&& a.username != b.username
                &&& seq_le(lowered(a.display_name), lowered(b.display_name))
                &&& lowered(a.display_name) == lowered(b.display_name) ==> seq_le(
                    a.username,
                    b.username,
                )
            },
{
    let uids = known_uids(s);
    let leq = contact_leq(s, uids);
    let f = matching_contacts(s, uids, keyword);
    lemma_contact_order(s, uids);
    let places = sorted_places(uids.len(), leq);
    law_sorted_places(uids.len(), leq);
    lemma_kept(places, f, leq);
    lemma_contacts_at(s, uids, places, keyword);
    let mine = kept(places, f);
    let got = queried_contacts(s, keyword);
    assert forall|i: int| 0 <= i < got.len() implies {
        let c = #[trigger] got[i];
        c == contact_of(s, c.username) && knows_uid(s, c.username) && contact_matches(
            s,
            c.username,
            keyword,
        )
    } by {
        let p = mine[i];
        assert(f(p) && places.contains(p));
        assert(0 <= places[places.index_of(p)] < uids.len());
        lemma_known_uids(s, uids[p].0);
        lemma_place_at(uids, p);
    }
    lemma_known_uids(s, uid);
    if knows_uid(s, uid) && contact_matches(s, uid, keyword) {
        lemma_place(uids, uid);
        let p = place(uids, uid)->0;
        assert(places.contains(p));
        assert(f(p));
        assert(mine.contains(p));
        assert(got[mine.index_of(p)] == contact_of(s, uid));
    }
    if got.contains(contact_of(s, uid)) {
        let i = got.index_of(contact_of(s, uid));
        assert(got[i].username == uid);
    }
    assert forall|i: int, j: int| 0 <= i < j < got.len() implies {
        let a = #[trigger] got[i];
        let b = #[trigger] got[j];
        &&& a.username != b.username
        &&& seq_le(lowered(a.display_name), lowered(b.display_name))
        &&& lowered(a.display_name) == lowered(b.display_name) ==> seq_le(a.username, b.username)
    } by {
        let p = mine[i];
        let q = mine[j];
        assert(leq(p, q));
        assert(p != q);
        assert(places.contains(p) && places.contains(q));
        assert(0 <= places[places.index_of(p)] < uids.len());
        assert(0 <= places[places.index_of(q)] < uids.len());
        if p < q {
            assert(uids[p].0 != uids[q].0);
        } else {
            assert(uids[q].0 != uids[p].0);
        }
        lemma_seq_le_reflexive(lowered(got[i].display_name));
    }
}

/// A media id that is shown can be fetched: the store has an entry under it.
pub proof fn law_shown_media_ids_are_servable(s: StoreModel, r: RecordModel)
    requires
        shown_row(s, r).media_id is Some,
    ensures
        assoc(s.media, shown_row(s, r).media_id->0) is Some,
        r.parsed.media is Some,
{
}

/// Group ids are all digits; everything else is a peer's uid.
pub open spec fn talker_type(talker: Seq<char>) -> ChatType {
    if forall|i: int| 0 <= i < talker.len() ==> is_digit(#[trigger] talker[i]) {
        ChatType::Group
    } else {
        ChatType::C2c
    }
}

/// Distinguish group ids from peer uids: groups are all-digit numbers; c2c peers are
/// "u_..." style uids.
pub fn classify_talker(talker: &str) -> (r: (ChatType, &str))
    ensures
        r.0 == talker_type(talker@),
        r.1@ == talker@,
{
    let v = chars_of(talker);
    let mut i: usize = 0;
    while i < v.len()
        invariant
            i <= v.len(),
            v@ == talker@,
            forall|j: int| 0 <= j < i ==> is_digit(#[trigger] talker@[j]),
        decreases v.len() - i,
    {
        if !char_is_digit(v[i]) {
            assert(!is_digit(talker@[i as int]));
            return (ChatType::C2c, talker);
        }
        i += 1;
    }
    (ChatType::Group, talker)
}

/// A text is found by a keyword where the keyword stands somewhere in it, whatever the
/// letters' size: the lowered text is something, the lowered keyword, and something more.
pub open spec fn found_by(text: Seq<char>, keyword: Seq<char>) -> bool {
    exists|a: Seq<char>, b: Seq<char>| lowered(text) == #[trigger] (a + lowered(keyword) + b)
}

proof fn lemma_found_by(text: Seq<char>, keyword: Seq<char>)
    ensures
        mentions(text, Some(keyword)) <==> found_by(text, keyword),
{
    crate::text::law_contains(lowered(text), lowered(keyword));
}

/// A query finds exactly the messages of its conversation that are not before its start,
/// not behind its end, and whose text has the keyword somewhere in it.
pub proof fn law_messages_found(
    s: StoreModel,
    talker: Seq<char>,
    start: Option<i64>,
    end: Option<i64>,
    keyword: Option<Seq<char>>,
    r: RecordModel,
)
    ensures
        ({
            let got = queried(s, talker, start, end, keyword);
            let conv = s.found_conversation(talker);
            got.contains(r) <==> {
                &&& conv is Some && conv->0.msgs.contains(r)
                &&& start is Some ==> start->0 <= r.ts
                &&& end is Some ==> r.ts <= end->0
                &&& keyword is Some ==> found_by(r.parsed.content, keyword->0)
            }
        }),
{
    if s.found_conversation(talker) is Some {
        law_queried_messages(s, talker, start, end, keyword);
    }
    if keyword is Some {
        lemma_found_by(r.parsed.content, keyword->0);
    }
}

/// A message whose text has the keyword in it is found by it, whatever stands around the
/// keyword and in whichever size of ASCII letters it is asked for.
pub proof fn law_keywords_find_what_surrounds_them(
    s: StoreModel,
    talker: Seq<char>,
    p: Seq<char>,
    k: Seq<char>,
    q: Seq<char>,
    r: RecordModel,
)
    requires
        s.found_conversation(talker) is Some,
        s.found_conversation(talker)->0.msgs.contains(r),
        r.parsed.content == p + k + q,
        lowered(p + k + q) == lowered(p) + lowered(k) + lowered(q),
    ensures
        queried(s, talker, None, None, Some(k)).contains(r),
        queried(s, talker, Some(r.ts), Some(r.ts), Some(k)).contains(r),
        vstd::utf8::is_ascii_chars(k) ==> queried(
            s,
            talker,
            None,
            None,
            Some(crate::text::lower_seq(k)),
        ).contains(r),
{
    law_messages_found(s, talker, None, None, Some(k), r);
    law_messages_found(s, talker, Some(r.ts), Some(r.ts), Some(k), r);
    assert(found_by(r.parsed.content, k));
    if vstd::utf8::is_ascii_chars(k) {
        crate::text::law_lowered_ascii(k, k);
        law_messages_found(s, talker, None, None, Some(crate::text::lower_seq(k)), r);
        assert(lowered(r.parsed.content) == lowered(p) + lowered(crate::text::lower_seq(k))
            + lowered(q));
        assert(found_by(r.parsed.content, crate::text::lower_seq(k)));
    }
}

/// What a query finds stands newest first: by time, and by row within one second.
pub proof fn law_found_messages_are_newest_first(
    s: StoreModel,
    talker: Seq<char>,
    start: Option<i64>,
    end: Option<i64>,
    keyword: Option<Seq<char>>,
)
    ensures
        ({
            let got = queried(s, talker, start, end, keyword);
            forall|i: int, j: int|
                0 <= i < j < got.len() ==> {
                    let a = #[trigger] got[i];
                    let b = #[trigger] got[j];
                    a.ts > b.ts || (a.ts == b.ts && a.rowid >= b.rowid)
                }
        }),
{
    let got = queried(s, talker, start, end, keyword);
    if s.found_conversation(talker) is Some {
        law_queried_messages(s, talker, start, end, keyword);
        assert forall|i: int, j: int| 0 <= i < j < got.len() implies {
            let a = #[trigger] got[i];
            let b = #[trigger] got[j];
            a.ts > b.ts || (a.ts == b.ts && a.rowid >= b.rowid)
        } by {
            assert(!older(got[i], got[j]));
        }
    }
}

/// Without bounds and keyword a query finds every message of its conversation, as often as
/// it is there.
pub proof fn law_unbounded_queries_find_all(s: StoreModel, talker: Seq<char>)
    requires
        s.found_conversation(talker) is Some,
    ensures
        queried(s, talker, None, None, None).len() == s.found_conversation(talker)->0.msgs.len(),
        queried(s, talker, None, None, None).to_multiset() == s.found_conversation(
            talker,
        )->0.msgs.to_multiset(),
{
    let msgs = s.found_conversation(talker)->0.msgs;
    let order = newest_order(msgs);
    lemma_age_orders(msgs);
    law_sorted_places(msgs.len(), newest_leq(msgs));
    lemma_all_wanted(msgs, order);
    let f = |i: int| msgs[i];
    crate::store::lemma_map_multiset(order, crate::order::places(msgs.len()), f);
    assert(crate::order::places(msgs.len()).map_values(f) =~= msgs);
    assert(queried(s, talker, None, None, None) =~= order.map_values(f));
}

proof fn lemma_all_wanted(msgs: Seq<RecordModel>, places: Seq<int>)
    ensures
        wanted_at(msgs, places, None, None, None) =~= places.map_values(|i: int| msgs[i]),
    decreases places.len(),
{
    if places.len() > 0 {
        lemma_all_wanted(msgs, places.drop_last());
    }
}

/// A page holds what stands from its offset on, at most as much as its limit, and nothing
/// is skipped: its items are those at the offset, the one behind it, and so on.
pub proof fn law_page_items<T>(s: Seq<T>, offset: nat, limit: nat)
    ensures
        ({
            let p = page(s, offset as int, limit as int);
            &&& p.len() <= limit
            &&& offset + limit <= s.len() ==> p.len() == limit
            &&& offset <= s.len() < offset + limit ==> p.len() == s.len() - offset
            &&& offset >= s.len() ==> p.len() == 0
            &&& forall|i: int| 0 <= i < p.len() ==> #[trigger] p[i] == s[offset + i]
        }),
{
}

/// A row tells its record field by field: the row's number, the seq in decimal, the time,
/// the sender, the text three times, and the media.
pub proof fn law_rows_tell_their_records(s: StoreModel, r: RecordModel)
    ensures
        ({
            let o = shown_row(s, r);
            &&& o.local_id == r.rowid
            &&& crate::text::signed_value(o.server_id) == Some(r.seq as int)
            &&& MsgType::of_code(o.local_type) == r.parsed.msg_type
            &&& o.create_time == r.ts
            &&& o.is_send == 1 <==> r.direction == Some(1i64) || r.direction == Some(2i64)
            &&& o.is_send == 0 || o.is_send == 1
            &&& o.sender_username == r.from_uid
            &&& o.content == r.parsed.content
            &&& o.raw_content == r.parsed.content
            &&& o.parsed_content == r.parsed.content
            &&& o.media == r.parsed.media
            &&& r.parsed.msg_type is Image ==> o.media_type == Some("image"@)
            &&& r.parsed.msg_type is Voice ==> o.media_type == Some("voice"@)
            &&& r.parsed.msg_type is Video ==> o.media_type == Some("video"@)
            &&& r.parsed.msg_type is Text || r.parsed.msg_type is Recall
                || r.parsed.msg_type is System || r.parsed.msg_type is Other ==> o.media_type is None
            &&& o.media_file_name is None && o.media_url is None && o.media_local_path is None
            &&& r.from_uid.len() == 0 ==> o.sender_name.len() == 0
            &&& r.from_uid.len() > 0 ==> o.sender_name == s.sender_name(
                r.chat_type,
                r.talker,
                r.from_uid,
            )
        }),
{
    crate::text::law_decimal_value(r.seq as int);
    crate::parser::types::law_code_round_trip(r.parsed.msg_type);
}

/// A row shows its media's key exactly where the store has an entry under it.
pub proof fn law_media_ids(s: StoreModel, r: RecordModel, m: MediaModel, k: Seq<char>)
    requires
        r.parsed.media == Some(m),
        m.key == Some(k),
    ensures
        assoc(s.media, k) is Some ==> shown_row(s, r).media_id == Some(k),
        assoc(s.media, k) is None ==> shown_row(s, r).media_id is None,
{
}

/// A session tells its conversation: the talker, what it is called, 2 for a group and 1 for
/// a private chat, and the time of its newest message.
pub proof fn law_sessions_tell_their_conversations(s: StoreModel, c: ConversationModel)
    ensures
        ({
            let o = session_of(s, c);
            &&& o.username == c.talker
            &&& o.display_name == s.session_name(c.chat_type, c.talker)
            &&& c.chat_type is Group ==> o.session_type == 2
            &&& c.chat_type is C2c ==> o.session_type == 1
            &&& o.unread_count == 0
            &&& c.msgs.len() == 0 ==> o.last_timestamp == 0
            &&& forall|i: int|
                0 <= i < c.msgs.len() ==> (#[trigger] c.msgs[i]).ts <= o.last_timestamp
            &&& c.msgs.len() > 0 ==> exists|i: int|
                0 <= i < c.msgs.len() && (#[trigger] c.msgs[i]).ts == o.last_timestamp
        }),
{
    if c.msgs.len() > 0 {
        law_newest_ts(c.msgs, 0);
    }
}

/// A session is found by a keyword that its name or its talker has somewhere in it.
pub proof fn law_session_search(s: StoreModel, c: ConversationModel, keyword: Seq<char>)
    ensures
        session_matches(session_of(s, c), Some(keyword)) <==> found_by(c.talker, keyword)
            || found_by(s.session_name(c.chat_type, c.talker), keyword),
        session_matches(session_of(s, c), None),
{
    lemma_found_by(c.talker, keyword);
    lemma_found_by(s.session_name(c.chat_type, c.talker), keyword);
}

/// A contact tells a person: the uid, what they are called, the profile's nickname before
/// that of their messages, the remark, and the account number.
pub proof fn law_contacts_tell_people(s: StoreModel, uid: Seq<char>, v: Seq<char>)
    ensures
        ({
            let c = contact_of(s, uid);
            &&& c.username == uid
            &&& c.display_name == s.person_name(uid)
            &&& assoc(s.names.uid_nick, uid) == Some(v) ==> c.nickname == v
            &&& assoc(s.names.uid_nick, uid) is None && assoc(s.uid_names, uid) == Some(v)
                ==> c.nickname == v
            &&& assoc(s.names.uid_nick, uid) is None && assoc(s.uid_names, uid) is None
                ==> c.nickname.len() == 0
            &&& assoc(s.names.uid_remark, uid) == Some(v) ==> c.remark == v
            &&& assoc(s.names.uid_remark, uid) is None ==> c.remark.len() == 0
            &&& assoc(s.names.uid_qq, uid) == Some(v) ==> c.alias == v
            &&& assoc(s.names.uid_qq, uid) is None ==> c.alias.len() == 0
            &&& c.avatar_url.len() == 0
            &&& c.contact_type == "friend"@
        }),
{
}

/// A contact is found by a keyword that its uid or its nickname has somewhere in it.
pub proof fn law_contact_search(s: StoreModel, uid: Seq<char>, keyword: Seq<char>)
    ensures
        contact_matches(s, uid, Some(keyword)) <==> found_by(uid, keyword) || found_by(
            contact_of(s, uid).nickname,
            keyword,
        ),
        contact_matches(s, uid, None),
{
    lemma_found_by(uid, keyword);
    lemma_found_by(contact_of(s, uid).nickname, keyword);
}

/// Everyone who has a nickname, a remark or an account number, and everyone who sent a
/// message, is among the contacts.
pub proof fn law_everyone_is_a_contact(s: StoreModel, uid: Seq<char>, c: int, i: int)
    ensures
        ({
            let all = queried_contacts(s, None);
            let there = all.contains(contact_of(s, uid));
            &&& assoc(s.uid_names, uid) is Some ==> there
            &&& assoc(s.names.uid_remark, uid) is Some ==> there
            &&& assoc(s.names.uid_nick, uid) is Some ==> there
            &&& assoc(s.names.uid_qq, uid) is Some ==> there
            &&& uid.len() > 0 && 0 <= c < s.convs.len() && 0 <= i < s.convs[c].1.msgs.len()
                && s.convs[c].1.msgs[i].from_uid == uid ==> there
        }),
{
    law_contacts_are_complete(s, None, uid);
    if uid.len() > 0 && 0 <= c < s.convs.len() && 0 <= i < s.convs[c].1.msgs.len()
        && s.convs[c].1.msgs[i].from_uid == uid {
        assert(sent_one_of(s.convs[c].1.msgs, uid));
    }
}

/// A conversation is among the sessions that a keyword finds exactly where its talker or its
/// name has the keyword in it.
pub proof fn law_found_sessions(s: StoreModel, c: int, keyword: Seq<char>)
    requires
        0 <= c < s.convs.len(),
    ensures
        ({
            let conv = s.convs[c].1;
            &&& queried_sessions(s, None).contains(session_of(s, conv))
            &&& found_by(conv.talker, keyword) || found_by(
                s.session_name(conv.chat_type, conv.talker),
                keyword,
            ) ==> queried_sessions(s, Some(keyword)).contains(session_of(s, conv))
            &&& queried_sessions(s, Some(keyword)).contains(session_of(s, conv)) ==> found_by(
                conv.talker,
                keyword,
            ) || found_by(s.session_name(conv.chat_type, conv.talker), keyword)
        }),
{
    let conv = s.convs[c].1;
    law_session_search(s, conv, keyword);
    law_sessions_newest_first(s, None);
    law_sessions_newest_first(s, Some(keyword));
    assert(session_matches(session_of(s, s.convs[c].1), None));
    let got = queried_sessions(s, Some(keyword));
    if got.contains(session_of(s, conv)) {
        let i = choose|i: int| 0 <= i < got.len() && got[i] == session_of(s, conv);
        assert(session_matches(got[i], Some(keyword)));
    }
}

/// A person is among the contacts that a keyword finds where they are a contact at all and
/// their uid or nickname has the keyword in it, and not where neither has.
pub proof fn law_found_contacts(s: StoreModel, uid: Seq<char>, keyword: Seq<char>)
    requires
        queried_contacts(s, None).contains(contact_of(s, uid)),
    ensures
        queried_contacts(s, Some(keyword)).contains(contact_of(s, uid)) <==> found_by(uid, keyword)
            || found_by(contact_of(s, uid).nickname, keyword),
{
    law_contacts_are_complete(s, None, uid);
    law_contacts_are_complete(s, Some(keyword), uid);
    law_contact_search(s, uid, keyword);
}

/// A row, a session and a contact are seen as what their fields hold.
pub proof fn law_row_views(m: MessageOut, s: SessionInfo, c: ContactOut)
    ensures
        m@.local_id == m.local_id,
        m@.server_id == m.server_id@,
        m@.local_type == m.local_type,
        m@.create_time == m.create_time,
        m@.is_send == m.is_send,
        m@.sender_username == m.sender_username@,
        m@.sender_name == m.sender_name@,
        m@.content == m.content@,
        m@.raw_content == m.raw_content@,
        m@.parsed_content == m.parsed_content@,
        m.media_type is Some ==> m@.media_type == Some(m.media_type->0@),
        m.media_type is None ==> m@.media_type is None,
        m.media is Some ==> m@.media == Some(m.media->0@),
        m.media is None ==> m@.media is None,
        m.media_id is Some ==> m@.media_id == Some(m.media_id->0@),
        m.media_id is None ==> m@.media_id is None,
        m.media_file_name is Some ==> m@.media_file_name == Some(m.media_file_name->0@),
        m.media_url is Some ==> m@.media_url == Some(m.media_url->0@),
        m.media_local_path is Some ==> m@.media_local_path == Some(m.media_local_path->0@),
        s@.username == s.username@,
        s@.display_name == s.display_name@,
        s@.session_type == s.session_type,
        s@.last_timestamp == s.last_timestamp,
        s@.unread_count == s.unread_count,
        c@.username == c.username@,
        c@.display_name == c.display_name@,
        c@.remark == c.remark@,
        c@.nickname == c.nickname@,
        c@.alias == c.alias@,
        c@.avatar_url == c.avatar_url@,
        c@.contact_type == c.contact_type@,
{
}

} // verus!

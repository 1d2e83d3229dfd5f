//! In-memory index over decrypted chat records.
//!
//! The message columns have no useful indexes, so filtering in SQL would mean a full
//! table scan per query. Instead each table is scanned once at startup into an index
//! that new rows are appended to: a single source of truth for HTTP queries and pushed
//! events.

use vstd::prelude::*;
use vstd::relations::total_ordering;
use vstd::string::StringExecFns;

use crate::order::{ints, law_sorted_places, sort_places, sorted_places};
use crate::parser::types::{
    non_empty, record_views, ChatType, MessageRecord, RecordModel,
};
use crate::store::media::CacheIndex;
use crate::store::query::{classify_talker, talker_type};
use crate::strmap::{assoc, lemma_mapped, mapped, put, StrMap};
use crate::text::{clone_opt, opt_str_view, opt_view, same};

pub mod index;
pub mod mapping;
pub mod media;
pub mod media_export;
pub mod names;
pub mod query;

verus! {

/// Key of a conversation: "g:<groupId>" or "c:<peerUid>".
pub open spec fn conv_key_of(chat_type: ChatType, talker: Seq<char>) -> Seq<char> {
    match chat_type {
        ChatType::Group => "g:"@ + talker,
        ChatType::C2c => "c:"@ + talker,
    }
}

/// Key for the conversation map: "g:<groupId>" or "c:<peerUid>".
pub fn conv_key(chat_type: ChatType, talker: &str) -> (r: String)
    ensures
        r@ == conv_key_of(chat_type, talker@),
{
    let mut r = match chat_type {
        ChatType::Group => "g:".to_owned(),
        ChatType::C2c => "c:".to_owned(),
    };
    r.append(talker);
    r
}

/// Different conversations have different keys: a group and a private chat never share
/// one, whatever their ids.
pub proof fn law_conv_keys_are_distinct(a: ChatType, s: Seq<char>, b: ChatType, t: Seq<char>)
    requires
        conv_key_of(a, s) == conv_key_of(b, t),
    ensures
        a == b,
        s == t,
{
    reveal_strlit("g:");
    reveal_strlit("c:");
    let k = conv_key_of(a, s);
    assert(k[0] == 'g' <==> a is Group);
    assert(k[0] == 'g' <==> b is Group);
    assert(s =~= k.skip(2));
    assert(t =~= conv_key_of(b, t).skip(2));
}

/// `a` is older than `b`: by time, then by row.
pub open spec fn older(a: RecordModel, b: RecordModel) -> bool {
    a.ts < b.ts || (a.ts == b.ts && a.rowid < b.rowid)
}

/// The order of places by age, oldest first; what is of one age keeps its order.
pub open spec fn chrono_leq(msgs: Seq<RecordModel>) -> spec_fn(int, int) -> bool {
    |i: int, j: int|
        older(msgs[i], msgs[j]) || (!older(msgs[j], msgs[i]) && i <= j)
}

/// The order of places by age, newest first; what is of one age keeps its order.
pub open spec fn newest_leq(msgs: Seq<RecordModel>) -> spec_fn(int, int) -> bool {
    |i: int, j: int|
        older(msgs[j], msgs[i]) || (!older(msgs[i], msgs[j]) && i <= j)
}

/// The places of the messages, oldest first.
pub open spec fn chrono_order(msgs: Seq<RecordModel>) -> Seq<int> {
    sorted_places(msgs.len(), chrono_leq(msgs))
}

/// The places of the messages, newest first.
pub open spec fn newest_order(msgs: Seq<RecordModel>) -> Seq<int> {
    sorted_places(msgs.len(), newest_leq(msgs))
}

/// The messages at the given places.
pub open spec fn at_places(msgs: Seq<RecordModel>, places: Seq<int>) -> Seq<RecordModel> {
    places.map_values(|i: int| msgs[i])
}

/// Ordering by age is total.
pub proof fn lemma_age_orders(msgs: Seq<RecordModel>)
    ensures
        total_ordering(chrono_leq(msgs)),
        total_ordering(newest_leq(msgs)),
{
}

/// Whether `a` is older than `b`.
pub fn is_older(a: &MessageRecord, b: &MessageRecord) -> (r: bool)
    ensures
        r == older(a@, b@),
{
    a.ts < b.ts || (a.ts == b.ts && a.rowid < b.rowid)
}

/// The places of the messages, oldest first.
pub fn sort_oldest_first(msgs: &Vec<MessageRecord>) -> (r: Vec<usize>)
    ensures
        ints(r@) == chrono_order(record_views(msgs@)),
        r.len() == msgs.len(),
        forall|i: int| 0 <= i < r.len() ==> #[trigger] r@[i] < msgs.len(),
{
    let ghost views = record_views(msgs@);
    proof {
        lemma_age_orders(views);
    }
    let le = |i: usize, j: usize| -> (b: bool)
        requires
            i < msgs.len(),
            j < msgs.len(),
        ensures
            b == (chrono_leq(record_views(msgs@)))(i as int, j as int),
        { is_older(&msgs[i], &msgs[j]) || (!is_older(&msgs[j], &msgs[i]) && i <= j) };
    sort_places(msgs.len(), le, Ghost(chrono_leq(views)))
}

/// The places of the messages, newest first.
pub fn sort_newest_first(msgs: &Vec<MessageRecord>) -> (r: Vec<usize>)
    ensures
        ints(r@) == newest_order(record_views(msgs@)),
        r.len() == msgs.len(),
        forall|i: int| 0 <= i < r.len() ==> #[trigger] r@[i] < msgs.len(),
{
    let ghost views = record_views(msgs@);
    proof {
        lemma_age_orders(views);
    }
    let le = |i: usize, j: usize| -> (b: bool)
        requires
            i < msgs.len(),
            j < msgs.len(),
        ensures
            b == (newest_leq(record_views(msgs@)))(i as int, j as int),
        { is_older(&msgs[j], &msgs[i]) || (!is_older(&msgs[i], &msgs[j]) && i <= j) };
    sort_places(msgs.len(), le, Ghost(newest_leq(views)))
}

/// One group chat or private chat.
#[derive(Debug)]
pub struct Conversation {
    pub chat_type: ChatType,
    pub talker: String,
    /// Display name: group name (from rename system messages) or peer nickname.
    pub name: String,
    /// Messages ordered by (ts, rowid); `dirty` marks append-only changes that need a
    /// lazy re-sort.
    pub msgs: Vec<MessageRecord>,
    pub dirty: bool,
}

/// What a [`Conversation`] holds.
pub struct ConversationModel {
    pub chat_type: ChatType,
    pub talker: Seq<char>,
    pub name: Seq<char>,
    pub msgs: Seq<RecordModel>,
    pub dirty: bool,
}

impl View for Conversation {
    type V = ConversationModel;

    open spec fn view(&self) -> ConversationModel {
        ConversationModel {
            chat_type: self.chat_type,
            talker: self.talker@,
            name: self.name@,
            msgs: record_views(self.msgs@),
            dirty: self.dirty,
        }
    }
}

impl Default for Conversation {
    fn default() -> (r: Self)
        ensures
            r@ == (ConversationModel {
                chat_type: ChatType::Group,
                talker: Seq::empty(),
                name: Seq::empty(),
                msgs: Seq::empty(),
                dirty: false,
            }),
    {
        let r = Conversation {
            chat_type: ChatType::Group,
            talker: String::new(),
            name: String::new(),
            msgs: Vec::new(),
            dirty: false,
        };
        assert(r@.msgs =~= Seq::empty());
        r
    }
}

/// A conversation with its messages in order.
pub open spec fn sorted_conversation(c: ConversationModel) -> ConversationModel {
    if c.dirty {
        ConversationModel {
            msgs: at_places(c.msgs, chrono_order(c.msgs)),
            dirty: false,
            ..c
        }
    } else {
        c
    }
}

impl Conversation {
    /// Puts the messages in order by (ts, rowid), where appends may have left them out of
    /// order.
    pub fn ensure_sorted(&mut self)
        ensures
            final(self)@ == sorted_conversation(old(self)@),
    {
        if !self.dirty {
            return ;
        }
        let ghost views = record_views(self.msgs@);
        proof {
            lemma_age_orders(views);
            law_sorted_places(views.len(), chrono_leq(views));
        }
        let order = sort_oldest_first(&self.msgs);
        let mut sorted: Vec<MessageRecord> = Vec::new();
        let mut i: usize = 0;
        while i < order.len()
            invariant
                i <= order.len(),
                order.len() == self.msgs.len(),
                ints(order@) == chrono_order(views),
                views == record_views(self.msgs@),
                forall|k: int| 0 <= k < order.len() ==> #[trigger] order@[k] < self.msgs.len(),
                record_views(sorted@) == at_places(views, chrono_order(views)).take(i as int),
                *self == *old(self),
            decreases order.len() - i,
        {
            let m = self.msgs[order[i]].clone();
            let ghost before = sorted@;
            let ghost added = m@;
            sorted.push(m);
            proof {
                let all = at_places(views, chrono_order(views));
                assert(ints(order@)[i as int] == order@[i as int]);
                assert(all[i as int] == added);
                assert(record_views(sorted@) =~= record_views(before).push(added));
                assert(all.take(i + 1) =~= all.take(i as int).push(all[i as int]));
            }
            i += 1;
        }
        assert(at_places(views, chrono_order(views)).take(order@.len() as int) =~= at_places(
            views,
            chrono_order(views),
        ));
        self.msgs = sorted;
        self.dirty = false;
    }
}

/// After sorting, no message stands before an older one, and every message is still
/// there.
pub proof fn law_ensure_sorted(c: ConversationModel)
    requires
        c.dirty,
    ensures
        ({
            let s = sorted_conversation(c).msgs;
            &&& s.len() == c.msgs.len()
            &&& s.to_multiset() == c.msgs.to_multiset()
            &&& forall|i: int, j: int| 0 <= i < j < s.len() ==> !older(#[trigger] s[j], #[trigger] s[i])
        }),
{
    lemma_age_orders(c.msgs);
    law_sorted_places(c.msgs.len(), chrono_leq(c.msgs));
    let order = chrono_order(c.msgs);
    let s = sorted_conversation(c).msgs;
    assert forall|i: int, j: int| 0 <= i < j < s.len() implies !older(
        #[trigger] s[j],
        #[trigger] s[i],
    ) by {
        assert(chrono_leq(c.msgs)(order[i], order[j]));
    }
    lemma_places_keep_messages(c.msgs, order);
}

/// Visiting every place once visits every message once.
proof fn lemma_places_keep_messages(msgs: Seq<RecordModel>, order: Seq<int>)
    requires
        order.to_multiset() == crate::order::places(msgs.len()).to_multiset(),
    ensures
        at_places(msgs, order).to_multiset() == msgs.to_multiset(),
{
    let all = crate::order::places(msgs.len());
    let f = |i: int| msgs[i];
    lemma_map_multiset(order, all, f);
    assert(all.map_values(f) =~= msgs);
    assert(at_places(msgs, order) =~= order.map_values(f));
}

/// Mapping two arrangements of one multiset gives two arrangements of one multiset.
pub proof fn lemma_map_multiset<A, B>(s: Seq<A>, t: Seq<A>, f: spec_fn(A) -> B)
    requires
        s.to_multiset() == t.to_multiset(),
    ensures
        s.map_values(f).to_multiset() == t.map_values(f).to_multiset(),
    decreases s.len(),
{
    broadcast use vstd::seq_lib::group_to_multiset_ensures;

    assert(s.len() == s.to_multiset().len() && t.len() == t.to_multiset().len());
    if s.len() == 0 {
        assert(s.map_values(f) =~= t.map_values(f));
    } else {
        let x = s.last();
        let s0 = s.drop_last();
        assert(s =~= s0.push(x));
        assert(t.to_multiset().count(x) > 0) by {
            assert(s.contains(x));
        }
        assert(t.contains(x));
        let k = t.index_of(x);
        let t0 = t.remove(k);
        assert(t0.to_multiset() =~= t.to_multiset().remove(x));
        assert(s0.to_multiset() =~= s.to_multiset().remove(x)) by {
            assert(s.to_multiset() =~= s0.to_multiset().insert(x));
        }
        lemma_map_multiset(s0, t0, f);
        assert(s.map_values(f) =~= s0.map_values(f).push(f(x)));
        let tm = t.map_values(f);
        assert(t0.map_values(f) =~= tm.remove(k));
        assert(tm.remove(k).to_multiset() =~= tm.to_multiset().remove(f(x)));
        assert(tm.to_multiset().count(f(x)) > 0) by {
            assert(tm[k] == f(x));
            assert(tm.contains(f(x)));
        }
        assert(tm.to_multiset() =~= tm.remove(k).to_multiset().insert(f(x)));
    }
}

/// Texts by key, in the order of the keys' first insertion.
pub type TextMap = Seq<(Seq<char>, Seq<char>)>;

/// The texts of a map.
pub open spec fn texts(m: StrMap<String>) -> TextMap {
    mapped(m@, |s: String| s@)
}

/// The conversations of a map.
pub open spec fn conv_views(m: StrMap<Conversation>) -> Seq<(Seq<char>, ConversationModel)> {
    mapped(m@, |c: Conversation| c@)
}

/// The cards of a map, per conversation.
pub open spec fn card_views(m: StrMap<StrMap<String>>) -> Seq<(Seq<char>, TextMap)> {
    mapped(m@, |c: StrMap<String>| texts(c))
}

/// The media entries of a map.
pub open spec fn entry_views(m: StrMap<MediaEntry>) -> Seq<(Seq<char>, MediaEntryModel)> {
    mapped(m@, |e: MediaEntry| e@)
}

/// The text at a key.
pub fn text_get<'a>(m: &'a StrMap<String>, k: &str) -> (r: Option<&'a str>)
    requires
        m.wf(),
    ensures
        opt_str_view(r) == assoc(texts(*m), k@),
{
    proof {
        lemma_mapped(m@, |s: String| s@);
    }
    match m.get(k) {
        Some(s) => Some(s.as_str()),
        None => None,
    }
}

/// Gives a key a text.
pub fn text_put(m: &mut StrMap<String>, k: String, v: String)
    requires
        old(m).wf(),
    ensures
        final(m).wf(),
        texts(*final(m)) == put(texts(*old(m)), k@, v@),
{
    proof {
        lemma_mapped(m@, |s: String| s@);
    }
    m.insert(k, v);
}

/// The text at a key, if it is not empty.
pub open spec fn shown_at(m: TextMap, k: Seq<char>) -> Option<Seq<char>> {
    non_empty(assoc(m, k))
}

/// `a`, or else `b`.
pub open spec fn first_of(a: Option<Seq<char>>, b: Option<Seq<char>>) -> Option<Seq<char>> {
    if a is Some {
        a
    } else {
        b
    }
}

/// `a`, or else `b`.
pub open spec fn or_text(a: Option<Seq<char>>, b: Seq<char>) -> Seq<char> {
    match a {
        Some(s) => s,
        None => b,
    }
}

/// The text at a key, if it is not empty.
pub fn shown<'a>(m: &'a StrMap<String>, k: &str) -> (r: Option<&'a str>)
    requires
        m.wf(),
    ensures
        opt_str_view(r) == shown_at(texts(*m), k@),
{
    match text_get(m, k) {
        Some(s) => if s.is_empty() {
            None
        } else {
            Some(s)
        },
        None => None,
    }
}

/// The text at a key, or the empty text.
pub fn text_or_empty(m: &StrMap<String>, k: &str) -> (r: String)
    requires
        m.wf(),
    ensures
        r@ == or_text(assoc(texts(*m), k@), Seq::empty()),
{
    match text_get(m, k) {
        Some(s) => s.to_owned(),
        None => String::new(),
    }
}

/// uid and group name maps loaded from the mapping sources (see `names`). On schema
/// churn these stay empty and display falls back to message-derived names.
pub struct NameMaps {
    /// uid -> remark name.
    pub uid_remark: StrMap<String>,
    /// uid -> authoritative contact nickname.
    pub uid_nick: StrMap<String>,
    /// uid -> bare QQ number, when the version exposes it.
    pub uid_qq: StrMap<String>,
    /// groupId -> group name, from a group-info source.
    pub group_name: StrMap<String>,
    /// groupId -> group remark.
    pub group_remark: StrMap<String>,
}

/// What [`NameMaps`] hold.
pub struct NamesModel {
    pub uid_remark: TextMap,
    pub uid_nick: TextMap,
    pub uid_qq: TextMap,
    pub group_name: TextMap,
    pub group_remark: TextMap,
}

impl View for NameMaps {
    type V = NamesModel;

    open spec fn view(&self) -> NamesModel {
        NamesModel {
            uid_remark: texts(self.uid_remark),
            uid_nick: texts(self.uid_nick),
            uid_qq: texts(self.uid_qq),
            group_name: texts(self.group_name),
            group_remark: texts(self.group_remark),
        }
    }
}

/// No names at all.
pub open spec fn no_names() -> NamesModel {
    NamesModel {
        uid_remark: Seq::empty(),
        uid_nick: Seq::empty(),
        uid_qq: Seq::empty(),
        group_name: Seq::empty(),
        group_remark: Seq::empty(),
    }
}

impl NameMaps {
    /// Every map is well formed.
    pub open spec fn wf(&self) -> bool {
        &&& self.uid_remark.wf()
        &&& self.uid_nick.wf()
        &&& self.uid_qq.wf()
        &&& self.group_name.wf()
        &&& self.group_remark.wf()
    }
}

/// A map without texts.
fn no_texts() -> (r: StrMap<String>)
    ensures
        r.wf(),
        texts(r) == Seq::<(Seq<char>, Seq<char>)>::empty(),
{
    let r: StrMap<String> = StrMap::new();
    assert(texts(r) =~= Seq::empty());
    r
}

impl Default for NameMaps {
    fn default() -> (r: Self)
        ensures
            r.wf(),
            r@ == no_names(),
    {
        NameMaps {
            uid_remark: no_texts(),
            uid_nick: no_texts(),
            uid_qq: no_texts(),
            group_name: no_texts(),
            group_remark: no_texts(),
        }
    }
}

/// One fetchable media file.
#[derive(Debug)]
pub struct MediaEntry {
    /// Local cache path ("45812"): absolute, or relative to the media root.
    pub local_path: String,
    pub file_name: Option<String>,
}

/// What a [`MediaEntry`] holds.
pub struct MediaEntryModel {
    pub local_path: Seq<char>,
    pub file_name: Option<Seq<char>>,
}

impl View for MediaEntry {
    type V = MediaEntryModel;

    open spec fn view(&self) -> MediaEntryModel {
        MediaEntryModel { local_path: self.local_path@, file_name: opt_view(self.file_name) }
    }
}

impl Clone for MediaEntry {
    fn clone(&self) -> (r: Self)
        ensures
            r@ == self@,
    {
        MediaEntry { local_path: self.local_path.clone(), file_name: clone_opt(&self.file_name) }
    }
}

/// The index: conversations, names, cards and fetchable media of one account.
pub struct Store {
    pub convs: StrMap<Conversation>,
    /// uid -> latest known nickname ("40093"): the context-free global fallback. Group
    /// cards ("40090") never enter here.
    pub uid_names: StrMap<String>,
    /// uid and group name maps from the mapping sources.
    pub names: NameMaps,
    /// Group cards ("40090") per conversation: conversation key -> (uid -> card). A card
    /// displays in the group it was seen in only.
    pub group_cards: StrMap<StrMap<String>>,
    /// Media lookup: md5 hex / uuid -> local cache file.
    pub media: StrMap<MediaEntry>,
    /// Files under the media root's directories by stem, consulted when a media row has
    /// no usable path of its own.
    pub media_fallback: Option<CacheIndex>,
    /// `nt_data` root of the account.
    pub media_root: Option<String>,
    /// Highest rowid seen per table.
    pub watermark_group: i64,
    pub watermark_c2c: i64,
}

/// What a [`Store`] holds.
pub struct StoreModel {
    pub convs: Seq<(Seq<char>, ConversationModel)>,
    pub uid_names: TextMap,
    pub names: NamesModel,
    pub group_cards: Seq<(Seq<char>, TextMap)>,
    pub media: Seq<(Seq<char>, MediaEntryModel)>,
    pub media_fallback: Option<CacheIndex>,
    pub media_root: Option<Seq<char>>,
    pub watermark_group: i64,
    pub watermark_c2c: i64,
}

impl View for Store {
    type V = StoreModel;

    open spec fn view(&self) -> StoreModel {
        StoreModel {
            convs: conv_views(self.convs),
            uid_names: texts(self.uid_names),
            names: self.names@,
            group_cards: card_views(self.group_cards),
            media: entry_views(self.media),
            media_fallback: self.media_fallback,
            media_root: opt_view(self.media_root),
            watermark_group: self.watermark_group,
            watermark_c2c: self.watermark_c2c,
        }
    }
}

/// A store without an account's data.
pub open spec fn empty_store() -> StoreModel {
    StoreModel {
        convs: Seq::empty(),
        uid_names: Seq::empty(),
        names: no_names(),
        group_cards: Seq::empty(),
        media: Seq::empty(),
        media_fallback: None,
        media_root: None,
        watermark_group: 0,
        watermark_c2c: 0,
    }
}

impl StoreModel {
    /// The conversation of a chat type and talker.
    pub open spec fn conversation(self, chat_type: ChatType, talker: Seq<char>) -> Option<
        ConversationModel,
    > {
        assoc(self.convs, conv_key_of(chat_type, talker))
    }

    /// The name that a conversation itself gives for display. A group's own id is only a
    /// placeholder.
    pub open spec fn conversation_title(self, chat_type: ChatType, talker: Seq<char>) -> Option<
        Seq<char>,
    > {
        match self.conversation(chat_type, talker) {
            Some(c) => if c.name.len() > 0 && (chat_type is C2c || c.name != talker) {
                Some(c.name)
            } else {
                None
            },
            None => None,
        }
    }

    /// What a session displays: remark, else its own name, else the name in the profile
    /// or group-info source, else its id.
    pub open spec fn session_name(self, chat_type: ChatType, talker: Seq<char>) -> Seq<char> {
        let remark = match chat_type {
            ChatType::C2c => shown_at(self.names.uid_remark, talker),
            ChatType::Group => shown_at(self.names.group_remark, talker),
        };
        let source = match chat_type {
            ChatType::C2c => shown_at(self.names.uid_nick, talker),
            ChatType::Group => shown_at(self.names.group_name, talker),
        };
        or_text(
            first_of(remark, first_of(self.conversation_title(chat_type, talker), source)),
            talker,
        )
    }

    /// What a person displays: remark, else latest message nick, else profile nick, else
    /// uid.
    pub open spec fn person_name(self, uid: Seq<char>) -> Seq<char> {
        or_text(
            first_of(
                shown_at(self.names.uid_remark, uid),
                first_of(shown_at(self.uid_names, uid), shown_at(self.names.uid_nick, uid)),
            ),
            uid,
        )
    }

    /// The card of a sender in a group; nothing outside groups.
    pub open spec fn card(self, chat_type: ChatType, talker: Seq<char>, uid: Seq<char>) -> Option<
        Seq<char>,
    > {
        if chat_type is Group {
            match assoc(self.group_cards, conv_key_of(chat_type, talker)) {
                Some(cards) => shown_at(cards, uid),
                None => None,
            }
        } else {
            None
        }
    }

    /// What a sender displays in a conversation: its card there, else the person's name.
    pub open spec fn sender_name(
        self,
        chat_type: ChatType,
        talker: Seq<char>,
        uid: Seq<char>,
    ) -> Seq<char> {
        or_text(self.card(chat_type, talker, uid), self.person_name(uid))
    }

    /// The conversation of a talker: of the type that its id tells, else of the other.
    pub open spec fn found_conversation(self, talker: Seq<char>) -> Option<ConversationModel> {
        let primary = talker_type(talker);
        let other = if primary is Group {
            ChatType::C2c
        } else {
            ChatType::Group
        };
        if self.conversation(primary, talker) is Some {
            self.conversation(primary, talker)
        } else {
            self.conversation(other, talker)
        }
    }
}

/// The view of an optional conversation.
pub open spec fn opt_conversation(o: Option<&Conversation>) -> Option<ConversationModel> {
    match o {
        Some(c) => Some(c@),
        None => None,
    }
}

impl Store {
    /// Every map is well formed, the cards of each conversation among them.
    pub open spec fn wf(&self) -> bool {
        &&& self.convs.wf()
        &&& self.uid_names.wf()
        &&& self.names.wf()
        &&& self.group_cards.wf()
        &&& forall|i: int|
            0 <= i < self.group_cards@.len() ==> (#[trigger] self.group_cards@[i]).1.wf()
        &&& self.media.wf()
        &&& self.media_fallback is Some ==> self.media_fallback->0.wf()
    }

    /// The conversation of a chat type and talker.
    pub fn conversation(&self, chat_type: ChatType, talker: &str) -> (r: Option<&Conversation>)
        requires
            self.wf(),
        ensures
            opt_conversation(r) == self@.conversation(chat_type, talker@),
    {
        proof {
            lemma_mapped(self.convs@, |c: Conversation| c@);
        }
        let key = conv_key(chat_type, talker);
        self.convs.get(key.as_str())
    }

    /// Session display name. c2c: remark > session name > profile nick > uid; group:
    /// group remark > rename-message name > group-info name > group id.
    pub fn display_name(&self, chat_type: ChatType, talker: &str) -> (r: String)
        requires
            self.wf(),
        ensures
            r@ == self@.session_name(chat_type, talker@),
    {
        let remark = match chat_type {
            ChatType::C2c => shown(&self.names.uid_remark, talker),
            ChatType::Group => shown(&self.names.group_remark, talker),
        };
        if let Some(name) = remark {
            return name.to_owned();
        }
        if let Some(c) = self.conversation(chat_type, talker) {
            let name = c.name.as_str();
            if !name.is_empty() && (chat_type == ChatType::C2c || !same(name, talker)) {
                return name.to_owned();
            }
        }
        let source = match chat_type {
            ChatType::C2c => shown(&self.names.uid_nick, talker),
            ChatType::Group => shown(&self.names.group_name, talker),
        };
        match source {
            Some(name) => name.to_owned(),
            None => talker.to_owned(),
        }
    }

    /// Person display name: remark > latest message nick > profile nick > uid.
    pub fn display_uid(&self, uid: &str) -> (r: String)
        requires
            self.wf(),
        ensures
            r@ == self@.person_name(uid@),
    {
        if let Some(name) = shown(&self.names.uid_remark, uid) {
            return name.to_owned();
        }
        if let Some(name) = shown(&self.uid_names, uid) {
            return name.to_owned();
        }
        match shown(&self.names.uid_nick, uid) {
            Some(name) => name.to_owned(),
            None => uid.to_owned(),
        }
    }

    /// The card of a sender in a group; nothing outside groups.
    pub fn group_card(&self, chat_type: ChatType, talker: &str, uid: &str) -> (r: Option<&str>)
        requires
            self.wf(),
        ensures
            opt_str_view(r) == self@.card(chat_type, talker@, uid@),
    {
        if chat_type != ChatType::Group {
            return None;
        }
        proof {
            lemma_mapped(self.group_cards@, |c: StrMap<String>| texts(c));
        }
        let key = conv_key(chat_type, talker);
        match self.group_cards.position(key.as_str()) {
            Some(i) => shown(self.group_cards.value_at(i), uid),
            None => None,
        }
    }

    /// Sender display name in a conversation context. In a group the sender's card for
    /// this conversation wins over the global name; cards never leak into c2c chats or
    /// contacts.
    pub fn display_sender(&self, chat_type: ChatType, talker: &str, uid: &str) -> (r: String)
        requires
            self.wf(),
        ensures
            r@ == self@.sender_name(chat_type, talker@, uid@),
    {
        match self.group_card(chat_type, talker, uid) {
            Some(card) => card.to_owned(),
            None => self.display_uid(uid),
        }
    }

    /// Look up a conversation by talker, falling back to the other chat type when the
    /// primary classification misses (an all-digit c2c peer uid would otherwise only ever
    /// be looked up among groups).
    pub fn find_conversation(&self, talker: &str) -> (r: Option<&Conversation>)
        requires
            self.wf(),
        ensures
            opt_conversation(r) == self@.found_conversation(talker@),
    {
        let (primary, _id) = classify_talker(talker);
        let alt = match primary {
            ChatType::Group => ChatType::C2c,
            ChatType::C2c => ChatType::Group,
        };
        match self.conversation(primary, talker) {
            Some(c) => Some(c),
            None => self.conversation(alt, talker),
        }
    }
}

impl Default for Store {
    fn default() -> (r: Self)
        ensures
            r.wf(),
            r@ == empty_store(),
    {
        let r = Store {
            convs: StrMap::new(),
            uid_names: no_texts(),
            names: NameMaps::default(),
            group_cards: StrMap::new(),
            media: StrMap::new(),
            media_fallback: None,
            media_root: None,
            watermark_group: 0,
            watermark_c2c: 0,
        };
        proof {
            assert(r@.convs =~= Seq::empty());
            assert(r@.group_cards =~= Seq::empty());
            assert(r@.media =~= Seq::empty());
        }
        r
    }
}

/// In a private chat a sender displays as it does everywhere: no group's card reaches it.
pub proof fn law_cards_stay_in_their_group(store: StoreModel, talker: Seq<char>, uid: Seq<char>)
    ensures
        store.sender_name(ChatType::C2c, talker, uid) == store.person_name(uid),
{
}

/// Nobody displays as nothing: a name chain ends in the id itself.
pub proof fn law_display_names_are_not_empty(
    store: StoreModel,
    chat_type: ChatType,
    talker: Seq<char>,
    uid: Seq<char>,
)
    requires
        uid.len() > 0,
        talker.len() > 0,
    ensures
        store.sender_name(chat_type, talker, uid).len() > 0,
        store.person_name(uid).len() > 0,
        store.session_name(chat_type, talker).len() > 0,
{
}

/// A map gives a key a text that is not empty.
pub open spec fn gives(m: TextMap, k: Seq<char>, v: Seq<char>) -> bool {
    assoc(m, k) == Some(v) && v.len() > 0
}

/// A map gives a key no text, or an empty one.
pub open spec fn gives_none(m: TextMap, k: Seq<char>) -> bool {
    assoc(m, k) is None || assoc(m, k)->0.len() == 0
}

/// What a person is called: the remark goes before the nickname of their messages, that
/// before the profile's, and the uid stands in for all of them.
pub proof fn law_person_names(s: StoreModel, uid: Seq<char>, v: Seq<char>)
    ensures
        gives(s.names.uid_remark, uid, v) ==> s.person_name(uid) == v,
        gives_none(s.names.uid_remark, uid) && gives(s.uid_names, uid, v) ==> s.person_name(uid)
            == v,
        gives_none(s.names.uid_remark, uid) && gives_none(s.uid_names, uid) && gives(
            s.names.uid_nick,
            uid,
            v,
        ) ==> s.person_name(uid) == v,
        gives_none(s.names.uid_remark, uid) && gives_none(s.uid_names, uid) && gives_none(
            s.names.uid_nick,
            uid,
        ) ==> s.person_name(uid) == uid,
{
}

/// What a private chat is called: the peer's remark goes before the chat's own name, that
/// before the profile's nickname, and the uid stands in for all of them.
pub proof fn law_private_chat_names(s: StoreModel, uid: Seq<char>, v: Seq<char>)
    ensures
        ({
            let name = s.session_name(ChatType::C2c, uid);
            let conv = s.conversation(ChatType::C2c, uid);
            let untitled = conv is None || conv->0.name.len() == 0;
            let plain = gives_none(s.names.uid_remark, uid);
            &&& gives(s.names.uid_remark, uid, v) ==> name == v
            &&& plain && !untitled ==> name == conv->0.name
            &&& plain && untitled && gives(s.names.uid_nick, uid, v) ==> name == v
            &&& plain && untitled && gives_none(s.names.uid_nick, uid) ==> name == uid
        }),
{
}

/// What a group is called: its remark goes before the name that its messages told, that
/// before the one of the group sources, and its number stands in for all of them. A group
/// that is named by its number is not named at all.
pub proof fn law_group_names(s: StoreModel, id: Seq<char>, v: Seq<char>)
    ensures
        ({
            let name = s.session_name(ChatType::Group, id);
            let conv = s.conversation(ChatType::Group, id);
            let untitled = conv is None || conv->0.name.len() == 0 || conv->0.name == id;
            let plain = gives_none(s.names.group_remark, id);
            &&& gives(s.names.group_remark, id, v) ==> name == v
            &&& plain && !untitled ==> name == conv->0.name
            &&& plain && untitled && gives(s.names.group_name, id, v) ==> name == v
            &&& plain && untitled && gives_none(s.names.group_name, id) ==> name == id
        }),
{
}

/// What a sender is called in a chat: in a group their card of that very group, where they
/// have one; else what they are called everywhere.
pub proof fn law_sender_names(
    s: StoreModel,
    group: Seq<char>,
    cards: TextMap,
    uid: Seq<char>,
    v: Seq<char>,
)
    requires
        assoc(s.group_cards, conv_key_of(ChatType::Group, group)) == Some(cards),
    ensures
        gives(cards, uid, v) ==> s.sender_name(ChatType::Group, group, uid) == v,
        gives_none(cards, uid) ==> s.sender_name(ChatType::Group, group, uid) == s.person_name(uid),
        s.sender_name(ChatType::C2c, group, uid) == s.person_name(uid),
{
}

/// In a group without any card a sender is called what they are called everywhere.
pub proof fn law_senders_without_cards(s: StoreModel, group: Seq<char>, uid: Seq<char>)
    requires
        assoc(s.group_cards, conv_key_of(ChatType::Group, group)) is None,
    ensures
        s.sender_name(ChatType::Group, group, uid) == s.person_name(uid),
{
}

/// A talker of digits alone is a group's where there is such a group, else a person's; any
/// other talker is a person's where there is such a chat, else a group's.
pub proof fn law_found_conversations(s: StoreModel, talker: Seq<char>)
    ensures
        ({
            let group = s.conversation(ChatType::Group, talker);
            let person = s.conversation(ChatType::C2c, talker);
            let number = forall|i: int| 0 <= i < talker.len() ==> '0' <= #[trigger] talker[i] <= '9';
            let found = s.found_conversation(talker);
            &&& number && group is Some ==> found == group
            &&& number && group is None ==> found == person
            &&& !number && person is Some ==> found == person
            &&& !number && person is None ==> found == group
        }),
{
    if forall|i: int| 0 <= i < talker.len() ==> '0' <= #[trigger] talker[i] <= '9' {
        assert forall|i: int| 0 <= i < talker.len() implies crate::text::is_digit(
            #[trigger] talker[i],
        ) by {}
    } else {
        let i = choose|i: int| 0 <= i < talker.len() && !('0' <= #[trigger] talker[i] <= '9');
        assert(!crate::text::is_digit(talker[i]));
    }
}

/// Messages in order of time, and of their rows within one second: oldest first one way,
/// newest first the other.
pub proof fn law_message_orders(msgs: Seq<RecordModel>)
    ensures
        ({
            let up = at_places(msgs, chrono_order(msgs));
            let down = at_places(msgs, newest_order(msgs));
            &&& up.len() == msgs.len() && down.len() == msgs.len()
            &&& forall|i: int, j: int|
                0 <= i < j < up.len() ==> {
                    let a = #[trigger] up[i];
                    let b = #[trigger] up[j];
                    a.ts < b.ts || (a.ts == b.ts && a.rowid <= b.rowid)
                }
            &&& forall|i: int, j: int|
                0 <= i < j < down.len() ==> {
                    let a = #[trigger] down[i];
                    let b = #[trigger] down[j];
                    a.ts > b.ts || (a.ts == b.ts && a.rowid >= b.rowid)
                }
        }),
{
    lemma_age_orders(msgs);
    law_sorted_places(msgs.len(), chrono_leq(msgs));
    law_sorted_places(msgs.len(), newest_leq(msgs));
    let up = at_places(msgs, chrono_order(msgs));
    let down = at_places(msgs, newest_order(msgs));
    assert forall|i: int, j: int| 0 <= i < j < up.len() implies {
        let a = #[trigger] up[i];
        let b = #[trigger] up[j];
        a.ts < b.ts || (a.ts == b.ts && a.rowid <= b.rowid)
    } by {
        assert(chrono_leq(msgs)(chrono_order(msgs)[i], chrono_order(msgs)[j]));
    }
    assert forall|i: int, j: int| 0 <= i < j < down.len() implies {
        let a = #[trigger] down[i];
        let b = #[trigger] down[j];
        a.ts > b.ts || (a.ts == b.ts && a.rowid >= b.rowid)
    } by {
        assert(newest_leq(msgs)(newest_order(msgs)[i], newest_order(msgs)[j]));
    }
}

/// A conversation that is put in order stays the same chat, and is in order afterwards.
pub proof fn law_sorting_keeps_the_chat(c: ConversationModel)
    ensures
        sorted_conversation(c).chat_type == c.chat_type,
        sorted_conversation(c).talker == c.talker,
        sorted_conversation(c).name == c.name,
        !sorted_conversation(c).dirty,
        !c.dirty ==> sorted_conversation(c).msgs == c.msgs,
        sorted_conversation(sorted_conversation(c)) == sorted_conversation(c),
{
}

/// A media entry is seen as what its fields hold, each under its own name.
pub proof fn law_media_entry_view(v: MediaEntry)
    ensures
        v@.local_path == v.local_path@,
        v.file_name is Some ==> v@.file_name == Some(v.file_name->0@),
        v.file_name is None ==> v@.file_name is None,
{
}

/// An empty store has no conversation and knows no one; both its watermarks are zero.
pub proof fn law_empty_store(chat_type: ChatType, id: Seq<char>)
    ensures
        empty_store().conversation(chat_type, id) is None,
        empty_store().person_name(id) == id,
        empty_store().session_name(chat_type, id) == id,
        empty_store().sender_name(chat_type, id, id) == id,
        assoc(empty_store().media, id) is None,
        empty_store().watermark_group == 0,
        empty_store().watermark_c2c == 0,
        empty_store().media_root is None,
        empty_store().media_fallback is None,
        assoc(no_names().uid_remark, id) is None,
        assoc(no_names().uid_nick, id) is None,
        assoc(no_names().uid_qq, id) is None,
        assoc(no_names().group_name, id) is None,
        assoc(no_names().group_remark, id) is None,
{
}

} // verus!

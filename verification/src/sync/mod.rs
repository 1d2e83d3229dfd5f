//! Sync engine: one pass applies the rows above the watermarks, and tells the events to
//! push and the rows that were appended.

use vstd::prelude::*;
use vstd::relations::total_ordering;

use crate::order::{ints, law_sorted_places, places, sort_places, sorted_places};
use crate::parser::types::{
    record_views, ChatType, MediaModel, MessageRecord, MsgType, RecordModel,
};
use crate::store::index::{
    apply_records, highest_rowid, lemma_with_records_frame, pending_media, read_new,
    reapply_media_registration, table_records, with_media, with_records, TableRows,
};
use crate::store::media::{CacheIndex, Disk};
use crate::store::names::{known_of, load_names, loaded_names, KnownKeys, TableData};
use crate::store::query::{
    fetchable, fetchable_media_id, label_sender, out_views, sender_label, shape_row, shown_row,
    shown_rows, MessageOut, MessageOutModel,
};
use crate::store::{lemma_map_multiset, Store, StoreModel};
use crate::strmap::assoc;
use crate::sync::events::{event_views, message_event, opt_pushed, Event, EventModel};
use crate::text::opt_view;

pub mod events;
pub mod watch;

verus! {

/// The event of a record in a store: a recall is a revocation, anything else a new
/// message.
pub open spec fn event_of(s: StoreModel, r: RecordModel) -> EventModel {
    let group_name = Some(s.session_name(r.chat_type, r.talker));
    let source_name = Some(sender_label(s, r.chat_type, r.talker, r.from_uid));
    if r.parsed.msg_type is Recall {
        message_event(
            "message.revoke"@,
            r.chat_type,
            r.talker,
            group_name,
            r.rowid as int,
            source_name,
            r.parsed.content,
            r.ts,
            None,
            None,
        )
    } else {
        message_event(
            "message.new"@,
            r.chat_type,
            r.talker,
            group_name,
            r.rowid as int,
            source_name,
            r.parsed.content,
            r.ts,
            opt_pushed(r.parsed.media),
            fetchable(s, r.parsed.media),
        )
    }
}

/// The events of records in a store.
pub open spec fn events_of(s: StoreModel, rs: Seq<RecordModel>) -> Seq<EventModel> {
    rs.map_values(|r: RecordModel| event_of(s, r))
}

/// The event of a record in a store.
pub fn record_event(store: &Store, r: &MessageRecord) -> (e: Event)
    requires
        store.wf(),
    ensures
        e@ == event_of(store@, r@),
{
    let group_name = Some(store.display_name(r.chat_type, r.talker.as_str()));
    let source_name = Some(
        label_sender(store, r.chat_type, r.talker.as_str(), r.from_uid.as_str()),
    );
    if r.parsed.msg_type == MsgType::Recall {
        Event::message_revoke(
            r.chat_type,
            r.talker.clone(),
            group_name,
            r.rowid,
            source_name,
            r.parsed.content.clone(),
            r.ts,
        )
    } else {
        let media_id = match &r.parsed.media {
            Some(m) => fetchable_media_id(store, m),
            None => None,
        };
        let media = match &r.parsed.media {
            Some(m) => Some(m.clone()),
            None => None,
        };
        Event::message_new(
            r.chat_type,
            r.talker.clone(),
            group_name,
            r.rowid,
            source_name,
            r.parsed.content.clone(),
            r.ts,
            media,
            media_id,
        )
    }
}

/// What one pass brought: the events to push and the rows that were appended.
#[derive(Debug)]
pub struct SyncPass {
    pub events: Vec<Event>,
    pub rows: Vec<MessageOut>,
}

/// The store after a pass over both tables: the records applied, the watermarks advanced,
/// the media root set where there was none.
pub open spec fn synced(
    s: StoreModel,
    media_root: Option<Seq<char>>,
    group: Seq<RecordModel>,
    c2c: Seq<RecordModel>,
    disk: Disk,
) -> StoreModel {
    let rooted = StoreModel {
        media_root: if s.media_root is None {
            media_root
        } else {
            s.media_root
        },
        ..s
    };
    StoreModel {
        watermark_group: highest_rowid(s.watermark_group, group),
        watermark_c2c: highest_rowid(s.watermark_c2c, c2c),
        ..with_records(with_records(rooted, group, disk), c2c, disk)
    }
}

fn copy_records(v: &Vec<MessageRecord>) -> (r: Vec<MessageRecord>)
    ensures
        record_views(r@) == record_views(v@),
{
    let mut r: Vec<MessageRecord> = Vec::new();
    let mut i: usize = 0;
    while i < v.len()
        invariant
            i <= v.len(),
            r.len() == i,
            forall|k: int| 0 <= k < i ==> (#[trigger] r@[k])@ == v@[k]@,
        decreases v.len() - i,
    {
        r.push(v[i].clone());
        i += 1;
    }
    assert(record_views(r@) =~= record_views(v@));
    r
}

/// Adds the events and rows of records.
fn tell_records(store: &Store, records: &Vec<MessageRecord>, pass: &mut SyncPass)
    requires
        store.wf(),
    ensures
        event_views(final(pass).events@) == event_views(old(pass).events@) + events_of(
            store@,
            record_views(records@),
        ),
        out_views(final(pass).rows@) == out_views(old(pass).rows@) + shown_rows(
            store@,
            record_views(records@),
        ),
{
    let ghost all = record_views(records@);
    let ghost s = store@;
    let mut i: usize = 0;
    assert(event_views(pass.events@) + events_of(s, all.take(0)) =~= event_views(pass.events@));
    assert(out_views(pass.rows@) + shown_rows(s, all.take(0)) =~= out_views(pass.rows@));
    while i < records.len()
        invariant
            i <= records.len(),
            store.wf(),
            s == store@,
            all == record_views(records@),
            event_views(pass.events@) == event_views(old(pass).events@) + events_of(
                s,
                all.take(i as int),
            ),
            out_views(pass.rows@) == out_views(old(pass).rows@) + shown_rows(
                s,
                all.take(i as int),
            ),
        decreases records.len() - i,
    {
        let ghost events = pass.events@;
        let ghost rows = pass.rows@;
        let e = record_event(store, &records[i]);
        let o = shape_row(store, &records[i]);
        let ghost ev = e@;
        let ghost ov = o@;
        pass.events.push(e);
        pass.rows.push(o);
        proof {
            let r = records@[i as int]@;
            assert(all.take(i + 1) =~= all.take(i as int).push(r));
            assert(events_of(s, all.take(i + 1)) =~= events_of(s, all.take(i as int)).push(ev));
            assert(shown_rows(s, all.take(i + 1)) =~= shown_rows(s, all.take(i as int)).push(ov));
            assert(event_views(pass.events@) =~= event_views(events).push(ev));
            assert(out_views(pass.rows@) =~= out_views(rows).push(ov));
            assert(event_views(pass.events@) =~= event_views(old(pass).events@) + events_of(
                s,
                all.take(i + 1),
            ));
            assert(out_views(pass.rows@) =~= out_views(old(pass).rows@) + shown_rows(
                s,
                all.take(i + 1),
            ));
        }
        i += 1;
    }
    assert(all.take(all.len() as int) =~= all);
}

/// The apply phase of a sync pass: both tables' rows above the watermarks are applied
/// before any event is made, so that an event already sees the media that its own batch
/// registered. Where the read of either table failed there is nothing to call this with,
/// and the store stays as it was.
pub fn apply_pass(
    store: &mut Store,
    group: &TableRows,
    c2c: &TableRows,
    media_root: Option<String>,
    disk: &Disk,
) -> (r: SyncPass)
    requires
        old(store).wf(),
        disk.wf(),
    ensures
        final(store).wf(),
        ({
            let g = table_records(ChatType::Group, *group);
            let c = table_records(ChatType::C2c, *c2c);
            &&& final(store)@ == synced(old(store)@, opt_view(media_root), g, c, *disk)
            &&& event_views(r.events@) == events_of(final(store)@, g + c)
            &&& out_views(r.rows@) == shown_rows(final(store)@, g + c)
        }),
{
    let (wm_g, new_g) = read_new(ChatType::Group, group, store.watermark_group);
    let (wm_c, new_c) = read_new(ChatType::C2c, c2c, store.watermark_c2c);
    let ghost g = record_views(new_g@);
    let ghost c = record_views(new_c@);
    if store.media_root.is_none() {
        store.media_root = media_root;
    }
    let ghost rooted = store@;
    apply_records(store, copy_records(&new_g), disk);
    apply_records(store, copy_records(&new_c), disk);
    store.watermark_group = wm_g;
    store.watermark_c2c = wm_c;
    let mut pass = SyncPass { events: Vec::new(), rows: Vec::new() };
    tell_records(store, &new_g, &mut pass);
    tell_records(store, &new_c, &mut pass);
    proof {
        let s = store@;
        assert(events_of(s, g + c) =~= events_of(s, g) + events_of(s, c));
        assert(shown_rows(s, g + c) =~= shown_rows(s, g) + shown_rows(s, c));
        assert(event_views(Seq::<Event>::empty()) + events_of(s, g) + events_of(s, c) =~= events_of(
            s,
            g + c,
        ));
        assert(out_views(Seq::<MessageOut>::empty()) + shown_rows(s, g) + shown_rows(s, c)
            =~= shown_rows(s, g + c));
    }
    pass
}

/// One sync pass over what was read: `None` for a table whose read failed. A failed read
/// leaves the store untouched and arms a retry, which reads the same rows again.
pub fn poll_once(
    store: &mut Store,
    detector: &mut ChangeDetector,
    group: Option<&TableRows>,
    c2c: Option<&TableRows>,
    media_root: Option<String>,
    disk: &Disk,
) -> (r: Option<SyncPass>)
    requires
        old(store).wf(),
        disk.wf(),
    ensures
        final(store).wf(),
        r is Some == (group is Some && c2c is Some),
        r is None ==> final(store)@ == old(store)@,
        final(detector).retry == (old(detector).retry || r is None),
        final(detector).last_wal == old(detector).last_wal,
        r is Some ==> {
            let g = table_records(ChatType::Group, *(group->0));
            let c = table_records(ChatType::C2c, *(c2c->0));
            &&& final(store)@ == synced(old(store)@, opt_view(media_root), g, c, *disk)
            &&& event_views(r->0.events@) == events_of(final(store)@, g + c)
            &&& out_views(r->0.rows@) == shown_rows(final(store)@, g + c)
        },
{
    match (group, c2c) {
        (Some(g), Some(c)) => {
            let pass = apply_pass(store, g, c, media_root, disk);
            detector.finished(true);
            Some(pass)
        },
        _ => {
            detector.finished(false);
            None
        },
    }
}

/// Pushed events and queried rows tell the same of a message: the sender's name, and under
/// which id its media can be fetched.
pub proof fn law_push_and_query_agree(s: StoreModel, r: RecordModel)
    ensures
        event_of(s, r).source_name == Some(shown_row(s, r).sender_name),
        !(r.parsed.msg_type is Recall) ==> event_of(s, r).media_id == shown_row(s, r).media_id,
        r.parsed.msg_type is Recall ==> event_of(s, r).media is None,
{
}

/// A pass that reads nothing new changes nothing but a missing media root.
pub proof fn law_empty_pass_changes_nothing(s: StoreModel, media_root: Option<Seq<char>>, disk: Disk)
    ensures
        synced(s, media_root, Seq::empty(), Seq::empty(), disk) == (StoreModel {
            media_root: if s.media_root is None {
                media_root
            } else {
                s.media_root
            },
            ..s
        }),
{
}

/// After a pass the watermarks stand at or above every row that it read, and never fall.
pub proof fn law_watermarks_advance(
    s: StoreModel,
    media_root: Option<Seq<char>>,
    group: Seq<RecordModel>,
    c2c: Seq<RecordModel>,
    disk: Disk,
)
    ensures
        ({
            let next = synced(s, media_root, group, c2c, disk);
            &&& next.watermark_group >= s.watermark_group
            &&& next.watermark_c2c >= s.watermark_c2c
            &&& forall|i: int|
                0 <= i < group.len() ==> (#[trigger] group[i]).rowid <= next.watermark_group
            &&& forall|i: int|
                0 <= i < c2c.len() ==> (#[trigger] c2c[i]).rowid <= next.watermark_c2c
        }),
{
    crate::store::index::law_watermark_covers_records(s.watermark_group, group);
    crate::store::index::law_watermark_covers_records(s.watermark_c2c, c2c);
}

/// How many rows of a pass are new messages, and how many recalls.
pub open spec fn counts_of(rows: Seq<MessageOutModel>) -> (nat, nat)
    decreases rows.len(),
{
    if rows.len() == 0 {
        (0, 0)
    } else {
        let (n, r) = counts_of(rows.drop_last());
        if rows.last().local_type == MsgType::Recall.code_of() {
            (n, r + 1)
        } else {
            (n + 1, r)
        }
    }
}

/// How many rows of a manual sync are new messages, and how many recalls.
pub fn sync_counts(rows: &Vec<MessageOut>) -> (r: (usize, usize))
    ensures
        (r.0 as nat, r.1 as nat) == counts_of(out_views(rows@)),
        r.0 + r.1 == rows@.len(),
{
    let ghost all = out_views(rows@);
    let recall: i64 = MsgType::Recall.code();
    let mut new: usize = 0;
    let mut revoked: usize = 0;
    let mut i: usize = 0;
    assert(all.take(0) =~= Seq::<MessageOutModel>::empty());
    while i < rows.len()
        invariant
            i <= rows.len(),
            all == out_views(rows@),
            recall == MsgType::Recall.code_of(),
            (new as nat, revoked as nat) == counts_of(all.take(i as int)),
            new + revoked == i,
        decreases rows.len() - i,
    {
        proof {
            let now = all.take(i + 1);
            assert(now.drop_last() =~= all.take(i as int));
            assert(now.last() == rows@[i as int]@);
        }
        if rows[i].local_type == recall {
            revoked += 1;
        } else {
            new += 1;
        }
        i += 1;
    }
    assert(all.take(all.len() as int) =~= all);
    (new, revoked)
}

/// Row `a` is not older than row `b`.
pub open spec fn row_not_older(a: MessageOutModel, b: MessageOutModel) -> bool {
    a.create_time > b.create_time || (a.create_time == b.create_time && a.local_id >= b.local_id)
}

/// The order of rows, newest first; equals keep their order.
pub open spec fn newest_row_leq(rows: Seq<MessageOutModel>) -> spec_fn(int, int) -> bool {
    |i: int, j: int|
        row_not_older(rows[i], rows[j]) && (row_not_older(rows[j], rows[i]) ==> i <= j)
}

/// The rows, newest first.
pub open spec fn newest_rows(rows: Seq<MessageOutModel>) -> Seq<MessageOutModel> {
    sorted_places(rows.len(), newest_row_leq(rows)).map_values(|i: int| rows[i])
}

/// The rows of the passes that succeeded, in order.
pub open spec fn pass_rows(passes: Seq<Option<SyncPass>>) -> Seq<MessageOutModel>
    decreases passes.len(),
{
    if passes.len() == 0 {
        Seq::empty()
    } else {
        let before = pass_rows(passes.drop_last());
        match passes.last() {
            Some(p) => before + out_views(p.rows@),
            None => before,
        }
    }
}

fn gather_rows(passes: &Vec<Option<SyncPass>>) -> (r: Vec<MessageOut>)
    ensures
        out_views(r@) == pass_rows(passes@),
{
    let mut r: Vec<MessageOut> = Vec::new();
    let mut i: usize = 0;
    assert(out_views(r@) =~= pass_rows(passes@.take(0)));
    while i < passes.len()
        invariant
            i <= passes.len(),
            out_views(r@) == pass_rows(passes@.take(i as int)),
        decreases passes.len() - i,
    {
        assert(passes@.take(i + 1).drop_last() =~= passes@.take(i as int));
        if let Some(p) = &passes[i] {
            let ghost before = out_views(r@);
            let ghost rows = out_views(p.rows@);
            let mut j: usize = 0;
            assert(before =~= before + rows.take(0));
            while j < p.rows.len()
                invariant
                    j <= p.rows.len(),
                    rows == out_views(p.rows@),
                    out_views(r@) == before + rows.take(j as int),
                decreases p.rows.len() - j,
            {
                let ghost was = r@;
                let row = p.rows[j].clone();
                let ghost v = row@;
                r.push(row);
                assert(out_views(r@) =~= out_views(was).push(v));
                assert(before + rows.take(j + 1) =~= (before + rows.take(j as int)).push(v));
                j += 1;
            }
            assert(rows.take(rows.len() as int) =~= rows);
        }
        i += 1;
    }
    assert(passes@.take(passes@.len() as int) =~= passes@);
    r
}

/// What a manual sync over every account brought, newest first: `None` stands for an
/// account whose pass failed.
pub fn sync_all(passes: &Vec<Option<SyncPass>>) -> (r: Vec<MessageOut>)
    ensures
        out_views(r@) == newest_rows(pass_rows(passes@)),
{
    let rows = gather_rows(passes);
    let ghost all = out_views(rows@);
    let le = |i: usize, j: usize| -> (b: bool)
        requires
            i < rows.len(),
            j < rows.len(),
        ensures
            b == (newest_row_leq(out_views(rows@)))(i as int, j as int),
        {
            let a = &rows[i];
            let c = &rows[j];
            if a.create_time != c.create_time {
                a.create_time > c.create_time
            } else if a.local_id != c.local_id {
                a.local_id > c.local_id
            } else {
                i <= j
            }
        };
    assert(total_ordering(newest_row_leq(all)));
    let order = sort_places(rows.len(), le, Ghost(newest_row_leq(all)));
    let mut r: Vec<MessageOut> = Vec::new();
    let mut i: usize = 0;
    while i < order.len()
        invariant
            i <= order.len(),
            order.len() == rows.len(),
            r.len() == i,
            all == out_views(rows@),
            ints(order@) == sorted_places(all.len(), newest_row_leq(all)),
            forall|k: int| 0 <= k < order.len() ==> #[trigger] order@[k] < rows.len(),
            forall|k: int| 0 <= k < i ==> (#[trigger] r@[k])@ == all[order@[k] as int],
        decreases order.len() - i,
    {
        r.push(rows[order[i]].clone());
        i += 1;
    }
    proof {
        let places = sorted_places(all.len(), newest_row_leq(all));
        assert forall|k: int| 0 <= k < r.len() implies (#[trigger] r@[k])@ == all[places[k]] by {
            assert(ints(order@)[k] == order@[k]);
        }
        assert(out_views(r@) =~= newest_rows(all));
    }
    r
}

/// A manual sync tells every row of the passes that succeeded, newest first.
pub proof fn law_synced_rows_are_newest_first(rows: Seq<MessageOutModel>)
    ensures
        newest_rows(rows).len() == rows.len(),
        newest_rows(rows).to_multiset() == rows.to_multiset(),
        forall|i: int, j: int|
            0 <= i <= j < rows.len() ==> row_not_older(
                #[trigger] newest_rows(rows)[i],
                #[trigger] newest_rows(rows)[j],
            ),
{
    let leq = newest_row_leq(rows);
    assert(total_ordering(leq));
    law_sorted_places(rows.len(), leq);
    let order = sorted_places(rows.len(), leq);
    let at = |i: int| rows[i];
    assert(newest_rows(rows) =~= order.map_values(at));
    lemma_map_multiset(order, places(rows.len()), at);
    assert(places(rows.len()).map_values(at) =~= rows);
    assert forall|i: int, j: int| 0 <= i <= j < rows.len() implies row_not_older(
        #[trigger] newest_rows(rows)[i],
        #[trigger] newest_rows(rows)[j],
    ) by {
        if i < j {
            assert(leq(order[i], order[j]));
        }
    }
}

/// Re-read the name maps: `profiles`, `msg` and `siblings` are the tables of the profile
/// databases, the message database and the sibling databases.
pub fn refresh_names(
    store: &mut Store,
    profiles: &Vec<Vec<TableData>>,
    msg: &Vec<TableData>,
    siblings: &Vec<Vec<TableData>>,
)
    requires
        old(store).wf(),
    ensures
        final(store).wf(),
        final(store)@ == (StoreModel {
            names: loaded_names(profiles@, msg@, siblings@, known_of(old(store)@.convs)),
            ..old(store)@
        }),
{
    let known = KnownKeys::from_store(store);
    store.names = load_names(profiles, msg, siblings, &known);
}

/// The root whose cache is scanned: the store's own, else the one that the database
/// directory gives.
pub fn cache_root(store: &Store, derived: Option<String>) -> (r: Option<String>)
    ensures
        opt_view(r) == if store@.media_root is Some {
            store@.media_root
        } else {
            opt_view(derived)
        },
{
    match &store.media_root {
        Some(root) => Some(root.clone()),
        None => derived,
    }
}

/// Replace the cache snapshot by a fresh one (`None` where the root could not be read),
/// and register what the previous one missed.
pub fn refresh_media_fallback(store: &mut Store, index: Option<CacheIndex>, disk: &Disk)
    requires
        old(store).wf(),
        disk.wf(),
        index is Some ==> index->0.wf(),
    ensures
        final(store).wf(),
        final(store)@ == with_media(
            StoreModel { media_fallback: index, ..old(store)@ },
            pending_media(old(store)@.media, old(store)@.convs),
            *disk,
        ),
{
    store.media_fallback = index;
    reapply_media_registration(store, disk);
}

/// The state of the source that change detection compares: that of the log, else that of
/// the main file (modification time in milliseconds and size).
pub fn wal_snapshot(wal: Option<(u64, u64)>, main: Option<(u64, u64)>) -> (r: Option<(u64, u64)>)
    ensures
        r == (if wal is Some {
            wal
        } else {
            main
        }),
{
    match wal {
        Some(s) => Some(s),
        None => main,
    }
}

/// Change detection between passes: whether the last one failed, and the source log as it
/// was last seen (modification time in milliseconds and size).
#[derive(Debug, Clone, Copy)]
pub struct ChangeDetector {
    pub retry: bool,
    pub last_wal: Option<(u64, u64)>,
}

impl ChangeDetector {
    /// Nothing seen yet.
    pub fn new() -> (r: Self)
        ensures
            !r.retry,
            r.last_wal is None,
    {
        ChangeDetector { retry: false, last_wal: None }
    }

    /// Notes how a pass ended: a failed one is retried on the next trigger.
    pub fn finished(&mut self, ok: bool)
        ensures
            *final(self) == (ChangeDetector { retry: old(self).retry || !ok, ..*old(self) }),
    {
        if !ok {
            self.retry = true;
        }
    }

    /// Whether a pass is worth running: right after a failed one, while the connection is
    /// closed, or when the source log changed since the last look.
    pub fn changed(&mut self, open: bool, wal: Option<(u64, u64)>) -> (r: bool)
        ensures
            r == (old(self).retry || !open || (wal is Some && wal != old(self).last_wal)),
            !final(self).retry,
            final(self).last_wal == (if !old(self).retry && open && wal is Some {
                wal
            } else {
                old(self).last_wal
            }),
    {
        if self.retry || !open {
            self.retry = false;
            return true;
        }
        match wal {
            Some(snap) => {
                let differs = match self.last_wal {
                    Some(last) => last.0 != snap.0 || last.1 != snap.1,
                    None => true,
                };
                if differs {
                    self.last_wal = Some(snap);
                }
                differs
            },
            None => false,
        }
    }
}

/// The event of a record tells the record: the conversation is the record's talker and no
/// one else, whoever sent it, and every other field is the record's own.
pub proof fn law_events_tell_their_records(s: StoreModel, r: RecordModel)
    ensures
        ({
            let e = event_of(s, r);
            &&& e.session_id == r.talker
            &&& r.chat_type is Group ==> e.session_type == "group"@
            &&& r.chat_type is C2c ==> e.session_type == "private"@
            &&& r.parsed.msg_type is Recall ==> e.event == "message.revoke"@
            &&& !(r.parsed.msg_type is Recall) ==> e.event == "message.new"@
            &&& crate::text::signed_value(e.rawid) == Some(r.rowid as int)
            &&& e.content == r.parsed.content
            &&& e.timestamp == r.ts
            &&& e.group_name == Some(s.session_name(r.chat_type, r.talker))
            &&& r.from_uid.len() > 0 ==> e.source_name == Some(
                s.sender_name(r.chat_type, r.talker, r.from_uid),
            )
            &&& r.from_uid.len() == 0 ==> e.source_name == Some(Seq::<char>::empty())
            &&& e.avatar_url is None
            &&& e.last_rowid_group is None && e.last_rowid_c2c is None
        }),
{
    crate::text::law_decimal_value(r.rowid as int);
}

/// A message's event carries its media, but for the path on disk; that of a recall carries
/// none.
pub proof fn law_events_carry_their_media(s: StoreModel, r: RecordModel, m: MediaModel)
    requires
        r.parsed.media == Some(m),
    ensures
        ({
            let e = event_of(s, r);
            &&& r.parsed.msg_type is Recall ==> e.media is None && e.media_id is None
            &&& !(r.parsed.msg_type is Recall) ==> {
                &&& e.media is Some
                &&& e.media->0.uuid == m.uuid
                &&& e.media->0.md5 == m.md5
                &&& e.media->0.file_name == m.file_name
                &&& e.media->0.size == m.size
                &&& e.media->0.width == m.width
                &&& e.media->0.height == m.height
                &&& e.media->0.urls == m.urls
                &&& m.key is Some && assoc(s.media, m.key->0) is Some ==> e.media_id == m.key
                &&& m.key is None || assoc(s.media, m.key->0) is None ==> e.media_id is None
            }
        }),
{
}

/// A message without media has an event without media.
pub proof fn law_events_without_media(s: StoreModel, r: RecordModel)
    requires
        r.parsed.media is None,
    ensures
        event_of(s, r).media is None,
        event_of(s, r).media_id is None,
{
}

/// All messages of one conversation carry one session id and one name of it, whoever sent
/// them and whatever they are.
pub proof fn law_one_session_id_per_conversation(s: StoreModel, a: RecordModel, b: RecordModel)
    requires
        a.chat_type == b.chat_type,
    ensures
        a.talker == b.talker ==> event_of(s, a).session_id == event_of(s, b).session_id && event_of(
            s,
            a,
        ).session_type == event_of(s, b).session_type && event_of(s, a).group_name == event_of(
            s,
            b,
        ).group_name,
        a.talker != b.talker ==> event_of(s, a).session_id != event_of(s, b).session_id,
{
}

/// A group's event and a private chat's are never of one session type.
pub proof fn law_session_types_differ(s: StoreModel, a: RecordModel, b: RecordModel)
    ensures
        event_of(s, a).session_type == event_of(s, b).session_type <==> a.chat_type == b.chat_type,
{
    reveal_strlit("group");
    reveal_strlit("private");
    assert("group"@[0] == 'g' && "private"@[0] == 'p');
}

/// After a pass, the conversation that an event's session id and type lead to holds the
/// event's record.
pub proof fn law_events_lead_to_their_conversations(
    s: StoreModel,
    media_root: Option<Seq<char>>,
    group: Seq<RecordModel>,
    c2c: Seq<RecordModel>,
    disk: Disk,
    r: RecordModel,
)
    requires
        (group + c2c).contains(r),
    ensures
        ({
            let after = synced(s, media_root, group, c2c, disk);
            let e = event_of(after, r);
            let chat_type = if e.session_type == "group"@ {
                ChatType::Group
            } else {
                ChatType::C2c
            };
            crate::store::index::messages_in(after, chat_type, e.session_id).contains(r)
        }),
{
    let after = synced(s, media_root, group, c2c, disk);
    let rooted = StoreModel {
        media_root: if s.media_root is None {
            media_root
        } else {
            s.media_root
        },
        ..s
    };
    let filled = with_records(with_records(rooted, group, disk), c2c, disk);
    law_session_types_differ(after, r, r);
    reveal_strlit("group");
    reveal_strlit("private");
    assert("group"@[0] == 'g' && "private"@[0] == 'p');
    crate::store::index::law_apply_is_incremental(rooted, group, c2c, disk);
    crate::store::index::law_records_land_in_their_conversations(
        rooted,
        group + c2c,
        disk,
        r.chat_type,
        r.talker,
    );
    crate::store::index::law_records_of_one_conversation(group + c2c, r.chat_type, r.talker);
    let got = crate::store::index::messages_in(filled, r.chat_type, r.talker);
    let old_msgs = crate::store::index::messages_in(rooted, r.chat_type, r.talker);
    let new_msgs = crate::store::index::records_in(group + c2c, r.chat_type, r.talker);
    assert(new_msgs.contains(r));
    let i = choose|i: int| 0 <= i < new_msgs.len() && new_msgs[i] == r;
    assert(got[old_msgs.len() + i] == r);
    assert(crate::store::index::messages_in(after, r.chat_type, r.talker) == got);
}

/// There is one event for each record, in the records' order.
pub proof fn law_one_event_per_record(s: StoreModel, rs: Seq<RecordModel>, i: int)
    requires
        0 <= i < rs.len(),
    ensures
        events_of(s, rs).len() == rs.len(),
        events_of(s, rs)[i].session_id == rs[i].talker,
        events_of(s, rs)[i].content == rs[i].parsed.content,
        events_of(s, rs)[i].timestamp == rs[i].ts,
        crate::text::signed_value(events_of(s, rs)[i].rawid) == Some(rs[i].rowid as int),
{
    law_events_tell_their_records(s, rs[i]);
}

/// A pass keeps the media root that the store has, and takes the given one where it has
/// none. Group records move the group's watermark alone, private ones the private one.
pub proof fn law_passes_keep_to_their_tables(
    s: StoreModel,
    media_root: Option<Seq<char>>,
    rs: Seq<RecordModel>,
    disk: Disk,
)
    ensures
        ({
            let g = synced(s, media_root, rs, Seq::empty(), disk);
            let c = synced(s, media_root, Seq::empty(), rs, disk);
            &&& g.watermark_c2c == s.watermark_c2c
            &&& c.watermark_group == s.watermark_group
            &&& forall|i: int|
                0 <= i < rs.len() ==> (#[trigger] rs[i]).rowid <= g.watermark_group && rs[i].rowid
                    <= c.watermark_c2c
            &&& s.media_root is Some ==> g.media_root == s.media_root && c.media_root
                == s.media_root
            &&& s.media_root is None ==> g.media_root == media_root && c.media_root == media_root
            &&& g.names == s.names && c.names == s.names
            &&& g.media_fallback == s.media_fallback && c.media_fallback == s.media_fallback
        }),
{
    let rooted = StoreModel {
        media_root: if s.media_root is None {
            media_root
        } else {
            s.media_root
        },
        ..s
    };
    lemma_with_records_frame(rooted, rs, disk);
    lemma_with_records_frame(rooted, Seq::empty(), disk);
    lemma_with_records_frame(with_records(rooted, rs, disk), Seq::empty(), disk);
    lemma_with_records_frame(with_records(rooted, Seq::empty(), disk), rs, disk);
    crate::store::index::law_watermark_covers_records(s.watermark_group, rs);
    crate::store::index::law_watermark_covers_records(s.watermark_c2c, rs);
}

/// Every row that a pass found is counted once: with the recalls where its record is one,
/// else with the new messages.
pub proof fn law_counts_of_rows(s: StoreModel, rs: Seq<RecordModel>)
    ensures
        counts_of(shown_rows(s, rs)).0 == rs.filter(
            |r: RecordModel| !(r.parsed.msg_type is Recall),
        ).len(),
        counts_of(shown_rows(s, rs)).1 == rs.filter(
            |r: RecordModel| r.parsed.msg_type is Recall,
        ).len(),
    decreases rs.len(),
{
    reveal(Seq::filter);
    if rs.len() > 0 {
        law_counts_of_rows(s, rs.drop_last());
        assert(shown_rows(s, rs).drop_last() =~= shown_rows(s, rs.drop_last()));
        assert(shown_rows(s, rs).last() == shown_row(s, rs.last()));
        crate::store::query::law_rows_tell_their_records(s, rs.last());
        crate::parser::types::law_code_round_trip(MsgType::Recall);
    }
}

/// A sync of several accounts hands out exactly the rows that some account's pass found;
/// one whose pass failed adds none.
pub proof fn law_all_passes_are_gathered(passes: Seq<Option<SyncPass>>, m: MessageOutModel)
    ensures
        newest_rows(pass_rows(passes)).contains(m) <==> exists|i: int, j: int|
            0 <= i < passes.len() && passes[i] is Some && 0 <= j < passes[i]->0.rows@.len()
                && #[trigger] passes[i]->0.rows@[j]@ == m,
{
    lemma_gathered(passes, m);
    let rows = pass_rows(passes);
    law_synced_rows_are_newest_first(rows);
    rows.to_multiset_ensures();
    newest_rows(rows).to_multiset_ensures();
    assert(newest_rows(rows).contains(m) <==> newest_rows(rows).to_multiset().count(m) > 0);
    assert(rows.contains(m) <==> rows.to_multiset().count(m) > 0);
}

proof fn lemma_gathered(passes: Seq<Option<SyncPass>>, m: MessageOutModel)
    ensures
        pass_rows(passes).contains(m) <==> exists|i: int, j: int|
            0 <= i < passes.len() && passes[i] is Some && 0 <= j < passes[i]->0.rows@.len()
                && #[trigger] passes[i]->0.rows@[j]@ == m,
    decreases passes.len(),
{
    if passes.len() > 0 {
        let n = passes.len() - 1;
        let front = passes.drop_last();
        lemma_gathered(front, m);
        let before = pass_rows(front);
        let after = pass_rows(passes);
        if after.contains(m) {
            let k = choose|k: int| 0 <= k < after.len() && after[k] == m;
            if k < before.len() {
                assert(before[k] == m);
                let (i, j) = choose|i: int, j: int|
                    0 <= i < front.len() && front[i] is Some && 0 <= j < front[i]->0.rows@.len()
                        && #[trigger] front[i]->0.rows@[j]@ == m;
                assert(passes[i]->0.rows@[j]@ == m);
            } else {
                let j = k - before.len();
                assert(passes[n]->0.rows@[j]@ == m);
            }
        }
        if exists|i: int, j: int|
            0 <= i < passes.len() && passes[i] is Some && 0 <= j < passes[i]->0.rows@.len()
                && #[trigger] passes[i]->0.rows@[j]@ == m {
            let (i, j) = choose|i: int, j: int|
                0 <= i < passes.len() && passes[i] is Some && 0 <= j < passes[i]->0.rows@.len()
                    && #[trigger] passes[i]->0.rows@[j]@ == m;
            if i == n {
                assert(after[before.len() + j] == m);
            } else {
                assert(front[i]->0.rows@[j]@ == m);
                let k = choose|k: int| 0 <= k < before.len() && before[k] == m;
                assert(after[k] == m);
            }
        }
    }
}

} // verus!

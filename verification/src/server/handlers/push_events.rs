//! Event stream: `ready` first, then what was missed, then a `sync` baseline, then new
//! messages and recalls.

use vstd::prelude::*;

use crate::server::handlers::chatlab_pull::number_param;
use crate::server::{frames, replay_of, HistoryBuf, HistoryModel, HISTORY_MAX};
use crate::store::{Store, StoreModel};
use crate::sync::events::{sync_event, Event, EventModel};
use crate::text::{decimal, opt_str_view, parse_unsigned};

verus! {

/// Request parameters.
#[derive(Debug)]
pub struct Params {
    pub access_token: Option<String>,
    /// The last event id seen, for clients that cannot set the header.
    pub last_event_id: Option<String>,
}

impl Default for Params {
    fn default() -> (r: Self)
        ensures
            r.access_token is None,
            r.last_event_id is None,
    {
        Params { access_token: None, last_event_id: None }
    }
}

/// The last event id that a client has seen: the header's, else the parameter's, else
/// none.
pub open spec fn last_seen(header: Option<Seq<char>>, param: Option<Seq<char>>) -> int {
    match number_param(header) {
        Some(n) => n,
        None => match number_param(param) {
            Some(n) => n,
            None => 0,
        },
    }
}

/// The last event id that a client has seen.
pub fn last_event_id(header: Option<&str>, param: Option<&str>) -> (r: u64)
    ensures
        r == last_seen(opt_str_view(header), opt_str_view(param)),
{
    if let Some(s) = header {
        if let Some(n) = parse_unsigned(s, u64::MAX) {
            return n;
        }
    }
    if let Some(s) = param {
        if let Some(n) = parse_unsigned(s, u64::MAX) {
            return n;
        }
    }
    0
}

/// What a frame of the stream carries.
#[derive(Debug)]
pub enum FrameData {
    /// A text that is sent as it is.
    Text(String),
    /// An event that is sent in JSON.
    Event(Event),
}

/// One frame of the stream.
#[derive(Debug)]
pub struct Frame {
    /// The event's place in the replay history; a client sends it back to resume.
    pub id: Option<u64>,
    pub name: String,
    pub data: FrameData,
}

/// What a [`FrameData`] holds.
pub enum FrameDataModel {
    Text(Seq<char>),
    Event(EventModel),
}

/// What a [`Frame`] holds.
pub struct FrameModel {
    pub id: Option<u64>,
    pub name: Seq<char>,
    pub data: FrameDataModel,
}

impl View for Frame {
    type V = FrameModel;

    open spec fn view(&self) -> FrameModel {
        FrameModel {
            id: self.id,
            name: self.name@,
            data: match self.data {
                FrameData::Text(s) => FrameDataModel::Text(s@),
                FrameData::Event(e) => FrameDataModel::Event(e@),
            },
        }
    }
}

/// The frames of a list.
pub open spec fn frame_views(v: Seq<Frame>) -> Seq<FrameModel> {
    v.map_values(|f: Frame| f@)
}

/// The first frame of every stream.
pub open spec fn ready_frame() -> FrameModel {
    FrameModel { id: None, name: "ready"@, data: FrameDataModel::Text("{\"status\":\"ok\"}"@) }
}

/// The frame of an event of the history.
pub open spec fn history_frame(e: (u64, Seq<char>, Seq<char>)) -> FrameModel {
    FrameModel { id: Some(e.0), name: e.1, data: FrameDataModel::Text(e.2) }
}

/// The frames of events of the history.
pub open spec fn history_frames(es: Seq<(u64, Seq<char>, Seq<char>)>) -> Seq<FrameModel> {
    es.map_values(|e: (u64, Seq<char>, Seq<char>)| history_frame(e))
}

/// The frame that tells the current watermarks. It has no id: it belongs to one subscriber
/// and takes no place in the history.
pub open spec fn baseline_frame(s: StoreModel, now: i64) -> FrameModel {
    FrameModel {
        id: None,
        name: "sync"@,
        data: FrameDataModel::Event(sync_event(s.watermark_group, s.watermark_c2c, now)),
    }
}

/// The frame that tells the current watermarks: the baseline of a connection, and of a
/// subscriber that fell behind.
pub fn baseline(store: &Store, now: i64) -> (r: Frame)
    ensures
        r@ == baseline_frame(store@, now),
{
    Frame {
        id: None,
        name: "sync".to_owned(),
        data: FrameData::Event(Event::sync(store.watermark_group, store.watermark_c2c, now)),
    }
}

/// What a stream begins with: `ready`, then the events above `last_id` that are still in the
/// replay window, then the baseline. `now_ms` is the history's clock, `now` the time in
/// seconds.
pub fn opening(history: &HistoryBuf, store: &Store, last_id: u64, now_ms: u64, now: i64) -> (r: Vec<
    Frame,
>)
    ensures
        frame_views(r@) == seq![ready_frame()] + history_frames(
            frames(replay_of(history.events(), last_id, now_ms)),
        ) + seq![baseline_frame(store@, now)],
{
    let mut r: Vec<Frame> = Vec::new();
    r.push(
        Frame {
            id: None,
            name: "ready".to_owned(),
            data: FrameData::Text("{\"status\":\"ok\"}".to_owned()),
        },
    );
    let replay = history.replay_since(last_id, now_ms);
    let ghost all = crate::server::replay_views(replay@);
    let ghost mut i: int = 0;
    assert(frame_views(r@) =~= seq![ready_frame()] + history_frames(all.take(0)));
    for e in it: replay
        invariant
            it.seq() == replay@,
            all == crate::server::replay_views(replay@),
            i == it.index(),
            frame_views(r@) == seq![ready_frame()] + history_frames(all.take(i)),
    {
        let ghost before = r@;
        let (id, name, payload) = e;
        let f = Frame { id: Some(id), name, data: FrameData::Text(payload) };
        let ghost v = f@;
        r.push(f);
        proof {
            assert(all.take(i + 1) =~= all.take(i).push(all[i]));
            assert(v == history_frame(all[i]));
            assert(history_frames(all.take(i + 1)) =~= history_frames(all.take(i)).push(v));
            assert(frame_views(r@) =~= frame_views(before).push(v));
            assert(frame_views(r@) =~= seq![ready_frame()] + history_frames(all.take(i + 1)));
            i = i + 1;
        }
    }
    assert(all.take(all.len() as int) =~= all);
    let ghost before = r@;
    let b = baseline(store, now);
    let ghost v = b@;
    r.push(b);
    assert(frame_views(r@) =~= frame_views(before) + seq![v]);
    r
}

/// The frame of an event that was pushed: it takes the next place in the history. `None`
/// where the ids are used up.
pub fn live(history: &mut HistoryBuf, name: String, payload: String, now_ms: u64) -> (r: Option<Frame>)
    requires
        old(history).wf(),
    ensures
        final(history).wf(),
        r is Some == (old(history).last() < u64::MAX),
        r is None ==> *final(history) == *old(history),
        r is Some ==> {
            let id = (old(history).last() + 1) as u64;
            let all = old(history).events().push(
                HistoryModel { id, at: now_ms, name: name@, payload: payload@ },
            );
            &&& r->0@ == history_frame((id, name@, payload@))
            &&& final(history).last() == id
            &&& final(history).events() == if all.len() > HISTORY_MAX {
                all.drop_first()
            } else {
                all
            }
        },
{
    if history.last_id() == u64::MAX {
        return None;
    }
    let id = history.append(name.clone(), payload.clone(), now_ms);
    Some(Frame { id: Some(id), name, data: FrameData::Text(payload) })
}

/// A client that resumes with the id of the last frame it got is sent the events after it,
/// and none that it has seen.
pub proof fn law_resume_repeats_nothing(items: Seq<HistoryModel>, last_id: u64, now_ms: u64)
    ensures
        forall|i: int|
            0 <= i < replay_of(items, last_id, now_ms).len() ==> (#[trigger] history_frames(
                frames(replay_of(items, last_id, now_ms)),
            )[i]).id->0 > last_id,
{
    crate::server::law_replay_sends_newer_ids_only(items, last_id, now_ms);
    let kept = replay_of(items, last_id, now_ms);
    assert forall|i: int| 0 <= i < kept.len() implies (#[trigger] history_frames(frames(kept))[i]).id->0
        > last_id by {
        assert(crate::server::replayed(kept[i], last_id, now_ms));
    }
}

/// A client's last event is told by the header where that reads as a number, else by the
/// parameter where that does, else it is none.
pub proof fn law_last_event_ids(n: u64, m: u64, s: Seq<char>)
    requires
        crate::text::unsigned_value(s) is None,
    ensures
        last_seen(Some(decimal(n as int)), Some(decimal(m as int))) == n,
        last_seen(Some(decimal(n as int)), None) == n,
        last_seen(None, Some(decimal(m as int))) == m,
        last_seen(Some(s), Some(decimal(m as int))) == m,
        last_seen(Some(s), Some(s)) == 0,
        last_seen(None, None) == 0,
{
    crate::text::lemma_decimal_nat_value(n as nat);
    crate::text::lemma_decimal_nat_value(m as nat);
    crate::text::law_decimal_value(n as int);
    crate::text::law_decimal_value(m as int);
}

/// The frames of a stream: the greeting has no id, a kept event is sent under its own id and
/// name, and the baseline tells both watermarks and the time.
pub proof fn law_stream_frames(e: (u64, Seq<char>, Seq<char>), s: StoreModel, now: i64)
    ensures
        ready_frame().id is None,
        ready_frame().name == "ready"@,
        history_frame(e).id == Some(e.0),
        history_frame(e).name == e.1,
        history_frame(e).data == FrameDataModel::Text(e.2),
        baseline_frame(s, now).id is None,
        baseline_frame(s, now).name == "sync"@,
        baseline_frame(s, now).data is Event,
        ({
            let b = baseline_frame(s, now).data->Event_0;
            &&& b.event == "sync"@
            &&& b.last_rowid_group == Some(s.watermark_group)
            &&& b.last_rowid_c2c == Some(s.watermark_c2c)
            &&& b.timestamp == now
        }),
{
}

} // verus!

//! Decisions of the file-system-event-driven sync trigger: which files matter, and what
//! each event of the watch loop calls for.

use vstd::prelude::*;

use crate::text::{lower_ascii, lower_seq, same};

verus! {

/// Watch behavior for one account, in milliseconds.
#[derive(Debug, Clone, Copy, PartialEq, Eq, Structural)]
pub struct WatchConfig {
    /// How long an event burst must quiet down before a sync runs.
    pub debounce: u64,
    /// Slow fallback poll interval; `None` disables it.
    pub fallback: Option<u64>,
}

impl Default for WatchConfig {
    /// The defaults without the fallback poll.
    fn default() -> (r: Self)
        ensures
            r == (WatchConfig { debounce: 350, fallback: None }),
    {
        WatchConfig { debounce: 350, fallback: None }
    }
}

/// Re-attach retry interval when the fallback poll is disabled, in milliseconds.
pub const REATTACH_INTERVAL_MS: u64 = 10000;

impl WatchConfig {
    /// The watch behavior of the configured intervals: a fallback of 0 disables it.
    pub fn from_millis(debounce: u64, fallback: u64) -> (r: Self)
        ensures
            r.debounce == debounce,
            r.fallback == (if fallback > 0 {
                Some(fallback)
            } else {
                None
            }),
    {
        WatchConfig {
            debounce,
            fallback: if fallback > 0 {
                Some(fallback)
            } else {
                None
            },
        }
    }

    /// How often the loop ticks: one interval drives the fallback poll and the re-attach,
    /// which must run where the poll is disabled too.
    pub fn tick_interval(&self) -> (r: u64)
        ensures
            r == (match self.fallback {
                Some(f) => f,
                None => REATTACH_INTERVAL_MS,
            }),
    {
        match self.fallback {
            Some(f) => f,
            None => REATTACH_INTERVAL_MS,
        }
    }
}

/// A source file whose changes trigger a sync, whatever the letter case of its name.
pub open spec fn watched(name: Seq<char>) -> bool {
    let n = lower_seq(name);
    n == "nt_msg.db"@ || n == "nt_msg.db-wal"@ || n == "nt_msg.db-shm"@
}

/// Whether a file's changes trigger a sync.
pub fn is_relevant(name: &str) -> (r: bool)
    ensures
        r == watched(name@),
{
    let lower = lower_ascii(name);
    let n = lower.as_str();
    same(n, "nt_msg.db") || same(n, "nt_msg.db-wal") || same(n, "nt_msg.db-shm")
}

/// What happened in the watch loop.
#[derive(Debug, Clone, Copy, PartialEq, Eq, Structural)]
pub enum WatchEvent {
    /// The service shuts down.
    Shutdown,
    /// Watched files changed; whether a backend error stood in the same burst.
    Changed { backend_error: bool },
    /// The watch backend failed.
    BackendError,
    /// The interval ticked; whether change detection says that something changed.
    Tick { changed: bool },
}

/// What the watch loop does next, in this order.
#[derive(Debug, Clone, Copy, PartialEq, Eq, Structural)]
pub struct WatchAction {
    pub stop: bool,
    pub detach: bool,
    pub attach: bool,
    pub sync: bool,
}

/// What an event calls for, given whether a watcher is attached and the fallback poll
/// enabled.
pub open spec fn reaction(attached: bool, fallback: bool, e: WatchEvent) -> WatchAction {
    match e {
        WatchEvent::Shutdown => WatchAction { stop: true, detach: true, attach: false, sync: false },
        WatchEvent::Changed { backend_error } => WatchAction {
            stop: false,
            detach: backend_error,
            attach: false,
            sync: true,
        },
        WatchEvent::BackendError => WatchAction {
            stop: false,
            detach: true,
            attach: false,
            sync: false,
        },
        WatchEvent::Tick { changed } => WatchAction {
            stop: false,
            detach: false,
            attach: !attached,
            sync: fallback && changed,
        },
    }
}

/// What an event calls for. A burst is coalesced into one sync; a dead watcher is attached
/// again on the next tick.
pub fn react(attached: bool, fallback: bool, e: WatchEvent) -> (r: WatchAction)
    ensures
        r == reaction(attached, fallback, e),
{
    match e {
        WatchEvent::Shutdown => WatchAction { stop: true, detach: true, attach: false, sync: false },
        WatchEvent::Changed { backend_error } => WatchAction {
            stop: false,
            detach: backend_error,
            attach: false,
            sync: true,
        },
        WatchEvent::BackendError => WatchAction {
            stop: false,
            detach: true,
            attach: false,
            sync: false,
        },
        WatchEvent::Tick { changed } => WatchAction {
            stop: false,
            detach: false,
            attach: !attached,
            sync: fallback && changed,
        },
    }
}

/// A watcher that died is attached again by the next tick, with or without the fallback
/// poll.
pub proof fn law_dead_watcher_is_reattached(fallback: bool, changed: bool)
    ensures
        reaction(true, fallback, WatchEvent::BackendError).detach,
        reaction(false, fallback, WatchEvent::Tick { changed }).attach,
{
}

/// The files that are watched are the message database, its log and its shared memory, in
/// letters of any size.
pub proof fn law_watched_files(name: Seq<char>)
    ensures
        watched(name) <==> lower_seq(name) == "nt_msg.db"@ || lower_seq(name) == "nt_msg.db-wal"@
            || lower_seq(name) == "nt_msg.db-shm"@,
        watched(name) == watched(lower_seq(name)),
{
    crate::text::law_lower(name);
}

/// The loop stops at a shutdown alone. It syncs at a change, and at a tick that found one
/// where the fallback poll is on. It lets go of the watcher at a shutdown and where the
/// backend failed, and takes a new one at a tick without one.
pub proof fn law_reactions(attached: bool, fallback: bool, e: WatchEvent)
    ensures
        ({
            let a = reaction(attached, fallback, e);
            &&& a.stop <==> e is Shutdown
            &&& a.sync <==> e is Changed || (fallback && e == (WatchEvent::Tick { changed: true }))
            &&& a.detach <==> e is Shutdown || e is BackendError || e == (WatchEvent::Changed {
                backend_error: true,
            })
            &&& a.attach <==> e is Tick && !attached
        }),
{
}

} // verus!

//! States of the long-lived read-only connection to the source database.
//!
//! The connection stays open across polls. On fatal errors the handle is dropped and a
//! reopen is armed after a cooldown, so that a broken database is not hammered.

use vstd::prelude::*;

verus! {

/// Cooldown before reopening after a fatal error, in milliseconds.
pub const REOPEN_COOLDOWN_MS: u64 = 15000;

/// Whether the connection is open, and until when reopening is refused.
#[derive(Debug, Clone, Copy, PartialEq, Eq, Structural)]
pub struct LiveReader {
    pub open: bool,
    pub reopen_after: Option<u64>,
}

/// What to do to get at the connection.
#[derive(Debug, Clone, Copy, PartialEq, Eq, Structural)]
pub enum Acquire {
    /// It is open.
    Use,
    /// Open it now, then tell [`LiveReader::opened`].
    Open,
    /// The cooldown is still running.
    Refuse,
}

impl LiveReader {
    /// A reader whose connection was never opened.
    pub fn new() -> (r: Self)
        ensures
            !r.open,
            r.reopen_after is None,
    {
        LiveReader { open: false, reopen_after: None }
    }

    /// Whether the connection is open.
    pub fn is_open(&self) -> (r: bool)
        ensures
            r == self.open,
    {
        self.open
    }

    /// What acquiring the connection takes at a time.
    pub open spec fn step(self, now: u64) -> Acquire {
        if self.open {
            Acquire::Use
        } else if self.reopen_after is Some && now < self.reopen_after->0 {
            Acquire::Refuse
        } else {
            Acquire::Open
        }
    }

    /// What acquiring the connection takes at a time. An open that fails arms no
    /// cooldown.
    pub fn acquire(&self, now: u64) -> (r: Acquire)
        ensures
            r == self.step(now),
    {
        if self.open {
            return Acquire::Use;
        }
        match self.reopen_after {
            Some(deadline) => if now < deadline {
                Acquire::Refuse
            } else {
                Acquire::Open
            },
            None => Acquire::Open,
        }
    }

    /// The connection was opened and its key verified.
    pub fn opened(&mut self)
        ensures
            *final(self) == (LiveReader { open: true, reopen_after: None }),
    {
        self.open = true;
        self.reopen_after = None;
    }

    /// The connection died on a fatal error: it is dropped and a cooldown runs.
    pub fn mark_fatal(&mut self, now: u64)
        requires
            now <= u64::MAX - REOPEN_COOLDOWN_MS,
        ensures
            *final(self) == (LiveReader {
                open: false,
                reopen_after: Some((now + REOPEN_COOLDOWN_MS) as u64),
            }),
    {
        self.open = false;
        self.reopen_after = Some(now + REOPEN_COOLDOWN_MS);
    }

    /// The source was recreated: the connection is dropped and reopens on the next
    /// acquire, without a cooldown.
    pub fn force_reopen(&mut self)
        ensures
            *final(self) == (LiveReader { open: false, reopen_after: None }),
    {
        self.open = false;
        self.reopen_after = None;
    }
}

/// After a fatal error at `failed` nothing is reopened before the cooldown is over, and
/// afterwards it is.
pub proof fn law_cooldown(failed: u64, now: u64)
    requires
        failed <= u64::MAX - REOPEN_COOLDOWN_MS,
    ensures
        ({
            let r = LiveReader {
                open: false,
                reopen_after: Some((failed + REOPEN_COOLDOWN_MS) as u64),
            };
            r.step(now) is Refuse <==> now < failed + REOPEN_COOLDOWN_MS
        }),
{
}

/// An open reader is used. A closed one is opened, unless it failed less than fifteen
/// seconds ago.
pub proof fn law_reader_steps(r: LiveReader, now: u64, failed: u64)
    ensures
        r.open ==> r.step(now) is Use,
        !r.open && r.reopen_after is None ==> r.step(now) is Open,
        !r.open && r.reopen_after is Some && now < r.reopen_after->0 ==> r.step(now) is Refuse,
        !r.open && r.reopen_after is Some && now >= r.reopen_after->0 ==> r.step(now) is Open,
        failed <= u64::MAX - 15_000 && now >= failed ==> (LiveReader {
            open: false,
            reopen_after: Some((failed + REOPEN_COOLDOWN_MS) as u64),
        }.step(now) is Refuse <==> now - failed < 15_000),
{
}

} // verus!

//! The idle rule: a response on which nothing arrives for too long has
//! timed out.
//!
//! Times are readings of one clock that does not run backwards, in whatever
//! unit the caller counts; the timer reads no clock itself.

use vstd::prelude::*;

verus! {

/// Whether a stream that was last active at `last` has been idle for
/// `limit` or longer at `now`.
pub open spec fn idle_expired(last: u64, limit: u64, now: u64) -> bool {
    now >= last && now - last >= limit
}

/// Watches how long a response has been silent.
#[derive(Clone, Copy, Debug, PartialEq, Eq, Structural)]
pub struct IdleTimer {
    pub limit: u64,
    pub last: u64,
}

impl IdleTimer {
    /// A timer that allows `limit` of silence, started at `now`.
    pub fn new(limit: u64, now: u64) -> (t: IdleTimer)
        ensures
            t == (IdleTimer { limit, last: now }),
    {
        IdleTimer { limit, last: now }
    }

    /// Something arrived at `now`. A reading that lies before the last one
    /// is not taken.
    pub fn touch(&mut self, now: u64)
        ensures
            final(self).limit == old(self).limit,
            final(self).last == if now >= old(self).last {
                now
            } else {
                old(self).last
            },
    {
        if now >= self.last {
            self.last = now;
        }
    }

    /// Whether the response has timed out at `now`.
    pub fn expired(&self, now: u64) -> (r: bool)
        ensures
            r == idle_expired(self.last, self.limit, now),
    {
        now >= self.last && now - self.last >= self.limit
    }
}

} // verus!

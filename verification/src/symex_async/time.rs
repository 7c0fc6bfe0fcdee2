//! Sleeping on the executor's virtual clock.
use vstd::prelude::*;

verus! {

/// A sleep until a deadline of the virtual clock.
#[derive(Debug, Clone, Copy, PartialEq, Eq, Structural)]
pub struct Sleep {
    pub deadline_ms: u64,
    pub registered: bool,
}

/// What polling a sleep asks for.
#[derive(Debug, Clone, Copy, PartialEq, Eq, Structural)]
pub enum SleepPoll {
    /// The deadline has passed.
    Ready,
    /// Register a timer for the deadline with the current waker; not ready.
    RegisterTimer(u64),
    /// Not ready; the timer is registered.
    Pending,
}

impl Sleep {
    /// A sleep of `duration_ms` from `now_ms` (the deadline saturates at the
    /// end of the clock).
    pub fn new(now_ms: u64, duration_ms: u64) -> (r: Self)
        ensures
            r.deadline_ms == (if now_ms + duration_ms > u64::MAX { u64::MAX as int } else { now_ms + duration_ms }),
            !r.registered,
    {
        Sleep { deadline_ms: now_ms.saturating_add(duration_ms), registered: false }
    }

    /// Polls the sleep at virtual time `now_ms`.
    pub fn poll_at(&mut self, now_ms: u64) -> (r: SleepPoll)
        ensures
            final(self).deadline_ms == old(self).deadline_ms,
            now_ms >= old(self).deadline_ms ==> r == SleepPoll::Ready && final(self).registered == old(self).registered,
            now_ms < old(self).deadline_ms && !old(self).registered ==> r == SleepPoll::RegisterTimer(old(self).deadline_ms)
                && final(self).registered,
            now_ms < old(self).deadline_ms && old(self).registered ==> r == SleepPoll::Pending && final(self).registered,
    {
        if now_ms >= self.deadline_ms {
            return SleepPoll::Ready;
        }
        if !self.registered {
            self.registered = true;
            return SleepPoll::RegisterTimer(self.deadline_ms);
        }
        SleepPoll::Pending
    }
}

} // verus!

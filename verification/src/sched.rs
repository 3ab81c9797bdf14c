//! Refresh scheduling: decides, from a millisecond clock value supplied by the
//! caller, whether the next refresh cycle is due. The caller runs the actual
//! timer and input loop; this type only holds the decision logic, so that
//! "refresh every period, first refresh immediately" is stated exactly.

use vstd::prelude::*;

verus! {

/// Tracks when the next refresh cycle is due, in caller-supplied milliseconds.
pub struct Scheduler {
    period_ms: u64,
    next_due_ms: u64,
}

impl Scheduler {
    /// The refresh period, in milliseconds.
    pub closed spec fn period(&self) -> u64 {
        self.period_ms
    }

    /// The earliest clock value at which a refresh is due.
    pub closed spec fn next_due(&self) -> u64 {
        self.next_due_ms
    }

    /// A new schedule is due immediately: the first cycle must not wait a
    /// full period.
    pub fn new(period_ms: u64, now_ms: u64) -> (s: Scheduler)
        ensures
            s.period() == period_ms,
            s.next_due() == now_ms,
    {
        Scheduler { period_ms, next_due_ms: now_ms }
    }

    /// True exactly when a refresh is due at clock value `now_ms`.
    pub fn due(&self, now_ms: u64) -> (r: bool)
        ensures
            r == (now_ms >= self.next_due()),
    {
        now_ms >= self.next_due_ms
    }

    /// Record that a refresh ran at `now_ms`: the next one is due a full
    /// period later (saturating at the top of the clock's range).
    pub fn mark_refreshed(&mut self, now_ms: u64)
        ensures
            final(self).period() == old(self).period(),
            final(self).next_due() == if now_ms + old(self).period() <= u64::MAX {
                (now_ms + old(self).period()) as u64
            } else {
                u64::MAX
            },
    {
        self.next_due_ms = if now_ms <= u64::MAX - self.period_ms {
            now_ms + self.period_ms
        } else {
            u64::MAX
        };
    }
}

} // verus!

//! The delay reactor: a computation that completes once a deadline is reached.
//!
//! Instants are counted in nanoseconds on one monotonic clock chosen by the
//! host program. On each attempt the reactor compares the current reading
//! with its deadline; if the deadline is still ahead it asks for a waiting
//! thread that sleeps for the remaining time and then fires the task's
//! notification target.

use vstd::prelude::*;

verus! {

/// What a delay attempt decides.
#[derive(Debug, Clone, Copy, PartialEq, Eq)]
pub enum DelayPoll {
    /// The deadline is reached: the delay completes with its output token.
    Ready(&'static str),
    /// The deadline lies `wait` nanoseconds ahead: a waiting thread must be
    /// started that sleeps that long and then fires the notification target.
    Pending { wait: u64 },
}

/// The output token a delay completes with.
pub const DONE: &'static str = "done";

/// A computation that completes at an absolute deadline.
#[derive(Debug, Clone, Copy, PartialEq, Eq)]
pub struct Delay {
    /// The deadline, in nanoseconds on the host's monotonic clock.
    pub when: u64,
}

/// Time left from `now` until `when`, zero once the deadline is reached.
pub open spec fn time_left(when: u64, now: u64) -> nat {
    if now < when {
        (when - now) as nat
    } else {
        0
    }
}

impl Delay {
    /// Whether an attempt at time `now` completes the delay.
    pub open spec fn reached(self, now: u64) -> bool {
        now >= self.when
    }

    /// The decision of an attempt at time `now`.
    pub open spec fn outcome(self, now: u64, token: &'static str) -> DelayPoll {
        if self.reached(now) {
            DelayPoll::Ready(token)
        } else {
            DelayPoll::Pending { wait: (self.when - now) as u64 }
        }
    }

    pub fn new(when: u64) -> (r: Delay)
        ensures
            r.when == when,
    {
        Delay { when }
    }

    /// One attempt at time `now`: completes with the token `"done"` when the
    /// deadline is reached, and otherwise asks for a waiting thread that
    /// sleeps for exactly the time left.
    pub fn poll(&self, now: u64) -> (r: DelayPoll)
        ensures
            r == self.outcome(now, DONE),
            self.reached(now) <==> r is Ready,
            r is Ready ==> r->Ready_0@ == DONE@,
            r is Pending ==> r->wait == time_left(self.when, now) && r->wait > 0,
    {
        if now >= self.when {
            DelayPoll::Ready(DONE)
        } else {
            DelayPoll::Pending { wait: self.when - now }
        }
    }

    /// How long a waiting thread started at time `now` sleeps before it
    /// fires: the time left, or nothing once the deadline has passed.
    pub fn remaining(&self, now: u64) -> (r: u64)
        ensures
            r == time_left(self.when, now),
            now as int + r as int == if self.reached(now) { now as int } else { self.when as int },
    {
        if now < self.when {
            self.when - now
        } else {
            0
        }
    }
}

/// A delay whose deadline lies ahead at `now` does not complete then: it asks
/// for a waiting thread. A waiting thread started at any `start` from `now`
/// on sleeps for `remaining(start)` and so fires no earlier than the time
/// left at `now` has elapsed; an attempt at any `later` from that moment on
/// completes with the token.
pub proof fn lemma_deferred_completion(d: Delay, now: u64, start: u64, later: u64)
    requires
        now < d.when,
        now <= start,
        later >= start + time_left(d.when, start),
    ensures
        d.outcome(now, DONE) == (DelayPoll::Pending { wait: (d.when - now) as u64 }),
        start + time_left(d.when, start) >= now + (d.when - now),
        d.reached(later),
        d.outcome(later, DONE) == DelayPoll::Ready(DONE),
{
}

} // verus!

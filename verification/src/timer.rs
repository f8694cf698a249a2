//! A single-shot countdown in milliseconds.
//!
//! Particles and score celebrations each carry one.  A timer accumulates
//! elapsed time up to its duration; once the elapsed time reaches the
//! duration the timer is finished, and its owner is expected to remove it
//! (so a live timer has always strictly positive time left).

use vstd::prelude::*;

verus! {

/// A one-shot countdown: counts `elapsed_ms` up toward `duration_ms`.
#[derive(Clone, Copy, PartialEq, Eq, Structural, Debug)]
pub struct CountdownTimer {
    pub duration_ms: u64,
    pub elapsed_ms: u64,
}

impl CountdownTimer {
    /// A freshly started countdown over `duration_ms`.
    pub fn new(duration_ms: u64) -> (t: CountdownTimer)
        ensures
            t.duration_ms == duration_ms,
            t.elapsed_ms == 0,
    {
        CountdownTimer { duration_ms, elapsed_ms: 0 }
    }

    /// Whether advancing by `dt_ms` exhausts the countdown.
    pub open spec fn expires_after_spec(self, dt_ms: u64) -> bool {
        self.elapsed_ms + dt_ms >= self.duration_ms
    }

    /// The timer after advancing by `dt_ms`, capped at the duration.
    pub open spec fn tick_spec(self, dt_ms: u64) -> CountdownTimer {
        CountdownTimer {
            duration_ms: self.duration_ms,
            elapsed_ms: if self.elapsed_ms + dt_ms >= self.duration_ms {
                self.duration_ms
            } else {
                (self.elapsed_ms + dt_ms) as u64
            },
        }
    }

    /// Advance the countdown by `dt_ms`; returns true when it just expired.
    pub fn tick(&mut self, dt_ms: u64) -> (expired: bool)
        requires
            old(self).elapsed_ms <= old(self).duration_ms,
        ensures
            *final(self) == old(self).tick_spec(dt_ms),
            expired == old(self).expires_after_spec(dt_ms),
    {
        if dt_ms >= self.duration_ms - self.elapsed_ms {
            self.elapsed_ms = self.duration_ms;
            true
        } else {
            self.elapsed_ms = self.elapsed_ms + dt_ms;
            false
        }
    }
}

} // verus!

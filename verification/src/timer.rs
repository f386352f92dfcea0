use vstd::prelude::*;

use crate::types::SimTime;

verus! {

/// A timer on simulated time that fires once `interval` milliseconds have
/// passed since it was armed, and stays fired until it is armed again.
#[derive(Clone, Copy, Debug, PartialEq, Eq)]
pub struct IntervalTimer {
    /// When the timer was armed.
    pub armed_at: SimTime,
    /// How long after that it fires.
    pub interval: SimTime,
}

impl IntervalTimer {
    /// The time from which the timer has fired.
    pub open spec fn deadline(self) -> int {
        self.armed_at + self.interval
    }

    /// Whether the timer has fired at time `now`.
    pub open spec fn fired(self, now: SimTime) -> bool {
        self.deadline() <= now
    }

    /// The same timer armed at time `now`.
    pub open spec fn rearmed(self, now: SimTime) -> IntervalTimer {
        IntervalTimer { armed_at: now, interval: self.interval }
    }

    /// The timer as a poll at time `now` leaves it: armed anew if it had
    /// fired, untouched if not.
    pub open spec fn observed(self, now: SimTime) -> IntervalTimer {
        if self.fired(now) {
            self.rearmed(now)
        } else {
            self
        }
    }

    /// A timer armed at time `now`.
    pub fn new(now: SimTime, interval: SimTime) -> (timer: IntervalTimer)
        ensures
            timer == (IntervalTimer { armed_at: now, interval }),
    {
        IntervalTimer { armed_at: now, interval }
    }

    /// Whether the timer has fired at time `now`.
    pub fn has_fired(&self, now: SimTime) -> (fired: bool)
        ensures
            fired == self.fired(now),
    {
        now >= self.armed_at && now - self.armed_at >= self.interval
    }

    /// Arms the timer at time `now`.
    pub fn reset(&mut self, now: SimTime)
        ensures
            *final(self) == old(self).rearmed(now),
    {
        self.armed_at = now;
    }
}

} // verus!

//! Timers that are advanced by the length of each frame.

use vstd::prelude::*;

verus! {

#[derive(Debug, Clone, Copy, PartialEq, Eq, Structural)]
pub enum TimerMode {
    /// Runs once and stays finished.
    Once,
    /// Starts over whenever it is finished.
    Repeating,
}

/// A timer; all times are in nanoseconds.
#[derive(Debug, Clone, Copy, PartialEq, Eq, Structural)]
pub struct Timer {
    pub elapsed: u64,
    pub duration: u64,
    pub mode: TimerMode,
    pub finished: bool,
    pub times_finished: u32,
}

impl Timer {
    pub open spec fn fresh(duration: u64, mode: TimerMode) -> Timer {
        Timer { elapsed: 0, duration, mode, finished: false, times_finished: 0 }
    }

    /// The timer after some more time.
    ///
    /// A timer that runs once stops at its duration. A repeating one counts
    /// how often the duration was reached, in 32 bits, and keeps the rest.
    pub open spec fn ticked(self, delta: u64) -> Timer {
        let total = self.elapsed + delta;
        let duration = self.duration as int;
        let (elapsed, finished, times) = if self.mode == TimerMode::Once && self.finished {
            (self.elapsed as int, true, 0)
        } else if total < duration {
            (total, false, 0)
        } else if self.mode == TimerMode::Once {
            (duration, true, 1)
        } else if duration == 0 {
            (0, true, u32::MAX as int)
        } else {
            (total % duration, true, total / duration % 0x1_0000_0000)
        };
        Timer { elapsed: elapsed as u64, finished, times_finished: times as u32, ..self }
    }

    pub fn new(duration: u64, mode: TimerMode) -> (timer: Timer)
        ensures
            timer == Self::fresh(duration, mode),
    {
        Timer { elapsed: 0, duration, mode, finished: false, times_finished: 0 }
    }

    pub fn tick(&mut self, delta: u64)
        ensures
            *final(self) == old(self).ticked(delta),
    {
        match self.mode {
            TimerMode::Once => {
                if self.finished {
                    self.times_finished = 0;
                    return;
                }
            },
            TimerMode::Repeating => {},
        }
        let total: u128 = self.elapsed as u128 + delta as u128;
        if total < self.duration as u128 {
            self.elapsed = total as u64;
            self.finished = false;
            self.times_finished = 0;
            return;
        }
        self.finished = true;
        match self.mode {
            TimerMode::Once => {
                self.times_finished = 1;
                self.elapsed = self.duration;
            },
            TimerMode::Repeating => {
                if self.duration == 0 {
                    self.times_finished = u32::MAX;
                    self.elapsed = 0;
                } else {
                    self.times_finished = (total / self.duration as u128 % 0x1_0000_0000) as u32;
                    self.elapsed = (total % self.duration as u128) as u64;
                }
            },
        }
    }

    pub fn just_finished(&self) -> (r: bool)
        ensures
            r == (self.times_finished > 0),
    {
        self.times_finished > 0
    }

    /// A timer that runs once, once finished, stays so.
    pub proof fn finished_for_good(self, delta: u64)
        requires
            self.mode == TimerMode::Once,
            self.finished,
        ensures
            self.ticked(delta).finished,
            self.ticked(delta).times_finished == 0,
    {
    }

    /// A repeating timer loses no time: what has passed is what is left on it
    /// plus its duration for each time it finished.
    pub proof fn no_time_is_lost(self, delta: u64)
        requires
            self.mode == TimerMode::Repeating,
            0 < self.duration,
            (self.elapsed + delta) / (self.duration as int) < 0x1_0000_0000,
        ensures
            self.ticked(delta).elapsed < self.duration,
            self.elapsed + delta == self.ticked(delta).elapsed + self.duration * self.ticked(
                delta,
            ).times_finished,
    {
        let total = self.elapsed + delta;
        vstd::arithmetic::div_mod::lemma_fundamental_div_mod(total, self.duration as int);
        vstd::arithmetic::div_mod::lemma_mod_bound(total, self.duration as int);
        if total < self.duration {
            assert(self.duration * 0 == 0);
        } else {
            vstd::arithmetic::div_mod::lemma_div_pos_is_pos(total, self.duration as int);
        }
    }

    /// A repeating timer finishes as soon as its duration is reached, unless
    /// its count of 32 bits comes back to zero.
    pub proof fn finishes_in_time(self, delta: u64)
        requires
            self.mode == TimerMode::Repeating,
            0 < self.duration,
            (self.elapsed + delta) / (self.duration as int) < 0x1_0000_0000,
        ensures
            self.ticked(delta).times_finished > 0 <==> self.elapsed + delta >= self.duration,
    {
        let total = self.elapsed + delta;
        if total >= self.duration {
            vstd::arithmetic::div_mod::lemma_div_non_zero(total, self.duration as int);
        }
    }
}

} // verus!

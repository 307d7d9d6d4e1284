//! The game clock: a per-colour countdown timer with pause/resume.
//!
//! The timer itself is a plain state machine: it holds the remaining time
//! and a paused flag, and `tick` consumes measured elapsed time while the
//! timer is running.  The driver that measures wall-clock time, sleeps and
//! wakes lives outside the library and only calls these operations.

use vstd::prelude::*;

verus! {

pub struct Timer {
    remaining_millis: u128,
    paused: bool,
}

impl Timer {
    /// Milliseconds left on the clock.
    pub closed spec fn remaining(&self) -> u128 {
        self.remaining_millis
    }

    /// Whether the clock is paused.
    pub closed spec fn spec_paused(&self) -> bool {
        self.paused
    }

    /// A running timer with `secs` seconds on the clock.
    pub fn new(secs: u64) -> (r: Self)
        ensures
            r.remaining() == secs * 1000,
            !r.spec_paused(),
    {
        Timer { remaining_millis: (secs as u128) * 1000, paused: false }
    }

    /// The clock has run out.
    pub fn is_finished(&self) -> (r: bool)
        ensures
            r == (self.remaining() == 0),
    {
        self.remaining_millis == 0
    }

    /// Milliseconds left, for display.
    pub fn remaining_duration(&self) -> (r: u128)
        ensures
            r == self.remaining(),
    {
        self.remaining_millis
    }

    /// The clock is neither finished nor paused.
    pub fn is_running(&self) -> (r: bool)
        ensures
            r == (self.remaining() != 0 && !self.spec_paused()),
    {
        !self.is_finished() && !self.paused
    }

    /// Stops the clock; a finished timer is left alone.
    pub fn pause(&mut self)
        ensures
            final(self).remaining() == old(self).remaining(),
            final(self).spec_paused() == if old(self).remaining() == 0 {
                old(self).spec_paused()
            } else {
                true
            },
    {
        if self.is_finished() {
            return;
        }
        self.paused = true;
    }

    /// Restarts the clock; a finished timer is left alone.
    pub fn resume(&mut self)
        ensures
            final(self).remaining() == old(self).remaining(),
            final(self).spec_paused() == if old(self).remaining() == 0 {
                old(self).spec_paused()
            } else {
                false
            },
    {
        if self.is_finished() {
            return;
        }
        self.paused = false;
    }

    /// One countdown step: `elapsed_millis` of measured time are deducted,
    /// saturating at zero.  A paused timer does not move.
    pub fn tick(&mut self, elapsed_millis: u128)
        ensures
            final(self).spec_paused() == old(self).spec_paused(),
            final(self).remaining() == if old(self).spec_paused() {
                old(self).remaining() as int
            } else if old(self).remaining() >= elapsed_millis {
                old(self).remaining() - elapsed_millis
            } else {
                0int
            },
    {
        if self.paused {
            return;
        }
        if self.remaining_millis >= elapsed_millis {
            self.remaining_millis = self.remaining_millis - elapsed_millis;
        } else {
            self.remaining_millis = 0;
        }
    }
}

} // verus!

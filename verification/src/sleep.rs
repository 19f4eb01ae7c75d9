//! The settle delay's timer, as far as it decides anything.
//!
//! A delay starts a background timer the first time it is polled, and is
//! over once that timer has fired. Starting the timer and waking the waiting
//! task are the caller's; this type keeps the duration and remembers whether
//! the timer runs.
use vstd::prelude::*;

use core::time::Duration;

verus! {

/// What [`Sleep::start`] does to a delay whose timer has (or has not) been
/// started: whether the timer has to be started now, and whether it runs
/// afterwards.
pub open spec fn start_step(started: bool) -> (bool, bool) {
    (!started, true)
}

/// How many times the timer is started over `polls` polls of a delay whose
/// timer has (or has not) been started, each poll calling [`Sleep::start`].
pub open spec fn timer_starts(started: bool, polls: nat) -> nat
    decreases polls,
{
    if polls == 0 {
        0
    } else {
        (if start_step(started).0 {
            1nat
        } else {
            0nat
        }) + timer_starts(start_step(started).1, (polls - 1) as nat)
    }
}

/// However often a delay is polled, its timer is started once, by the first
/// poll; a delay whose timer runs never starts another.
pub proof fn lemma_timer_started_once(polls: nat)
    ensures
        timer_starts(false, polls) == if polls == 0 {
            0nat
        } else {
            1nat
        },
        timer_starts(true, polls) == 0,
    decreases polls,
{
    if polls > 0 {
        lemma_timer_started_once((polls - 1) as nat);
    }
}

/// A delay of `duration` whose timer has or has not been started.
pub struct Sleep {
    duration: Duration,
    started: bool,
}

impl Sleep {
    pub closed spec fn duration(&self) -> Duration {
        self.duration
    }

    pub closed spec fn started(&self) -> bool {
        self.started
    }

    /// A delay of `duration` whose timer has not been started.
    pub fn new(duration: Duration) -> (s: Sleep)
        ensures
            s.duration() == duration,
            !s.started(),
    {
        Sleep { duration, started: false }
    }

    /// The duration of the delay.
    pub fn duration_value(&self) -> (d: Duration)
        ensures
            d == self.duration(),
    {
        self.duration
    }

    /// Marks the timer as started; tells whether it has to be started now,
    /// which is on the first call only.
    pub fn start(&mut self) -> (spawn: bool)
        ensures
            (spawn, final(self).started()) == start_step(old(self).started()),
            final(self).duration() == old(self).duration(),
    {
        let spawn = !self.started;
        self.started = true;
        spawn
    }
}

} // verus!

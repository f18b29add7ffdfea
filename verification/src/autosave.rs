//! The Autosave Scheduler's decision state.
//!
//! Two independent triggers each start a full capture-encode-write cycle:
//! a fixed-interval timer, and the application-exit signal.  The host
//! advances the timer with the time units each tick took and saves when
//! [`AutosaveSchedule::advance`] says so; on observing an exit signal it
//! saves unconditionally, once, before the process ends.  Both may fire in
//! the same instant; the cycle is idempotent, so the file is merely
//! written twice with equivalent content.

use vstd::prelude::*;

verus! {

/// Time units between two periodic saves.
pub const AUTOSAVE_INTERVAL: u64 = 300;

/// The periodic trigger's only state: time units since the last periodic
/// save.
pub struct AutosaveSchedule {
    pub since_last_save: u64,
}

impl AutosaveSchedule {
    /// The timer never runs further than one interval.
    pub open spec fn wf(self) -> bool {
        self.since_last_save < AUTOSAVE_INTERVAL
    }

    /// A fresh timer, as at the end of a save.
    pub fn new() -> (r: AutosaveSchedule)
        ensures
            r.since_last_save == 0,
            r.wf(),
    {
        AutosaveSchedule { since_last_save: 0 }
    }

    /// Advances the timer by the time units that passed and says whether a
    /// periodic save fires: exactly when a full interval has accumulated.
    /// Firing resets the timer.
    pub fn advance(&mut self, elapsed: u64) -> (fire: bool)
        ensures
            fire == (old(self).since_last_save + elapsed >= AUTOSAVE_INTERVAL),
            fire ==> final(self).since_last_save == 0,
            !fire ==> final(self).since_last_save == old(self).since_last_save + elapsed,
            final(self).wf(),
    {
        if elapsed >= AUTOSAVE_INTERVAL || self.since_last_save >= AUTOSAVE_INTERVAL - elapsed {
            self.since_last_save = 0;
            true
        } else {
            self.since_last_save = self.since_last_save + elapsed;
            false
        }
    }
}

} // verus!

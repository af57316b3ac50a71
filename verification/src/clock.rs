//! The simulation clock that gates generation steps.
//!
//! Time is measured in whole microseconds. Each frame adds its elapsed
//! time to an accumulator; once the accumulator crosses a fixed threshold
//! (a tenth of a second) while the clock is running, one step is due and
//! the accumulator resets — at most one step per crossing, with no
//! catch-up for however far past the threshold the accumulator got.

use vstd::prelude::*;

verus! {

/// The accumulated time, in microseconds, past which a generation step
/// fires: a tenth of a second.
pub const TICK_THRESHOLD_MICROS: u64 = 100000;

/// Whether an advance by `delta` fires a step: the clock must be running
/// and the accumulator must strictly cross the threshold.
pub open spec fn fires(running: bool, elapsed: int, delta: int) -> bool {
    running && elapsed + delta > TICK_THRESHOLD_MICROS
}

/// The accumulator after an advance by `delta`: reset to zero when a step
/// fired, the running total otherwise. It keeps accumulating while paused,
/// so resuming with a full accumulator fires on the next advance.
pub open spec fn elapsed_after(running: bool, elapsed: int, delta: int) -> int {
    if fires(running, elapsed, delta) {
        0
    } else {
        elapsed + delta
    }
}

/// The run/pause flag and the time accumulated since the last step.
pub struct SimulationClock {
    pub running: bool,
    pub elapsed_micros: u64,
}

impl SimulationClock {
    /// A fresh clock: paused, with nothing accumulated.
    pub fn new() -> (c: SimulationClock)
        ensures
            !c.running,
            c.elapsed_micros == 0,
    {
        SimulationClock { running: false, elapsed_micros: 0 }
    }

    /// Flips between Paused and Running, the only transition between the
    /// two states. Leaves the accumulator alone.
    pub fn toggle(&mut self)
        ensures
            final(self).running == !old(self).running,
            final(self).elapsed_micros == old(self).elapsed_micros,
    {
        self.running = !self.running;
    }

    /// Adds one frame's elapsed time and reports whether a generation step
    /// is due: at most one per threshold crossing, and never while paused.
    pub fn advance(&mut self, delta_micros: u64) -> (fire: bool)
        requires
            old(self).elapsed_micros + delta_micros <= u64::MAX,
        ensures
            final(self).running == old(self).running,
            fire == fires(
                old(self).running,
                old(self).elapsed_micros as int,
                delta_micros as int,
            ),
            final(self).elapsed_micros as int == elapsed_after(
                old(self).running,
                old(self).elapsed_micros as int,
                delta_micros as int,
            ),
    {
        self.elapsed_micros = self.elapsed_micros + delta_micros;
        if self.elapsed_micros > TICK_THRESHOLD_MICROS && self.running {
            self.elapsed_micros = 0;
            true
        } else {
            false
        }
    }
}

} // verus!

//! The grid engine: the live-cell store together with the clock that
//! gates its generation steps, driven once per frame.

use crate::clock::{SimulationClock, elapsed_after, fires};
use crate::grid::{Grid, step_safe, step_spec};
use vstd::prelude::*;

verus! {

/// The whole engine: a sparse grid of live cells and the simulation clock.
pub struct Engine {
    pub grid: Grid,
    pub clock: SimulationClock,
}

impl Engine {
    /// A fresh engine: no live cells, paused, nothing accumulated.
    pub fn new() -> (e: Engine)
        ensures
            e.grid.wf(),
            e.grid@ == Set::<(int, int)>::empty(),
            !e.clock.running,
            e.clock.elapsed_micros == 0,
    {
        Engine { grid: Grid::new(), clock: SimulationClock::new() }
    }

    /// Flips the clock between Paused and Running; never touches the grid.
    pub fn toggle_running(&mut self)
        ensures
            final(self).clock.running == !old(self).clock.running,
            final(self).clock.elapsed_micros == old(self).clock.elapsed_micros,
            final(self).grid == old(self).grid,
    {
        self.clock.toggle();
    }

    /// One frame: adds `delta_micros` of elapsed time and, when the clock
    /// is running and the accumulator crosses the threshold, runs exactly
    /// one generation step and resets the accumulator. Returns whether a
    /// step ran.
    pub fn advance_time(&mut self, delta_micros: u64) -> (stepped: bool)
        requires
            old(self).grid.wf(),
            step_safe(old(self).grid@),
            old(self).clock.elapsed_micros + delta_micros <= u64::MAX,
        ensures
            final(self).grid.wf(),
            stepped == fires(
                old(self).clock.running,
                old(self).clock.elapsed_micros as int,
                delta_micros as int,
            ),
            final(self).clock.running == old(self).clock.running,
            final(self).clock.elapsed_micros as int == elapsed_after(
                old(self).clock.running,
                old(self).clock.elapsed_micros as int,
                delta_micros as int,
            ),
            stepped ==> final(self).grid@ == step_spec(old(self).grid@),
            !stepped ==> final(self).grid == old(self).grid,
    {
        let fire = self.clock.advance(delta_micros);
        if fire {
            self.grid.step();
        }
        fire
    }
}

} // verus!

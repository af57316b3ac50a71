use life_engine::clock::{SimulationClock, TICK_THRESHOLD_MICROS};
use life_engine::engine::Engine;
use life_engine::grid::Cell;

#[test]
fn new_clock_is_paused_and_empty() {
    let c = SimulationClock::new();
    assert!(!c.running);
    assert_eq!(c.elapsed_micros, 0);
}

#[test]
fn toggle_flips_run_state_only() {
    let mut c = SimulationClock::new();
    c.toggle();
    assert!(c.running);
    assert_eq!(c.elapsed_micros, 0);
    c.toggle();
    assert!(!c.running);
}

#[test]
fn deltas_just_under_threshold_fire_nothing() {
    let mut c = SimulationClock::new();
    c.toggle();
    // Four quarters of just under the threshold: 99_999 µs in total.
    assert!(!c.advance(25_000));
    assert!(!c.advance(25_000));
    assert!(!c.advance(25_000));
    assert!(!c.advance(24_999));
    assert_eq!(c.elapsed_micros, 99_999);
    // Landing exactly on the threshold still does not fire: the crossing
    // must be strict.
    assert!(!c.advance(1));
    assert_eq!(c.elapsed_micros, TICK_THRESHOLD_MICROS);
}

#[test]
fn crossing_fires_exactly_once_and_resets() {
    let mut c = SimulationClock::new();
    c.toggle();
    assert!(!c.advance(60_000));
    assert!(c.advance(60_000));
    assert_eq!(c.elapsed_micros, 0);
    // The next small advance starts from zero again.
    assert!(!c.advance(60_000));
    assert_eq!(c.elapsed_micros, 60_000);
}

#[test]
fn big_overshoot_fires_once_with_no_catch_up() {
    let mut c = SimulationClock::new();
    c.toggle();
    // Half a second at once: one step, not five.
    assert!(c.advance(500_000));
    assert_eq!(c.elapsed_micros, 0);
    assert!(!c.advance(50_000));
    assert_eq!(c.elapsed_micros, 50_000);
}

#[test]
fn paused_clock_never_fires() {
    let mut c = SimulationClock::new();
    assert!(!c.advance(500_000));
    assert!(!c.advance(500_000));
    assert!(!c.advance(500_000));
    // The accumulator keeps running while paused; only the gating is off.
    assert_eq!(c.elapsed_micros, 1_500_000);
    // Resuming with a full accumulator fires on the next advance.
    c.toggle();
    assert!(c.advance(1));
    assert_eq!(c.elapsed_micros, 0);
}

#[test]
fn engine_starts_empty_and_paused() {
    let e = Engine::new();
    assert!(!e.clock.running);
    assert_eq!(e.clock.elapsed_micros, 0);
    assert_eq!(e.grid.live_cells().len(), 0);
}

#[test]
fn engine_paused_advance_never_steps() {
    let mut e = Engine::new();
    e.grid.set_alive(Cell { x: 0, y: 0 });
    e.grid.set_alive(Cell { x: 1, y: 0 });
    e.grid.set_alive(Cell { x: 2, y: 0 });
    assert!(!e.advance_time(500_000));
    assert!(!e.advance_time(500_000));
    // The blinker is untouched: no step ran while paused.
    assert!(e.grid.is_alive(Cell { x: 0, y: 0 }));
    assert!(e.grid.is_alive(Cell { x: 2, y: 0 }));
    assert_eq!(e.grid.live_cells().len(), 3);
}

#[test]
fn engine_running_advance_steps_once_per_crossing() {
    let mut e = Engine::new();
    e.grid.set_alive(Cell { x: 0, y: 0 });
    e.grid.set_alive(Cell { x: 1, y: 0 });
    e.grid.set_alive(Cell { x: 2, y: 0 });
    e.toggle_running();
    assert!(!e.advance_time(90_000));
    assert!(e.grid.is_alive(Cell { x: 0, y: 0 }));
    // This crossing runs exactly one step: the blinker flips vertical.
    assert!(e.advance_time(20_000));
    assert_eq!(e.clock.elapsed_micros, 0);
    assert!(e.grid.is_alive(Cell { x: 1, y: -1 }));
    assert!(e.grid.is_alive(Cell { x: 1, y: 0 }));
    assert!(e.grid.is_alive(Cell { x: 1, y: 1 }));
    assert!(!e.grid.is_alive(Cell { x: 0, y: 0 }));
    assert_eq!(e.grid.live_cells().len(), 3);
}

#[test]
fn engine_toggle_preserves_grid() {
    let mut e = Engine::new();
    e.grid.set_alive(Cell { x: 7, y: 8 });
    e.toggle_running();
    assert!(e.clock.running);
    assert!(e.grid.is_alive(Cell { x: 7, y: 8 }));
    e.toggle_running();
    assert!(!e.clock.running);
    assert!(e.grid.is_alive(Cell { x: 7, y: 8 }));
}

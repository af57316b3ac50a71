//! A verified engine for Conway's Game of Life on an unbounded plane.
//!
//! The engine keeps a sparse set of live cells on the integer lattice,
//! advances it one generation at a time under the standard birth/survival
//! rule, and gates those generation steps behind an accumulated-time clock
//! with a run/pause flag.

pub mod clock;
pub mod engine;
pub mod grid;
pub mod laws;

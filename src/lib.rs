//! Simulation core of a single-player arcade shooter: a ship at the bottom of
//! the field defends against a descending formation of enemies.
//!
//! Distances are integers in milli-pixels and times are integers in
//! microseconds, so every step of the simulation is exact and verified.

mod chance;
pub mod world;
pub mod game;
pub mod laws;

//! Core of a two-paddle ball simulation.
//!
//! The simulation advances in discrete ticks over a normalized square arena.
//! All quantities are fixed-point numbers: an `i64` counts millionths of an
//! arena unit (see [`math::SCALE`]), so `1.0` arena unit is `SCALE` and the
//! arena spans `[0, SCALE]` on each axis.  Every step of the pipeline is
//! specified over that integer model and verified.

pub mod components;
pub mod laws;
pub mod math;
mod random;
pub mod systems;
pub mod world;

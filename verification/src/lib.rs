//! A falling-sand cellular automaton engine.
//!
//! A 2D grid of typed particles ("species") is stepped once per tick under
//! per-species local update rules: gravity, displacement, combustion, simple
//! chemistry, and a Conway-style Life variant sharing the same grid.
//!
//! The heart of the engine is the scheduling discipline: the scan alternates
//! direction every tick, and every cell written during a sweep is stamped
//! with the current generation so that a particle relocated into
//! not-yet-scanned territory is skipped for the remainder of that sweep.
//! The functional model in [`model`] captures one whole tick, and the
//! lemmas in [`laws`] prove the scheduling and rule properties over it.

pub mod element;
pub mod engine;
pub mod interface;
pub mod laws;
pub mod model;
pub mod species;

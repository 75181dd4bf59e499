//! Decision-and-evolution engine for a colony of foraging agents.
//!
//! Each agent carries a small fixed-topology feedforward controller, senses
//! the nearest food through a periodically rebuilt spatial index, decides an
//! action, and is selected and reproduced under an energy economy with
//! culling heuristics.  All quantities are fixed-point integers in
//! milli-units (1000 fixed-point units per world unit), so every formula is
//! bit-for-bit reproducible; rendering, physics integration and the wall
//! clock live with outside collaborators that hand the engine plain values.

pub mod arith;
pub mod config;
pub mod rng;
pub mod window;
pub mod ledger;
pub mod net;
pub mod sense;
pub mod cull;
pub mod forage;
pub mod colony;

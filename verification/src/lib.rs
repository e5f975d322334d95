//! A small synchronous boolean-circuit simulator: a catalog of logic gate
//! kinds, a registry of gate instances wired together by directed
//! connections, a two-phase (propagate, then evaluate) tick that advances
//! the whole network one step, and an integer clock that converts elapsed
//! time at a configured frequency into a drift-free number of ticks.

pub mod gate;
pub mod laws;
pub mod clock;
pub mod sim;

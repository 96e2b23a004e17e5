//! A chess analysis engine: negamax/alpha-beta search with iterative
//! deepening, MTD(f)-style zero-window refinement, a fixed-capacity
//! transposition table, move-ordering heuristics and a static evaluator.
//!
//! Move generation, move application and position hashing come from the
//! `chess` crate; the `chessio` module is the trusted boundary around it.
//! Everything above that boundary is verified.

pub mod chessio;
pub mod ttable;
pub mod eval;
pub mod minmax;
pub mod client;
pub mod laws;

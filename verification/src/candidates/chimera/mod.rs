//! Chimera: a principal-variation search with conservative pruning, and the
//! evaluation it shares with Titan.
pub mod eval;
pub mod search;

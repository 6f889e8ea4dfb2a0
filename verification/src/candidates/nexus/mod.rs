//! Nexus: Chimera's evaluation with king-push awareness, mobility and piece
//! coordination, in a principal-variation search that tracks the best root
//! move directly.
pub mod eval;
pub mod search;

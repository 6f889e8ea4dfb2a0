//! Omega: exact push mobility and king-zone attacks in a principal-variation search.
pub mod eval;
pub mod search;

//! Void: a material-and-placement evaluation under a selective search.
pub mod eval;
pub mod search;

//! Mechanisms shared by the searches.
pub mod shared;
pub mod walk;

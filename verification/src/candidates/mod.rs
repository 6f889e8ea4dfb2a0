//! The challenger engines' parts that stand apart from their searches.
pub mod abyss;
pub mod cataclysm;
pub mod nexus;
pub mod chimera;
pub mod support;
pub mod titan;
pub mod omega;
pub mod void;

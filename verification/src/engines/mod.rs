//! The parts of the engines that stand apart from their searches.
pub mod astra;
pub mod support;
pub mod cataclysm;

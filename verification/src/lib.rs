//! Push Chess: rules, move generation and the search support that the engines share.
pub mod rules;
pub mod engine;
pub mod game;
pub mod engines;
pub mod candidates;
pub mod session;
pub mod selfplay;

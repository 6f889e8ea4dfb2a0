//! The authoritative rules: types, push resolution, positions and move generation.
pub mod types;
pub mod zobrist;
pub mod bounded;
pub mod position;
pub mod push;
pub mod movegen;
pub mod fen;
pub mod fen_check;
pub mod children;
pub mod fen_laws;
pub mod prepared;

//! The candidate Cataclysm: its score encoding, transaction board,
//! piece-square scores and residual network, its search, and the oracle that
//! checks the board against the rules.
pub mod board;
pub mod engine;
pub mod eval;
pub mod features;
pub mod network;
pub mod oracle;

use vstd::prelude::*;
use crate::engines::cataclysm::{WIN, decoded, encoded};

verus! {

/// The table form of a search score `v` found `ply` plies from the root.
pub fn encode(v: i32, ply: usize) -> (e: i16)
    requires
        v >= WIN ==> i32::MIN <= v + (ply as i32) <= i32::MAX,
        v <= -WIN ==> i32::MIN <= v - (ply as i32) <= i32::MAX,
    ensures
        e == encoded(v, ply),
{
    let p = (#[verifier::truncate] (ply as i32));
    let wide = if v >= WIN {
        v + p
    } else if v <= -WIN {
        v - p
    } else {
        v
    };
    (#[verifier::truncate] (wide as i16))
}

/// The search score of a table value read `ply` plies from the root.
pub fn decode(v: i16, ply: usize) -> (d: i32)
    requires
        v >= WIN ==> i32::MIN <= v - (ply as i32) <= i32::MAX,
        v <= -WIN ==> i32::MIN <= v + (ply as i32) <= i32::MAX,
    ensures
        d == decoded(v, ply),
{
    let p = (#[verifier::truncate] (ply as i32));
    let wide = v as i32;
    if wide >= WIN {
        wide - p
    } else if wide <= -WIN {
        wide + p
    } else {
        wide
    }
}

} // verus!

//! Game outcomes: checkmate and stalemate first, then the move clock, then
//! repetition.
use vstd::prelude::*;
use crate::rules::position::{Position, UndoInfo, attacked};
use crate::rules::types::{Color, Move, opponent, spec_opponent};

verus! {

#[derive(Clone, Copy, Debug, PartialEq, Eq, Structural)]
pub enum Outcome {
    Playing,
    Checkmate { winner: Color },
    Stalemate,
    FiftyMove,
    Repetition,
}

/// The outcome of a position, given whether the side to move has a legal
/// move and how many earlier positions (up to two) had the same hash.
pub open spec fn outcome_of(p: &Position, no_legal_moves: bool, repeats: nat) -> Outcome {
    let us = p.side_to_move;
    if no_legal_moves {
        if attacked(p.board@, p.king_sq@[us.spec_index()], spec_opponent(us)) {
            Outcome::Checkmate { winner: spec_opponent(us) }
        } else {
            Outcome::Stalemate
        }
    } else if p.halfmove_clock >= 100 {
        Outcome::FiftyMove
    } else if repeats >= 2 {
        Outcome::Repetition
    } else {
        Outcome::Playing
    }
}

/// The number of the first `n` undo records whose hash is `z`.
pub open spec fn hash_count(stack: Seq<UndoInfo>, z: u64, n: nat) -> nat
    decreases n,
{
    if n == 0 || n > stack.len() {
        0
    } else {
        hash_count(stack, z, (n - 1) as nat) + if stack[n - 1].zobrist == z {
            1nat
        } else {
            0nat
        }
    }
}

/// How many earlier positions had the current hash, counted up to two.
pub open spec fn repeats_of(p: &Position) -> nat {
    let c = hash_count(p.undo_stack@, p.zobrist, p.undo_stack@.len());
    if c > 2 {
        2
    } else {
        c
    }
}

proof fn lemma_hash_count_monotone(stack: Seq<UndoInfo>, z: u64, i: nat, n: nat)
    requires
        i <= n <= stack.len(),
    ensures
        hash_count(stack, z, i) <= hash_count(stack, z, n),
    decreases n - i,
{
    if i < n {
        lemma_hash_count_monotone(stack, z, i, (n - 1) as nat);
    }
}

/// Mate and stalemate take precedence over the move clock and repetition.
pub fn adjudicate(pos: &Position, legal: &[Move]) -> (o: Outcome)
    ensures
        o == outcome_of(pos, legal@.len() == 0, repeats_of(pos)),
{
    let n = pos.undo_stack.len();
    let mut repeats: usize = 0;
    let mut i: usize = 0;
    while i < n && repeats < 2
        invariant
            n == pos.undo_stack@.len(),
            i <= n,
            repeats == hash_count(pos.undo_stack@, pos.zobrist, i as nat),
            repeats <= 2,
        decreases n - i,
    {
        if pos.undo_stack[i].zobrist == pos.zobrist {
            repeats += 1;
        }
        i += 1;
    }
    proof {
        lemma_hash_count_monotone(pos.undo_stack@, pos.zobrist, i as nat, n as nat);
    }
    adjudicate_with_repetitions(pos, legal.len() == 0, repeats)
}

/// The outcome, given whether there is a legal move and the repetition count.
pub fn adjudicate_with_repetitions(pos: &Position, no_legal_moves: bool, repeats: usize) -> (o: Outcome)
    ensures
        o == outcome_of(pos, no_legal_moves, repeats as nat),
{
    if no_legal_moves {
        return if pos.in_check() {
            Outcome::Checkmate { winner: opponent(pos.side_to_move) }
        } else {
            Outcome::Stalemate
        };
    }
    if pos.halfmove_clock >= 100 {
        return Outcome::FiftyMove;
    }
    if repeats >= 2 {
        Outcome::Repetition
    } else {
        Outcome::Playing
    }
}

} // verus!

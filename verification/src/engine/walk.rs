//! Walking a search tree over a position: playing moves, taking them back,
//! and what stays the same.
use vstd::prelude::*;
use crate::rules::movegen::{
    leaves_king_safe, legal_moves, lemma_legal_is_pseudo, lemma_makeable_shaped, lemma_pseudo_legal_makeable, lemma_safe_move_is_legal,
    makeable, pseudo_legal, shaped,
};
use crate::rules::position::{
    Position, affected_mask, lemma_restore_undoes_change, lemma_unmake_undoes_make, made, move_changes,
};
use crate::rules::types::{Move, revoked_rights};

verus! {

/// The fields of the position a search hands back as it found them.
pub open spec fn same_position(a: &Position, b: &Position) -> bool {
    &&& a.board == b.board
    &&& a.side_to_move == b.side_to_move
    &&& a.castling_rights == b.castling_rights
    &&& a.ep_square == b.ep_square
    &&& a.halfmove_clock == b.halfmove_clock
    &&& a.fullmove_number == b.fullmove_number
    &&& a.king_sq == b.king_sq
    &&& a.zobrist == b.zobrist
    &&& a.undo_stack@ == b.undo_stack@
}

/// A castling right kept by a move is still one of the four.
pub proof fn lemma_rights_stay(rights: u8, revoked: u8)
    requires
        rights < 16,
    ensures
        rights & !revoked < 16,
{
    assert(rights & !revoked < 16) by (bit_vector)
        requires
            rights < 16,
    ;
}

/// Take back the move that made `old(pos)` from `p0`: the position is `p0`'s again.
pub fn take_back(pos: &mut Position, Ghost(p0): Ghost<Position>, Ghost(m): Ghost<Move>)
    requires
        made(&p0, m, old(pos)),
        p0.board@.len() == 64,
    ensures
        same_position(final(pos), &p0),
{
    let ghost p1 = *pos;
    proof {
        lemma_restore_undoes_change(p0.board@, p1.board@, move_changes(p0.board@, m, p0.side_to_move));
    }
    pos.unmake_move();
    proof {
        lemma_unmake_undoes_make(&p0, m, &p1, pos);
    }
}

/// A move of the move list: on the board, walking squares on the board, and
/// legal when it leaves the mover's king safe.
pub proof fn lemma_listed_move(p: &Position, m: Move)
    requires
        pseudo_legal(p).contains(m),
    ensures
        makeable(p.board@, m),
        shaped(p.board@, m),
        leaves_king_safe(p, m) ==> legal_moves(p).contains(m),
{
    let j = choose|j: int| 0 <= j < pseudo_legal(p).len() && pseudo_legal(p)[j] == m;
    lemma_pseudo_legal_makeable(p);
    assert(makeable(p.board@, pseudo_legal(p)[j]));
    lemma_makeable_shaped(p.board@, m);
    if leaves_king_safe(p, m) {
        lemma_safe_move_is_legal(p, j);
    }
}

/// `p1` is `p0` after the move `m`, on a full board.
#[verifier::opaque]
pub open spec fn after(p0: &Position, m: Move, p1: &Position) -> bool {
    made(p0, m, p1) && p0.board@.len() == 64
}

/// Take back a move, once the searches below it have handed the position
/// back as they found it.
pub fn unplay(pos: &mut Position, Ghost(p1): Ghost<Position>, Ghost(mv): Ghost<Move>, Ghost(made_pos): Ghost<Position>)
    requires
        after(&p1, mv, &made_pos),
        same_position(old(pos), &made_pos),
    ensures
        same_position(final(pos), &p1),
{
    proof {
        reveal(after);
    }
    take_back(pos, Ghost(p1), Ghost(mv));
}

/// Room for `n` more moves: castling rights that index the key table, and a
/// halfmove clock and a fullmove number that can count `n` more moves.
pub open spec fn headroom(p: &Position, n: int) -> bool {
    &&& p.castling_rights < 16
    &&& p.halfmove_clock + n < u16::MAX
    &&& p.fullmove_number + n < u16::MAX
}

/// Play a legal move of `p1`, leaving room for one move fewer.
pub fn play_legal(pos: &mut Position, mv: Move, Ghost(p1): Ghost<Position>, Ghost(n): Ghost<int>)
    requires
        same_position(old(pos), &p1),
        legal_moves(&p1).contains(mv),
        headroom(&p1, n),
        n >= 1,
    ensures
        after(&p1, mv, final(pos)),
        headroom(final(pos), n - 1),
        final(pos).undo_stack@.len() == p1.undo_stack@.len() + 1,
{
    proof {
        lemma_legal_is_pseudo(&p1, mv);
        lemma_listed_move(&p1, mv);
    }
    pos.make_move(&mv);
    proof {
        reveal(after);
        let changes = move_changes(p1.board@, mv, p1.side_to_move);
        lemma_rights_stay(p1.castling_rights, revoked_rights(affected_mask(changes, changes.len())));
    }
}

} // verus!

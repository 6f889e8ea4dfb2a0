//! Legal moves prepared with the push plan their generation resolves, so that
//! a caller keeps the plan with the move.
use vstd::prelude::*;
use super::movegen::{generate_legal_moves, legal_moves, lemma_legal_is_pseudo, makeable};
use super::position::{Position, board_after, can_make, made, move_plan};
use super::push::{PushPlan, resolve_knight_push, resolve_push, sign};
use super::types::{Color, Move, Piece, PieceType, SpecialMove, file_of, rank_of};

verus! {

/// A legal move and the push plan it resolves to; castling and en passant
/// carry none.
pub struct PreparedMove {
    pub mv: Move,
    pub plan: Option<PushPlan>,
}

/// `plan` is the plan `m` resolves to on `board`: none for castling and en
/// passant, otherwise the move's push plan.
pub open spec fn carries(board: Seq<Piece>, m: Move, plan: Option<PushPlan>) -> bool {
    if m.special == SpecialMove::Castle || m.special == SpecialMove::EnPassant {
        plan is None
    } else {
        match plan {
            Some(p) => move_plan(board, m) == Some(p@),
            None => move_plan(board, m) is None,
        }
    }
}

impl PreparedMove {
    /// The move.
    pub fn mv(&self) -> (m: Move)
        ensures
            m == self.mv,
    {
        self.mv
    }

    /// Play the move on `pos`, the position it was prepared for.
    pub fn apply(&self, pos: &mut Position)
        requires
            can_make(old(pos), self.mv),
        ensures
            made(old(pos), self.mv, final(pos)),
    {
        pos.make_move(&self.mv);
    }

    /// The board after the move, with nothing else of the position changed.
    pub fn board_after(&self, pos: &Position) -> (b: [Piece; 64])
        requires
            can_make(pos, self.mv),
        ensures
            b@ == board_after(pos.board@, self.mv, pos.side_to_move),
    {
        let mut copy = Position {
            board: pos.board,
            side_to_move: pos.side_to_move,
            castling_rights: pos.castling_rights,
            ep_square: pos.ep_square,
            halfmove_clock: pos.halfmove_clock,
            fullmove_number: pos.fullmove_number,
            king_sq: pos.king_sq,
            zobrist: pos.zobrist,
            undo_stack: Vec::new(),
        };
        copy.make_move(&self.mv);
        copy.board
    }

    /// Append one token per square the move changes, in square order:
    /// `action + 1`, the square seen by the mover (mirrored for Black), and
    /// the piece codes before and after.
    pub fn effects(&self, pos: &Position, action: usize, out: &mut Vec<[i32; 4]>)
        requires
            can_make(pos, self.mv),
            action < 1000000,
        ensures
            final(out)@ == old(out)@ + effect_tokens(
                pos.board@,
                board_after(pos.board@, self.mv, pos.side_to_move),
                pos.side_to_move,
                action as int,
                64,
            ),
    {
        let after = self.board_after(pos);
        let us = pos.side_to_move;
        let mut sq: usize = 0;
        while sq < 64
            invariant
                sq <= 64,
                action < 1000000,
                after@ == board_after(pos.board@, self.mv, pos.side_to_move),
                us == pos.side_to_move,
                out@ == old(out)@ + effect_tokens(pos.board@, after@, us, action as int, sq as int),
            decreases 64 - sq,
        {
            let before = pos.board[sq];
            let now = after[sq];
            if before != now {
                let flip: usize = if us == Color::White {
                    0
                } else {
                    56
                };
                out.push([(action + 1) as i32, (sq ^ flip) as i32, piece_code(before, us), piece_code(now, us)]);
            }
            sq += 1;
            proof {
                assert(out@ =~= old(out)@ + effect_tokens(pos.board@, after@, us, action as int, sq as int));
            }
        }
    }
}

/// The code of a piece seen by `us`: 0 for an empty square, else 1 to 6 for
/// `us`'s pawn to king and 7 to 12 for the opponent's.
pub open spec fn code_of(p: Piece, us: Color) -> int {
    if p.piece_type == PieceType::Empty {
        0
    } else {
        1 + (if p.color == us {
            0int
        } else {
            6
        }) + p.piece_type.spec_index() - 1
    }
}

fn piece_code(p: Piece, us: Color) -> (c: i32)
    ensures
        c == code_of(p, us),
{
    if p.piece_type == PieceType::Empty {
        0
    } else {
        let side: i32 = if p.color == us {
            0
        } else {
            6
        };
        1 + side + p.piece_type.index() as i32 - 1
    }
}

/// The tokens of the squares below `n` that differ between `before` and
/// `after`.
pub open spec fn effect_tokens(before: Seq<Piece>, after: Seq<Piece>, us: Color, action: int, n: int) -> Seq<
    [i32; 4],
>
    decreases n,
{
    if n <= 0 {
        seq![]
    } else {
        let prev = effect_tokens(before, after, us, action, n - 1);
        let sq = n - 1;
        if before[sq] != after[sq] {
            let flip: int = if us == Color::White {
                0
            } else {
                56
            };
            prev.push(
                [
                    (action + 1) as i32,
                    (sq as usize ^ flip as usize) as i32,
                    code_of(before[sq], us) as i32,
                    code_of(after[sq], us) as i32,
                ],
            )
        } else {
            prev
        }
    }
}

/// Reusable scratch for preparing moves.
#[derive(Default)]
pub struct MoveScratch {
    candidates: Vec<Move>,
}

impl MoveScratch {
    /// Empty scratch.
    pub fn new() -> MoveScratch {
        MoveScratch { candidates: Vec::new() }
    }
}

fn sign_of(x: i32) -> (s: i32)
    ensures
        s == sign(x as int),
{
    if x > 0 {
        1
    } else if x < 0 {
        -1
    } else {
        0
    }
}

/// The plan `m` resolves to on `pos`'s board.
fn plan_of(pos: &Position, m: Move) -> (r: Option<PushPlan>)
    requires
        m.from < 64,
        m.to < 64,
    ensures
        carries(pos.board@, m, r),
{
    if m.special == SpecialMove::Castle || m.special == SpecialMove::EnPassant {
        return None;
    }
    if pos.board[m.from as usize].piece_type == PieceType::Knight {
        resolve_knight_push(pos, m.from, m.to, m.path_kind == 1)
    } else {
        let dr = sign_of(rank_of(m.to) - rank_of(m.from));
        let df = sign_of(file_of(m.to) - file_of(m.from));
        resolve_push(pos, m.from, m.to, dr, df)
    }
}

/// Append the legal moves of `pos`, in the rules' order, each with the plan
/// it resolves to; the position comes back as it was.
pub fn generate_prepared(pos: &mut Position, out: &mut Vec<PreparedMove>, scratch: &mut MoveScratch)
    requires
        old(pos).castling_rights < 16,
        old(pos).halfmove_clock < u16::MAX,
        old(pos).side_to_move == Color::Black ==> old(pos).fullmove_number < u16::MAX,
    ensures
        final(out)@.len() == old(out)@.len() + legal_moves(old(pos)).len(),
        forall|k: int| 0 <= k < old(out)@.len() ==> #[trigger] final(out)@[k] == old(out)@[k],
        forall|k: int|
            0 <= k < legal_moves(old(pos)).len() ==> (#[trigger] final(out)@[old(out)@.len() + k]).mv == legal_moves(
                old(pos),
            )[k] && carries(old(pos).board@, legal_moves(old(pos))[k], final(out)@[old(out)@.len() + k].plan),
        final(pos).board == old(pos).board,
        final(pos).side_to_move == old(pos).side_to_move,
        final(pos).castling_rights == old(pos).castling_rights,
        final(pos).ep_square == old(pos).ep_square,
        final(pos).halfmove_clock == old(pos).halfmove_clock,
        final(pos).fullmove_number == old(pos).fullmove_number,
        final(pos).king_sq == old(pos).king_sq,
        final(pos).zobrist == old(pos).zobrist,
        final(pos).undo_stack@ == old(pos).undo_stack@,
{
    scratch.candidates.clear();
    generate_legal_moves(pos, &mut scratch.candidates);
    let ghost legal = legal_moves(old(pos));
    assert(scratch.candidates@ =~= legal);
    let n = scratch.candidates.len();
    let ghost start = out@.len();
    let mut i: usize = 0;
    while i < n
        invariant
            i <= n,
            n == legal.len(),
            scratch.candidates@ == legal,
            legal == legal_moves(old(pos)),
            pos.board == old(pos).board,
            start == old(out)@.len(),
            out@.len() == start + i,
            forall|k: int| 0 <= k < start ==> #[trigger] out@[k] == old(out)@[k],
            forall|k: int|
                0 <= k < i ==> (#[trigger] out@[start + k]).mv == legal[k] && carries(
                    old(pos).board@,
                    legal[k],
                    out@[start + k].plan,
                ),
        decreases n - i,
    {
        let m = scratch.candidates[i];
        proof {
            assert(legal.contains(m));
            lemma_legal_is_pseudo(old(pos), m);
            crate::engine::walk::lemma_listed_move(old(pos), m);
            assert(makeable(old(pos).board@, m));
        }
        let plan = plan_of(pos, m);
        out.push(PreparedMove { mv: m, plan });
        i += 1;
    }
}

} // verus!

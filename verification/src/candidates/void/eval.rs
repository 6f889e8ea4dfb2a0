//! Void's evaluation: material and placement in one table lookup per piece.
use vstd::prelude::*;
use crate::rules::position::Position;
use crate::rules::types::{Color, PieceType};

verus! {

pub const PAWN_V: [i32; 64] = [
    100, 100, 100, 100, 100, 100, 100, 100, 105, 110, 110, 80, 80, 110, 110, 105, 105, 95, 90, 100,
    100, 90, 95, 105, 100, 100, 100, 120, 120, 100, 100, 100, 105, 105, 110, 125, 125, 110, 105,
    105, 110, 110, 120, 130, 130, 120, 110, 110, 150, 150, 150, 150, 150, 150, 150, 150, 100, 100,
    100, 100, 100, 100, 100, 100,
];

pub const KNIGHT_V: [i32; 64] = [
    270, 280, 290, 290, 290, 290, 280, 270, 280, 300, 320, 325, 325, 320, 300, 280, 290, 325, 330,
    335, 335, 330, 325, 290, 290, 320, 335, 340, 340, 335, 320, 290, 290, 325, 335, 340, 340, 335,
    325, 290, 290, 320, 330, 335, 335, 330, 320, 290, 280, 300, 320, 320, 320, 320, 300, 280, 270,
    280, 290, 290, 290, 290, 280, 270,
];

pub const BISHOP_V: [i32; 64] = [
    310, 320, 320, 320, 320, 320, 320, 310, 320, 335, 330, 330, 330, 330, 335, 320, 320, 340, 340,
    340, 340, 340, 340, 320, 320, 330, 340, 340, 340, 340, 330, 320, 320, 335, 335, 340, 340, 335,
    335, 320, 320, 330, 335, 340, 340, 335, 330, 320, 320, 330, 330, 330, 330, 330, 330, 320, 310,
    320, 320, 320, 320, 320, 320, 310,
];

pub const ROOK_V: [i32; 64] = [
    500, 500, 500, 505, 505, 500, 500, 500, 495, 500, 500, 500, 500, 500, 500, 495, 495, 500, 500,
    500, 500, 500, 500, 495, 495, 500, 500, 500, 500, 500, 500, 495, 495, 500, 500, 500, 500, 500,
    500, 495, 495, 500, 500, 500, 500, 500, 500, 495, 505, 510, 510, 510, 510, 510, 510, 505, 500,
    500, 500, 500, 500, 500, 500, 500,
];

pub const QUEEN_V: [i32; 64] = [
    880, 890, 890, 895, 895, 890, 890, 880, 890, 900, 900, 900, 900, 900, 900, 890, 890, 900, 905,
    905, 905, 905, 900, 890, 895, 900, 905, 905, 905, 905, 900, 895, 900, 900, 905, 905, 905, 905,
    900, 895, 890, 905, 905, 905, 905, 905, 900, 890, 890, 900, 905, 900, 900, 900, 900, 890, 880,
    890, 890, 895, 895, 890, 890, 880,
];

pub const KING_V: [i32; 64] = [
    20, 30, 10, 0, 0, 10, 30, 20, 20, 20, 0, 0, 0, 0, 20, 20, -10, -20, -20, -20, -20, -20, -20,
    -10, -20, -30, -30, -40, -40, -30, -30, -20, -30, -40, -40, -50, -50, -40, -40, -30, -30, -40,
    -40, -50, -50, -40, -40, -30, -30, -40, -40, -50, -50, -40, -40, -30, -30, -40, -40, -50, -50,
    -40, -40, -30,
];

/// Every table entry lies within 905 either way.
proof fn lemma_values_bounded()
    ensures
        forall|i: int| 0 <= i < 64 ==> -905 <= #[trigger] PAWN_V@[i] <= 905,
        forall|i: int| 0 <= i < 64 ==> -905 <= #[trigger] KNIGHT_V@[i] <= 905,
        forall|i: int| 0 <= i < 64 ==> -905 <= #[trigger] BISHOP_V@[i] <= 905,
        forall|i: int| 0 <= i < 64 ==> -905 <= #[trigger] ROOK_V@[i] <= 905,
        forall|i: int| 0 <= i < 64 ==> -905 <= #[trigger] QUEEN_V@[i] <= 905,
        forall|i: int| 0 <= i < 64 ==> -905 <= #[trigger] KING_V@[i] <= 905,
{
    assert(forall|i: int| 0 <= i < 64 ==> -905 <= #[trigger] PAWN_V@[i] <= 905);
    assert(forall|i: int| 0 <= i < 64 ==> -905 <= #[trigger] KNIGHT_V@[i] <= 905);
    assert(forall|i: int| 0 <= i < 64 ==> -905 <= #[trigger] BISHOP_V@[i] <= 905);
    assert(forall|i: int| 0 <= i < 64 ==> -905 <= #[trigger] ROOK_V@[i] <= 905);
    assert(forall|i: int| 0 <= i < 64 ==> -905 <= #[trigger] QUEEN_V@[i] <= 905);
    assert(forall|i: int| 0 <= i < 64 ==> -905 <= #[trigger] KING_V@[i] <= 905);
}

/// Material and placement of a piece of color `c` on `sq` in one lookup,
/// Black's squares mirrored; nothing for an empty square.
/// The value-and-placement entry of `pt` at table index `i`.
pub open spec fn value_entry(pt: PieceType, i: int) -> i32 {
    match pt {
        PieceType::Pawn => PAWN_V@[i],
        PieceType::Knight => KNIGHT_V@[i],
        PieceType::Bishop => BISHOP_V@[i],
        PieceType::Rook => ROOK_V@[i],
        PieceType::Queen => QUEEN_V@[i],
        PieceType::King => KING_V@[i],
        PieceType::Empty => 0,
    }
}

pub fn eval_piece(pt: PieceType, c: Color, sq: u8) -> (v: i32)
    requires
        sq < 64,
    ensures
        -905 <= v <= 905,
        v == value_entry(pt, if c == Color::White {
            sq as int
        } else {
            (sq ^ 56u8) as int
        }),
{
    proof {
        lemma_values_bounded();
    }
    let idx: usize = if c == Color::White {
        sq as usize
    } else {
        (sq ^ 56) as usize
    };
    assert(sq < 64 ==> (sq ^ 56u8) < 64) by (bit_vector);
    match pt {
        PieceType::Pawn => PAWN_V[idx],
        PieceType::Knight => KNIGHT_V[idx],
        PieceType::Bishop => BISHOP_V[idx],
        PieceType::Rook => ROOK_V[idx],
        PieceType::Queen => QUEEN_V[idx],
        PieceType::King => KING_V[idx],
        PieceType::Empty => 0,
    }
}

/// What the piece on square `sq` adds for the side to move: its table
/// entry, Black's squares mirrored, counted for its own side and against the
/// other; nothing for an empty square.
pub open spec fn square_term(pos: &Position, sq: int) -> int {
    let p = pos.board@[sq];
    if p.piece_type == PieceType::Empty {
        0
    } else {
        let v = value_entry(p.piece_type, if p.color == Color::White {
            sq
        } else {
            (sq as u8 ^ 56u8) as int
        }) as int;
        if p.color == pos.side_to_move {
            v
        } else {
            -v
        }
    }
}

/// The sum of the square terms of the first `n` squares.
pub open spec fn material_score(pos: &Position, n: int) -> int
    decreases n,
{
    if n <= 0 {
        0
    } else {
        material_score(pos, n - 1) + square_term(pos, n - 1)
    }
}

/// Material and placement only, for the side to move.
pub fn evaluate(pos: &Position) -> (v: i32)
    ensures
        -64 * 905 <= v <= 64 * 905,
        v == material_score(pos, 64),
{
    let stm = pos.side_to_move;
    let mut score: i32 = 0;
    let mut sq: u8 = 0;
    while sq < 64
        invariant
            sq <= 64,
            -905 * sq <= score <= 905 * sq,
            score == material_score(pos, sq as int),
            stm == pos.side_to_move,
        decreases 64 - sq,
    {
        let p = pos.board[sq as usize];
        assert(material_score(pos, sq as int + 1) == material_score(pos, sq as int) + square_term(pos, sq as int));
        if p.piece_type != PieceType::Empty {
            let v = eval_piece(p.piece_type, p.color, sq);
            if p.color == stm {
                score = score + v;
            } else {
                score = score - v;
            }
        }
        sq += 1;
    }
    score
}

/// The evaluation is the mover's: two positions with the same board and
/// opposite sides to move score the same material and placement with
/// opposite signs, over any number of squares.
pub proof fn lemma_turn_negates(p: &Position, q: &Position, n: int)
    requires
        p.board == q.board,
        p.side_to_move != q.side_to_move,
    ensures
        material_score(p, n) == -material_score(q, n),
    decreases n,
{
    if n > 0 {
        lemma_turn_negates(p, q, n - 1);
        let pc = p.board@[n - 1];
        if pc.color == p.side_to_move {
            assert(pc.color != q.side_to_move);
        } else {
            assert(pc.color == Color::White || pc.color == Color::Black);
        }
    }
}

/// A piece placed on an empty square changes the evaluation by exactly its
/// table entry (at its square, or for Black at the square mirrored across
/// the board's middle): added when it belongs to the side to move,
/// subtracted otherwise. Every piece type counts, kings and knights too, so
/// the evaluation is the signed sum of the entries of all the pieces.
pub proof fn lemma_piece_adds_its_entry(p: &Position, q: &Position, s: int)
    requires
        0 <= s < 64,
        p.side_to_move == q.side_to_move,
        p.board@[s].piece_type == PieceType::Empty,
        q.board@[s].piece_type != PieceType::Empty,
        forall|i: int| 0 <= i < 64 && i != s ==> q.board@[i] == p.board@[i],
    ensures
        material_score(q, 64) == material_score(p, 64) + ({
            let pc = q.board@[s];
            let i = if pc.color == Color::White {
                s
            } else {
                (7 - s / 8) * 8 + s % 8
            };
            let e: int = match pc.piece_type {
                PieceType::Pawn => PAWN_V@[i] as int,
                PieceType::Knight => KNIGHT_V@[i] as int,
                PieceType::Bishop => BISHOP_V@[i] as int,
                PieceType::Rook => ROOK_V@[i] as int,
                PieceType::Queen => QUEEN_V@[i] as int,
                PieceType::King => KING_V@[i] as int,
                PieceType::Empty => 0,
            };
            if pc.color == q.side_to_move {
                e
            } else {
                -e
            }
        }),
{
    let u = s as u8;
    assert(u < 64 ==> (u ^ 56u8) == (7 - u / 8) * 8 + u % 8) by (bit_vector);
    lemma_prefix_with_piece(p, q, s, 64);
}

proof fn lemma_prefix_with_piece(p: &Position, q: &Position, s: int, n: int)
    requires
        0 <= s < 64,
        0 <= n <= 64,
        p.side_to_move == q.side_to_move,
        p.board@[s].piece_type == PieceType::Empty,
        forall|i: int| 0 <= i < 64 && i != s ==> q.board@[i] == p.board@[i],
    ensures
        material_score(q, n) == material_score(p, n) + if s < n {
            square_term(q, s)
        } else {
            0
        },
    decreases n,
{
    if n > 0 {
        lemma_prefix_with_piece(p, q, s, n - 1);
        if n - 1 != s {
            assert(q.board@[n - 1] == p.board@[n - 1]);
        }
    }
}

} // verus!

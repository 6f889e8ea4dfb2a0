//! What the transaction board keeps alongside its position: piece and
//! occupancy bitboards, middlegame and endgame piece-square sums, the game
//! phase, material and the network's hidden sums, each a function of the
//! board, and how one square's change moves them.
use vstd::prelude::*;
use crate::engines::cataclysm::network::{WIDTH, feature};
use crate::rules::types::{Piece, PieceType};
use super::eval::{square_score, value};

verus! {

/// Whether bit `sq` of `x` is set.
pub open spec fn bit(x: u64, sq: int) -> bool {
    (x >> (sq as u64)) & 1u64 == 1u64
}

/// Whether `p` is a piece of color index `c`.
pub open spec fn belongs(p: Piece, c: int) -> bool {
    p.piece_type != PieceType::Empty && p.color.spec_index() == c
}

/// A piece type's weight in the game phase.
pub open spec fn phase_weight(pt: PieceType) -> int {
    match pt {
        PieceType::Knight => 1,
        PieceType::Bishop => 1,
        PieceType::Rook => 2,
        PieceType::Queen => 4,
        _ => 0,
    }
}

/// The sum of `f` over the first `n` squares of `board`.
pub open spec fn total(board: Seq<Piece>, f: spec_fn(Piece, int) -> int, n: nat) -> int
    decreases n,
{
    if n == 0 {
        0
    } else {
        total(board, f, (n - 1) as nat) + f(board[n - 1], n - 1)
    }
}

/// The middlegame score a square adds to color `c`.
pub open spec fn mg_term(c: int) -> spec_fn(Piece, int) -> int {
    |p: Piece, sq: int|
        if belongs(p, c) {
            square_score(p, sq as u8).0
        } else {
            0
        }
}

/// The endgame score a square adds to color `c`.
pub open spec fn eg_term(c: int) -> spec_fn(Piece, int) -> int {
    |p: Piece, sq: int|
        if belongs(p, c) {
            square_score(p, sq as u8).1
        } else {
            0
        }
}

/// The material a square adds to color `c`.
pub open spec fn material_term(c: int) -> spec_fn(Piece, int) -> int {
    |p: Piece, sq: int|
        if belongs(p, c) {
            value(p.piece_type)
        } else {
            0
        }
}

/// The phase a square adds.
pub open spec fn phase_term() -> spec_fn(Piece, int) -> int {
    |p: Piece, sq: int| phase_weight(p.piece_type)
}

/// The weight a square adds to hidden unit `k` of perspective `persp`.
pub open spec fn weight_term(rows: Seq<[i16; WIDTH]>, persp: int, k: int) -> spec_fn(Piece, int) -> int {
    |p: Piece, sq: int|
        if p.piece_type != PieceType::Empty {
            rows[feature(p, sq as u8, persp)][k] as int
        } else {
            0
        }
}

/// The bitboards agree with the board: bit `sq` of `men[c][pt]` is set
/// exactly when a piece of color `c` and type index `pt` stands on `sq`, and
/// bit `sq` of `occupied[c]` when any piece of color `c` does.
pub open spec fn bits_agree(board: Seq<Piece>, men: [[u64; 7]; 2], occupied: [u64; 2]) -> bool {
    &&& forall|c: int, pt: int, sq: int|
        0 <= c < 2 && 0 <= pt < 7 && 0 <= sq < 64 ==> (#[trigger] bit(men[c][pt], sq) <==> belongs(board[sq], c)
            && board[sq].piece_type.spec_index() == pt)
    &&& forall|c: int, sq: int|
        0 <= c < 2 && 0 <= sq < 64 ==> (#[trigger] bit(occupied[c], sq) <==> belongs(board[sq], c))
}

/// The sums agree with the board.
pub open spec fn sums_agree(
    board: Seq<Piece>,
    mg: [i32; 2],
    eg: [i32; 2],
    phase: i32,
    material: [i32; 2],
) -> bool {
    &&& forall|c: int| 0 <= c < 2 ==> #[trigger] mg[c] == total(board, mg_term(c), 64)
    &&& forall|c: int| 0 <= c < 2 ==> #[trigger] eg[c] == total(board, eg_term(c), 64)
    &&& forall|c: int| 0 <= c < 2 ==> #[trigger] material[c] == total(board, material_term(c), 64)
    &&& phase == total(board, phase_term(), 64)
}

/// The hidden sums agree with the board: each is its bias plus the weights
/// of the pieces standing.
pub open spec fn hidden_agrees(
    board: Seq<Piece>,
    hidden: [[i32; WIDTH]; 2],
    rows: Seq<[i16; WIDTH]>,
    biases: Seq<i32>,
) -> bool {
    forall|p: int, k: int|
        0 <= p < 2 && 0 <= k < WIDTH ==> #[trigger] hidden[p][k] == biases[k] + total(board, weight_term(rows, p, k), 64)
}

/// The first `n` squares of `board`, the others empty.
pub open spec fn prefix(board: Seq<Piece>, n: int) -> Seq<Piece> {
    Seq::new(64, |i: int| if i < n { board[i] } else { Piece::empty() })
}

/// The board that holds `old`'s pieces on the squares of `rem` and `new`'s
/// elsewhere.
pub open spec fn mix(old: Seq<Piece>, new: Seq<Piece>, rem: u64) -> Seq<Piece> {
    Seq::new(64, |q: int| if bit(rem, q) { old[q] } else { new[q] })
}

/// Changing one square changes a sum by the difference of its terms there.
pub proof fn lemma_total_update(board: Seq<Piece>, f: spec_fn(Piece, int) -> int, s: int, x: Piece, n: nat)
    requires
        0 <= s < board.len(),
        n <= board.len(),
    ensures
        total(board.update(s, x), f, n) == total(board, f, n) + (if s < n {
            f(x, s) - f(board[s], s)
        } else {
            0
        }),
    decreases n,
{
    if n > 0 {
        lemma_total_update(board, f, s, x, (n - 1) as nat);
    }
}

/// A sum of terms within `m` either way lies within `n * m` either way.
pub proof fn lemma_total_bound(board: Seq<Piece>, f: spec_fn(Piece, int) -> int, m: int, n: nat)
    requires
        n <= board.len(),
        forall|p: Piece, i: int| 0 <= i < n ==> -m <= #[trigger] f(p, i) <= m,
    ensures
        -(n as int) * m <= total(board, f, n) <= (n as int) * m,
    decreases n,
{
    if n > 0 {
        lemma_total_bound(board, f, m, (n - 1) as nat);
        assert(-m <= f(board[n - 1], n - 1) <= m);
        assert((n as int) * m == ((n - 1) as int) * m + m) by (nonlinear_arith);
        assert(-(n as int) * m == -((n - 1) as int) * m - m) by (nonlinear_arith);
    } else {
        assert(-(n as int) * m == 0 && (n as int) * m == 0) by (nonlinear_arith)
            requires
                n == 0,
        ;
    }
}

/// Setting or clearing bit `s` leaves every other bit as it was.
pub proof fn lemma_bit_ops(x: u64, s: u64, t: u64)
    by (bit_vector)
    requires
        s < 64,
        t < 64,
    ensures
        ((x | (1u64 << s)) >> t) & 1u64 == 1u64 <==> ((x >> t) & 1u64 == 1u64 || t == s),
        ((x & !(1u64 << s)) >> t) & 1u64 == 1u64 <==> ((x >> t) & 1u64 == 1u64 && t != s),
        ((1u64 << s) >> t) & 1u64 == 1u64 <==> t == s,
        (0u64 >> t) & 1u64 == 0u64,
{
}

/// Clearing the lowest set bit `s` of `r` with `r & (r - 1)` clears that bit
/// alone, and leaves a smaller number.
pub proof fn lemma_clear_lowest(r: u64, s: u64)
    by (bit_vector)
    requires
        r != 0,
        s < 64,
        (r >> s) & 1u64 == 1u64,
        r << ((64 - s) as u64) == 0,
    ensures
        r & ((r - 1) as u64) == r & !(1u64 << s),
        r & ((r - 1) as u64) < r,
{
}

/// A piece-square score on the board stays within 2000 either way.
pub proof fn lemma_square_score_bound(p: Piece, sq: int)
    requires
        0 <= sq < 64,
    ensures
        -2000 <= square_score(p, sq as u8).0 <= 2000,
        -2000 <= square_score(p, sq as u8).1 <= 2000,
{
    let r = if p.color == crate::rules::types::Color::White {
        sq / 8
    } else {
        7 - sq / 8
    };
    let advance = if r > 3 {
        r - 3
    } else {
        0
    };
    assert(0 <= advance <= 4 ==> advance * advance <= 16) by (nonlinear_arith);
}

/// How every kept sum changes when square `sq` of `board` becomes `x`.
pub proof fn lemma_change(board: Seq<Piece>, rows: Seq<[i16; WIDTH]>, sq: int, x: Piece)
    requires
        board.len() == 64,
        0 <= sq < 64,
    ensures
        forall|c: int|
            #![trigger total(board.update(sq, x), mg_term(c), 64)]
            0 <= c < 2 ==> total(board.update(sq, x), mg_term(c), 64) == total(board, mg_term(c), 64) + mg_term(c)(
                x,
                sq,
            ) - mg_term(c)(board[sq], sq),
        forall|c: int|
            #![trigger total(board.update(sq, x), eg_term(c), 64)]
            0 <= c < 2 ==> total(board.update(sq, x), eg_term(c), 64) == total(board, eg_term(c), 64) + eg_term(c)(
                x,
                sq,
            ) - eg_term(c)(board[sq], sq),
        forall|c: int|
            #![trigger total(board.update(sq, x), material_term(c), 64)]
            0 <= c < 2 ==> total(board.update(sq, x), material_term(c), 64) == total(board, material_term(c), 64)
                + material_term(c)(x, sq) - material_term(c)(board[sq], sq),
        total(board.update(sq, x), phase_term(), 64) == total(board, phase_term(), 64) + phase_weight(x.piece_type)
            - phase_weight(board[sq].piece_type),
        forall|p: int, k: int|
            #![trigger total(board.update(sq, x), weight_term(rows, p, k), 64)]
            0 <= p < 2 && 0 <= k < WIDTH ==> total(board.update(sq, x), weight_term(rows, p, k), 64) == total(
                board,
                weight_term(rows, p, k),
                64,
            ) + weight_term(rows, p, k)(x, sq) - weight_term(rows, p, k)(board[sq], sq),
{
    assert forall|c: int| 0 <= c < 2 implies total(board.update(sq, x), mg_term(c), 64) == total(board, mg_term(c), 64)
        + mg_term(c)(x, sq) - mg_term(c)(board[sq], sq) by {
        lemma_total_update(board, mg_term(c), sq, x, 64);
    }
    assert forall|c: int| 0 <= c < 2 implies total(board.update(sq, x), eg_term(c), 64) == total(board, eg_term(c), 64)
        + eg_term(c)(x, sq) - eg_term(c)(board[sq], sq) by {
        lemma_total_update(board, eg_term(c), sq, x, 64);
    }
    assert forall|c: int| 0 <= c < 2 implies total(board.update(sq, x), material_term(c), 64) == total(
        board,
        material_term(c),
        64,
    ) + material_term(c)(x, sq) - material_term(c)(board[sq], sq) by {
        lemma_total_update(board, material_term(c), sq, x, 64);
    }
    lemma_total_update(board, phase_term(), sq, x, 64);
    assert forall|p: int, k: int| 0 <= p < 2 && 0 <= k < WIDTH implies total(
        board.update(sq, x),
        weight_term(rows, p, k),
        64,
    ) == total(board, weight_term(rows, p, k), 64) + weight_term(rows, p, k)(x, sq) - weight_term(rows, p, k)(
        board[sq],
        sq,
    ) by {
        lemma_total_update(board, weight_term(rows, p, k), sq, x, 64);
    }
}

/// The kept sums of any board lie within their bounds.
pub proof fn lemma_sum_bounds(board: Seq<Piece>, rows: Seq<[i16; WIDTH]>)
    requires
        board.len() == 64,
    ensures
        forall|c: int| #![trigger total(board, mg_term(c), 64)] -128000 <= total(board, mg_term(c), 64) <= 128000,
        forall|c: int| #![trigger total(board, eg_term(c), 64)] -128000 <= total(board, eg_term(c), 64) <= 128000,
        forall|c: int|
            #![trigger total(board, material_term(c), 64)]
            -128000 <= total(board, material_term(c), 64) <= 128000,
        0 <= total(board, phase_term(), 64) <= 256,
        forall|p: int, k: int|
            #![trigger total(board, weight_term(rows, p, k), 64)]
            -2097152 <= total(board, weight_term(rows, p, k), 64) <= 2097152,
{
    assert forall|c: int| #![trigger total(board, mg_term(c), 64)] -128000 <= total(board, mg_term(c), 64) <= 128000 by {
        assert forall|p: Piece, i: int| 0 <= i < 64 implies -2000 <= #[trigger] mg_term(c)(p, i) <= 2000 by {
            lemma_square_score_bound(p, i);
        }
        lemma_total_bound(board, mg_term(c), 2000, 64);
    }
    assert forall|c: int| #![trigger total(board, eg_term(c), 64)] -128000 <= total(board, eg_term(c), 64) <= 128000 by {
        assert forall|p: Piece, i: int| 0 <= i < 64 implies -2000 <= #[trigger] eg_term(c)(p, i) <= 2000 by {
            lemma_square_score_bound(p, i);
        }
        lemma_total_bound(board, eg_term(c), 2000, 64);
    }
    assert forall|c: int|
        #![trigger total(board, material_term(c), 64)]
        -128000 <= total(board, material_term(c), 64) <= 128000 by {
        assert forall|p: Piece, i: int| 0 <= i < 64 implies -2000 <= #[trigger] material_term(c)(p, i) <= 2000 by {}
        lemma_total_bound(board, material_term(c), 2000, 64);
    }
    lemma_phase_bound(board, 64);
    assert forall|p: int, k: int|
        #![trigger total(board, weight_term(rows, p, k), 64)]
        -2097152 <= total(board, weight_term(rows, p, k), 64) <= 2097152 by {
        assert forall|q: Piece, i: int| 0 <= i < 64 implies -32768 <= #[trigger] weight_term(rows, p, k)(q, i) <= 32768 by {}
        lemma_total_bound(board, weight_term(rows, p, k), 32768, 64);
    }
}

/// The phase of the first `n` squares lies between 0 and four per square.
proof fn lemma_phase_bound(board: Seq<Piece>, n: nat)
    requires
        n <= board.len(),
    ensures
        0 <= total(board, phase_term(), n) <= 4 * n,
    decreases n,
{
    if n > 0 {
        lemma_phase_bound(board, (n - 1) as nat);
    }
}

/// Every kept sum of a board without pieces is zero.
pub proof fn lemma_empty_sums(board: Seq<Piece>, f: spec_fn(Piece, int) -> int, n: nat)
    requires
        n <= board.len(),
        forall|i: int| 0 <= i < n ==> f(#[trigger] board[i], i) == 0,
    ensures
        total(board, f, n) == 0,
    decreases n,
{
    if n > 0 {
        lemma_empty_sums(board, f, (n - 1) as nat);
    }
}

} // verus!

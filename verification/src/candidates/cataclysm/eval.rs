//! The candidate Cataclysm's evaluation: the piece-square baseline blended
//! by game phase, half the network's residual, passed pawns worth more as
//! pieces leave, and the bishop pair.
use vstd::prelude::*;
use crate::engines::astra::eval::{passed_mask, passed_squares, quot, toward_zero};
use crate::engines::cataclysm::network::{WIDTH, div_toward_zero, residual_sum};
use crate::rules::types::{Color, Piece, PieceType};
use super::board::Board;
use super::features::{lemma_clear_lowest, lemma_sum_bounds};

verus! {

pub open spec fn abs(x: int) -> int {
    if x < 0 {
        -x
    } else {
        x
    }
}

pub open spec fn min(a: int, b: int) -> int {
    if a < b {
        a
    } else {
        b
    }
}

/// The material value of a piece type.
pub open spec fn value(pt: PieceType) -> int {
    match pt {
        PieceType::Pawn => 100,
        PieceType::Knight => 305,
        PieceType::Bishop => 365,
        PieceType::Rook => 550,
        PieceType::Queen => 1050,
        _ => 0,
    }
}

/// The (middlegame, endgame) score of a piece on `sq`: its value plus a
/// placement term, ranks counted from the piece's own side.
pub open spec fn square_score(p: Piece, sq: u8) -> (int, int) {
    let r = if p.color == Color::White {
        sq as int / 8
    } else {
        7 - sq as int / 8
    };
    let f = sq as int % 8;
    let center = min(abs(f - 3), abs(f - 4)) + min(abs(r - 3), abs(r - 4));
    let advance = if r > 3 {
        r - 3
    } else {
        0
    };
    let (mg, eg) = match p.piece_type {
        PieceType::Pawn => (r * 3 + advance * advance * 4 - abs(f - 3) * 2, r * 7 + advance * advance * 8),
        PieceType::Knight => (36 - center * 11, 25 - center * 8),
        PieceType::Bishop => (26 - center * 6, 30 - center * 5),
        PieceType::Rook => (r * 3, 12 - center * 3),
        PieceType::Queen => (12 - center * 3, 20 - center * 4),
        PieceType::King => (-r * 5, 40 - center * 12),
        PieceType::Empty => (0, 0),
    };
    (value(p.piece_type) + mg, value(p.piece_type) + eg)
}

fn abs_i32(x: i32) -> (y: i32)
    requires
        x > i32::MIN,
    ensures
        y == abs(x as int),
{
    if x < 0 {
        -x
    } else {
        x
    }
}

fn min_i32(a: i32, b: i32) -> (m: i32)
    ensures
        m == min(a as int, b as int),
{
    if a < b {
        a
    } else {
        b
    }
}

/// The (middlegame, endgame) piece-square score of `p` on `sq`.
pub fn piece_score(p: Piece, sq: u8) -> (s: (i32, i32))
    requires
        sq < 64,
    ensures
        (s.0 as int, s.1 as int) == square_score(p, sq),
{
    let r: i32 = if p.color == Color::White {
        (sq / 8) as i32
    } else {
        7 - (sq / 8) as i32
    };
    let f: i32 = (sq % 8) as i32;
    let center = min_i32(abs_i32(f - 3), abs_i32(f - 4)) + min_i32(abs_i32(r - 3), abs_i32(r - 4));
    let advance = if r > 3 {
        r - 3
    } else {
        0
    };
    assert(0 <= advance <= 4 ==> advance * advance <= 16) by (nonlinear_arith);
    let value: i32 = match p.piece_type {
        PieceType::Pawn => 100,
        PieceType::Knight => 305,
        PieceType::Bishop => 365,
        PieceType::Rook => 550,
        PieceType::Queen => 1050,
        _ => 0,
    };
    let (mg, eg) = match p.piece_type {
        PieceType::Pawn => (r * 3 + advance * advance * 4 - abs_i32(f - 3) * 2, r * 7 + advance * advance * 8),
        PieceType::Knight => (36 - center * 11, 25 - center * 8),
        PieceType::Bishop => (26 - center * 6, 30 - center * 5),
        PieceType::Rook => (r * 3, 12 - center * 3),
        PieceType::Queen => (12 - center * 3, 20 - center * 4),
        PieceType::King => (-r * 5, 40 - center * 12),
        PieceType::Empty => (0, 0),
    };
    (value + mg, value + eg)
}

/// Whether `x` has at least two bits set.
fn two_or_more(x: u64) -> (b: bool)
    ensures
        b == (x != 0 && (x & ((x - 1) as u64)) != 0),
{
    let mut rest = x;
    let mut count: u32 = 0;
    while rest != 0 && count < 2
        invariant
            count <= 2,
            count == 0 ==> rest == x,
            count == 1 ==> x != 0 && rest == (x & ((x - 1) as u64)),
            count == 2 ==> x != 0 && (x & ((x - 1) as u64)) != 0,
        decreases rest,
    {
        let tz = rest.trailing_zeros();
        proof {
            vstd::std_specs::bits::axiom_u64_trailing_zeros(rest);
            lemma_clear_lowest(rest, tz as u64);
        }
        rest = rest & (rest - 1);
        count += 1;
    }
    count >= 2
}

/// The passed-pawn bonus by rank, counted from the pawn's own side.
fn passed_bonus(rank: usize) -> (v: i32)
    requires
        rank < 8,
    ensures
        0 <= v <= 100,
        v == seq![0int, 0, 5, 12, 24, 50, 100, 0][rank as int],
{
    if rank == 2 {
        5
    } else if rank == 3 {
        12
    } else if rank == 4 {
        24
    } else if rank == 5 {
        50
    } else if rank == 6 {
        100
    } else {
        0
    }
}

/// The phase the blend uses: the board's phase, at most 24.
pub open spec fn blend_phase(b: &Board) -> int {
    if b.f.phase < 24 {
        b.f.phase as int
    } else {
        24
    }
}

/// The passed-pawn bonus by rank, counted from the pawn's own side.
pub open spec fn rank_bonus(rank: int) -> int {
    seq![0int, 0, 5, 12, 24, 50, 100, 0][rank]
}

/// The passed-pawn gains of the side of color index `c` over the first `n`
/// squares, from White's view: each pawn of that side with no enemy pawn on
/// its passed squares earns its rank's bonus, scaled by 32 less the phase and
/// divided by 16.
pub open spec fn passed_gain(b: &Board, c: int, n: int) -> int
    decreases n,
{
    if n <= 0 {
        0
    } else {
        let sq = n - 1;
        let sign: int = if c == 0 {
            1
        } else {
            -1
        };
        let rank = if c == 0 {
            sq / 8
        } else {
            7 - sq / 8
        };
        let own = (b.f.men[c][1] >> (sq as u64)) & 1 == 1;
        let free = b.f.men[1 - c][1] & passed_squares(c, sq, 64) == 0;
        passed_gain(b, c, n - 1) + if own && free {
            toward_zero(sign * rank_bonus(rank) * (32 - blend_phase(b)), 16)
        } else {
            0
        }
    }
}

/// Thirty for the side of color index `c` when it has two bishops or more,
/// from White's view.
pub open spec fn pair_bonus(b: &Board, c: int) -> int {
    let x = b.f.men[c][3];
    if x != 0 && (x & ((x - 1) as u64)) != 0 {
        if c == 0 {
            30
        } else {
            -30
        }
    } else {
        0
    }
}

/// The blended piece-square baseline and half the network's residual, from
/// White's view.
pub open spec fn white_baseline(b: &Board) -> int {
    let ph = blend_phase(b);
    let blend = (b.f.mg[0] - b.f.mg[1]) * ph + (b.f.eg[0] - b.f.eg[1]) * (24 - ph);
    toward_zero(blend, 24) + toward_zero(
        div_toward_zero(residual_sum(b.f.net.hidden, b.model.outputs(), WIDTH as nat), 4096),
        2,
    )
}

/// The side of color index `c`'s passed pawns and bishop pair, from White's
/// view.
pub open spec fn side_terms(b: &Board, c: int) -> int {
    passed_gain(b, c, 64) + pair_bonus(b, c)
}

/// The evaluation of `b` for the side to move: White's view turned to the
/// mover, fourteen for the move, within ±28000.
pub open spec fn board_score(b: &Board) -> int {
    let white = white_baseline(b) + side_terms(b, 0) + side_terms(b, 1);
    let relative = (if b.pos.side_to_move == Color::White {
        white
    } else {
        -white
    }) + 14;
    if relative < -28000 {
        -28000
    } else if relative > 28000 {
        28000
    } else {
        relative
    }
}

/// The evaluation for the side to move: the middlegame and endgame sums
/// blended by the phase (24 at most), half the network's residual, each
/// passed pawn's bonus scaled up as the phase falls, thirty for the bishop
/// pair, fourteen for the move, within ±28000.
pub fn evaluate(b: &Board) -> (v: i32)
    requires
        b.wf(),
    ensures
        -28000 <= v <= 28000,
        v == board_score(b),
{
    proof {
        lemma_sum_bounds(b.pos.board@, b.model.rows());
    }
    assert(-128000 <= b.f.mg[0] <= 128000 && -128000 <= b.f.mg[1] <= 128000);
    assert(-128000 <= b.f.eg[0] <= 128000 && -128000 <= b.f.eg[1] <= 128000);
    assert(0 <= b.f.phase <= 256);
    let phase: i32 = if b.f.phase < 24 {
        b.f.phase
    } else {
        24
    };
    let dm = b.f.mg[0] - b.f.mg[1];
    let de = b.f.eg[0] - b.f.eg[1];
    assert(-256000 * 24 <= dm * phase <= 256000 * 24) by (nonlinear_arith)
        requires
            0 <= phase <= 24,
            -256000 <= dm <= 256000,
    ;
    assert(-256000 * 24 <= de * (24 - phase) <= 256000 * 24) by (nonlinear_arith)
        requires
            0 <= phase <= 24,
            -256000 <= de <= 256000,
    ;
    let blend = dm * phase + de * (24 - phase);
    let baseline = quot(blend, 24);
    let residual = b.f.net.white_residual(b.model);
    let mut white: i32 = baseline + quot(residual, 2);
    assert(white == white_baseline(b));
    let mut c: usize = 0;
    while c < 2
        invariant
            c <= 2,
            0 <= phase <= 24,
            phase == blend_phase(b),
            -6200000 - 13000 * c <= white <= 6200000 + 13000 * c,
            white == white_baseline(b) + (if c >= 1 {
                side_terms(b, 0)
            } else {
                0
            }) + (if c >= 2 {
                side_terms(b, 1)
            } else {
                0
            }),
        decreases 2 - c,
    {
        let sign: i32 = if c == 0 {
            1
        } else {
            -1
        };
        let pawns = b.f.men[c][1];
        let mut gained: i32 = 0;
        let mut sq: usize = 0;
        while sq < 64
            invariant
                c < 2,
                sign == 1 || sign == -1,
                0 <= phase <= 24,
                sq <= 64,
                -200 * sq <= gained <= 200 * sq,
                phase == blend_phase(b),
                sign == (if c == 0 {
                    1int
                } else {
                    -1int
                }),
                pawns == b.f.men[c as int][1],
                gained == passed_gain(b, c as int, sq as int),
            decreases 64 - sq,
        {
            if (pawns >> sq as u64) & 1 == 1 {
                let rank = if c == 0 {
                    sq / 8
                } else {
                    7 - sq / 8
                };
                if b.f.men[1 - c][1] & passed_mask(c, sq) == 0 {
                    let t = passed_bonus(rank);
                    assert(-100 <= sign * t <= 100 && -3200 <= sign * t * (32 - phase) <= 3200) by (nonlinear_arith)
                        requires
                            sign == 1 || sign == -1,
                            0 <= t <= 100,
                            0 <= phase <= 24,
                    ;
                    gained = gained + quot(sign * t * (32 - phase), 16);
                }
            }
            sq += 1;
        }
        white = white + gained;
        if two_or_more(b.f.men[c][3]) {
            white = white + sign * 30;
        }
        c += 1;
    }
    let relative = if b.pos.side_to_move == Color::White {
        white
    } else {
        -white
    } + 14;
    if relative < -28000 {
        -28000
    } else if relative > 28000 {
        28000
    } else {
        relative
    }
}

} // verus!

//! Chimera's evaluation, which Titan uses too: material, centralisation,
//! pawn advance and passed pawns, then pistons behind advanced pawns, king
//! tropism towards advanced enemy pawns, king safety and the bishop pair.
//! Every term is counted for the side to move.
use vstd::prelude::*;
use crate::candidates::omega::eval::{is_passed, lemma_passed_same_board, passed};
use crate::rules::position::Position;
use crate::rules::types::{Color, PieceType, pval, spec_pval};

verus! {

/// What the first pass collects: up to eight pawns and sixteen rooks or
/// queens of each color, in board order, each king's square and the number
/// of bishops.
pub struct Census {
    pub pawn_sq: [u8; 16],
    pub pawn_n: [usize; 2],
    pub slider_sq: [u8; 32],
    pub slider_n: [usize; 2],
    pub king: [u8; 2],
    pub bishop_count: [i32; 2],
}

impl Census {
    pub open spec fn fits(&self) -> bool {
        &&& self.pawn_n[0] <= 8
        &&& self.pawn_n[1] <= 8
        &&& self.slider_n[0] <= 16
        &&& self.slider_n[1] <= 16
        &&& forall|k: int| 0 <= k < 16 ==> #[trigger] self.pawn_sq[k] < 64
        &&& forall|k: int| 0 <= k < 32 ==> #[trigger] self.slider_sq[k] < 64
        &&& self.king[0] < 64
        &&& self.king[1] < 64
        &&& 0 <= self.bishop_count[0] <= 64
        &&& 0 <= self.bishop_count[1] <= 64
    }
}

/// The larger of the rank and file distances between two squares given by
/// rank and file.
/// How far apart `a` and `b` are.
pub open spec fn gap(a: i32, b: i32) -> int {
    if a > b {
        a - b
    } else {
        b - a
    }
}

pub(crate) fn distance(r1: i32, f1: i32, r2: i32, f2: i32) -> (d: i32)
    requires
        0 <= r1 < 8,
        0 <= f1 < 8,
        0 <= r2 < 8,
        0 <= f2 < 8,
    ensures
        0 <= d < 8,
        d == king_steps(r1 as int, f1 as int, r2 as int, f2 as int),
        d == (if gap(r1, r2) > gap(f1, f2) {
            gap(r1, r2)
        } else {
            gap(f1, f2)
        }),
{
    let dr = if r1 > r2 {
        r1 - r2
    } else {
        r2 - r1
    };
    let df = if f1 > f2 {
        f1 - f2
    } else {
        f2 - f1
    };
    if dr > df {
        dr
    } else {
        df
    }
}

/// How many king steps apart two squares given by rank and file stand.
pub open spec fn king_steps(r1: int, f1: int, r2: int, f2: int) -> int {
    let dr = if r1 > r2 {
        r1 - r2
    } else {
        r2 - r1
    };
    let df = if f1 > f2 {
        f1 - f2
    } else {
        f2 - f1
    };
    if dr > df {
        dr
    } else {
        df
    }
}

/// What the piece on `sq` is worth to its own side in the first pass: its
/// material, centralisation (knights five per king step towards d4, other
/// pieces but pawns and kings two), and for a pawn its advance squared times
/// three and fifteen per rank of advance when passed.
pub open spec fn piece_worth(pos: &Position, sq: int) -> int {
    let p = pos.board@[sq];
    let r = sq / 8;
    let f = sq % 8;
    let cd = king_steps(r, f, 3, 3);
    let central = if p.piece_type == PieceType::Knight {
        (3 - cd) * 5
    } else if p.piece_type != PieceType::Pawn && p.piece_type != PieceType::King {
        (3 - cd) * 2
    } else {
        0
    };
    let adv = if p.color == Color::White {
        r
    } else {
        7 - r
    };
    let pawn = if p.piece_type == PieceType::Pawn {
        adv * adv * 3 + if is_passed(pos, p.color, r, f) {
            adv * 15
        } else {
            0
        }
    } else {
        0
    };
    spec_pval(p.piece_type) as int + central + pawn
}

/// The first-pass score of the first `n` squares for the side to move.
pub open spec fn first_score(pos: &Position, n: int) -> int
    decreases n,
{
    if n <= 0 {
        0
    } else {
        let p = pos.board@[n - 1];
        first_score(pos, n - 1) + if p.spec_is_empty() {
            0
        } else if p.color == pos.side_to_move {
            piece_worth(pos, n - 1)
        } else {
            -piece_worth(pos, n - 1)
        }
    }
}

/// Whether `p` is a piece of color index `ci` whose type `kind` accepts.
pub open spec fn is_kind(p: crate::rules::types::Piece, ci: int, kind: int) -> bool {
    &&& !p.spec_is_empty()
    &&& p.color.spec_index() == ci
    &&& if kind == 0 {
        p.piece_type == PieceType::Pawn
    } else if kind == 1 {
        p.piece_type == PieceType::Rook || p.piece_type == PieceType::Queen
    } else if kind == 2 {
        p.piece_type == PieceType::King
    } else if kind == 3 {
        p.piece_type == PieceType::Bishop
    } else {
        p.piece_type != PieceType::Pawn && p.piece_type != PieceType::King
    }
}

/// The squares among the first `n` holding a piece of color index `ci` of
/// the given kind (0 pawns, 1 rooks and queens, 2 kings, 3 bishops, 4
/// pieces other than pawns and kings), in
/// board order.
pub open spec fn squares_of(pos: &Position, ci: int, kind: int, n: int) -> Seq<u8>
    decreases n,
{
    if n <= 0 {
        Seq::empty()
    } else {
        let rest = squares_of(pos, ci, kind, n - 1);
        if is_kind(pos.board@[n - 1], ci, kind) {
            rest.push((n - 1) as u8)
        } else {
            rest
        }
    }
}

/// The smaller of two counts.
pub open spec fn at_most(a: int, b: int) -> int {
    if a < b {
        a
    } else {
        b
    }
}

/// The census describes the first `n` squares of `pos`: for each color the
/// first eight pawns and sixteen rooks or queens in board order, the last
/// king square seen (0 when none), and the number of bishops.
pub open spec fn census_of(g: &Census, pos: &Position, n: int) -> bool {
    forall|ci: int|
        0 <= ci < 2 ==> {
            let pawns = #[trigger] squares_of(pos, ci, 0, n);
            let sliders = squares_of(pos, ci, 1, n);
            let kings = squares_of(pos, ci, 2, n);
            &&& g.pawn_n[ci] == at_most(8, pawns.len() as int)
            &&& forall|k: int| 0 <= k < g.pawn_n[ci] ==> g.pawn_sq[ci * 8 + k] == pawns[k]
            &&& g.slider_n[ci] == at_most(16, sliders.len() as int)
            &&& forall|k: int| 0 <= k < g.slider_n[ci] ==> g.slider_sq[ci * 16 + k] == sliders[k]
            &&& g.king[ci] == (if kings.len() > 0 {
                kings.last()
            } else {
                0u8
            })
            &&& g.bishop_count[ci] == squares_of(pos, ci, 3, n).len()
        }
}

/// The first pass: material, centralisation of the pieces (knights five per
/// step towards the centre, other pieces but pawns and kings two), pawn
/// advance squared and passed pawns, with the census on the way.
#[verifier::spinoff_prover]
#[verifier::rlimit(30)]
pub(crate) fn first_pass(pos: &Position) -> (r: (i32, Census))
    ensures
        -64 * 1000 <= r.0 <= 64 * 1000,
        r.1.fits(),
        r.0 == first_score(pos, 64),
        census_of(&r.1, pos, 64),
{
    let stm = pos.side_to_move;
    let mut score: i32 = 0;
    let mut g = Census {
        pawn_sq: [0; 16],
        pawn_n: [0, 0],
        slider_sq: [0; 32],
        slider_n: [0, 0],
        king: [0, 0],
        bishop_count: [0, 0],
    };
    let mut sq: u8 = 0;
    while sq < 64
        invariant
            sq <= 64,
            -1000 * sq <= score <= 1000 * sq,
            g.fits(),
            g.bishop_count[0] <= sq,
            g.bishop_count[1] <= sq,
            score == first_score(pos, sq as int),
            census_of(&g, pos, sq as int),
            stm == pos.side_to_move,
        decreases 64 - sq,
    {
        let ghost g0 = g;
        assert(first_score(pos, sq + 1) == first_score(pos, sq as int) + if pos.board@[sq as int].spec_is_empty() {
            0
        } else if pos.board@[sq as int].color == pos.side_to_move {
            piece_worth(pos, sq as int)
        } else {
            -piece_worth(pos, sq as int)
        });
        let p = pos.board[sq as usize];
        if !p.is_empty() {
            let c = p.color;
            let ci = c.index();
            let pt = p.piece_type;
            let r = (sq / 8) as i32;
            let f = (sq % 8) as i32;
            let mut own: i32 = pval(pt);
            let cd = distance(r, f, 3, 3);
            if pt == PieceType::Knight {
                own = own + (3 - cd) * 5;
            } else if pt != PieceType::Pawn && pt != PieceType::King {
                own = own + (3 - cd) * 2;
            }
            if pt == PieceType::Pawn {
                let adv = if c == Color::White {
                    r
                } else {
                    7 - r
                };
                assert(adv * adv <= 49) by (nonlinear_arith)
                    requires
                        0 <= adv < 8,
                ;
                own = own + adv * adv * 3;
                if g.pawn_n[ci] < 8 {
                    g.pawn_sq[ci * 8 + g.pawn_n[ci]] = sq;
                    g.pawn_n[ci] = g.pawn_n[ci] + 1;
                }
                if passed(pos, c, r, f) {
                    own = own + adv * 15;
                }
            }
            if pt == PieceType::King {
                g.king[ci] = sq;
            }
            if pt == PieceType::Bishop {
                g.bishop_count[ci] = g.bishop_count[ci] + 1;
            }
            if (pt == PieceType::Rook || pt == PieceType::Queen) && g.slider_n[ci] < 16 {
                g.slider_sq[ci * 16 + g.slider_n[ci]] = sq;
                g.slider_n[ci] = g.slider_n[ci] + 1;
            }
            assert(own == piece_worth(pos, sq as int));
            if c == stm {
                score = score + own;
            } else {
                score = score - own;
            }
        }
        proof {
            assert forall|ci: int| 0 <= ci < 2 implies {
                let pawns = #[trigger] squares_of(pos, ci, 0, sq + 1);
                let sliders = squares_of(pos, ci, 1, sq + 1);
                let kings = squares_of(pos, ci, 2, sq + 1);
                &&& g.pawn_n[ci] == at_most(8, pawns.len() as int)
                &&& forall|k: int| 0 <= k < g.pawn_n[ci] ==> g.pawn_sq[ci * 8 + k] == pawns[k]
                &&& g.slider_n[ci] == at_most(16, sliders.len() as int)
                &&& forall|k: int| 0 <= k < g.slider_n[ci] ==> g.slider_sq[ci * 16 + k] == sliders[k]
                &&& g.king[ci] == (if kings.len() > 0 {
                    kings.last()
                } else {
                    0u8
                })
                &&& g.bishop_count[ci] == squares_of(pos, ci, 3, sq + 1).len()
            } by {
                let pawns0 = squares_of(pos, ci, 0, sq as int);
                let sliders0 = squares_of(pos, ci, 1, sq as int);
                assert(g0.pawn_n[ci] == at_most(8, pawns0.len() as int));
                assert(forall|k: int| 0 <= k < g0.pawn_n[ci] ==> g0.pawn_sq[ci * 8 + k] == pawns0[k]);
                assert(g0.slider_n[ci] == at_most(16, sliders0.len() as int));
                assert(forall|k: int| 0 <= k < g0.slider_n[ci] ==> g0.slider_sq[ci * 16 + k] == sliders0[k]);
            }
            assert(census_of(&g, pos, sq + 1));
        }
        sq += 1;
    }
    (score, g)
}

/// Every square strictly between ranks `sr` and `pr` on file `pf` is empty.
pub open spec fn file_clear(pos: &Position, sr: int, pr: int, pf: int) -> bool {
    forall|x: int|
        (if sr < pr {
            sr < x < pr
        } else {
            pr < x < sr
        }) ==> #[trigger] pos.board@[x * 8 + pf].spec_is_empty()
}

/// How many rooks and queens of color index `ci` the census keeps.
pub open spec fn slider_count(pos: &Position, ci: int) -> int {
    at_most(16, squares_of(pos, ci, 1, 64).len() as int)
}

/// What the census pawn on `psq` of color index `ci` earns from its census
/// rooks and queens `si..m`: for the first on its file behind it with nothing
/// between them, 150 from the sixth rank on and 60 before; otherwise nothing.
pub open spec fn piston_from(pos: &Position, ci: int, psq: int, si: int, m: int) -> int
    decreases m - si,
{
    if si < 0 || si >= m {
        0
    } else {
        let ssq = squares_of(pos, ci, 1, 64)[si] as int;
        let (pr, pf, sr) = (psq / 8, psq % 8, ssq / 8);
        let behind = if ci == 0 {
            sr < pr
        } else {
            sr > pr
        };
        if ssq % 8 == pf && behind && file_clear(pos, sr, pr, pf) {
            if advance(ci, psq) >= 5 {
                150
            } else {
                60
            }
        } else {
            piston_from(pos, ci, psq, si + 1, m)
        }
    }
}

/// The pistons of the side of color index `ci` over its first `k` census
/// pawns: those from the fifth rank on earn their piston.
pub open spec fn pistons_side(pos: &Position, ci: int, k: int) -> int
    decreases k,
{
    if k <= 0 {
        0
    } else {
        let psq = pawn_at(pos, ci, k - 1);
        pistons_side(pos, ci, k - 1) + if advance(ci, psq) >= 4 {
            piston_from(pos, ci, psq, 0, slider_count(pos, ci))
        } else {
            0
        }
    }
}

/// The pistons term for the side to move.
pub open spec fn pistons_score(pos: &Position) -> int {
    mover_sign(pos, 0) * pistons_side(pos, 0, pawn_count(pos, 0)) + mover_sign(pos, 1) * pistons_side(
        pos,
        1,
        pawn_count(pos, 1),
    )
}

/// Pistons: a rook or queen behind an advanced pawn of its side on the same
/// file, with nothing between them, drives it forward (150 from the sixth
/// rank on, 60 on the fifth).
pub(crate) fn pistons(pos: &Position, g: &Census) -> (v: i32)
    requires
        g.fits(),
        census_of(g, pos, 64),
    ensures
        -2400 <= v <= 2400,
        v == pistons_score(pos),
{
    let stm = pos.side_to_move;
    let mut score: i32 = 0;
    let mut ci: usize = 0;
    while ci < 2
        invariant
            ci <= 2,
            g.fits(),
            census_of(g, pos, 64),
            stm == pos.side_to_move,
            -1200 * ci <= score <= 1200 * ci,
            score == (if ci >= 1 {
                mover_sign(pos, 0) * pistons_side(pos, 0, pawn_count(pos, 0))
            } else {
                0
            }) + (if ci >= 2 {
                mover_sign(pos, 1) * pistons_side(pos, 1, pawn_count(pos, 1))
            } else {
                0
            }),
        decreases 2 - ci,
    {
        assert(squares_of(pos, ci as int, 0, 64) == squares_of(pos, ci as int, 0, 64));
        let c = if ci == 0 {
            Color::White
        } else {
            Color::Black
        };
        let sign: i32 = if c == stm {
            1
        } else {
            -1
        };
        let mut side: i32 = 0;
        let mut pi: usize = 0;
        while pi < g.pawn_n[ci]
            invariant
                ci < 2,
                g.fits(),
                pi <= g.pawn_n[ci as int],
                0 <= side <= 150 * pi,
                census_of(g, pos, 64),
                c == Color::White <==> ci == 0,
                g.pawn_n[ci as int] == pawn_count(pos, ci as int),
                g.slider_n[ci as int] == slider_count(pos, ci as int),
                side == pistons_side(pos, ci as int, pi as int),
            decreases g.pawn_n[ci as int] - pi,
        {
            let psq = g.pawn_sq[ci * 8 + pi] as i32;
            assert(squares_of(pos, ci as int, 0, 64) == squares_of(pos, ci as int, 0, 64));
            assert(psq == pawn_at(pos, ci as int, pi as int));
            let pr = psq / 8;
            let pf = psq % 8;
            let adv = if c == Color::White {
                pr
            } else {
                7 - pr
            };
            if adv >= 4 {
                let mut bonus: i32 = 0;
                let mut si: usize = 0;
                while si < g.slider_n[ci]
                    invariant_except_break
                        bonus == 0,
                        piston_from(pos, ci as int, psq as int, 0, slider_count(pos, ci as int)) == piston_from(
                            pos,
                            ci as int,
                            psq as int,
                            si as int,
                            slider_count(pos, ci as int),
                        ),
                    invariant
                        ci < 2,
                        g.fits(),
                        si <= g.slider_n[ci as int],
                        0 <= pr < 8,
                        0 <= pf < 8,
                        0 <= bonus <= 150,
                        census_of(g, pos, 64),
                        c == Color::White <==> ci == 0,
                        g.slider_n[ci as int] == slider_count(pos, ci as int),
                        0 <= psq < 64,
                        pr == psq / 8,
                        pf == psq % 8,
                        adv == advance(ci as int, psq as int),
                    ensures
                        bonus == piston_from(pos, ci as int, psq as int, 0, slider_count(pos, ci as int)),
                    decreases g.slider_n[ci as int] - si,
                {
                    let ssq = g.slider_sq[ci * 16 + si] as i32;
                    assert(squares_of(pos, ci as int, 0, 64) == squares_of(pos, ci as int, 0, 64));
                    assert(ssq == squares_of(pos, ci as int, 1, 64)[si as int]);
                    let sr = ssq / 8;
                    let behind = if c == Color::White {
                        sr < pr
                    } else {
                        sr > pr
                    };
                    if ssq % 8 == pf && behind {
                        let dir: i32 = if c == Color::White {
                            1
                        } else {
                            -1
                        };
                        let mut clear = true;
                        let mut cr = sr + dir;
                        while cr != pr
                            invariant_except_break
                                clear,
                            invariant
                                forall|x: int|
                                    (if dir == 1 {
                                        sr < x < cr
                                    } else {
                                        cr < x < sr
                                    }) ==> #[trigger] pos.board@[x * 8 + pf].spec_is_empty(),
                                dir == 1 ==> sr < cr <= pr,
                                dir == -1 ==> pr <= cr < sr,
                                dir == 1 || dir == -1,
                                0 <= pr < 8,
                                0 <= pf < 8,
                                0 <= sr < 8,
                            ensures
                                clear == file_clear(pos, sr as int, pr as int, pf as int),
                            decreases (if dir == 1 {
                                pr - cr
                            } else {
                                cr - pr
                            }),
                        {
                            if !pos.board[(cr * 8 + pf) as usize].is_empty() {
                                clear = false;
                                assert(!pos.board@[cr * 8 + pf].spec_is_empty());
                                break;
                            }
                            cr += dir;
                        }
                        if clear {
                            bonus = if adv >= 5 {
                                150
                            } else {
                                60
                            };
                            break;
                        }
                    }
                    si += 1;
                }
                side = side + bonus;
            }
            pi += 1;
        }
        assert(side == pistons_side(pos, ci as int, pawn_count(pos, ci as int)));
        assert(sign as int == mover_sign(pos, ci as int));
        assert(sign * side == mover_sign(pos, ci as int) * pistons_side(pos, ci as int, pawn_count(pos, ci as int)));
        assert(-1200 <= sign * side <= 1200) by (nonlinear_arith)
            requires
                sign == 1 || sign == -1,
                0 <= side <= 1200,
        ;
        score = score + sign * side;
        ci += 1;
    }
    score
}

/// The king square of color index `ci` the census keeps: the last seen, 0
/// when there is none.
pub open spec fn king_square(pos: &Position, ci: int) -> int {
    let kings = squares_of(pos, ci, 2, 64);
    if kings.len() > 0 {
        kings.last() as int
    } else {
        0
    }
}

/// How many pawns of color index `ci` the census keeps.
pub open spec fn pawn_count(pos: &Position, ci: int) -> int {
    at_most(8, squares_of(pos, ci, 0, 64).len() as int)
}

/// The census pawn `k` of color index `ci`.
pub open spec fn pawn_at(pos: &Position, ci: int, k: int) -> int {
    squares_of(pos, ci, 0, 64)[k] as int
}

/// One for the side to move, minus one for the other, by color index.
pub open spec fn mover_sign(pos: &Position, ci: int) -> int {
    if ci == pos.side_to_move.spec_index() {
        1
    } else {
        -1
    }
}

/// How far the pawn on `sq` of color index `ci` has come from its side.
pub open spec fn advance(ci: int, sq: int) -> int {
    if ci == 0 {
        sq / 8
    } else {
        7 - sq / 8
    }
}

/// What the king of color index `ci` loses to the first `k` census pawns of
/// the other color: twenty and eight per rank of advance for each pawn past
/// the middle within two king steps.
pub open spec fn tropism_against(pos: &Position, ci: int, k: int) -> int
    decreases k,
{
    if k <= 0 {
        0
    } else {
        let psq = pawn_at(pos, 1 - ci, k - 1);
        let adv = advance(1 - ci, psq);
        let kq = king_square(pos, ci);
        tropism_against(pos, ci, k - 1) + if adv >= 4 && king_steps(kq / 8, kq % 8, psq / 8, psq % 8) <= 2 {
            20 + adv * 8
        } else {
            0
        }
    }
}

/// The tropism term for the side to move.
pub open spec fn tropism_score(pos: &Position) -> int {
    -(mover_sign(pos, 0) * tropism_against(pos, 0, pawn_count(pos, 1))) - mover_sign(pos, 1) * tropism_against(
        pos,
        1,
        pawn_count(pos, 0),
    )
}

/// King tropism: a king within two squares of an advanced enemy pawn loses
/// twenty and eight for each rank of the pawn's advance.
pub(crate) fn tropism(pos: &Position, g: &Census) -> (v: i32)
    requires
        g.fits(),
        census_of(g, pos, 64),
    ensures
        -1300 <= v <= 1300,
        v == tropism_score(pos),
{
    let stm = pos.side_to_move;
    let mut score: i32 = 0;
    let mut ci: usize = 0;
    while ci < 2
        invariant
            ci <= 2,
            g.fits(),
            census_of(g, pos, 64),
            stm == pos.side_to_move,
            -650 * ci <= score <= 650 * ci,
            score == (if ci >= 1 {
                -(mover_sign(pos, 0) * tropism_against(pos, 0, pawn_count(pos, 1)))
            } else {
                0
            }) + (if ci >= 2 {
                -(mover_sign(pos, 1) * tropism_against(pos, 1, pawn_count(pos, 0)))
            } else {
                0
            }),
        decreases 2 - ci,
    {
        assert(squares_of(pos, ci as int, 0, 64) == squares_of(pos, ci as int, 0, 64));
        assert(squares_of(pos, 1 - ci, 0, 64) == squares_of(pos, 1 - ci, 0, 64));
        let oci = 1 - ci;
        let sign: i32 = if ci == stm.index() {
            1
        } else {
            -1
        };
        let kr = (g.king[ci] / 8) as i32;
        let kf = (g.king[ci] % 8) as i32;
        let mut against: i32 = 0;
        let mut pi: usize = 0;
        while pi < g.pawn_n[oci]
            invariant
                oci < 2,
                g.fits(),
                pi <= g.pawn_n[oci as int],
                0 <= against <= 76 * pi,
                0 <= kr < 8,
                0 <= kf < 8,
                census_of(g, pos, 64),
                oci == 1 - ci,
                g.pawn_n[oci as int] == pawn_count(pos, oci as int),
                kr == king_square(pos, ci as int) / 8,
                kf == king_square(pos, ci as int) % 8,
                against == tropism_against(pos, ci as int, pi as int),
            decreases g.pawn_n[oci as int] - pi,
        {
            let psq = g.pawn_sq[oci * 8 + pi] as i32;
            let pr = psq / 8;
            let pf = psq % 8;
            let adv = if oci == 0 {
                pr
            } else {
                7 - pr
            };
            if adv >= 4 && distance(kr, kf, pr, pf) <= 2 {
                against = against + 20 + adv * 8;
            }
            pi += 1;
        }
        assert(sign as int == mover_sign(pos, ci as int));
        assert(against == tropism_against(pos, ci as int, pawn_count(pos, 1 - ci)));
        assert(sign * against == mover_sign(pos, ci as int) * tropism_against(pos, ci as int, pawn_count(pos, 1 - ci)));
        assert(-76 * 8 <= sign * against <= 76 * 8) by (nonlinear_arith)
            requires
                sign == 1 || sign == -1,
                0 <= against <= 76 * 8,
        ;
        score = score - sign * against;
        ci += 1;
    }
    score
}

/// The shield of the king of color index `ci` from its first `k` census
/// pawns: fifteen for each one or two ranks ahead of it on its file or a
/// neighbouring one.
pub open spec fn shield_sum(pos: &Position, ci: int, k: int) -> int
    decreases k,
{
    if k <= 0 {
        0
    } else {
        let psq = pawn_at(pos, ci, k - 1);
        let kq = king_square(pos, ci);
        let (pr, pf, kr, kf) = (psq / 8, psq % 8, kq / 8, kq % 8);
        let file_dist = if pf > kf {
            pf - kf
        } else {
            kf - pf
        };
        let rank_ahead = if ci == 0 {
            pr - kr
        } else {
            kr - pr
        };
        shield_sum(pos, ci, k - 1) + if file_dist <= 1 && 1 <= rank_ahead <= 2 {
            15int
        } else {
            0
        }
    }
}

/// How many of the first `k` census pawns of color index `ci` stand within
/// two king steps of their king.
pub open spec fn near_count(pos: &Position, ci: int, k: int) -> int
    decreases k,
{
    if k <= 0 {
        0
    } else {
        let psq = pawn_at(pos, ci, k - 1);
        let kq = king_square(pos, ci);
        near_count(pos, ci, k - 1) + if king_steps(psq / 8, psq % 8, kq / 8, kq % 8) <= 2 {
            1int
        } else {
            0
        }
    }
}

/// Whether one of the first `k` census pawns of color index `ci` stands on
/// its king's file.
pub open spec fn on_king_file(pos: &Position, ci: int, k: int) -> bool
    decreases k,
{
    if k <= 0 {
        false
    } else {
        on_king_file(pos, ci, k - 1) || pawn_at(pos, ci, k - 1) % 8 == king_square(pos, ci) % 8
    }
}

/// The king safety of the side of color index `ci`: its shield, forty off
/// with fewer than two pawns near the king, twenty-five off with none on its
/// file, and thirty for two bishops or more.
pub open spec fn safety_of(pos: &Position, ci: int) -> int {
    let n = pawn_count(pos, ci);
    shield_sum(pos, ci, n) - (if near_count(pos, ci, n) < 2 {
        40int
    } else {
        0
    }) - (if !on_king_file(pos, ci, n) {
        25int
    } else {
        0
    }) + (if squares_of(pos, ci, 3, 64).len() >= 2 {
        30int
    } else {
        0
    })
}

/// The king-safety term for the side to move.
pub open spec fn safety_score(pos: &Position) -> int {
    mover_sign(pos, 0) * safety_of(pos, 0) + mover_sign(pos, 1) * safety_of(pos, 1)
}

/// King safety: fifteen for each pawn shielding the king one or two ranks
/// ahead on its file or a neighbouring one, forty off with fewer than two
/// pawns near it, twenty-five off with no pawn on its file; and thirty for
/// the bishop pair.
pub(crate) fn king_safety(pos: &Position, g: &Census) -> (v: i32)
    requires
        g.fits(),
        census_of(g, pos, 64),
    ensures
        -400 <= v <= 400,
        v == safety_score(pos),
{
    let stm = pos.side_to_move;
    let mut score: i32 = 0;
    let mut ci: usize = 0;
    while ci < 2
        invariant
            ci <= 2,
            g.fits(),
            census_of(g, pos, 64),
            stm == pos.side_to_move,
            -200 * ci <= score <= 200 * ci,
            score == (if ci >= 1 {
                mover_sign(pos, 0) * safety_of(pos, 0)
            } else {
                0
            }) + (if ci >= 2 {
                mover_sign(pos, 1) * safety_of(pos, 1)
            } else {
                0
            }),
        decreases 2 - ci,
    {
        assert(squares_of(pos, ci as int, 0, 64) == squares_of(pos, ci as int, 0, 64));
        let c = if ci == 0 {
            Color::White
        } else {
            Color::Black
        };
        let sign: i32 = if c == stm {
            1
        } else {
            -1
        };
        let kr = (g.king[ci] / 8) as i32;
        let kf = (g.king[ci] % 8) as i32;
        let shield_dir: i32 = if c == Color::White {
            1
        } else {
            -1
        };
        let mut side: i32 = 0;
        let mut near: i32 = 0;
        let mut on_file = false;
        let mut pi: usize = 0;
        while pi < g.pawn_n[ci]
            invariant
                ci < 2,
                g.fits(),
                pi <= g.pawn_n[ci as int],
                0 <= side <= 15 * pi,
                0 <= near <= pi,
                0 <= kr < 8,
                0 <= kf < 8,
                shield_dir == 1 || shield_dir == -1,
                shield_dir == 1 <==> ci == 0,
                census_of(g, pos, 64),
                g.pawn_n[ci as int] == pawn_count(pos, ci as int),
                kr == king_square(pos, ci as int) / 8,
                kf == king_square(pos, ci as int) % 8,
                side == shield_sum(pos, ci as int, pi as int),
                near == near_count(pos, ci as int, pi as int),
                on_file == on_king_file(pos, ci as int, pi as int),
            decreases g.pawn_n[ci as int] - pi,
        {
            let psq = g.pawn_sq[ci * 8 + pi] as i32;
            let pr = psq / 8;
            let pf = psq % 8;
            let file_dist = if pf > kf {
                pf - kf
            } else {
                kf - pf
            };
            let rank_ahead = if shield_dir == 1 {
                pr - kr
            } else {
                kr - pr
            };
            if file_dist <= 1 && 1 <= rank_ahead && rank_ahead <= 2 {
                side = side + 15;
            }
            if distance(pr, pf, kr, kf) <= 2 {
                near += 1;
            }
            if pf == kf {
                on_file = true;
            }
            pi += 1;
        }
        if near < 2 {
            side = side - 40;
        }
        if !on_file {
            side = side - 25;
        }
        if g.bishop_count[ci] >= 2 {
            side = side + 30;
        }
        assert(side == safety_of(pos, ci as int));
        assert(sign as int == mover_sign(pos, ci as int));
        assert(sign * side == mover_sign(pos, ci as int) * safety_of(pos, ci as int));
        assert(-200 <= sign * side <= 200) by (nonlinear_arith)
            requires
                sign == 1 || sign == -1,
                -65 <= side <= 150,
        ;
        score = score + sign * side;
        ci += 1;
    }
    score
}

/// Chimera's evaluation of `pos` for the side to move: the first pass, the
/// pistons, the king tropism and the king safety.
pub open spec fn chimera_score(pos: &Position) -> int {
    first_score(pos, 64) + pistons_score(pos) + tropism_score(pos) + safety_score(pos)
}

/// The evaluation for the side to move.
pub fn evaluate(pos: &Position) -> (v: i32)
    ensures
        -70000 <= v <= 70000,
        v == chimera_score(pos),
{
    let (score, g) = first_pass(pos);
    score + pistons(pos, &g) + tropism(pos, &g) + king_safety(pos, &g)
}

/// The census lists depend on the board alone.
pub proof fn lemma_squares_same_board(p: &Position, q: &Position, ci: int, kind: int, n: int)
    requires
        p.board == q.board,
    ensures
        squares_of(p, ci, kind, n) == squares_of(q, ci, kind, n),
    decreases n,
{
    if n > 0 {
        lemma_squares_same_board(p, q, ci, kind, n - 1);
    }
}

/// Every census list of two positions with the same board agrees.
pub proof fn lemma_census_same_board(p: &Position, q: &Position)
    requires
        p.board == q.board,
    ensures
        forall|ci: int, kind: int| #[trigger] squares_of(p, ci, kind, 64) == squares_of(q, ci, kind, 64),
{
    assert forall|ci: int, kind: int| #[trigger] squares_of(p, ci, kind, 64) == squares_of(q, ci, kind, 64) by {
        lemma_squares_same_board(p, q, ci, kind, 64);
    }
}

/// The first-pass score turns with the side to move.
pub proof fn lemma_first_score_turns(p: &Position, q: &Position, n: int)
    requires
        p.board == q.board,
        p.side_to_move != q.side_to_move,
    ensures
        first_score(p, n) == -first_score(q, n),
    decreases n,
{
    if n > 0 {
        lemma_first_score_turns(p, q, n - 1);
        assert(piece_worth(p, n - 1) == piece_worth(q, n - 1)) by {
            let pc = p.board@[n - 1];
            let (r, f) = ((n - 1) / 8, (n - 1) % 8);
            lemma_passed_same_board(p, q, pc.color, r, f);
        }
    }
}

/// The pistons of a side depend on the board alone.
pub proof fn lemma_pistons_same_board(p: &Position, q: &Position, ci: int, k: int)
    requires
        p.board == q.board,
    ensures
        pistons_side(p, ci, k) == pistons_side(q, ci, k),
    decreases k,
{
    lemma_census_same_board(p, q);
    if k > 0 {
        lemma_pistons_same_board(p, q, ci, k - 1);
        let psq = pawn_at(p, ci, k - 1);
        assert(squares_of(p, ci, 0, 64) == squares_of(q, ci, 0, 64));
        assert(squares_of(p, ci, 1, 64) == squares_of(q, ci, 1, 64));
        lemma_piston_same_board(p, q, ci, psq, 0, slider_count(p, ci));
    }
}

/// The piston of a pawn depends on the board alone.
pub proof fn lemma_piston_same_board(p: &Position, q: &Position, ci: int, psq: int, si: int, m: int)
    requires
        p.board == q.board,
        squares_of(p, ci, 1, 64) == squares_of(q, ci, 1, 64),
    ensures
        piston_from(p, ci, psq, si, m) == piston_from(q, ci, psq, si, m),
    decreases m - si,
{
    if 0 <= si < m {
        lemma_piston_same_board(p, q, ci, psq, si + 1, m);
        let ssq = squares_of(p, ci, 1, 64)[si] as int;
        assert(file_clear(p, ssq / 8, psq / 8, psq % 8) == file_clear(q, ssq / 8, psq / 8, psq % 8));
    }
}

/// The king's tropism, shield, near pawns and open file depend on the board
/// alone.
pub proof fn lemma_king_terms_same_board(p: &Position, q: &Position, ci: int, k: int)
    requires
        p.board == q.board,
    ensures
        tropism_against(p, ci, k) == tropism_against(q, ci, k),
        shield_sum(p, ci, k) == shield_sum(q, ci, k),
        near_count(p, ci, k) == near_count(q, ci, k),
        on_king_file(p, ci, k) == on_king_file(q, ci, k),
    decreases k,
{
    lemma_census_same_board(p, q);
    assert(squares_of(p, ci, 0, 64) == squares_of(q, ci, 0, 64));
    assert(squares_of(p, 1 - ci, 0, 64) == squares_of(q, 1 - ci, 0, 64));
    assert(squares_of(p, ci, 2, 64) == squares_of(q, ci, 2, 64));
    if k > 0 {
        lemma_king_terms_same_board(p, q, ci, k - 1);
    }
}

/// Chimera's evaluation is the mover's: two positions with the same board
/// and opposite sides to move evaluate to opposite scores.
pub proof fn lemma_chimera_turn_negates(p: &Position, q: &Position)
    requires
        p.board == q.board,
        p.side_to_move != q.side_to_move,
    ensures
        chimera_score(p) == -chimera_score(q),
{
    lemma_census_same_board(p, q);
    lemma_first_score_turns(p, q, 64);
    assert(pawn_count(p, 0) == pawn_count(q, 0) && pawn_count(p, 1) == pawn_count(q, 1)) by {
        assert(squares_of(p, 0, 0, 64) == squares_of(q, 0, 0, 64));
        assert(squares_of(p, 1, 0, 64) == squares_of(q, 1, 0, 64));
    }
    lemma_pistons_same_board(p, q, 0, pawn_count(p, 0));
    lemma_pistons_same_board(p, q, 1, pawn_count(p, 1));
    lemma_king_terms_same_board(p, q, 0, pawn_count(p, 1));
    lemma_king_terms_same_board(p, q, 1, pawn_count(p, 0));
    lemma_king_terms_same_board(p, q, 0, pawn_count(p, 0));
    lemma_king_terms_same_board(p, q, 1, pawn_count(p, 1));
    assert(squares_of(p, 0, 3, 64) == squares_of(q, 0, 3, 64));
    assert(squares_of(p, 1, 3, 64) == squares_of(q, 1, 3, 64));
    assert(mover_sign(p, 0) == -mover_sign(q, 0) && mover_sign(p, 1) == -mover_sign(q, 1));
    if mover_sign(p, 0) == 1 {
        assert(mover_sign(p, 1) == -1);
    } else {
        assert(mover_sign(p, 1) == 1);
    }
}

} // verus!

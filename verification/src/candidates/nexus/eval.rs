//! Nexus's evaluation: Chimera's terms, then king-push awareness (friendly
//! pieces beside the king, and those with an empty square behind them to be
//! pushed into), mobility of the knights and line pieces, and the number of
//! pieces a friendly piece defends. Every term is counted for the side to
//! move.
use vstd::prelude::*;
use crate::candidates::chimera::eval::{
    Census, census_of, first_pass, first_score, king_safety, king_square, lemma_census_same_board,
    lemma_chimera_turn_negates, mover_sign, pistons, pistons_score, safety_score, squares_of, tropism, tropism_score,
};
use crate::candidates::omega::eval::{knight_offset, line_direction};
use crate::rules::position::Position;
use crate::rules::types::{Color, PieceType, opponent, spec_valid_rf, valid_rf};

verus! {

/// How many squares a piece of `color` on rank `r`, file `f` reaches along
/// direction (`dr`, `df`) from step `dist` on: the empty ones up to the first
/// occupied one, and that one when it holds an enemy piece.
pub open spec fn reach_from(pos: &Position, r: int, f: int, dr: int, df: int, color: Color, dist: int) -> int
    decreases 8 - dist,
{
    if dist < 1 || dist > 7 {
        0
    } else {
        let nr = r + dr * dist;
        let nf = f + df * dist;
        if !spec_valid_rf(nr, nf) {
            0
        } else {
            let t = pos.board@[nr * 8 + nf];
            if t.spec_is_empty() {
                1 + reach_from(pos, r, f, dr, df, color, dist + 1)
            } else if t.color != color {
                1
            } else {
                0
            }
        }
    }
}

/// The squares along the line from rank `r`, file `f` in direction
/// (`dr`, `df`) that a piece of `color` reaches: the empty ones up to the
/// first occupied one, and that one when it holds an enemy piece.
fn ray_reach(pos: &Position, r: i32, f: i32, dr: i32, df: i32, color: Color) -> (n: i32)
    requires
        0 <= r < 8,
        0 <= f < 8,
        -1 <= dr <= 1,
        -1 <= df <= 1,
    ensures
        0 <= n <= 7,
        n == reach_from(pos, r as int, f as int, dr as int, df as int, color, 1),
{
    let mut n: i32 = 0;
    let mut dist: i32 = 1;
    while dist <= 7
        invariant_except_break
            n < dist,
            n + reach_from(pos, r as int, f as int, dr as int, df as int, color, dist as int) == reach_from(
                pos,
                r as int,
                f as int,
                dr as int,
                df as int,
                color,
                1,
            ),
        invariant
            1 <= dist <= 8,
            0 <= n <= dist,
            n <= 7,
            0 <= r < 8,
            0 <= f < 8,
            -1 <= dr <= 1,
            -1 <= df <= 1,
        ensures
            n == reach_from(pos, r as int, f as int, dr as int, df as int, color, 1),
        decreases 8 - dist,
    {
        assert(-7 <= dr * dist <= 7 && -7 <= df * dist <= 7) by (nonlinear_arith)
            requires
                -1 <= dr <= 1,
                -1 <= df <= 1,
                1 <= dist <= 7,
        ;
        let nr = r + dr * dist;
        let nf = f + df * dist;
        if !valid_rf(nr, nf) {
            break;
        }
        let target = pos.board[(nr * 8 + nf) as usize];
        assert(target == pos.board@[nr * 8 + nf]);
        if target.is_empty() {
            n += 1;
        } else {
            if target.color != color {
                n += 1;
            }
            break;
        }
        dist += 1;
    }
    n
}

/// The knight jumps in the order they are tried.
pub open spec fn knight_delta(i: int) -> (int, int) {
    seq![(-2int, -1int), (-2, 1), (-1, -2), (-1, 2), (1, -2), (1, 2), (2, -1), (2, 1)][i]
}

/// The line directions in the order they are tried: diagonals, then ranks
/// and files.
pub open spec fn line_delta(i: int) -> (int, int) {
    seq![(-1int, -1int), (-1, 1), (1, -1), (1, 1), (-1, 0), (1, 0), (0, -1), (0, 1)][i]
}

/// The first `i` knight jumps from rank `r`, file `f` that land on the board
/// on an empty square or a piece not of `color`.
pub open spec fn knight_reach(pos: &Position, r: int, f: int, color: Color, i: int) -> int
    decreases i,
{
    if i <= 0 {
        0
    } else {
        let nr = r + knight_delta(i - 1).0;
        let nf = f + knight_delta(i - 1).1;
        knight_reach(pos, r, f, color, i - 1) + if spec_valid_rf(nr, nf) && (pos.board@[nr * 8 + nf].spec_is_empty()
            || pos.board@[nr * 8 + nf].color != color) {
            1int
        } else {
            0
        }
    }
}

/// The squares reached along line directions `first..first + d`.
pub open spec fn lines_reach(pos: &Position, r: int, f: int, color: Color, first: int, d: int) -> int
    decreases d,
{
    if d <= 0 {
        0
    } else {
        lines_reach(pos, r, f, color, first, d - 1) + reach_from(
            pos,
            r,
            f,
            line_delta(first + d - 1).0,
            line_delta(first + d - 1).1,
            color,
            1,
        )
    }
}

/// The mobility of the piece on `sq` when it is a knight, bishop, rook or
/// queen of `color`; nothing otherwise.
pub open spec fn piece_mobility(pos: &Position, sq: int, color: Color) -> int {
    let p = pos.board@[sq];
    let (r, f) = (sq / 8, sq % 8);
    if p.spec_is_empty() || p.color != color {
        0
    } else if p.piece_type == PieceType::Knight {
        knight_reach(pos, r, f, color, 8)
    } else if p.piece_type == PieceType::Bishop {
        lines_reach(pos, r, f, color, 0, 4)
    } else if p.piece_type == PieceType::Rook {
        lines_reach(pos, r, f, color, 4, 4)
    } else if p.piece_type == PieceType::Queen {
        lines_reach(pos, r, f, color, 0, 8)
    } else {
        0
    }
}

/// The mobility of `color` over the first `n` squares.
pub open spec fn mobility(pos: &Position, color: Color, n: int) -> int
    decreases n,
{
    if n <= 0 {
        0
    } else {
        mobility(pos, color, n - 1) + piece_mobility(pos, n - 1, color)
    }
}

/// The mobility of `color`: for each knight the jumps to empty or enemy
/// squares, for each bishop, rook and queen the squares its lines reach.
fn count_mobility(pos: &Position, color: Color) -> (n: i32)
    ensures
        0 <= n <= 64 * 56,
        n == mobility(pos, color, 64),
{
    let mut total: i32 = 0;
    let mut sq: usize = 0;
    while sq < 64
        invariant
            sq <= 64,
            0 <= total <= 56 * sq,
            total == mobility(pos, color, sq as int),
        decreases 64 - sq,
    {
        let piece = pos.board[sq];
        let pt = piece.piece_type;
        if !piece.is_empty() && piece.color == color && pt != PieceType::King && pt != PieceType::Pawn {
            let r = (sq / 8) as i32;
            let f = (sq % 8) as i32;
            let mut here: i32 = 0;
            if pt == PieceType::Knight {
                let mut i: usize = 0;
                while i < 8
                    invariant
                        i <= 8,
                        0 <= here <= i,
                        0 <= r < 8,
                        0 <= f < 8,
                        here == knight_reach(pos, r as int, f as int, color, i as int),
                    decreases 8 - i,
                {
                    let (dr, df) = knight_offset(i);
                    let nr = r + dr;
                    let nf = f + df;
                    if valid_rf(nr, nf) {
                        let target = pos.board[(nr * 8 + nf) as usize];
                        if target.is_empty() || target.color != color {
                            here += 1;
                        }
                    }
                    i += 1;
                }
            } else if pt == PieceType::Bishop || pt == PieceType::Rook || pt == PieceType::Queen {
                let (first, count): (usize, usize) = if pt == PieceType::Bishop {
                    (0, 4)
                } else if pt == PieceType::Rook {
                    (4, 4)
                } else {
                    (0, 8)
                };
                let mut d: usize = 0;
                while d < count
                    invariant
                        first + count <= 8,
                        d <= count,
                        0 <= here <= 7 * d,
                        0 <= r < 8,
                        0 <= f < 8,
                        here == lines_reach(pos, r as int, f as int, color, first as int, d as int),
                    decreases count - d,
                {
                    let (dr, df) = line_direction(first + d);
                    here += ray_reach(pos, r, f, dr, df, color);
                    d += 1;
                }
            }
            assert(here == piece_mobility(pos, sq as int, color));
            total += here;
        }
        sq += 1;
    }
    total
}

/// A pawn of `color` one rank behind rank `r`, as `color` sees it, on file
/// `f + side`.
pub open spec fn pawn_guard(pos: &Position, r: int, f: int, color: Color, side: int) -> bool {
    let pr = r + if color == Color::White {
        -1int
    } else {
        1
    };
    let pf = f + side;
    spec_valid_rf(pr, pf) && pos.board@[pr * 8 + pf].piece_type == PieceType::Pawn && pos.board@[pr * 8
        + pf].color == color
}

/// A knight of `color` a jump `i` away from rank `r`, file `f`.
pub open spec fn knight_guard(pos: &Position, r: int, f: int, color: Color, i: int) -> bool {
    let nr = r + knight_delta(i).0;
    let nf = f + knight_delta(i).1;
    spec_valid_rf(nr, nf) && pos.board@[nr * 8 + nf].piece_type == PieceType::Knight && pos.board@[nr * 8
        + nf].color == color
}

/// The square of the first piece along direction (`dr`, `df`) from rank
/// `r`, file `f`, from step `dist` on; -1 when the line runs off the board
/// first.
pub open spec fn first_on_line(pos: &Position, r: int, f: int, dr: int, df: int, dist: int) -> int
    decreases 8 - dist,
{
    if dist < 1 || dist > 7 {
        -1
    } else {
        let nr = r + dr * dist;
        let nf = f + df * dist;
        if !spec_valid_rf(nr, nf) {
            -1
        } else if !pos.board@[nr * 8 + nf].spec_is_empty() {
            nr * 8 + nf
        } else {
            first_on_line(pos, r, f, dr, df, dist + 1)
        }
    }
}

/// The first piece along line direction `d` from rank `r`, file `f` is a
/// piece of `color` moving along it (a bishop or queen on a diagonal, a
/// rook or queen on a rank or file), other than the one on `sq`.
pub open spec fn line_guard(pos: &Position, sq: int, r: int, f: int, color: Color, d: int) -> bool {
    let s = first_on_line(pos, r, f, line_delta(d).0, line_delta(d).1, 1);
    let p = pos.board@[s];
    &&& s >= 0
    &&& p.color == color
    &&& if d < 4 {
        p.piece_type == PieceType::Bishop || p.piece_type == PieceType::Queen
    } else {
        p.piece_type == PieceType::Rook || p.piece_type == PieceType::Queen
    }
    &&& s != sq
}

/// The king of `color`, other than a piece on `sq`, one step (`dr`, `df`)
/// from rank `r`, file `f`.
pub open spec fn king_guard(pos: &Position, sq: int, r: int, f: int, color: Color, dr: int, df: int) -> bool {
    let nr = r + dr;
    let nf = f + df;
    &&& dr != 0 || df != 0
    &&& spec_valid_rf(nr, nf)
    &&& pos.board@[nr * 8 + nf].piece_type == PieceType::King
    &&& pos.board@[nr * 8 + nf].color == color
    &&& nr * 8 + nf != sq
}

/// Rank `r`, file `f` (square `sq`) is defended by another piece of `color`.
pub open spec fn defended(pos: &Position, sq: int, r: int, f: int, color: Color) -> bool {
    ||| pawn_guard(pos, r, f, color, -1)
    ||| pawn_guard(pos, r, f, color, 1)
    ||| exists|i: int| 0 <= i < 8 && #[trigger] knight_guard(pos, r, f, color, i)
    ||| exists|d: int| 0 <= d < 8 && #[trigger] line_guard(pos, sq, r, f, color, d)
    ||| exists|dr: int, df: int| -1 <= dr <= 1 && -1 <= df <= 1 && #[trigger] king_guard(pos, sq, r, f, color, dr, df)
}

/// Whether a piece of `color` other than the one on `sq` (rank `r`, file
/// `f`) attacks `sq`: a pawn diagonally behind it, a knight a jump away, a
/// bishop or queen first on a diagonal, a rook or queen first on a rank or
/// file, or the king beside it.
fn is_attacked_by_friendly(pos: &Position, sq: u8, r: i32, f: i32, color: Color) -> (b: bool)
    requires
        0 <= r < 8,
        0 <= f < 8,
    ensures
        b == defended(pos, sq as int, r as int, f as int, color),
{
    let pawn_dir: i32 = if color == Color::White {
        -1
    } else {
        1
    };
    let mut side: i32 = -1;
    while side <= 1
        invariant
            -1 <= side <= 3,
            side == -1 || side == 1 || side == 3,
            0 <= r < 8,
            0 <= f < 8,
            pawn_dir == 1 || pawn_dir == -1,
            pawn_dir == (if color == Color::White {
                -1int
            } else {
                1
            }),
            side > -1 ==> !pawn_guard(pos, r as int, f as int, color, -1),
            side > 1 ==> !pawn_guard(pos, r as int, f as int, color, 1),
        decreases 3 - side,
    {
        let pr = r + pawn_dir;
        let pf = f + side;
        if valid_rf(pr, pf) {
            let p = pos.board[(pr * 8 + pf) as usize];
            if p.piece_type == PieceType::Pawn && p.color == color {
                assert(pawn_guard(pos, r as int, f as int, color, side as int));
                return true;
            }
        }
        side += 2;
    }
    let mut i: usize = 0;
    while i < 8
        invariant
            i <= 8,
            0 <= r < 8,
            0 <= f < 8,
            !pawn_guard(pos, r as int, f as int, color, -1),
            !pawn_guard(pos, r as int, f as int, color, 1),
            forall|j: int| 0 <= j < i ==> !#[trigger] knight_guard(pos, r as int, f as int, color, j),
        decreases 8 - i,
    {
        let (dr, df) = knight_offset(i);
        let nr = r + dr;
        let nf = f + df;
        if valid_rf(nr, nf) {
            let p = pos.board[(nr * 8 + nf) as usize];
            if p.piece_type == PieceType::Knight && p.color == color {
                assert(knight_guard(pos, r as int, f as int, color, i as int));
                return true;
            }
        }
        assert(!knight_guard(pos, r as int, f as int, color, i as int));
        i += 1;
    }
    let mut d: usize = 0;
    while d < 8
        invariant
            d <= 8,
            0 <= r < 8,
            0 <= f < 8,
            !pawn_guard(pos, r as int, f as int, color, -1),
            !pawn_guard(pos, r as int, f as int, color, 1),
            forall|j: int| 0 <= j < 8 ==> !#[trigger] knight_guard(pos, r as int, f as int, color, j),
            forall|j: int| 0 <= j < d ==> !#[trigger] line_guard(pos, sq as int, r as int, f as int, color, j),
        decreases 8 - d,
    {
        let (dr, df) = line_direction(d);
        let diagonal = d < 4;
        let mut dist: i32 = 1;
        while dist <= 7
            invariant_except_break
                first_on_line(pos, r as int, f as int, dr as int, df as int, 1) == first_on_line(
                    pos,
                    r as int,
                    f as int,
                    dr as int,
                    df as int,
                    dist as int,
                ),
            invariant
                1 <= dist <= 8,
                0 <= r < 8,
                0 <= f < 8,
                -1 <= dr <= 1,
                -1 <= df <= 1,
                d < 8,
                diagonal == (d < 4),
                (dr as int, df as int) == line_delta(d as int),
            ensures
                !line_guard(pos, sq as int, r as int, f as int, color, d as int),
            decreases 8 - dist,
        {
            assert(-7 <= dr * dist <= 7 && -7 <= df * dist <= 7) by (nonlinear_arith)
                requires
                    -1 <= dr <= 1,
                    -1 <= df <= 1,
                    1 <= dist <= 7,
            ;
            let nr = r + dr * dist;
            let nf = f + df * dist;
            if !valid_rf(nr, nf) {
                break;
            }
            let ns = nr * 8 + nf;
            let p = pos.board[ns as usize];
            if !p.is_empty() {
                let slider = if diagonal {
                    p.piece_type == PieceType::Bishop || p.piece_type == PieceType::Queen
                } else {
                    p.piece_type == PieceType::Rook || p.piece_type == PieceType::Queen
                };
                if p.color == color && slider && ns as u8 != sq {
                    assert(line_guard(pos, sq as int, r as int, f as int, color, d as int));
                    return true;
                }
                break;
            }
            dist += 1;
        }
        d += 1;
    }
    let mut dr: i32 = -1;
    while dr <= 1
        invariant
            -1 <= dr <= 2,
            0 <= r < 8,
            0 <= f < 8,
            !pawn_guard(pos, r as int, f as int, color, -1),
            !pawn_guard(pos, r as int, f as int, color, 1),
            forall|j: int| 0 <= j < 8 ==> !#[trigger] knight_guard(pos, r as int, f as int, color, j),
            forall|j: int| 0 <= j < 8 ==> !#[trigger] line_guard(pos, sq as int, r as int, f as int, color, j),
            forall|a: int, b: int|
                -1 <= a < dr && -1 <= b <= 1 ==> !#[trigger] king_guard(pos, sq as int, r as int, f as int, color, a, b),
        decreases 2 - dr,
    {
        let mut df: i32 = -1;
        while df <= 1
            invariant
                -1 <= dr <= 1,
                -1 <= df <= 2,
                0 <= r < 8,
                0 <= f < 8,
                forall|a: int, b: int|
                    -1 <= a < dr && -1 <= b <= 1 ==> !#[trigger] king_guard(pos, sq as int, r as int, f as int, color, a, b),
                forall|b: int| -1 <= b < df ==> !#[trigger] king_guard(pos, sq as int, r as int, f as int, color, dr as int, b),
            decreases 2 - df,
        {
            if dr != 0 || df != 0 {
                let nr = r + dr;
                let nf = f + df;
                if valid_rf(nr, nf) {
                    let ns = nr * 8 + nf;
                    let p = pos.board[ns as usize];
                    if p.piece_type == PieceType::King && p.color == color && ns as u8 != sq {
                        assert(king_guard(pos, sq as int, r as int, f as int, color, dr as int, df as int));
                        return true;
                    }
                }
            }
            assert(!king_guard(pos, sq as int, r as int, f as int, color, dr as int, df as int));
            df += 1;
        }
        dr += 1;
    }
    false
}

/// The pieces of `color` among the first `n` squares that another piece of
/// `color` defends.
pub open spec fn defended_count(pos: &Position, color: Color, n: int) -> int
    decreases n,
{
    if n <= 0 {
        0
    } else {
        let sq = n - 1;
        let p = pos.board@[sq];
        defended_count(pos, color, n - 1) + if !p.spec_is_empty() && p.color == color && defended(
            pos,
            sq,
            sq / 8,
            sq % 8,
            color,
        ) {
            1int
        } else {
            0
        }
    }
}

/// Beside the king of color `c` on `kq`, in direction (`dr`, `df`): a piece
/// of `c` there, and the square beyond it on the board and empty.
pub open spec fn beside(pos: &Position, c: Color, kq: int, dr: int, df: int) -> (bool, bool) {
    let nr = kq / 8 + dr;
    let nf = kq % 8 + df;
    let er = nr + dr;
    let ef = nf + df;
    let friend = (dr != 0 || df != 0) && spec_valid_rf(nr, nf) && !pos.board@[nr * 8 + nf].spec_is_empty()
        && pos.board@[nr * 8 + nf].color == c;
    (friend, friend && spec_valid_rf(er, ef) && pos.board@[er * 8 + ef].spec_is_empty())
}

/// Ten for each of the first `k` of the nine cells around the king of color
/// index `ci` (rank-major from the lower left) holding a piece of its color,
/// fifteen more for each of those with an empty square beyond.
pub open spec fn push_cells(pos: &Position, ci: int, k: int) -> int
    decreases k,
{
    if k <= 0 {
        0
    } else {
        let c = if ci == 0 {
            Color::White
        } else {
            Color::Black
        };
        let cell = beside(pos, c, king_square(pos, ci), (k - 1) / 3 - 1, (k - 1) % 3 - 1);
        push_cells(pos, ci, k - 1) + (if cell.0 {
            10int
        } else {
            0
        }) + (if cell.1 {
            15int
        } else {
            0
        })
    }
}

/// The king-push awareness term for the side to move.
pub open spec fn push_score(pos: &Position) -> int {
    mover_sign(pos, 0) * push_cells(pos, 0, 9) + mover_sign(pos, 1) * push_cells(pos, 1, 9)
}

/// Nexus's evaluation of `pos` for the side to move: Chimera's terms, the
/// king-push awareness, three per square of mobility and eight per defended
/// piece, each the mover's less the other side's.
pub open spec fn nexus_score(pos: &Position) -> int {
    let stm = pos.side_to_move;
    let other = crate::rules::types::spec_opponent(stm);
    first_score(pos, 64) + pistons_score(pos) + tropism_score(pos) + safety_score(pos) + push_score(pos) + (
    mobility(pos, stm, 64) * 3 - mobility(pos, other, 64) * 3) + (defended_count(pos, stm, 64) * 8
        - defended_count(pos, other, 64) * 8)
}

/// The pieces of `color` that another piece of `color` defends.
fn count_defended_pieces(pos: &Position, color: Color) -> (n: i32)
    ensures
        0 <= n <= 64,
        n == defended_count(pos, color, 64),
{
    let mut total: i32 = 0;
    let mut sq: u8 = 0;
    while sq < 64
        invariant
            sq <= 64,
            0 <= total <= sq,
            total == defended_count(pos, color, sq as int),
        decreases 64 - sq,
    {
        let piece = pos.board[sq as usize];
        if !piece.is_empty() && piece.color == color {
            let r = (sq / 8) as i32;
            let f = (sq % 8) as i32;
            if is_attacked_by_friendly(pos, sq, r, f, color) {
                total += 1;
            }
        }
        sq += 1;
    }
    total
}

/// King-push awareness: ten for each friendly piece beside the king, and
/// fifteen more when the square beyond it, away from the king, is empty.
fn push_awareness(pos: &Position, g: &Census) -> (v: i32)
    requires
        g.fits(),
        census_of(g, pos, 64),
    ensures
        -500 <= v <= 500,
        v == push_score(pos),
{
    let stm = pos.side_to_move;
    let mut score: i32 = 0;
    let mut ci: usize = 0;
    while ci < 2
        invariant
            ci <= 2,
            g.fits(),
            census_of(g, pos, 64),
            stm == pos.side_to_move,
            -250 * ci <= score <= 250 * ci,
            score == (if ci >= 1 {
                mover_sign(pos, 0) * push_cells(pos, 0, 9)
            } else {
                0
            }) + (if ci >= 2 {
                mover_sign(pos, 1) * push_cells(pos, 1, 9)
            } else {
                0
            }),
        decreases 2 - ci,
    {
        assert(squares_of(pos, ci as int, 0, 64) == squares_of(pos, ci as int, 0, 64));
        let c = if ci == 0 {
            Color::White
        } else {
            Color::Black
        };
        let sign: i32 = if c == stm {
            1
        } else {
            -1
        };
        let kr = (g.king[ci] / 8) as i32;
        let kf = (g.king[ci] % 8) as i32;
        let mut adj_friendly: i32 = 0;
        let mut push_escapes: i32 = 0;
        let mut dr: i32 = -1;
        while dr <= 1
            invariant
                -1 <= dr <= 2,
                0 <= kr < 8,
                0 <= kf < 8,
                0 <= adj_friendly <= 3 * (dr + 1),
                0 <= push_escapes <= adj_friendly,
                ci < 2,
                c == (if ci == 0 {
                    Color::White
                } else {
                    Color::Black
                }),
                kr == king_square(pos, ci as int) / 8,
                kf == king_square(pos, ci as int) % 8,
                adj_friendly * 10 + push_escapes * 15 == push_cells(pos, ci as int, 3 * (dr + 1)),
            decreases 2 - dr,
        {
            let mut df: i32 = -1;
            while df <= 1
                invariant
                    -1 <= dr <= 1,
                    -1 <= df <= 2,
                    0 <= kr < 8,
                    0 <= kf < 8,
                    0 <= adj_friendly <= 3 * (dr + 1) + df + 1,
                    0 <= push_escapes <= adj_friendly,
                    ci < 2,
                    c == (if ci == 0 {
                        Color::White
                    } else {
                        Color::Black
                    }),
                    kr == king_square(pos, ci as int) / 8,
                    kf == king_square(pos, ci as int) % 8,
                    adj_friendly * 10 + push_escapes * 15 == push_cells(pos, ci as int, 3 * (dr + 1) + df + 1),
                decreases 2 - df,
            {
                let ghost k = 3 * (dr + 1) + df + 1;
                assert((k + 1 - 1) / 3 - 1 == dr && (k + 1 - 1) % 3 - 1 == df);
                if dr != 0 || df != 0 {
                    let nr = kr + dr;
                    let nf = kf + df;
                    if valid_rf(nr, nf) {
                        let np = pos.board[(nr * 8 + nf) as usize];
                        if !np.is_empty() && np.color == c {
                            adj_friendly += 1;
                            let er = nr + dr;
                            let ef = nf + df;
                            if valid_rf(er, ef) && pos.board[(er * 8 + ef) as usize].is_empty() {
                                push_escapes += 1;
                            }
                        }
                    }
                }
                df += 1;
            }
            dr += 1;
        }
        let here = adj_friendly * 10 + push_escapes * 15;
        assert(sign as int == mover_sign(pos, ci as int));
        assert(sign * here == mover_sign(pos, ci as int) * push_cells(pos, ci as int, 9));
        assert(-250 <= sign * here <= 250) by (nonlinear_arith)
            requires
                sign == 1 || sign == -1,
                0 <= adj_friendly <= 9,
                0 <= push_escapes <= adj_friendly,
                here == adj_friendly * 10 + push_escapes * 15,
        ;
        score = score + sign * here;
        ci += 1;
    }
    score
}

/// The evaluation for the side to move.
pub fn evaluate(pos: &Position) -> (v: i32)
    ensures
        -85000 <= v <= 85000,
        v == nexus_score(pos),
{
    let stm = pos.side_to_move;
    let (score, g) = first_pass(pos);
    let structure = pistons(pos, &g) + tropism(pos, &g) + king_safety(pos, &g) + push_awareness(pos, &g);
    let mobility = count_mobility(pos, stm) * 3 - count_mobility(pos, opponent(stm)) * 3;
    let coordination = count_defended_pieces(pos, stm) * 8 - count_defended_pieces(pos, opponent(stm)) * 8;
    score + structure + mobility + coordination
}

/// A line's reach depends on the board alone.
pub proof fn lemma_reach_same_board(p: &Position, q: &Position, r: int, f: int, dr: int, df: int, c: Color, dist: int)
    requires
        p.board == q.board,
    ensures
        reach_from(p, r, f, dr, df, c, dist) == reach_from(q, r, f, dr, df, c, dist),
        first_on_line(p, r, f, dr, df, dist) == first_on_line(q, r, f, dr, df, dist),
    decreases 8 - dist,
{
    if 1 <= dist <= 7 {
        lemma_reach_same_board(p, q, r, f, dr, df, c, dist + 1);
    }
}

/// The mobility of a side over the first `n` squares depends on the board
/// alone.
pub proof fn lemma_mobility_same_board(p: &Position, q: &Position, c: Color, n: int)
    requires
        p.board == q.board,
    ensures
        mobility(p, c, n) == mobility(q, c, n),
    decreases n,
{
    if n > 0 {
        lemma_mobility_same_board(p, q, c, n - 1);
        let (r, f) = ((n - 1) / 8, (n - 1) % 8);
        lemma_knight_reach_same_board(p, q, r, f, c, 8);
        lemma_lines_reach_same_board(p, q, r, f, c, 0, 4);
        lemma_lines_reach_same_board(p, q, r, f, c, 4, 4);
        lemma_lines_reach_same_board(p, q, r, f, c, 0, 8);
    }
}

/// A knight's reach depends on the board alone.
pub proof fn lemma_knight_reach_same_board(p: &Position, q: &Position, r: int, f: int, c: Color, i: int)
    requires
        p.board == q.board,
    ensures
        knight_reach(p, r, f, c, i) == knight_reach(q, r, f, c, i),
    decreases i,
{
    if i > 0 {
        lemma_knight_reach_same_board(p, q, r, f, c, i - 1);
    }
}

/// A line piece's reach depends on the board alone.
pub proof fn lemma_lines_reach_same_board(p: &Position, q: &Position, r: int, f: int, c: Color, first: int, d: int)
    requires
        p.board == q.board,
    ensures
        lines_reach(p, r, f, c, first, d) == lines_reach(q, r, f, c, first, d),
    decreases d,
{
    if d > 0 {
        lemma_lines_reach_same_board(p, q, r, f, c, first, d - 1);
        lemma_reach_same_board(p, q, r, f, line_delta(first + d - 1).0, line_delta(first + d - 1).1, c, 1);
    }
}

/// A defence found on one board is found on another with the same pieces.
proof fn lemma_guards_agree(p: &Position, q: &Position, sq: int, r: int, f: int, c: Color)
    requires
        p.board == q.board,
        forall|d: int| #[trigger] line_guard(p, sq, r, f, c, d) == line_guard(q, sq, r, f, c, d),
    ensures
        defended(p, sq, r, f, c) ==> defended(q, sq, r, f, c),
{
    if defended(p, sq, r, f, c) {
        if exists|i: int| 0 <= i < 8 && #[trigger] knight_guard(p, r, f, c, i) {
            let i = choose|i: int| 0 <= i < 8 && #[trigger] knight_guard(p, r, f, c, i);
            assert(knight_guard(q, r, f, c, i));
        }
        if exists|d: int| 0 <= d < 8 && #[trigger] line_guard(p, sq, r, f, c, d) {
            let d = choose|d: int| 0 <= d < 8 && #[trigger] line_guard(p, sq, r, f, c, d);
            assert(line_guard(q, sq, r, f, c, d));
        }
        if exists|dr: int, df: int| -1 <= dr <= 1 && -1 <= df <= 1 && #[trigger] king_guard(p, sq, r, f, c, dr, df) {
            let (dr, df) = choose|dr: int, df: int|
                -1 <= dr <= 1 && -1 <= df <= 1 && #[trigger] king_guard(p, sq, r, f, c, dr, df);
            assert(king_guard(q, sq, r, f, c, dr, df));
        }
    }
}

/// The defended pieces of a side over the first `n` squares depend on the
/// board alone.
pub proof fn lemma_defended_same_board(p: &Position, q: &Position, c: Color, n: int)
    requires
        p.board == q.board,
    ensures
        defended_count(p, c, n) == defended_count(q, c, n),
    decreases n,
{
    if n > 0 {
        lemma_defended_same_board(p, q, c, n - 1);
        let (sq, r, f) = (n - 1, (n - 1) / 8, (n - 1) % 8);
        assert forall|d: int| #[trigger] line_guard(p, sq, r, f, c, d) == line_guard(q, sq, r, f, c, d) by {
            lemma_reach_same_board(p, q, r, f, line_delta(d).0, line_delta(d).1, c, 1);
        }
        lemma_guards_agree(p, q, sq, r, f, c);
        lemma_guards_agree(q, p, sq, r, f, c);
    }
}

/// The king-push awareness of a side depends on the board alone.
pub proof fn lemma_push_same_board(p: &Position, q: &Position, ci: int, k: int)
    requires
        p.board == q.board,
    ensures
        push_cells(p, ci, k) == push_cells(q, ci, k),
    decreases k,
{
    lemma_census_same_board(p, q);
    assert(squares_of(p, ci, 2, 64) == squares_of(q, ci, 2, 64));
    if k > 0 {
        lemma_push_same_board(p, q, ci, k - 1);
    }
}

/// Nexus's evaluation is the mover's: two positions with the same board and
/// opposite sides to move evaluate to opposite scores.
pub proof fn lemma_nexus_turn_negates(p: &Position, q: &Position)
    requires
        p.board == q.board,
        p.side_to_move != q.side_to_move,
    ensures
        nexus_score(p) == -nexus_score(q),
{
    lemma_chimera_turn_negates(p, q);
    lemma_push_same_board(p, q, 0, 9);
    lemma_push_same_board(p, q, 1, 9);
    lemma_mobility_same_board(p, q, Color::White, 64);
    lemma_mobility_same_board(p, q, Color::Black, 64);
    lemma_defended_same_board(p, q, Color::White, 64);
    lemma_defended_same_board(p, q, Color::Black, 64);
    if p.side_to_move == Color::White {
        assert(q.side_to_move == Color::Black);
        assert(mover_sign(p, 0) == 1 && mover_sign(p, 1) == -1 && mover_sign(q, 0) == -1 && mover_sign(q, 1) == 1);
    } else {
        assert(q.side_to_move == Color::White);
        assert(mover_sign(p, 0) == -1 && mover_sign(p, 1) == 1 && mover_sign(q, 0) == 1 && mover_sign(q, 1) == -1);
    }
}

} // verus!

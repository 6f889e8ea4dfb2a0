//! Omega's evaluation: material and piece-square tables, exact push mobility
//! of the line pieces, pawn influence, then the structural terms: pistons
//! behind advanced pawns, king-zone attacks, king safety, rook files and pawn
//! structure. Every term is counted for the side to move.
use vstd::prelude::*;
use crate::rules::position::Position;
use crate::rules::push::{resolve_push, spec_resolve_push};
use crate::rules::types::{Color, PieceType, make_square, pval, spec_pval, spec_valid_rf, valid_rf};
use crate::candidates::nexus::eval::{knight_delta, line_delta};
use crate::candidates::chimera::eval::{
    advance, at_most, file_clear, king_square, king_steps, mover_sign, near_count, on_king_file, pawn_at, pawn_count,
    lemma_census_same_board, lemma_king_terms_same_board, lemma_pistons_same_board, piston_from, pistons_side,
    pistons_score, shield_sum, slider_count, squares_of, tropism_against,
};

verus! {

pub const PAWN_PST: [i32; 64] = [
    0, 0, 0, 0, 0, 0, 0, 0, 5, 10, 10, -20, -20, 10, 10, 5, 5, -5, -10, 0, 0, -10, -5, 5, 0, 0, 0,
    20, 20, 0, 0, 0, 5, 5, 10, 25, 25, 10, 5, 5, 10, 10, 20, 30, 30, 20, 10, 10, 50, 50, 50, 50,
    50, 50, 50, 50, 0, 0, 0, 0, 0, 0, 0, 0,
];

pub const KNIGHT_PST: [i32; 64] = [
    -50, -40, -30, -30, -30, -30, -40, -50, -40, -20, 0, 5, 5, 0, -20, -40, -30, 5, 10, 15, 15, 10,
    5, -30, -30, 0, 15, 20, 20, 15, 0, -30, -30, 5, 15, 20, 20, 15, 5, -30, -30, 0, 10, 15, 15, 10,
    0, -30, -40, -20, 0, 0, 0, 0, -20, -40, -50, -40, -30, -30, -30, -30, -40, -50,
];

pub const BISHOP_PST: [i32; 64] = [
    -20, -10, -10, -10, -10, -10, -10, -20, -10, 5, 0, 0, 0, 0, 5, -10, -10, 10, 10, 10, 10, 10,
    10, -10, -10, 0, 10, 10, 10, 10, 0, -10, -10, 5, 5, 10, 10, 5, 5, -10, -10, 0, 5, 10, 10, 5, 0,
    -10, -10, 0, 0, 0, 0, 0, 0, -10, -20, -10, -10, -10, -10, -10, -10, -20,
];

pub const ROOK_PST: [i32; 64] = [
    0, 0, 0, 5, 5, 0, 0, 0, -5, 0, 0, 0, 0, 0, 0, -5, -5, 0, 0, 0, 0, 0, 0, -5, -5, 0, 0, 0, 0, 0,
    0, -5, -5, 0, 0, 0, 0, 0, 0, -5, -5, 0, 0, 0, 0, 0, 0, -5, 5, 10, 10, 10, 10, 10, 10, 5, 0, 0,
    0, 0, 0, 0, 0, 0,
];

pub const QUEEN_PST: [i32; 64] = [
    -20, -10, -10, -5, -5, -10, -10, -20, -10, 0, 0, 0, 0, 0, 0, -10, -10, 0, 5, 5, 5, 5, 0, -10,
    -5, 0, 5, 5, 5, 5, 0, -5, 0, 0, 5, 5, 5, 5, 0, -5, -10, 5, 5, 5, 5, 5, 0, -10, -10, 0, 5, 0, 0,
    0, 0, -10, -20, -10, -10, -5, -5, -10, -10, -20,
];

pub const KING_PST: [i32; 64] = [
    20, 30, 10, 0, 0, 10, 30, 20, 20, 20, 0, 0, 0, 0, 20, 20, -10, -20, -20, -20, -20, -20, -20,
    -10, -20, -30, -30, -40, -40, -30, -30, -20, -30, -40, -40, -50, -50, -40, -40, -30, -30, -40,
    -40, -50, -50, -40, -40, -30, -30, -40, -40, -50, -50, -40, -40, -30, -30, -40, -40, -50, -50,
    -40, -40, -30,
];

/// Every piece-square table entry lies within fifty either way.
proof fn lemma_tables_bounded()
    ensures
        forall|i: int| 0 <= i < 64 ==> -50 <= #[trigger] PAWN_PST@[i] <= 50,
        forall|i: int| 0 <= i < 64 ==> -50 <= #[trigger] KNIGHT_PST@[i] <= 50,
        forall|i: int| 0 <= i < 64 ==> -50 <= #[trigger] BISHOP_PST@[i] <= 50,
        forall|i: int| 0 <= i < 64 ==> -50 <= #[trigger] ROOK_PST@[i] <= 50,
        forall|i: int| 0 <= i < 64 ==> -50 <= #[trigger] QUEEN_PST@[i] <= 50,
        forall|i: int| 0 <= i < 64 ==> -50 <= #[trigger] KING_PST@[i] <= 50,
{
    assert(forall|i: int| 0 <= i < 64 ==> -50 <= #[trigger] PAWN_PST@[i] <= 50);
    assert(forall|i: int| 0 <= i < 64 ==> -50 <= #[trigger] KNIGHT_PST@[i] <= 50);
    assert(forall|i: int| 0 <= i < 64 ==> -50 <= #[trigger] BISHOP_PST@[i] <= 50);
    assert(forall|i: int| 0 <= i < 64 ==> -50 <= #[trigger] ROOK_PST@[i] <= 50);
    assert(forall|i: int| 0 <= i < 64 ==> -50 <= #[trigger] QUEEN_PST@[i] <= 50);
    assert(forall|i: int| 0 <= i < 64 ==> -50 <= #[trigger] KING_PST@[i] <= 50);
}

/// The table value of a piece of color `c` on `sq`, Black's squares mirrored.
/// The table index of square `sq` seen by `c`: mirrored for Black.
pub open spec fn pst_index(c: Color, sq: u8) -> int {
    if c == Color::White {
        sq as int
    } else {
        (sq ^ 56u8) as int
    }
}

/// The piece-square table entry of `pt` at index `i`; zero for an empty
/// square.
pub open spec fn pst_entry(pt: PieceType, i: int) -> i32 {
    match pt {
        PieceType::Pawn => PAWN_PST@[i],
        PieceType::Knight => KNIGHT_PST@[i],
        PieceType::Bishop => BISHOP_PST@[i],
        PieceType::Rook => ROOK_PST@[i],
        PieceType::Queen => QUEEN_PST@[i],
        PieceType::King => KING_PST@[i],
        _ => 0,
    }
}

pub fn pst_value(pt: PieceType, c: Color, sq: u8) -> (v: i32)
    requires
        sq < 64,
    ensures
        -50 <= v <= 50,
        v == pst_entry(pt, pst_index(c, sq)),
{
    proof {
        lemma_tables_bounded();
    }
    let idx: usize = if c == Color::White {
        sq as usize
    } else {
        (sq ^ 56) as usize
    };
    assert(sq < 64 ==> (sq ^ 56u8) < 64) by (bit_vector);
    match pt {
        PieceType::Pawn => PAWN_PST[idx],
        PieceType::Knight => KNIGHT_PST[idx],
        PieceType::Bishop => BISHOP_PST[idx],
        PieceType::Rook => ROOK_PST[idx],
        PieceType::Queen => QUEEN_PST[idx],
        PieceType::King => KING_PST[idx],
        _ => 0,
    }
}

/// Material and table value of the first `n` squares for the side to move:
/// each piece's value and table entry, counted for its own side and against
/// the other.
pub open spec fn table_score(pos: &Position, n: int) -> int
    decreases n,
{
    if n <= 0 {
        0
    } else {
        let p = pos.board@[n - 1];
        let value = spec_pval(p.piece_type) + pst_entry(p.piece_type, pst_index(p.color, (n - 1) as u8));
        table_score(pos, n - 1) + if p.spec_is_empty() {
            0
        } else if p.color == pos.side_to_move {
            value
        } else {
            -value
        }
    }
}

/// Material and tables only, for the side to move.
pub fn lazy_evaluate(pos: &Position) -> (v: i32)
    ensures
        -64 * 950 <= v <= 64 * 950,
        v == table_score(pos, 64),
{
    let stm = pos.side_to_move;
    let mut score: i32 = 0;
    let mut sq: usize = 0;
    while sq < 64
        invariant
            sq <= 64,
            -950 * sq <= score <= 950 * sq,
            score == table_score(pos, sq as int),
            stm == pos.side_to_move,
        decreases 64 - sq,
    {
        let p = pos.board[sq];
        if !p.is_empty() {
            let value = pval(p.piece_type) + pst_value(p.piece_type, p.color, sq as u8);
            if p.color == stm {
                score = score + value;
            } else {
                score = score - value;
            }
        }
        sq += 1;
    }
    score
}

/// The eight knight jumps.
pub(crate) fn knight_offset(i: usize) -> (o: (i32, i32))
    requires
        i < 8,
    ensures
        -2 <= o.0 <= 2,
        -2 <= o.1 <= 2,
        (o.0 as int, o.1 as int) == seq![(-2int, -1int), (-2, 1), (-1, -2), (-1, 2), (1, -2), (1, 2), (2, -1), (2, 1)][i as int],
{
    if i == 0 {
        (-2, -1)
    } else if i == 1 {
        (-2, 1)
    } else if i == 2 {
        (-1, -2)
    } else if i == 3 {
        (-1, 2)
    } else if i == 4 {
        (1, -2)
    } else if i == 5 {
        (1, 2)
    } else if i == 6 {
        (2, -1)
    } else {
        (2, 1)
    }
}

/// The line directions: the four diagonals, then the four orthogonals.
pub(crate) fn line_direction(i: usize) -> (d: (i32, i32))
    requires
        i < 8,
    ensures
        -1 <= d.0 <= 1,
        -1 <= d.1 <= 1,
        !(d.0 == 0 && d.1 == 0),
        (d.0 as int, d.1 as int) == seq![(-1int, -1int), (-1, 1), (1, -1), (1, 1), (-1, 0), (1, 0), (0, -1), (0, 1)][i as int],
{
    if i == 0 {
        (-1, -1)
    } else if i == 1 {
        (-1, 1)
    } else if i == 2 {
        (1, -1)
    } else if i == 3 {
        (1, 1)
    } else if i == 4 {
        (-1, 0)
    } else if i == 5 {
        (1, 0)
    } else if i == 6 {
        (0, -1)
    } else {
        (0, 1)
    }
}

/// What the first pass collects for the structural terms: up to eight pawns,
/// sixteen rooks and queens and sixteen pieces per side, in square order,
/// the kings, bishop counts and pawn files.
pub struct Gathered {
    pub pawn_sq: [u8; 16],
    pub pawn_n: [usize; 2],
    pub slider_sq: [u8; 32],
    pub slider_n: [usize; 2],
    pub king: [u8; 2],
    pub bishop_count: [i32; 2],
    pub pawn_files: [u8; 2],
    pub piece_sq: [u8; 32],
    pub piece_n: [usize; 2],
}

impl Gathered {
    pub open spec fn fits(&self) -> bool {
        &&& self.pawn_n[0] <= 8
        &&& self.pawn_n[1] <= 8
        &&& self.slider_n[0] <= 16
        &&& self.slider_n[1] <= 16
        &&& self.piece_n[0] <= 16
        &&& self.piece_n[1] <= 16
        &&& forall|k: int| 0 <= k < 16 ==> #[trigger] self.pawn_sq[k] < 64
        &&& forall|k: int| 0 <= k < 32 ==> #[trigger] self.slider_sq[k] < 64
        &&& forall|k: int| 0 <= k < 32 ==> #[trigger] self.piece_sq[k] < 64
        &&& self.king[0] < 64
        &&& self.king[1] < 64
        &&& 0 <= self.bishop_count[0] <= 64
        &&& 0 <= self.bishop_count[1] <= 64
    }
}

/// Whether no enemy pawn stands ahead of a pawn of `c` on rank `r`, file `f`,
/// on its own or a neighbouring file.
/// An enemy pawn of `c` stands on rank `rr`, file `ff`.
pub open spec fn enemy_pawn(pos: &Position, c: Color, rr: int, ff: int) -> bool {
    pos.board@[rr * 8 + ff].piece_type == PieceType::Pawn && pos.board@[rr * 8 + ff].color != c
}

/// Rank `rr` lies ahead of rank `r` for `c`.
pub open spec fn ahead_of(c: Color, r: int, rr: int) -> bool {
    if c == Color::White {
        rr > r
    } else {
        rr < r
    }
}

/// No enemy pawn stands ahead of (`r`, `f`) for `c`, on its file or the
/// two beside it.
pub open spec fn is_passed(pos: &Position, c: Color, r: int, f: int) -> bool {
    forall|rr: int, ff: int|
        0 <= rr < 8 && 0 <= ff < 8 && ahead_of(c, r, rr) && f - 1 <= ff <= f + 1 ==> !#[trigger] enemy_pawn(pos, c, rr, ff)
}

pub(crate) fn passed(pos: &Position, c: Color, r: i32, f: i32) -> (b: bool)
    requires
        0 <= r < 8,
        0 <= f < 8,
    ensures
        b == is_passed(pos, c, r as int, f as int),
{
    let dir: i32 = if c == Color::White {
        1
    } else {
        -1
    };
    let mut clear = true;
    let mut fr = r + dir;
    while 0 <= fr && fr < 8 && clear
        invariant
            dir == 1 || dir == -1,
            dir == 1 <==> c == Color::White,
            -1 <= fr <= 8,
            0 <= f < 8,
            0 <= r < 8,
            fr == r + dir || (dir == 1 && fr > r + 1) || (dir == -1 && fr < r - 1),
            clear ==> forall|rr: int, ff: int|
                0 <= rr < 8 && 0 <= ff < 8 && ahead_of(c, r as int, rr) && (if dir == 1 {
                    rr < fr
                } else {
                    rr > fr
                }) && f - 1 <= ff <= f + 1 ==> !#[trigger] enemy_pawn(pos, c, rr, ff),
            !clear ==> !is_passed(pos, c, r as int, f as int),
        decreases (if dir == 1 {
            8 - fr
        } else {
            fr + 1
        }),
    {
        let mut df: i32 = -1;
        while df <= 1 && clear
            invariant
                -1 <= df <= 2,
                0 <= fr < 8,
                0 <= f < 8,
                0 <= r < 8,
                ahead_of(c, r as int, fr as int),
                clear ==> forall|ff: int| 0 <= ff < 8 && f - 1 <= ff < f + df ==> !#[trigger] enemy_pawn(pos, c, fr as int, ff),
                !clear ==> !is_passed(pos, c, r as int, f as int),
            decreases 2 - df,
        {
            let ff = f + df;
            if 0 <= ff && ff <= 7 {
                let cp = pos.board[(fr * 8 + ff) as usize];
                if cp.piece_type == PieceType::Pawn && cp.color != c {
                    assert(enemy_pawn(pos, c, fr as int, ff as int));
                    clear = false;
                }
            }
            df += 1;
        }
        fr += dir;
    }
    clear
}

/// The knight's jumps `0..i` from rank `r`, file `f` for a knight of `c`:
/// (squares it reaches, empty or enemy; enemy pieces it hits).
pub open spec fn knight_terms(pos: &Position, r: int, f: int, c: Color, i: int) -> (int, int)
    decreases i,
{
    if i <= 0 {
        (0, 0)
    } else {
        let prev = knight_terms(pos, r, f, c, i - 1);
        let nr = r + knight_delta(i - 1).0;
        let nf = f + knight_delta(i - 1).1;
        if !spec_valid_rf(nr, nf) {
            prev
        } else if pos.board@[nr * 8 + nf].spec_is_empty() {
            (prev.0 + 1, prev.1)
        } else if pos.board@[nr * 8 + nf].color != c {
            (prev.0 + 1, prev.1 + 1)
        } else {
            prev
        }
    }
}

/// Walking the line (`dr`, `dc`) from the piece on `sq` (rank `r`, file `f`)
/// from step `dist` on, each square a push resolves to: (squares, pushes
/// that move more than the piece, captures); a capture or a square no push
/// reaches ends the walk.
pub open spec fn push_walk(pos: &Position, sq: int, r: int, f: int, dr: int, dc: int, dist: int) -> (int, int, int)
    decreases 8 - dist,
{
    if dist < 1 || dist > 7 {
        (0, 0, 0)
    } else {
        let nr = r + dr * dist;
        let nf = f + dc * dist;
        if !spec_valid_rf(nr, nf) {
            (0, 0, 0)
        } else {
            match spec_resolve_push(pos.board@, sq as u8, (nr * 8 + nf) as u8, dr, dc) {
                None => (0, 0, 0),
                Some(plan) => {
                    let push: int = if plan.0.len() > 1 {
                        1
                    } else {
                        0
                    };
                    if plan.1 is Some {
                        (1, push, 1)
                    } else {
                        let rest = push_walk(pos, sq, r, f, dr, dc, dist + 1);
                        (rest.0 + 1, rest.1 + push, rest.2)
                    }
                },
            }
        }
    }
}

/// The push walks along line directions `first..first + d`, summed.
pub open spec fn push_lines(pos: &Position, sq: int, r: int, f: int, first: int, d: int) -> (int, int, int)
    decreases d,
{
    if d <= 0 {
        (0, 0, 0)
    } else {
        let prev = push_lines(pos, sq, r, f, first, d - 1);
        let w = push_walk(pos, sq, r, f, line_delta(first + d - 1).0, line_delta(first + d - 1).1, 1);
        (prev.0 + w.0, prev.1 + w.1, prev.2 + w.2)
    }
}

/// An enemy of `c` stands diagonally ahead of rank `r`, file `f` on file
/// `f + side`, `dr` being `c`'s forward step.
pub open spec fn pawn_hits(pos: &Position, r: int, f: int, c: Color, dr: int, side: int) -> bool {
    spec_valid_rf(r + dr, f + side) && !pos.board@[(r + dr) * 8 + f + side].spec_is_empty() && pos.board@[(r
        + dr) * 8 + f + side].color != c
}

/// A pawn of `c` stands beside rank `r`, file `f` on file `f + side`, or
/// one rank behind it there.
pub open spec fn pawn_link(pos: &Position, r: int, f: int, c: Color, dr: int, side: int) -> bool {
    let nf = f + side;
    &&& 0 <= nf < 8
    &&& {
        ||| pos.board@[r * 8 + nf].piece_type == PieceType::Pawn && pos.board@[r * 8 + nf].color == c
        ||| 0 <= r - dr < 8 && pos.board@[(r - dr) * 8 + nf].piece_type == PieceType::Pawn && pos.board@[(r - dr)
            * 8 + nf].color == c
    }
}

/// The piece-specific terms of the piece on `sq`: a knight's threats times
/// ten and reach times four; a line piece's captures times fifteen, reach
/// times three (two for a queen) and pushes times six; a pawn's eight per
/// enemy piece it hits and fifteen when connected.
pub open spec fn piece_terms_of(pos: &Position, sq: int) -> int {
    let p = pos.board@[sq];
    let (c, pt, r, f) = (p.color, p.piece_type, sq / 8, sq % 8);
    if pt == PieceType::Knight {
        let t = knight_terms(pos, r, f, c, 8);
        t.1 * 10 + t.0 * 4
    } else if pt == PieceType::Bishop || pt == PieceType::Rook || pt == PieceType::Queen {
        let t = if pt == PieceType::Bishop {
            push_lines(pos, sq, r, f, 0, 4)
        } else if pt == PieceType::Rook {
            push_lines(pos, sq, r, f, 4, 4)
        } else {
            push_lines(pos, sq, r, f, 0, 8)
        };
        let w: int = if pt == PieceType::Queen {
            2
        } else {
            3
        };
        t.2 * 15 + t.0 * w + t.1 * 6
    } else if pt == PieceType::Pawn {
        let dr: int = if c == Color::White {
            1
        } else {
            -1
        };
        let hits = (if pawn_hits(pos, r, f, c, dr, -1) {
            8int
        } else {
            0
        }) + (if pawn_hits(pos, r, f, c, dr, 1) {
            8int
        } else {
            0
        });
        hits + if pawn_link(pos, r, f, c, dr, -1) || pawn_link(pos, r, f, c, dr, 1) {
            15int
        } else {
            0
        }
    } else {
        0
    }
}

/// The piece-specific first-pass terms of the piece on `sq`, for its own side:
/// knight mobility and threats, the exact push mobility of line pieces (each
/// square a push resolves to, pushes that move friendly pieces, a capture
/// ending the line), pawn threats and connected pawns.
fn piece_terms(pos: &Position, sq: u8) -> (v: i32)
    requires
        sq < 64,
        !pos.board@[sq as int].spec_is_empty(),
    ensures
        -200 <= v <= 700,
        v == piece_terms_of(pos, sq as int),
{
    let p = pos.board[sq as usize];
    let c = p.color;
    let pt = p.piece_type;
    let r = (sq / 8) as i32;
    let f = (sq % 8) as i32;
    if pt == PieceType::Knight {
        let mut mob: i32 = 0;
        let mut threats: i32 = 0;
        let mut i: usize = 0;
        while i < 8
            invariant
                i <= 8,
                0 <= mob <= i,
                0 <= threats <= i,
                0 <= r < 8,
                0 <= f < 8,
                (mob as int, threats as int) == knight_terms(pos, r as int, f as int, c, i as int),
            decreases 8 - i,
        {
            let (dr, df) = knight_offset(i);
            let nr = r + dr;
            let nf = f + df;
            if valid_rf(nr, nf) {
                let target = pos.board[(nr * 8 + nf) as usize];
                if target.is_empty() {
                    mob += 1;
                } else if target.color != c {
                    mob += 1;
                    threats += 1;
                }
            }
            i += 1;
        }
        threats * 10 + mob * 4
    } else if pt == PieceType::Bishop || pt == PieceType::Rook || pt == PieceType::Queen {
        let (first, count): (usize, usize) = if pt == PieceType::Bishop {
            (0, 4)
        } else if pt == PieceType::Rook {
            (4, 4)
        } else {
            (0, 8)
        };
        let mut mob: i32 = 0;
        let mut pushes: i32 = 0;
        let mut captures: i32 = 0;
        let mut d: usize = 0;
        while d < count
            invariant
                first + count <= 8,
                d <= count,
                0 <= mob <= 8 * d,
                0 <= pushes <= 8 * d,
                0 <= captures <= d,
                0 <= r < 8,
                0 <= f < 8,
                sq < 64,
                r == sq / 8,
                f == sq % 8,
                (mob as int, pushes as int, captures as int) == push_lines(
                    pos,
                    sq as int,
                    r as int,
                    f as int,
                    first as int,
                    d as int,
                ),
            decreases count - d,
        {
            let (dr, dc) = line_direction(first + d);
            let ghost (mob0, pushes0, captures0) = (mob as int, pushes as int, captures as int);
            let ghost whole = push_walk(pos, sq as int, r as int, f as int, dr as int, dc as int, 1);
            let mut dist: i32 = 1;
            while dist <= 7
                invariant_except_break
                    0 <= mob <= 8 * d + dist - 1,
                    0 <= pushes <= 8 * d + dist - 1,
                    0 <= captures <= d,
                    mob - mob0 + push_walk(pos, sq as int, r as int, f as int, dr as int, dc as int, dist as int).0
                        == whole.0,
                    pushes - pushes0 + push_walk(pos, sq as int, r as int, f as int, dr as int, dc as int, dist as int).1
                        == whole.1,
                    captures - captures0 + push_walk(pos, sq as int, r as int, f as int, dr as int, dc as int, dist as int).2
                        == whole.2,
                invariant
                    1 <= dist <= 8,
                    -1 <= dr <= 1,
                    -1 <= dc <= 1,
                    0 <= r < 8,
                    0 <= f < 8,
                    d < count,
                    first + count <= 8,
                    0 <= mob <= 8 * d + dist,
                    0 <= pushes <= 8 * d + dist,
                    0 <= captures <= d + 1,
                    sq < 64,
                ensures
                    mob == mob0 + whole.0,
                    pushes == pushes0 + whole.1,
                    captures == captures0 + whole.2,
                decreases 8 - dist,
            {
                assert(-7 <= dr * dist <= 7 && -7 <= dc * dist <= 7) by (nonlinear_arith)
                    requires
                        -1 <= dr <= 1,
                        -1 <= dc <= 1,
                        1 <= dist <= 7,
                ;
                let nr = r + dr * dist;
                let nf = f + dc * dist;
                if !valid_rf(nr, nf) {
                    break;
                }
                let to = make_square(nr, nf);
                assert(to as int == nr * 8 + nf);
                match resolve_push(pos, sq, to, dr, dc) {
                    None => {
                        break;
                    },
                    Some(info) => {
                        mob += 1;
                        if info.displacements().len() > 1 {
                            pushes += 1;
                        }
                        if info.captured().is_some() {
                            captures += 1;
                            break;
                        }
                    },
                }
                dist += 1;
            }
            assert(line_delta((first + d) as int) == (dr as int, dc as int));
            d += 1;
        }
        let w: i32 = if pt == PieceType::Queen {
            2
        } else {
            3
        };
        captures * 15 + mob * w + pushes * 6
    } else if pt == PieceType::Pawn {
        let mut v: i32 = 0;
        let dr: i32 = if c == Color::White {
            1
        } else {
            -1
        };
        let mut side: i32 = -1;
        while side <= 1
            invariant
                -1 <= side <= 3,
                side == -1 || side == 1 || side == 3,
                0 <= v <= 8 * (side + 1),
                0 <= r < 8,
                0 <= f < 8,
                dr == 1 || dr == -1,
                dr == (if c == Color::White {
                    1int
                } else {
                    -1
                }),
                v == (if side > -1 && pawn_hits(pos, r as int, f as int, c, dr as int, -1) {
                    8int
                } else {
                    0
                }) + (if side > 1 && pawn_hits(pos, r as int, f as int, c, dr as int, 1) {
                    8int
                } else {
                    0
                }),
            decreases 3 - side,
        {
            let nf = f + side;
            if valid_rf(r + dr, nf) {
                let target = pos.board[((r + dr) * 8 + nf) as usize];
                if !target.is_empty() && target.color != c {
                    v += 8;
                }
            }
            side += 2;
        }
        let mut connected = false;
        let mut side: i32 = -1;
        while side <= 1
            invariant
                -1 <= side <= 3,
                side == -1 || side == 1 || side == 3,
                0 <= r < 8,
                0 <= f < 8,
                dr == 1 || dr == -1,
                connected == ((side > -1 && pawn_link(pos, r as int, f as int, c, dr as int, -1)) || (side > 1
                    && pawn_link(pos, r as int, f as int, c, dr as int, 1))),
            decreases 3 - side,
        {
            let nf = f + side;
            if 0 <= nf && nf < 8 {
                let ns1 = (r * 8 + nf) as usize;
                if pos.board[ns1].piece_type == PieceType::Pawn && pos.board[ns1].color == c {
                    connected = true;
                }
                let nr2 = r - dr;
                if 0 <= nr2 && nr2 < 8 {
                    let ns2 = (nr2 * 8 + nf) as usize;
                    if pos.board[ns2].piece_type == PieceType::Pawn && pos.board[ns2].color == c {
                        connected = true;
                    }
                }
            }
            side += 2;
        }
        if connected {
            v + 15
        } else {
            v
        }
    } else {
        0
    }
}

/// The files of the pawns of color index `ci` among the first `n` squares,
/// as a mask.
pub open spec fn files_of(pos: &Position, ci: int, n: int) -> u8
    decreases n,
{
    if n <= 0 {
        0
    } else {
        let rest = files_of(pos, ci, n - 1);
        let p = pos.board@[n - 1];
        if !p.spec_is_empty() && p.color.spec_index() == ci && p.piece_type == PieceType::Pawn {
            rest | (1u8 << (((n - 1) % 8) as u8))
        } else {
            rest
        }
    }
}

/// What the first pass gathers describes the first `n` squares: for each
/// color the first eight pawns, sixteen rooks or queens and sixteen pieces
/// other than pawns and kings in board order, the last king square seen (0
/// when none), the number of bishops and the files holding pawns.
pub open spec fn gathered_of(g: &Gathered, pos: &Position, n: int) -> bool {
    forall|ci: int|
        0 <= ci < 2 ==> {
            let pawns = #[trigger] squares_of(pos, ci, 0, n);
            let sliders = squares_of(pos, ci, 1, n);
            let kings = squares_of(pos, ci, 2, n);
            let pieces = squares_of(pos, ci, 4, n);
            &&& g.pawn_n[ci] == at_most(8, pawns.len() as int)
            &&& forall|k: int| 0 <= k < g.pawn_n[ci] ==> g.pawn_sq[ci * 8 + k] == pawns[k]
            &&& g.slider_n[ci] == at_most(16, sliders.len() as int)
            &&& forall|k: int| 0 <= k < g.slider_n[ci] ==> g.slider_sq[ci * 16 + k] == sliders[k]
            &&& g.piece_n[ci] == at_most(16, pieces.len() as int)
            &&& forall|k: int| 0 <= k < g.piece_n[ci] ==> g.piece_sq[ci * 16 + k] == pieces[k]
            &&& g.king[ci] == (if kings.len() > 0 {
                kings.last()
            } else {
                0u8
            })
            &&& g.bishop_count[ci] == squares_of(pos, ci, 3, n).len()
            &&& g.pawn_files[ci] == files_of(pos, ci, n)
        }
}

/// What the piece on `sq` is worth to its own side in Omega's first pass:
/// material, its table entry, fifteen per rank of advance for a passed pawn,
/// and its piece terms.
pub open spec fn omega_worth(pos: &Position, sq: int) -> int {
    let p = pos.board@[sq];
    let (r, f) = (sq / 8, sq % 8);
    let adv = if p.color == Color::White {
        r
    } else {
        7 - r
    };
    spec_pval(p.piece_type) + pst_entry(p.piece_type, pst_index(p.color, sq as u8)) + (if p.piece_type
        == PieceType::Pawn && is_passed(pos, p.color, r, f) {
        adv * 15
    } else {
        0
    }) + piece_terms_of(pos, sq)
}

/// Omega's first-pass score of the first `n` squares for the side to move.
pub open spec fn omega_first(pos: &Position, n: int) -> int
    decreases n,
{
    if n <= 0 {
        0
    } else {
        let p = pos.board@[n - 1];
        omega_first(pos, n - 1) + if p.spec_is_empty() {
            0
        } else if p.color == pos.side_to_move {
            omega_worth(pos, n - 1)
        } else {
            -omega_worth(pos, n - 1)
        }
    }
}

/// The first pass: material, tables, passed pawns and the piece terms, with
/// what the structural terms need gathered on the way.
#[verifier::spinoff_prover]
#[verifier::rlimit(40)]
fn first_pass(pos: &Position) -> (r: (i32, Gathered))
    ensures
        -64 * 1800 <= r.0 <= 64 * 1800,
        r.1.fits(),
        r.0 == omega_first(pos, 64),
        gathered_of(&r.1, pos, 64),
{
    let stm = pos.side_to_move;
    let mut score: i32 = 0;
    let mut g = Gathered {
        pawn_sq: [0; 16],
        pawn_n: [0, 0],
        slider_sq: [0; 32],
        slider_n: [0, 0],
        king: [0, 0],
        bishop_count: [0, 0],
        pawn_files: [0, 0],
        piece_sq: [0; 32],
        piece_n: [0, 0],
    };
    let mut sq: u8 = 0;
    while sq < 64
        invariant
            sq <= 64,
            -1800 * sq <= score <= 1800 * sq,
            g.fits(),
            g.bishop_count[0] <= sq,
            g.bishop_count[1] <= sq,
            score == omega_first(pos, sq as int),
            gathered_of(&g, pos, sq as int),
            stm == pos.side_to_move,
        decreases 64 - sq,
    {
        let ghost g0 = g;
        let p = pos.board[sq as usize];
        if !p.is_empty() {
            let c = p.color;
            let ci = c.index();
            let pt = p.piece_type;
            let r = (sq / 8) as i32;
            let f = (sq % 8) as i32;
            let mut own: i32 = pval(pt) + pst_value(pt, c, sq);
            if pt == PieceType::Pawn {
                if g.pawn_n[ci] < 8 {
                    g.pawn_sq[ci * 8 + g.pawn_n[ci]] = sq;
                    g.pawn_n[ci] = g.pawn_n[ci] + 1;
                }
                g.pawn_files[ci] = g.pawn_files[ci] | (1u8 << (f as u8));
                let adv = if c == Color::White {
                    r
                } else {
                    7 - r
                };
                if passed(pos, c, r, f) {
                    own = own + adv * 15;
                }
            }
            if pt == PieceType::King {
                g.king[ci] = sq;
            }
            if pt == PieceType::Bishop {
                g.bishop_count[ci] = g.bishop_count[ci] + 1;
            }
            if (pt == PieceType::Rook || pt == PieceType::Queen) && g.slider_n[ci] < 16 {
                g.slider_sq[ci * 16 + g.slider_n[ci]] = sq;
                g.slider_n[ci] = g.slider_n[ci] + 1;
            }
            if pt != PieceType::Pawn && pt != PieceType::King && g.piece_n[ci] < 16 {
                g.piece_sq[ci * 16 + g.piece_n[ci]] = sq;
                g.piece_n[ci] = g.piece_n[ci] + 1;
            }
            own = own + piece_terms(pos, sq);
            assert(own == omega_worth(pos, sq as int));
            if c == stm {
                score = score + own;
            } else {
                score = score - own;
            }
        }
        proof {
            assert forall|ci: int| 0 <= ci < 2 implies {
                let pawns = #[trigger] squares_of(pos, ci, 0, sq + 1);
                let sliders = squares_of(pos, ci, 1, sq + 1);
                let kings = squares_of(pos, ci, 2, sq + 1);
                let pieces = squares_of(pos, ci, 4, sq + 1);
                &&& g.pawn_n[ci] == at_most(8, pawns.len() as int)
                &&& forall|k: int| 0 <= k < g.pawn_n[ci] ==> g.pawn_sq[ci * 8 + k] == pawns[k]
                &&& g.slider_n[ci] == at_most(16, sliders.len() as int)
                &&& forall|k: int| 0 <= k < g.slider_n[ci] ==> g.slider_sq[ci * 16 + k] == sliders[k]
                &&& g.piece_n[ci] == at_most(16, pieces.len() as int)
                &&& forall|k: int| 0 <= k < g.piece_n[ci] ==> g.piece_sq[ci * 16 + k] == pieces[k]
                &&& g.king[ci] == (if kings.len() > 0 {
                    kings.last()
                } else {
                    0u8
                })
                &&& g.bishop_count[ci] == squares_of(pos, ci, 3, sq + 1).len()
                &&& g.pawn_files[ci] == files_of(pos, ci, sq + 1)
            } by {
                let pawns0 = squares_of(pos, ci, 0, sq as int);
                let sliders0 = squares_of(pos, ci, 1, sq as int);
                let pieces0 = squares_of(pos, ci, 4, sq as int);
                assert(g0.pawn_n[ci] == at_most(8, pawns0.len() as int));
                assert(forall|k: int| 0 <= k < g0.pawn_n[ci] ==> g0.pawn_sq[ci * 8 + k] == pawns0[k]);
                assert(g0.slider_n[ci] == at_most(16, sliders0.len() as int));
                assert(forall|k: int| 0 <= k < g0.slider_n[ci] ==> g0.slider_sq[ci * 16 + k] == sliders0[k]);
                assert(g0.piece_n[ci] == at_most(16, pieces0.len() as int));
                assert(forall|k: int| 0 <= k < g0.piece_n[ci] ==> g0.piece_sq[ci * 16 + k] == pieces0[k]);
            }
            assert(gathered_of(&g, pos, sq + 1));
        }
        sq += 1;
    }
    (score, g)
}

/// Pistons: a rook or queen behind an advanced pawn of its side on the same
/// file, with nothing between them, drives it forward.
fn pistons(pos: &Position, g: &Gathered) -> (v: i32)
    requires
        g.fits(),
        gathered_of(g, pos, 64),
    ensures
        -2400 <= v <= 2400,
        v == pistons_score(pos),
{
    let stm = pos.side_to_move;
    let mut score: i32 = 0;
    let mut ci: usize = 0;
    while ci < 2
        invariant
            ci <= 2,
            g.fits(),
            gathered_of(g, pos, 64),
            stm == pos.side_to_move,
            -1200 * ci <= score <= 1200 * ci,
            score == (if ci >= 1 {
                mover_sign(pos, 0) * pistons_side(pos, 0, pawn_count(pos, 0))
            } else {
                0
            }) + (if ci >= 2 {
                mover_sign(pos, 1) * pistons_side(pos, 1, pawn_count(pos, 1))
            } else {
                0
            }),
        decreases 2 - ci,
    {
        assert(squares_of(pos, ci as int, 0, 64) == squares_of(pos, ci as int, 0, 64));
        let c = if ci == 0 {
            Color::White
        } else {
            Color::Black
        };
        let sign: i32 = if c == stm {
            1
        } else {
            -1
        };
        let mut side: i32 = 0;
        let mut pi: usize = 0;
        while pi < g.pawn_n[ci]
            invariant
                ci < 2,
                g.fits(),
                pi <= g.pawn_n[ci as int],
                0 <= side <= 150 * pi,
                gathered_of(g, pos, 64),
                c == Color::White <==> ci == 0,
                g.pawn_n[ci as int] == pawn_count(pos, ci as int),
                g.slider_n[ci as int] == slider_count(pos, ci as int),
                side == pistons_side(pos, ci as int, pi as int),
            decreases g.pawn_n[ci as int] - pi,
        {
            let psq = g.pawn_sq[ci * 8 + pi] as i32;
            assert(squares_of(pos, ci as int, 0, 64) == squares_of(pos, ci as int, 0, 64));
            assert(psq == pawn_at(pos, ci as int, pi as int));
            let pr = psq / 8;
            let pf = psq % 8;
            let adv = if c == Color::White {
                pr
            } else {
                7 - pr
            };
            if adv >= 4 {
                let mut bonus: i32 = 0;
                let mut si: usize = 0;
                while si < g.slider_n[ci]
                    invariant_except_break
                        bonus == 0,
                        piston_from(pos, ci as int, psq as int, 0, slider_count(pos, ci as int)) == piston_from(
                            pos,
                            ci as int,
                            psq as int,
                            si as int,
                            slider_count(pos, ci as int),
                        ),
                    invariant
                        ci < 2,
                        g.fits(),
                        si <= g.slider_n[ci as int],
                        0 <= pr < 8,
                        0 <= pf < 8,
                        0 <= bonus <= 150,
                        gathered_of(g, pos, 64),
                        c == Color::White <==> ci == 0,
                        g.slider_n[ci as int] == slider_count(pos, ci as int),
                        0 <= psq < 64,
                        pr == psq / 8,
                        pf == psq % 8,
                        adv == advance(ci as int, psq as int),
                    ensures
                        bonus == piston_from(pos, ci as int, psq as int, 0, slider_count(pos, ci as int)),
                    decreases g.slider_n[ci as int] - si,
                {
                    let ssq = g.slider_sq[ci * 16 + si] as i32;
                    assert(squares_of(pos, ci as int, 0, 64) == squares_of(pos, ci as int, 0, 64));
                    assert(ssq == squares_of(pos, ci as int, 1, 64)[si as int]);
                    let sr = ssq / 8;
                    let behind = if c == Color::White {
                        sr < pr
                    } else {
                        sr > pr
                    };
                    if ssq % 8 == pf && behind {
                        let dir: i32 = if c == Color::White {
                            1
                        } else {
                            -1
                        };
                        let mut clear = true;
                        let mut cr = sr + dir;
                        while cr != pr
                            invariant_except_break
                                clear,
                            invariant
                                forall|x: int|
                                    (if dir == 1 {
                                        sr < x < cr
                                    } else {
                                        cr < x < sr
                                    }) ==> #[trigger] pos.board@[x * 8 + pf].spec_is_empty(),
                                dir == 1 ==> sr < cr <= pr,
                                dir == -1 ==> pr <= cr < sr,
                                dir == 1 || dir == -1,
                                0 <= pr < 8,
                                0 <= pf < 8,
                                0 <= sr < 8,
                            ensures
                                clear == file_clear(pos, sr as int, pr as int, pf as int),
                            decreases (if dir == 1 {
                                pr - cr
                            } else {
                                cr - pr
                            }),
                        {
                            if !pos.board[(cr * 8 + pf) as usize].is_empty() {
                                clear = false;
                                assert(!pos.board@[cr * 8 + pf].spec_is_empty());
                                break;
                            }
                            cr += dir;
                        }
                        if clear {
                            bonus = if adv >= 5 {
                                150
                            } else {
                                60
                            };
                            break;
                        }
                    }
                    si += 1;
                }
                side = side + bonus;
            }
            pi += 1;
        }
        assert(side == pistons_side(pos, ci as int, pawn_count(pos, ci as int)));
        assert(sign as int == mover_sign(pos, ci as int));
        assert(sign * side == mover_sign(pos, ci as int) * pistons_side(pos, ci as int, pawn_count(pos, ci as int)));
        assert(-1200 <= sign * side <= 1200) by (nonlinear_arith)
            requires
                sign == 1 || sign == -1,
                0 <= side <= 1200,
        ;
        score = score + sign * side;
        ci += 1;
    }
    score
}

/// How many pieces other than pawns and kings of color index `ci` the
/// gathering keeps.
pub open spec fn piece_count(pos: &Position, ci: int) -> int {
    at_most(16, squares_of(pos, ci, 4, 64).len() as int)
}

/// The first `k` kept pieces of the other color within two king steps of the
/// king of color index `ci`: (how many, their weight: four for a queen,
/// three for a rook, two otherwise).
pub open spec fn zone_attack(pos: &Position, ci: int, k: int) -> (int, int)
    decreases k,
{
    if k <= 0 {
        (0, 0)
    } else {
        let prev = zone_attack(pos, ci, k - 1);
        let psq = squares_of(pos, 1 - ci, 4, 64)[k - 1] as int;
        let kq = king_square(pos, ci);
        if king_steps(kq / 8, kq % 8, psq / 8, psq % 8) <= 2 {
            let pt = pos.board@[psq].piece_type;
            let w: int = if pt == PieceType::Queen {
                4
            } else if pt == PieceType::Rook {
                3
            } else {
                2
            };
            (prev.0 + 1, prev.1 + w)
        } else {
            prev
        }
    }
}

/// What the king of color index `ci` loses to the attack on its zone: three
/// times the weight squared from two attackers on, eight times the weight for
/// one, and the advanced enemy pawns near it.
pub open spec fn zone_against(pos: &Position, ci: int) -> int {
    let a = zone_attack(pos, ci, piece_count(pos, 1 - ci));
    (if a.0 >= 2 {
        a.1 * a.1 * 3
    } else if a.0 == 1 {
        a.1 * 8
    } else {
        0
    }) + tropism_against(pos, ci, pawn_count(pos, 1 - ci))
}

/// The king-zone term for the side to move.
pub open spec fn zone_score(pos: &Position) -> int {
    -(mover_sign(pos, 0) * zone_against(pos, 0)) - mover_sign(pos, 1) * zone_against(pos, 1)
}

/// Attacks on each king: enemy pieces within two squares weigh two (four for
/// a queen, three for a rook), quadratically once there are two of them; and
/// advanced enemy pawns close to the king.
fn king_zone(pos: &Position, g: &Gathered) -> (v: i32)
    requires
        g.fits(),
        gathered_of(g, pos, 64),
    ensures
        -30000 <= v <= 30000,
        v == zone_score(pos),
{
    let stm = pos.side_to_move;
    let mut score: i32 = 0;
    let mut ci: usize = 0;
    while ci < 2
        invariant
            ci <= 2,
            g.fits(),
            gathered_of(g, pos, 64),
            stm == pos.side_to_move,
            -15000 * ci <= score <= 15000 * ci,
            score == (if ci >= 1 {
                -(mover_sign(pos, 0) * zone_against(pos, 0))
            } else {
                0
            }) + (if ci >= 2 {
                -(mover_sign(pos, 1) * zone_against(pos, 1))
            } else {
                0
            }),
        decreases 2 - ci,
    {
        assert(squares_of(pos, ci as int, 0, 64) == squares_of(pos, ci as int, 0, 64));
        assert(squares_of(pos, 1 - ci, 0, 64) == squares_of(pos, 1 - ci, 0, 64));
        let oci = 1 - ci;
        let sign: i32 = if ci == stm.index() {
            1
        } else {
            -1
        };
        let kr = (g.king[ci] / 8) as i32;
        let kf = (g.king[ci] % 8) as i32;
        let mut attackers: i32 = 0;
        let mut attack_weight: i32 = 0;
        let mut pi: usize = 0;
        while pi < g.piece_n[oci]
            invariant
                oci < 2,
                g.fits(),
                pi <= g.piece_n[oci as int],
                0 <= attackers <= pi,
                0 <= attack_weight <= 4 * pi,
                0 <= kr < 8,
                0 <= kf < 8,
                gathered_of(g, pos, 64),
                oci == 1 - ci,
                g.piece_n[oci as int] == piece_count(pos, oci as int),
                kr == king_square(pos, ci as int) / 8,
                kf == king_square(pos, ci as int) % 8,
                (attackers as int, attack_weight as int) == zone_attack(pos, ci as int, pi as int),
            decreases g.piece_n[oci as int] - pi,
        {
            let psq = g.piece_sq[oci * 16 + pi] as i32;
            assert(squares_of(pos, oci as int, 0, 64) == squares_of(pos, oci as int, 0, 64));
            assert(psq == squares_of(pos, oci as int, 4, 64)[pi as int]);
            let pr = psq / 8;
            let pf = psq % 8;
            let dr = if kr > pr {
                kr - pr
            } else {
                pr - kr
            };
            let df = if kf > pf {
                kf - pf
            } else {
                pf - kf
            };
            let dist = if dr > df {
                dr
            } else {
                df
            };
            if dist <= 2 {
                attackers += 1;
                let pt = pos.board[psq as usize].piece_type;
                if pt == PieceType::Queen {
                    attack_weight += 4;
                } else if pt == PieceType::Rook {
                    attack_weight += 3;
                } else {
                    attack_weight += 2;
                }
            }
            pi += 1;
        }
        let mut against: i32 = 0;
        if attackers >= 2 {
            assert(attack_weight * attack_weight <= 4096) by (nonlinear_arith)
                requires
                    0 <= attack_weight <= 64,
            ;
            against = attack_weight * attack_weight * 3;
        } else if attackers == 1 {
            against = attack_weight * 8;
        }
        let ghost base = against as int;
        let mut pi: usize = 0;
        while pi < g.pawn_n[oci]
            invariant
                oci < 2,
                g.fits(),
                pi <= g.pawn_n[oci as int],
                0 <= against <= 12288 + 76 * pi,
                0 <= kr < 8,
                0 <= kf < 8,
                gathered_of(g, pos, 64),
                oci == 1 - ci,
                g.pawn_n[oci as int] == pawn_count(pos, oci as int),
                kr == king_square(pos, ci as int) / 8,
                kf == king_square(pos, ci as int) % 8,
                against == base + tropism_against(pos, ci as int, pi as int),
            decreases g.pawn_n[oci as int] - pi,
        {
            let psq = g.pawn_sq[oci * 8 + pi] as i32;
            assert(squares_of(pos, oci as int, 0, 64) == squares_of(pos, oci as int, 0, 64));
            assert(psq == pawn_at(pos, oci as int, pi as int));
            let pr = psq / 8;
            let pf = psq % 8;
            let adv = if oci == 0 {
                pr
            } else {
                7 - pr
            };
            if adv >= 4 {
                let dr = if kr > pr {
                    kr - pr
                } else {
                    pr - kr
                };
                let df = if kf > pf {
                    kf - pf
                } else {
                    pf - kf
                };
                let dist = if dr > df {
                    dr
                } else {
                    df
                };
                if dist <= 2 {
                    against = against + 20 + adv * 8;
                }
            }
            pi += 1;
        }
        assert(sign as int == mover_sign(pos, ci as int));
        assert(against == zone_against(pos, ci as int));
        assert(sign * against == mover_sign(pos, ci as int) * zone_against(pos, ci as int));
        assert(-15000 <= sign * against <= 15000) by (nonlinear_arith)
            requires
                sign == 1 || sign == -1,
                0 <= against <= 12288 + 76 * 8,
        ;
        score = score - sign * against;
        ci += 1;
    }
    score
}

/// Omega's king safety of the side of color index `ci`: its shield, fifty
/// off with fewer than two pawns near the king, thirty off with none on its
/// file, and forty for two bishops or more.
pub open spec fn omega_safety_of(pos: &Position, ci: int) -> int {
    let n = pawn_count(pos, ci);
    shield_sum(pos, ci, n) - (if near_count(pos, ci, n) < 2 {
        50int
    } else {
        0
    }) - (if !on_king_file(pos, ci, n) {
        30int
    } else {
        0
    }) + (if squares_of(pos, ci, 3, 64).len() >= 2 {
        40int
    } else {
        0
    })
}

/// Omega's king-safety term for the side to move.
pub open spec fn omega_safety_score(pos: &Position) -> int {
    mover_sign(pos, 0) * omega_safety_of(pos, 0) + mover_sign(pos, 1) * omega_safety_of(pos, 1)
}

/// King safety: shield pawns in front, too few pawns near the king, no pawn
/// on the king's file; and the bishop pair.
fn king_safety(pos: &Position, g: &Gathered) -> (v: i32)
    requires
        g.fits(),
        gathered_of(g, pos, 64),
    ensures
        -400 <= v <= 400,
        v == omega_safety_score(pos),
{
    let stm = pos.side_to_move;
    let mut score: i32 = 0;
    let mut ci: usize = 0;
    while ci < 2
        invariant
            ci <= 2,
            g.fits(),
            gathered_of(g, pos, 64),
            stm == pos.side_to_move,
            -200 * ci <= score <= 200 * ci,
            score == (if ci >= 1 {
                mover_sign(pos, 0) * omega_safety_of(pos, 0)
            } else {
                0
            }) + (if ci >= 2 {
                mover_sign(pos, 1) * omega_safety_of(pos, 1)
            } else {
                0
            }),
        decreases 2 - ci,
    {
        assert(squares_of(pos, ci as int, 0, 64) == squares_of(pos, ci as int, 0, 64));
        let c = if ci == 0 {
            Color::White
        } else {
            Color::Black
        };
        let sign: i32 = if c == stm {
            1
        } else {
            -1
        };
        let kr = (g.king[ci] / 8) as i32;
        let kf = (g.king[ci] % 8) as i32;
        let shield_dir: i32 = if c == Color::White {
            1
        } else {
            -1
        };
        let mut side: i32 = 0;
        let mut near: i32 = 0;
        let mut on_file = false;
        let mut pi: usize = 0;
        while pi < g.pawn_n[ci]
            invariant
                ci < 2,
                g.fits(),
                pi <= g.pawn_n[ci as int],
                0 <= side <= 15 * pi,
                0 <= near <= pi,
                0 <= kr < 8,
                0 <= kf < 8,
                shield_dir == 1 || shield_dir == -1,
                shield_dir == 1 <==> ci == 0,
                gathered_of(g, pos, 64),
                g.pawn_n[ci as int] == pawn_count(pos, ci as int),
                kr == king_square(pos, ci as int) / 8,
                kf == king_square(pos, ci as int) % 8,
                side == shield_sum(pos, ci as int, pi as int),
                near == near_count(pos, ci as int, pi as int),
                on_file == on_king_file(pos, ci as int, pi as int),
            decreases g.pawn_n[ci as int] - pi,
        {
            let psq = g.pawn_sq[ci * 8 + pi] as i32;
            assert(squares_of(pos, ci as int, 0, 64) == squares_of(pos, ci as int, 0, 64));
            assert(psq == pawn_at(pos, ci as int, pi as int));
            let pr = psq / 8;
            let pf = psq % 8;
            let file_dist = if pf > kf {
                pf - kf
            } else {
                kf - pf
            };
            let rank_ahead = if shield_dir == 1 {
                pr - kr
            } else {
                kr - pr
            };
            if file_dist <= 1 && 1 <= rank_ahead && rank_ahead <= 2 {
                side = side + 15;
            }
            let dr = if pr > kr {
                pr - kr
            } else {
                kr - pr
            };
            let dist = if dr > file_dist {
                dr
            } else {
                file_dist
            };
            if dist <= 2 {
                near += 1;
            }
            if pf == kf {
                on_file = true;
            }
            pi += 1;
        }
        if near < 2 {
            side = side - 50;
        }
        if !on_file {
            side = side - 30;
        }
        if g.bishop_count[ci] >= 2 {
            side = side + 40;
        }
        assert(side == omega_safety_of(pos, ci as int));
        assert(sign as int == mover_sign(pos, ci as int));
        assert(sign * side == mover_sign(pos, ci as int) * omega_safety_of(pos, ci as int));
        assert(-200 <= sign * side <= 200) by (nonlinear_arith)
            requires
                sign == 1 || sign == -1,
                -80 <= side <= 160,
        ;
        score = score + sign * side;
        ci += 1;
    }
    score
}

/// The first `k` kept rooks and queens of color index `ci`, the rooks among
/// them scored in order: twenty-five on a file without pawns, fifteen on one
/// without friendly pawns, fifteen more on the rank of the rook before;
/// (score, rank of the last rook, -1 before any).
pub open spec fn rook_walk(pos: &Position, ci: int, k: int) -> (int, int)
    decreases k,
{
    if k <= 0 {
        (0, -1)
    } else {
        let prev = rook_walk(pos, ci, k - 1);
        let ssq = squares_of(pos, ci, 1, 64)[k - 1] as int;
        if pos.board@[ssq].piece_type == PieceType::Rook {
            let sf = ssq % 8;
            let sr = ssq / 8;
            let friendly = (files_of(pos, ci, 64) >> (sf as u8)) & 1 != 0;
            let enemy = (files_of(pos, 1 - ci, 64) >> (sf as u8)) & 1 != 0;
            let open: int = if !friendly && !enemy {
                25
            } else if !friendly {
                15
            } else {
                0
            };
            let pair: int = if prev.1 == sr {
                15
            } else {
                0
            };
            (prev.0 + open + pair, sr)
        } else {
            prev
        }
    }
}

/// The rook term for the side to move.
pub open spec fn rook_score(pos: &Position) -> int {
    mover_sign(pos, 0) * rook_walk(pos, 0, slider_count(pos, 0)).0 + mover_sign(pos, 1) * rook_walk(
        pos,
        1,
        slider_count(pos, 1),
    ).0
}

/// How many of the first `j` kept pawns of color index `ci` stand on file `f`.
pub open spec fn same_file_count(pos: &Position, ci: int, f: int, j: int) -> int
    decreases j,
{
    if j <= 0 {
        0
    } else {
        same_file_count(pos, ci, f, j - 1) + if pawn_at(pos, ci, j - 1) % 8 == f {
            1int
        } else {
            0
        }
    }
}

/// The structure of the first `k` kept pawns of color index `ci`: ten off
/// for each one sharing its file with another kept pawn, fifteen off for
/// each without a pawn of its side on a neighbouring file.
pub open spec fn structure_walk(pos: &Position, ci: int, k: int) -> int
    decreases k,
{
    if k <= 0 {
        0
    } else {
        let pf = pawn_at(pos, ci, k - 1) % 8;
        let files = files_of(pos, ci, 64);
        let neighbor = (pf > 0 && (files >> ((pf - 1) as u8)) & 1 != 0) || (pf < 7 && (files >> ((pf + 1) as u8))
            & 1 != 0);
        structure_walk(pos, ci, k - 1) + (if same_file_count(pos, ci, pf, pawn_count(pos, ci)) > 1 {
            -10int
        } else {
            0
        }) + (if !neighbor {
            -15int
        } else {
            0
        })
    }
}

/// The pawn-structure term for the side to move.
pub open spec fn structure_score(pos: &Position) -> int {
    mover_sign(pos, 0) * structure_walk(pos, 0, pawn_count(pos, 0)) + mover_sign(pos, 1) * structure_walk(
        pos,
        1,
        pawn_count(pos, 1),
    )
}

/// Rooks: on a file without pawns, or without friendly pawns, and two rooks
/// met in succession on one rank.
fn rook_files(pos: &Position, g: &Gathered) -> (v: i32)
    requires
        g.fits(),
        gathered_of(g, pos, 64),
    ensures
        -1300 <= v <= 1300,
        v == rook_score(pos),
{
    let stm = pos.side_to_move;
    let mut score: i32 = 0;
    let mut ci: usize = 0;
    while ci < 2
        invariant
            ci <= 2,
            g.fits(),
            gathered_of(g, pos, 64),
            stm == pos.side_to_move,
            -640 * ci <= score <= 640 * ci,
            score == (if ci >= 1 {
                mover_sign(pos, 0) * rook_walk(pos, 0, slider_count(pos, 0)).0
            } else {
                0
            }) + (if ci >= 2 {
                mover_sign(pos, 1) * rook_walk(pos, 1, slider_count(pos, 1)).0
            } else {
                0
            }),
        decreases 2 - ci,
    {
        assert(squares_of(pos, ci as int, 0, 64) == squares_of(pos, ci as int, 0, 64));
        assert(squares_of(pos, 1 - ci, 0, 64) == squares_of(pos, 1 - ci, 0, 64));
        let c = if ci == 0 {
            Color::White
        } else {
            Color::Black
        };
        let sign: i32 = if c == stm {
            1
        } else {
            -1
        };
        let mut side: i32 = 0;
        let mut prev_rook_rank: i32 = -1;
        let mut si: usize = 0;
        while si < g.slider_n[ci]
            invariant
                ci < 2,
                g.fits(),
                si <= g.slider_n[ci as int],
                0 <= side <= 40 * si,
                gathered_of(g, pos, 64),
                g.slider_n[ci as int] == slider_count(pos, ci as int),
                g.pawn_files[ci as int] == files_of(pos, ci as int, 64),
                g.pawn_files[1 - ci] == files_of(pos, 1 - ci, 64),
                (side as int, prev_rook_rank as int) == rook_walk(pos, ci as int, si as int),
            decreases g.slider_n[ci as int] - si,
        {
            let ssq = g.slider_sq[ci * 16 + si];
            assert(squares_of(pos, ci as int, 0, 64) == squares_of(pos, ci as int, 0, 64));
            assert(ssq == squares_of(pos, ci as int, 1, 64)[si as int]);
            if pos.board[ssq as usize].piece_type == PieceType::Rook {
                let sf = (ssq % 8) as u8;
                let sr = (ssq / 8) as i32;
                let friendly_pawn = (g.pawn_files[ci] >> sf) & 1 != 0;
                let enemy_pawn = (g.pawn_files[1 - ci] >> sf) & 1 != 0;
                if !friendly_pawn && !enemy_pawn {
                    side = side + 25;
                } else if !friendly_pawn {
                    side = side + 15;
                }
                if prev_rook_rank == sr {
                    side = side + 15;
                }
                prev_rook_rank = sr;
            }
            si += 1;
        }
        assert(sign as int == mover_sign(pos, ci as int));
        assert(sign * side == mover_sign(pos, ci as int) * rook_walk(pos, ci as int, slider_count(pos, ci as int)).0);
        assert(-640 <= sign * side <= 640) by (nonlinear_arith)
            requires
                sign == 1 || sign == -1,
                0 <= side <= 640,
        ;
        score = score + sign * side;
        ci += 1;
    }
    score
}

/// Pawn structure: doubled pawns and pawns without a friendly pawn on a
/// neighbouring file.
fn pawn_structure(pos: &Position, g: &Gathered) -> (v: i32)
    requires
        g.fits(),
        gathered_of(g, pos, 64),
    ensures
        -400 <= v <= 400,
        v == structure_score(pos),
{
    let stm = pos.side_to_move;
    let mut score: i32 = 0;
    let mut ci: usize = 0;
    while ci < 2
        invariant
            ci <= 2,
            g.fits(),
            gathered_of(g, pos, 64),
            stm == pos.side_to_move,
            -200 * ci <= score <= 200 * ci,
            score == (if ci >= 1 {
                mover_sign(pos, 0) * structure_walk(pos, 0, pawn_count(pos, 0))
            } else {
                0
            }) + (if ci >= 2 {
                mover_sign(pos, 1) * structure_walk(pos, 1, pawn_count(pos, 1))
            } else {
                0
            }),
        decreases 2 - ci,
    {
        assert(squares_of(pos, ci as int, 0, 64) == squares_of(pos, ci as int, 0, 64));
        let c = if ci == 0 {
            Color::White
        } else {
            Color::Black
        };
        let sign: i32 = if c == stm {
            1
        } else {
            -1
        };
        let mut side: i32 = 0;
        let mut pi: usize = 0;
        while pi < g.pawn_n[ci]
            invariant
                ci < 2,
                g.fits(),
                pi <= g.pawn_n[ci as int],
                -25 * pi <= side <= 0,
                gathered_of(g, pos, 64),
                g.pawn_n[ci as int] == pawn_count(pos, ci as int),
                g.pawn_files[ci as int] == files_of(pos, ci as int, 64),
                side == structure_walk(pos, ci as int, pi as int),
            decreases g.pawn_n[ci as int] - pi,
        {
            assert(squares_of(pos, ci as int, 0, 64) == squares_of(pos, ci as int, 0, 64));
            assert(g.pawn_sq[ci * 8 + pi] == pawn_at(pos, ci as int, pi as int));
            let pf = (g.pawn_sq[ci * 8 + pi] % 8) as u8;
            let mut on_file: usize = 0;
            let mut pj: usize = 0;
            while pj < g.pawn_n[ci]
                invariant
                    ci < 2,
                    g.fits(),
                    pj <= g.pawn_n[ci as int],
                    on_file <= pj,
                    gathered_of(g, pos, 64),
                    g.pawn_n[ci as int] == pawn_count(pos, ci as int),
                    on_file == same_file_count(pos, ci as int, pf as int, pj as int),
                decreases g.pawn_n[ci as int] - pj,
            {
                assert(squares_of(pos, ci as int, 0, 64) == squares_of(pos, ci as int, 0, 64));
                assert(g.pawn_sq[ci * 8 + pj] == pawn_at(pos, ci as int, pj as int));
                if g.pawn_sq[ci * 8 + pj] % 8 == pf {
                    on_file += 1;
                }
                pj += 1;
            }
            if on_file > 1 {
                side = side - 10;
            }
            let mut neighbor = false;
            if pf > 0 && (g.pawn_files[ci] >> (pf - 1)) & 1 != 0 {
                neighbor = true;
            }
            if pf < 7 && (g.pawn_files[ci] >> (pf + 1)) & 1 != 0 {
                neighbor = true;
            }
            if !neighbor {
                side = side - 15;
            }
            pi += 1;
        }
        assert(sign as int == mover_sign(pos, ci as int));
        assert(side == structure_walk(pos, ci as int, pawn_count(pos, ci as int)));
        assert(sign * side == mover_sign(pos, ci as int) * structure_walk(pos, ci as int, pawn_count(pos, ci as int)));
        score = if sign == 1 {
            score + side
        } else {
            score - side
        };
        ci += 1;
    }
    score
}

/// Omega's evaluation of `pos` for the side to move: the first pass, then
/// the pistons, king zones, king safety, rook files and pawn structure.
pub open spec fn omega_score(pos: &Position) -> int {
    omega_first(pos, 64) + pistons_score(pos) + zone_score(pos) + omega_safety_score(pos) + rook_score(pos)
        + structure_score(pos)
}

/// Omega's full evaluation for the side to move.
pub fn evaluate(pos: &Position) -> (v: i32)
    ensures
        -150000 <= v <= 150000,
        v == omega_score(pos),
{
    let (score, g) = first_pass(pos);
    score + pistons(pos, &g) + king_zone(pos, &g) + king_safety(pos, &g) + rook_files(pos, &g) + pawn_structure(
        pos,
        &g,
    )
}

/// Whether a pawn is passed depends on the board alone.
pub proof fn lemma_passed_same_board(p: &Position, q: &Position, c: Color, r: int, f: int)
    requires
        p.board == q.board,
    ensures
        is_passed(p, c, r, f) == is_passed(q, c, r, f),
{
    if is_passed(p, c, r, f) {
        assert forall|rr: int, ff: int|
            0 <= rr < 8 && 0 <= ff < 8 && ahead_of(c, r, rr) && f - 1 <= ff <= f + 1 implies !#[trigger] enemy_pawn(
            q,
            c,
            rr,
            ff,
        ) by {
            assert(!enemy_pawn(p, c, rr, ff));
        }
    }
    if is_passed(q, c, r, f) {
        assert forall|rr: int, ff: int|
            0 <= rr < 8 && 0 <= ff < 8 && ahead_of(c, r, rr) && f - 1 <= ff <= f + 1 implies !#[trigger] enemy_pawn(
            p,
            c,
            rr,
            ff,
        ) by {
            assert(!enemy_pawn(q, c, rr, ff));
        }
    }
}

/// A knight's reach and threats depend on the board alone.
pub proof fn lemma_knight_same_board(p: &Position, q: &Position, r: int, f: int, c: Color, i: int)
    requires
        p.board == q.board,
    ensures
        knight_terms(p, r, f, c, i) == knight_terms(q, r, f, c, i),
    decreases i,
{
    if i > 0 {
        lemma_knight_same_board(p, q, r, f, c, i - 1);
    }
}

/// A push walk depends on the board alone.
pub proof fn lemma_walk_same_board(p: &Position, q: &Position, sq: int, r: int, f: int, dr: int, dc: int, dist: int)
    requires
        p.board == q.board,
    ensures
        push_walk(p, sq, r, f, dr, dc, dist) == push_walk(q, sq, r, f, dr, dc, dist),
    decreases 8 - dist,
{
    if 1 <= dist <= 7 {
        lemma_walk_same_board(p, q, sq, r, f, dr, dc, dist + 1);
    }
}

/// The push walks of a line piece depend on the board alone.
pub proof fn lemma_lines_same_board(p: &Position, q: &Position, sq: int, r: int, f: int, first: int, d: int)
    requires
        p.board == q.board,
    ensures
        push_lines(p, sq, r, f, first, d) == push_lines(q, sq, r, f, first, d),
    decreases d,
{
    if d > 0 {
        lemma_lines_same_board(p, q, sq, r, f, first, d - 1);
        lemma_walk_same_board(p, q, sq, r, f, line_delta(first + d - 1).0, line_delta(first + d - 1).1, 1);
    }
}

/// What a piece is worth in the first pass depends on the board alone.
pub proof fn lemma_worth_same_board(p: &Position, q: &Position, sq: int)
    requires
        p.board == q.board,
    ensures
        omega_worth(p, sq) == omega_worth(q, sq),
{
    let pc = p.board@[sq];
    let (r, f) = (sq / 8, sq % 8);
    lemma_passed_same_board(p, q, pc.color, r, f);
    lemma_knight_same_board(p, q, r, f, pc.color, 8);
    lemma_lines_same_board(p, q, sq, r, f, 0, 4);
    lemma_lines_same_board(p, q, sq, r, f, 4, 4);
    lemma_lines_same_board(p, q, sq, r, f, 0, 8);
}

/// Omega's first-pass score turns with the side to move.
pub proof fn lemma_omega_first_turns(p: &Position, q: &Position, n: int)
    requires
        p.board == q.board,
        p.side_to_move != q.side_to_move,
    ensures
        omega_first(p, n) == -omega_first(q, n),
    decreases n,
{
    if n > 0 {
        lemma_omega_first_turns(p, q, n - 1);
        lemma_worth_same_board(p, q, n - 1);
    }
}

/// The attack on a king's zone depends on the board alone.
pub proof fn lemma_zone_same_board(p: &Position, q: &Position, ci: int, k: int)
    requires
        p.board == q.board,
    ensures
        zone_attack(p, ci, k) == zone_attack(q, ci, k),
    decreases k,
{
    lemma_census_same_board(p, q);
    assert(squares_of(p, 1 - ci, 4, 64) == squares_of(q, 1 - ci, 4, 64));
    assert(squares_of(p, ci, 2, 64) == squares_of(q, ci, 2, 64));
    if k > 0 {
        lemma_zone_same_board(p, q, ci, k - 1);
    }
}

/// The pawn files of a side depend on the board alone.
pub proof fn lemma_files_same_board(p: &Position, q: &Position, ci: int, n: int)
    requires
        p.board == q.board,
    ensures
        files_of(p, ci, n) == files_of(q, ci, n),
    decreases n,
{
    if n > 0 {
        lemma_files_same_board(p, q, ci, n - 1);
    }
}

/// The rook and pawn-structure walks depend on the board alone.
pub proof fn lemma_rooks_and_structure_same_board(p: &Position, q: &Position, ci: int, k: int)
    requires
        p.board == q.board,
    ensures
        rook_walk(p, ci, k) == rook_walk(q, ci, k),
        structure_walk(p, ci, k) == structure_walk(q, ci, k),
    decreases k,
{
    lemma_census_same_board(p, q);
    lemma_files_same_board(p, q, ci, 64);
    lemma_files_same_board(p, q, 1 - ci, 64);
    assert(squares_of(p, ci, 1, 64) == squares_of(q, ci, 1, 64));
    assert(squares_of(p, ci, 0, 64) == squares_of(q, ci, 0, 64));
    if k > 0 {
        lemma_rooks_and_structure_same_board(p, q, ci, k - 1);
        let pf = pawn_at(p, ci, k - 1) % 8;
        lemma_same_file_same_board(p, q, ci, pf, pawn_count(p, ci));
    }
}

/// Counting the kept pawns on a file depends on the board alone.
pub proof fn lemma_same_file_same_board(p: &Position, q: &Position, ci: int, f: int, j: int)
    requires
        p.board == q.board,
    ensures
        same_file_count(p, ci, f, j) == same_file_count(q, ci, f, j),
    decreases j,
{
    lemma_census_same_board(p, q);
    assert(squares_of(p, ci, 0, 64) == squares_of(q, ci, 0, 64));
    if j > 0 {
        lemma_same_file_same_board(p, q, ci, f, j - 1);
    }
}

/// Omega's evaluation is the mover's: two positions with the same board and
/// opposite sides to move evaluate to opposite scores.
pub proof fn lemma_omega_turn_negates(p: &Position, q: &Position)
    requires
        p.board == q.board,
        p.side_to_move != q.side_to_move,
    ensures
        omega_score(p) == -omega_score(q),
{
    lemma_census_same_board(p, q);
    lemma_omega_first_turns(p, q, 64);
    assert(squares_of(p, 0, 0, 64) == squares_of(q, 0, 0, 64));
    assert(squares_of(p, 1, 0, 64) == squares_of(q, 1, 0, 64));
    assert(squares_of(p, 0, 1, 64) == squares_of(q, 0, 1, 64));
    assert(squares_of(p, 1, 1, 64) == squares_of(q, 1, 1, 64));
    assert(squares_of(p, 0, 3, 64) == squares_of(q, 0, 3, 64));
    assert(squares_of(p, 1, 3, 64) == squares_of(q, 1, 3, 64));
    assert(squares_of(p, 0, 4, 64) == squares_of(q, 0, 4, 64));
    assert(squares_of(p, 1, 4, 64) == squares_of(q, 1, 4, 64));
    lemma_pistons_same_board(p, q, 0, pawn_count(p, 0));
    lemma_pistons_same_board(p, q, 1, pawn_count(p, 1));
    lemma_king_terms_same_board(p, q, 0, pawn_count(p, 1));
    lemma_king_terms_same_board(p, q, 1, pawn_count(p, 0));
    lemma_king_terms_same_board(p, q, 0, pawn_count(p, 0));
    lemma_king_terms_same_board(p, q, 1, pawn_count(p, 1));
    lemma_zone_same_board(p, q, 0, piece_count(p, 1));
    lemma_zone_same_board(p, q, 1, piece_count(p, 0));
    lemma_rooks_and_structure_same_board(p, q, 0, slider_count(p, 0));
    lemma_rooks_and_structure_same_board(p, q, 1, slider_count(p, 1));
    lemma_rooks_and_structure_same_board(p, q, 0, pawn_count(p, 0));
    lemma_rooks_and_structure_same_board(p, q, 1, pawn_count(p, 1));
    if mover_sign(p, 0) == 1 {
        assert(mover_sign(p, 1) == -1 && mover_sign(q, 0) == -1 && mover_sign(q, 1) == 1);
    } else {
        assert(mover_sign(p, 1) == 1 && mover_sign(q, 0) == 1 && mover_sign(q, 1) == -1);
    }
}

} // verus!

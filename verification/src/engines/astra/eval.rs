//! Astra's handwritten evaluation: material, placement, latent lines to the
//! enemy king, king shelter and pawn structure, with the terms each profile
//! adds; and the push detector its move ordering uses.
use vstd::prelude::*;
use crate::rules::movegen::shaped;
use crate::rules::position::Position;
use crate::rules::push::steps;
use crate::rules::types::{
    Color, Move, PieceType, Square, SpecialMove, file_of, make_square, opponent, rank_of, spec_file_of,
    spec_opponent, spec_rank_of, spec_valid_rf, valid_rf,
};
use crate::rules::position::attacked;
use super::{MATE_BOUND, abs, placement, placement_bonus};

verus! {

/// What distinguishes the Astra profiles: the evaluation terms they add and
/// the pruning they give up. All of them are handwritten; none loads a network.
#[derive(Clone, Copy, Debug)]
pub struct Profile {
    pub name: &'static str,
    pub hypothesis: &'static str,
    pub pressure: bool,
    pub races: bool,
    pub tactical: bool,
    pub conservative: bool,
}

/// The number of Astra profiles.
pub const PROFILE_COUNT: usize = 7;

/// The profile with index `v`: the historical control first, then its
/// experiments.
pub fn profile(v: usize) -> (p: Profile)
    requires
        v < PROFILE_COUNT,
    ensures
        p.pressure == (v == 2 || v == 6),
        p.races == (v == 3 || v == 6),
        p.tactical == (v == 4 || v == 6),
        p.conservative == (v == 5),
{
    let base = Profile {
        name: "astra",
        hypothesis: "Historical neural-free Astra control",
        pressure: false,
        races: false,
        tactical: false,
        conservative: false,
    };
    if v == 0 {
        base
    } else if v == 1 {
        Profile {
            name: "sentinel",
            hypothesis: "Terminal witnesses protect mate/draw precedence and static stalemate cutoffs",
            ..base
        }
    } else if v == 2 {
        Profile {
            name: "bastion",
            hypothesis: "Sentinel plus obstruction-aware king lines and king-ring pressure",
            pressure: true,
            ..base
        }
    } else if v == 3 {
        Profile {
            name: "outrider",
            hypothesis: "Sentinel plus promotion races, king interception distance and rear push support",
            races: true,
            ..base
        }
    } else if v == 4 {
        Profile {
            name: "tactician",
            hypothesis: "Sentinel plus wider checking horizon and unreduced pushes",
            tactical: true,
            ..base
        }
    } else if v == 5 {
        Profile {
            name: "bedrock",
            hypothesis: "Sentinel without speculative null/static/late-move/delta pruning or LMR",
            conservative: true,
            ..base
        }
    } else {
        Profile {
            name: "meridian",
            hypothesis: "Sentinel plus pressure, races and tactical search",
            pressure: true,
            races: true,
            tactical: true,
            ..base
        }
    }
}

/// Astra's material values.
pub open spec fn spec_value(pt: PieceType) -> int {
    match pt {
        PieceType::Empty => 0,
        PieceType::Pawn => 100,
        PieceType::Knight => 310,
        PieceType::Bishop => 345,
        PieceType::Rook => 525,
        PieceType::Queen => 980,
        PieceType::King => 0,
    }
}

pub fn value(pt: PieceType) -> (v: i32)
    ensures
        v == spec_value(pt),
        0 <= v <= 980,
{
    match pt {
        PieceType::Empty => 0,
        PieceType::Pawn => 100,
        PieceType::Knight => 310,
        PieceType::Bishop => 345,
        PieceType::Rook => 525,
        PieceType::Queen => 980,
        PieceType::King => 0,
    }
}

/// Rust's integer division by a positive divisor, which rounds toward zero.
pub open spec fn toward_zero(a: int, b: int) -> int {
    if a >= 0 {
        a / b
    } else {
        -((-a) / b)
    }
}

pub(crate) fn quot(a: i32, b: i32) -> (q: i32)
    requires
        b > 0,
        a > i32::MIN,
    ensures
        q == toward_zero(a as int, b as int),
        abs(q as int) <= abs(a as int),
{
    if a >= 0 {
        a / b
    } else {
        -((-a) / b)
    }
}

fn signum(x: i32) -> (s: i32)
    ensures
        s == (if x > 0 {
            1int
        } else if x < 0 {
            -1int
        } else {
            0int
        }),
{
    if x > 0 {
        1
    } else if x < 0 {
        -1
    } else {
        0
    }
}

fn abs_of(x: i32) -> (y: i32)
    requires
        x > i32::MIN,
    ensures
        y == abs(x as int),
{
    if x < 0 {
        -x
    } else {
        x
    }
}

fn clamp(x: i32, lo: i32, hi: i32) -> (c: i32)
    requires
        lo <= hi,
    ensures
        c == (if x < lo {
            lo as int
        } else if x > hi {
            hi as int
        } else {
            x as int
        }),
{
    if x < lo {
        lo
    } else if x > hi {
        hi
    } else {
        x
    }
}

/// On the board, a placement bonus stays within a hundred either way.
pub(crate) proof fn lemma_placement_bounds(piece: PieceType, color: Color, sq: Square, endgame: bool)
    requires
        sq < 64,
    ensures
        -100 <= placement_bonus(piece, color, sq, endgame) <= 100,
{
    let rank = if color == Color::White {
        sq as int / 8
    } else {
        7 - sq as int / 8
    };
    let advance = if rank > 3 {
        rank - 3
    } else {
        0
    };
    assert(advance * advance <= 16) by (nonlinear_arith)
        requires
            0 <= advance <= 4,
    ;
}

/// The neighbour (`dr`, `df`) of the king of `color`: (attacked by the other
/// side, else free of the king's side), each 1 or 0; nothing off the board or
/// for the king's own square.
pub open spec fn ring_cell(pos: &Position, color: Color, dr: int, df: int) -> (int, int) {
    let king = pos.king_sq[color.spec_index()];
    let r = king / 8 + dr;
    let f = king % 8 + df;
    if (dr == 0 && df == 0) || !spec_valid_rf(r, f) {
        (0, 0)
    } else if attacked(pos.board@, (r * 8 + f) as u8, spec_opponent(color)) {
        (1, 0)
    } else if !pos.board@[r * 8 + f].spec_is_color(color) {
        (0, 1)
    } else {
        (0, 0)
    }
}

/// The first `k` of the nine cells around the king of `color`, rank-major
/// from the lower left, summed: (attacked, free).
pub open spec fn ring_sum(pos: &Position, color: Color, k: int) -> (int, int)
    decreases k,
{
    if k <= 0 {
        (0, 0)
    } else {
        let prev = ring_sum(pos, color, k - 1);
        let cell = ring_cell(pos, color, (k - 1) / 3 - 1, (k - 1) % 3 - 1);
        (prev.0 + cell.0, prev.1 + cell.1)
    }
}

/// The king-ring term of `color`: eight per free neighbour, less six times
/// the square of the attacked ones.
pub open spec fn ring_score(pos: &Position, color: Color) -> int {
    let t = ring_sum(pos, color, 9);
    t.1 * 8 - t.0 * t.0 * 6
}

/// The king ring: eight points for each neighbouring square that is neither
/// attacked nor held by the king's side, less six times the square of the
/// attacked ones, as the board stands.
fn king_pressure(pos: &Position, color: Color) -> (v: i32)
    ensures
        -600 <= v <= 80,
        v == ring_score(pos, color),
{
    let king = pos.king_sq[color.index()];
    let mut attacked: i32 = 0;
    let mut space: i32 = 0;
    let mut dr: i32 = -1;
    while dr <= 1
        invariant
            -1 <= dr <= 2,
            0 <= attacked,
            0 <= space,
            attacked + space <= 3 * (dr + 1),
            king == pos.king_sq[color.spec_index()],
            (attacked as int, space as int) == ring_sum(pos, color, 3 * (dr + 1)),
        decreases 2 - dr,
    {
        let mut df: i32 = -1;
        while df <= 1
            invariant
                -1 <= dr <= 1,
                -1 <= df <= 2,
                0 <= attacked,
                0 <= space,
                attacked + space <= 3 * (dr + 1) + (df + 1),
                king == pos.king_sq[color.spec_index()],
                (attacked as int, space as int) == ring_sum(pos, color, 3 * (dr + 1) + df + 1),
            decreases 2 - df,
        {
            let ghost k = 3 * (dr + 1) + df + 1;
            assert((k + 1 - 1) / 3 - 1 == dr && (k + 1 - 1) % 3 - 1 == df);
            if !(dr == 0 && df == 0) {
                let r = rank_of(king) + dr;
                let f = file_of(king) + df;
                if valid_rf(r, f) {
                    let sq = make_square(r, f);
                    if pos.is_attacked_by(sq, opponent(color)) {
                        attacked += 1;
                    } else if !pos.board[sq as usize].is_color(color) {
                        space += 1;
                    }
                }
            }
            df += 1;
        }
        dr += 1;
    }
    assert(attacked * attacked <= 81) by (nonlinear_arith)
        requires
            0 <= attacked <= 9,
    ;
    space * 8 - attacked * attacked * 6
}

/// Walking from `from` towards the king on `king` in direction (`dr`, `df`)
/// from step `k` on, with `friends` pieces of `color` passed: an enemy piece
/// first ends it at nothing, the king or the board's edge at 28 shared by one
/// more than the friends passed.
pub open spec fn pressure_walk(
    pos: &Position,
    from: int,
    king: int,
    dr: int,
    df: int,
    color: Color,
    k: int,
    friends: int,
) -> int
    decreases 8 - k,
{
    let r = from / 8 + steps(k, dr);
    let f = from % 8 + steps(k, df);
    if k < 1 || k >= 8 || !spec_valid_rf(r, f) || r * 8 + f == king {
        28int / (1 + friends)
    } else if pos.board@[r * 8 + f].spec_is_empty() {
        pressure_walk(pos, from, king, dr, df, color, k + 1, friends)
    } else if pos.board@[r * 8 + f].color != color {
        0
    } else {
        pressure_walk(pos, from, king, dr, df, color, k + 1, friends + 1)
    }
}

/// The sign of `x`.
pub open spec fn sign_of(x: int) -> int {
    if x > 0 {
        1
    } else if x < 0 {
        -1
    } else {
        0
    }
}

/// The pressure of the line piece on `from` towards the king on `king`.
pub open spec fn line_pressure(pos: &Position, from: int, king: int) -> int {
    let dr = sign_of(king / 8 - from / 8);
    let df = sign_of(king % 8 - from % 8);
    if dr == 0 && df == 0 {
        28
    } else {
        pressure_walk(pos, from, king, dr, df, pos.board@[from].color, 1, 0)
    }
}

/// The pressure of a line piece on `from` aligned with the king on `king`:
/// none when an enemy piece stands in between, otherwise 28 shared by one
/// more than the friendly pieces in between.
fn clear_line_pressure(pos: &Position, from: Square, king: Square) -> (v: i32)
    requires
        from < 64,
    ensures
        0 <= v <= 28,
        v == line_pressure(pos, from as int, king as int),
{
    let dr = signum(rank_of(king) - rank_of(from));
    let df = signum(file_of(king) - file_of(from));
    if dr == 0 && df == 0 {
        // The king stands on `from` itself: nothing lies in between.
        return 28;
    }
    let color = pos.board[from as usize].color;
    let r0 = rank_of(from);
    let f0 = file_of(from);
    let mut r = r0 + dr;
    let mut f = f0 + df;
    let mut k: i32 = 1;
    let mut friends: i32 = 0;
    loop
        invariant
            -1 <= dr <= 1,
            -1 <= df <= 1,
            !(dr == 0 && df == 0),
            0 <= r0 < 8,
            0 <= f0 < 8,
            1 <= k <= 8,
            r == r0 + steps(k as int, dr as int),
            f == f0 + steps(k as int, df as int),
            0 <= friends < k,
            color == pos.board@[from as int].color,
            r0 == from / 8,
            f0 == from % 8,
            from < 64,
            dr == sign_of(king / 8 - from / 8),
            df == sign_of(king % 8 - from % 8),
            pressure_walk(pos, from as int, king as int, dr as int, df as int, color, k as int, friends as int)
                == line_pressure(pos, from as int, king as int),
        ensures
            line_pressure(pos, from as int, king as int) == 28int / (1 + friends),
            0 <= friends < 8,
        decreases 8 - k,
    {
        if !valid_rf(r, f) {
            break;
        }
        assert(k < 8) by {
            if k == 8 {
                assert(steps(8, dr as int) == 8 || steps(8, dr as int) == -8 || steps(8, df as int) == 8 || steps(
                    8,
                    df as int,
                ) == -8);
            }
        }
        let sq = make_square(r, f);
        if sq == king {
            break;
        }
        let p = pos.board[sq as usize];
        assert(p == pos.board@[r * 8 + f]);
        if !p.is_empty() {
            if p.color != color {
                return 0;
            }
            friends += 1;
        }
        r += dr;
        f += df;
        k += 1;
    }
    28 / (1 + friends)
}

/// The promotion race of a pawn of `color` on `sq`: its lead over the enemy
/// king's distance to the promotion square, held within three either way,
/// times its rank, three and 24 less the phase, over 24; then, with the
/// square ahead on the board, twice its rank squared for a free square
/// ahead and ten per rank more with a friendly piece behind, or twelve per
/// rank off for an enemy piece ahead.
pub open spec fn race_value(pos: &Position, color: Color, sq: int, phase: int) -> int {
    let dr: int = if color == Color::White {
        1
    } else {
        -1
    };
    let rank = if color == Color::White {
        sq / 8
    } else {
        7 - sq / 8
    };
    let f = sq % 8;
    let promotion = (if color == Color::White {
        7int
    } else {
        0
    }) * 8 + f;
    let king = pos.king_sq[spec_opponent(color).spec_index()] as int;
    let ranks = abs(king / 8 - promotion / 8);
    let files = abs(king % 8 - promotion % 8);
    let interception = if ranks > files {
        ranks
    } else {
        files
    };
    let gap = interception - (7 - rank);
    let lead = if gap < -3 {
        -3
    } else if gap > 3 {
        3
    } else {
        gap
    };
    let base = toward_zero(lead * rank * 3 * (24 - phase), 24);
    let ahead = sq / 8 + dr;
    if !spec_valid_rf(ahead, f) {
        base
    } else {
        let front = pos.board@[ahead * 8 + f];
        let behind = sq / 8 - dr;
        if front.spec_is_empty() {
            base + rank * rank * 2 + if spec_valid_rf(behind, f) && pos.board@[behind * 8 + f].spec_is_color(color) {
                rank * 10
            } else {
                0
            }
        } else if front.color != color {
            base - rank * 12
        } else {
            base
        }
    }
}

/// The race of a pawn of `color` on `sq` to promotion: its lead over the enemy
/// king's distance to the promotion square, scaled by rank and game phase,
/// plus a free square ahead (and support from behind), or less a blocker.
fn promotion_race(pos: &Position, color: Color, sq: Square, phase: i32) -> (v: i32)
    requires
        sq < 64,
        0 <= phase <= 24,
    ensures
        -200 <= v <= 250,
        v == race_value(pos, color, sq as int, phase as int),
{
    let dr: i32 = if color == Color::White {
        1
    } else {
        -1
    };
    let rank = if color == Color::White {
        rank_of(sq)
    } else {
        7 - rank_of(sq)
    };
    let promotion = make_square(
        if color == Color::White {
            7
        } else {
            0
        },
        file_of(sq),
    );
    let king = pos.king_sq[opponent(color).index()];
    let ranks = abs_of(rank_of(king) - rank_of(promotion));
    let files = abs_of(file_of(king) - file_of(promotion));
    let interception = if ranks > files {
        ranks
    } else {
        files
    };
    let lead = clamp(interception - (7 - rank), -3, 3);
    assert(-21 <= lead * rank <= 21 && -1512 <= lead * rank * 3 * (24 - phase) <= 1512) by (nonlinear_arith)
        requires
            -3 <= lead <= 3,
            0 <= rank <= 7,
            0 <= 24 - phase <= 24,
    ;
    let mut value = quot(lead * rank * 3 * (24 - phase), 24);
    let ahead = rank_of(sq) + dr;
    if valid_rf(ahead, file_of(sq)) {
        let front = pos.board[make_square(ahead, file_of(sq)) as usize];
        if front.is_empty() {
            assert(rank * rank <= 49) by (nonlinear_arith)
                requires
                    0 <= rank <= 7,
            ;
            value += rank * rank * 2;
            let behind = rank_of(sq) - dr;
            if valid_rf(behind, file_of(sq)) && pos.board[make_square(behind, file_of(sq)) as usize].is_color(color) {
                value += rank * 10;
            }
        } else if front.color != color {
            value -= rank * 12;
        }
    }
    value
}

/// The squares among the first `n` that must hold no enemy pawn for a pawn of
/// color index `c` on `sq` to be passed, as a mask: its own and the
/// neighbouring files, strictly ahead.
pub open spec fn passed_squares(c: int, sq: int, n: int) -> u64
    decreases n,
{
    if n <= 0 {
        0
    } else {
        let t = n - 1;
        let rest = passed_squares(c, sq, n - 1);
        let df = sq % 8 - t % 8;
        let ahead = if c == 0 {
            t / 8 > sq / 8
        } else {
            t / 8 < sq / 8
        };
        if -1 <= df <= 1 && ahead {
            rest | (1u64 << (t as u64))
        } else {
            rest
        }
    }
}

/// The squares that must hold no enemy pawn for a pawn of color index `c` on
/// `sq` to be passed: its own and the neighbouring files, strictly ahead.
pub(crate) fn passed_mask(c: usize, sq: usize) -> (mask: u64)
    requires
        c < 2,
        sq < 64,
    ensures
        mask == passed_squares(c as int, sq as int, 64),
{
    let mut mask: u64 = 0;
    let mut target: usize = 0;
    while target < 64
        invariant
            target <= 64,
            sq < 64,
            c < 2,
            mask == passed_squares(c as int, sq as int, target as int),
        decreases 64 - target,
    {
        let df = (sq % 8) as i32 - (target % 8) as i32;
        let ahead = if c == 0 {
            target / 8 > sq / 8
        } else {
            target / 8 < sq / 8
        };
        if df >= -1 && df <= 1 && ahead {
            mask = mask | (1u64 << (target as u64));
        }
        target += 1;
    }
    mask
}

/// What the piece on `sq` earns its side in the board pass: material,
/// placement (kings aside), and for a line piece aligned with the enemy king
/// its line pressure where the profile has it, else eighteen for the side to
/// move and eight for the other.
pub open spec fn survey_term(pos: &Position, profile: Profile, sq: int) -> int {
    let piece = pos.board@[sq];
    let pt = piece.piece_type;
    let ci = piece.color.spec_index();
    let bonus = if pt == PieceType::King {
        0
    } else {
        placement_bonus(pt, piece.color, sq as u8, false) as int
    };
    let king = pos.king_sq[1 - ci] as int;
    let dr = abs(sq / 8 - king / 8);
    let df = abs(sq % 8 - king % 8);
    let aligned = ((pt == PieceType::Rook || pt == PieceType::Queen) && (dr == 0 || df == 0)) || ((pt
        == PieceType::Bishop || pt == PieceType::Queen) && dr == df);
    let pressure = if !aligned {
        0
    } else if profile.pressure {
        line_pressure(pos, sq, king)
    } else if piece.color == pos.side_to_move {
        18
    } else {
        8
    };
    spec_value(pt) + bonus + pressure
}

/// The board-pass score of color index `ci` over the first `n` squares.
pub open spec fn survey_score(pos: &Position, profile: Profile, ci: int, n: int) -> int
    decreases n,
{
    if n <= 0 {
        0
    } else {
        let p = pos.board@[n - 1];
        survey_score(pos, profile, ci, n - 1) + if !p.spec_is_empty() && p.color.spec_index() == ci {
            survey_term(pos, profile, n - 1)
        } else {
            0
        }
    }
}

/// The game phase of the first `n` squares: one per knight or bishop, two
/// per rook, four per queen.
pub open spec fn phase_sum(pos: &Position, n: int) -> int
    decreases n,
{
    if n <= 0 {
        0
    } else {
        let pt = pos.board@[n - 1].piece_type;
        phase_sum(pos, n - 1) + if pt == PieceType::Knight || pt == PieceType::Bishop {
            1int
        } else if pt == PieceType::Rook {
            2
        } else if pt == PieceType::Queen {
            4
        } else {
            0
        }
    }
}

/// The pawns of color index `ci` among the first `n` squares, as a mask.
pub open spec fn pawn_bits(pos: &Position, ci: int, n: int) -> u64
    decreases n,
{
    if n <= 0 {
        0
    } else {
        let p = pos.board@[n - 1];
        let rest = pawn_bits(pos, ci, n - 1);
        if !p.spec_is_empty() && p.color.spec_index() == ci && p.piece_type == PieceType::Pawn {
            rest | (1u64 << ((n - 1) as u64))
        } else {
            rest
        }
    }
}

/// How many pawns of color index `ci` stand on file `f` among the first `n`
/// squares.
pub open spec fn file_pawns(pos: &Position, ci: int, f: int, n: int) -> int
    decreases n,
{
    if n <= 0 {
        0
    } else {
        let p = pos.board@[n - 1];
        file_pawns(pos, ci, f, n - 1) + if !p.spec_is_empty() && p.color.spec_index() == ci && p.piece_type
            == PieceType::Pawn && (n - 1) % 8 == f {
            1int
        } else {
            0
        }
    }
}

/// The bishops of color index `ci` among the first `n` squares.
pub open spec fn bishop_total(pos: &Position, ci: int, n: int) -> int
    decreases n,
{
    if n <= 0 {
        0
    } else {
        let p = pos.board@[n - 1];
        bishop_total(pos, ci, n - 1) + if !p.spec_is_empty() && p.color.spec_index() == ci && p.piece_type
            == PieceType::Bishop {
            1int
        } else {
            0
        }
    }
}

/// What the board pass collects: each side's running score, the game phase,
/// the pawn sets and per-file pawn counts, and the bishop counts.
struct Survey {
    score: [i32; 2],
    phase: i32,
    pawns: [u64; 2],
    pawn_files: [u32; 16],
    bishops: [i32; 2],
}

/// Material, placement (kings aside) and latent lines to the enemy king,
/// piece by piece: even through friendly pieces, a line piece aligned with the
/// enemy king earns pressure.
fn survey(pos: &Position, profile: Profile) -> (s: Survey)
    ensures
        -83200 <= s.score[0] <= 83200,
        -83200 <= s.score[1] <= 83200,
        0 <= s.phase <= 256,
        forall|k: int| 0 <= k < 16 ==> s.pawn_files[k] <= 64,
        0 <= s.bishops[0] <= 64,
        0 <= s.bishops[1] <= 64,
        forall|ci: int| 0 <= ci < 2 ==> s.score[ci] == survey_score(pos, profile, ci, 64),
        s.phase == phase_sum(pos, 64),
        forall|ci: int| 0 <= ci < 2 ==> s.pawns[ci] == pawn_bits(pos, ci, 64),
        forall|k: int| 0 <= k < 16 ==> s.pawn_files[k] == file_pawns(pos, k / 8, k % 8, 64),
        forall|ci: int| 0 <= ci < 2 ==> s.bishops[ci] == bishop_total(pos, ci, 64),
{
    let mut score: [i32; 2] = [0, 0];
    let mut phase: i32 = 0;
    let mut pawns: [u64; 2] = [0, 0];
    let mut pawn_files: [u32; 16] = [0; 16];
    let mut bishops: [i32; 2] = [0, 0];
    let mut sq: usize = 0;
    while sq < 64
        invariant
            sq <= 64,
            -1300 * sq <= score[0] <= 1300 * sq,
            -1300 * sq <= score[1] <= 1300 * sq,
            0 <= phase <= 4 * sq,
            forall|k: int| 0 <= k < 16 ==> pawn_files[k] <= sq,
            0 <= bishops[0] <= sq,
            0 <= bishops[1] <= sq,
            forall|c: int| 0 <= c < 2 ==> score[c] == survey_score(pos, profile, c, sq as int),
            phase == phase_sum(pos, sq as int),
            forall|c: int| 0 <= c < 2 ==> pawns[c] == pawn_bits(pos, c, sq as int),
            forall|k: int| 0 <= k < 16 ==> pawn_files[k] == file_pawns(pos, k / 8, k % 8, sq as int),
            forall|c: int| 0 <= c < 2 ==> bishops[c] == bishop_total(pos, c, sq as int),
        decreases 64 - sq,
    {
        let ghost (score0, pawns0, files0, bishops0) = (score, pawns, pawn_files, bishops);
        let piece = pos.board[sq];
        if !piece.is_empty() {
            let ci = piece.color.index();
            let pt = piece.piece_type;
            let bonus = if pt == PieceType::King {
                0
            } else {
                proof {
                    lemma_placement_bounds(pt, piece.color, sq as u8, false);
                }
                placement(pt, piece.color, sq as u8, false)
            };
            score[ci] = score[ci] + value(pt) + bonus;
            phase = phase + match pt {
                PieceType::Knight | PieceType::Bishop => 1,
                PieceType::Rook => 2,
                PieceType::Queen => 4,
                _ => 0,
            };
            if pt == PieceType::Pawn {
                pawns[ci] = pawns[ci] | (1u64 << (sq as u64));
                pawn_files[ci * 8 + sq % 8] = pawn_files[ci * 8 + sq % 8] + 1;
            }
            if pt == PieceType::Bishop {
                bishops[ci] = bishops[ci] + 1;
            }
            let king = pos.king_sq[1 - ci];
            let dr = abs_of(rank_of(sq as u8) - rank_of(king));
            let df = abs_of(file_of(sq as u8) - file_of(king));
            let aligned = ((pt == PieceType::Rook || pt == PieceType::Queen) && (dr == 0 || df == 0)) || ((pt
                == PieceType::Bishop || pt == PieceType::Queen) && dr == df);
            if aligned {
                let pressure = if profile.pressure {
                    clear_line_pressure(pos, sq as u8, king)
                } else if piece.color == pos.side_to_move {
                    18
                } else {
                    8
                };
                score[ci] = score[ci] + pressure;
            }
            assert(score[ci as int] == score0[ci as int] + survey_term(pos, profile, sq as int));
        }
        proof {
            assert forall|c: int| 0 <= c < 2 implies score[c] == survey_score(pos, profile, c, sq + 1) by {
                assert(score0[c] == survey_score(pos, profile, c, sq as int));
            }
            assert forall|c: int| 0 <= c < 2 implies pawns[c] == pawn_bits(pos, c, sq + 1) by {
                assert(pawns0[c] == pawn_bits(pos, c, sq as int));
            }
            assert forall|k: int| 0 <= k < 16 implies pawn_files[k] == file_pawns(pos, k / 8, k % 8, sq + 1) by {
                assert(files0[k] == file_pawns(pos, k / 8, k % 8, sq as int));
            }
            assert forall|c: int| 0 <= c < 2 implies bishops[c] == bishop_total(pos, c, sq + 1) by {
                assert(bishops0[c] == bishop_total(pos, c, sq as int));
            }
        }
        sq += 1;
    }
    Survey { score, phase, pawns, pawn_files, bishops }
}

/// The shelter of the king of color index `ci` on `king` from the pawns in
/// `own` among the first `n` squares: fourteen for each one or two ranks in
/// front of it on its file or a neighbouring one.
pub open spec fn shelter_sum(ci: int, king: int, own: u64, n: int) -> int
    decreases n,
{
    if n <= 0 {
        0
    } else {
        let sq = n - 1;
        let forward = if ci == 0 {
            sq / 8 - king / 8
        } else {
            king / 8 - sq / 8
        };
        shelter_sum(ci, king, own, n - 1) + if own & (1u64 << (sq as u64)) != 0 && abs(sq % 8 - king % 8) <= 1 && 1
            <= forward <= 2 {
            14int
        } else {
            0
        }
    }
}

/// The king terms of color index `ci` at `phase`: the king's placement
/// blended from middlegame to endgame, and its shelter, twenty-four off for
/// an open king file, weighted by phase; nothing without a king square.
pub open spec fn king_value(pos: &Position, ci: int, phase: int) -> int {
    let color = if ci == 0 {
        Color::White
    } else {
        Color::Black
    };
    let king = pos.king_sq[ci] as int;
    if king >= 64 {
        0
    } else {
        let mid = placement_bonus(PieceType::King, color, king as u8, false) as int;
        let end = placement_bonus(PieceType::King, color, king as u8, true) as int;
        let blended = toward_zero(mid * phase + end * (24 - phase), 24);
        let shelter = shelter_sum(ci, king, pawn_bits(pos, ci, 64), 64) - (if file_pawns(pos, ci, king % 8, 64) == 0 {
            24int
        } else {
            0
        });
        blended + toward_zero(shelter * phase, 24)
    }
}

/// The passed-pawn bonus by rank, counted from the pawn's side.
pub open spec fn pass_bonus(rank: int) -> int {
    seq![0int, 0, 5, 12, 22, 38, 65, 0][rank]
}

/// The pawn terms of color index `ci` over the first `n` squares: for each
/// of its pawns the promotion race where the profile has it, nine off when
/// doubled, eight off when isolated, and the passed bonus by rank.
pub open spec fn pawn_value(pos: &Position, ci: int, profile: Profile, phase: int, n: int) -> int
    decreases n,
{
    if n <= 0 {
        0
    } else {
        let sq = n - 1;
        let prev = pawn_value(pos, ci, profile, phase, n - 1);
        if pawn_bits(pos, ci, 64) & (1u64 << (sq as u64)) != 0 {
            let file = sq % 8;
            let color = if ci == 0 {
                Color::White
            } else {
                Color::Black
            };
            let rank = if ci == 0 {
                sq / 8
            } else {
                7 - sq / 8
            };
            prev + (if profile.races {
                race_value(pos, color, sq, phase)
            } else {
                0
            }) + (if file_pawns(pos, ci, file, 64) > 1 {
                -9int
            } else {
                0
            }) + (if (file == 0 || file_pawns(pos, ci, file - 1, 64) == 0) && (file == 7 || file_pawns(
                pos,
                ci,
                file + 1,
                64,
            ) == 0) {
                -8int
            } else {
                0
            }) + (if pawn_bits(pos, 1 - ci, 64) & passed_squares(ci, sq, 64) == 0 {
                pass_bonus(rank)
            } else {
                0
            })
        } else {
            prev
        }
    }
}

/// The score of color index `ci`: the board pass, its king terms, twenty-five
/// for the bishop pair, the king ring where the profile has it, and its pawn
/// terms.
pub open spec fn side_value(pos: &Position, profile: Profile, ci: int) -> int {
    let phase = if phase_sum(pos, 64) < 24 {
        phase_sum(pos, 64)
    } else {
        24
    };
    let color = if ci == 0 {
        Color::White
    } else {
        Color::Black
    };
    survey_score(pos, profile, ci, 64) + king_value(pos, ci, phase) + (if bishop_total(pos, ci, 64) >= 2 {
        25int
    } else {
        0
    }) + (if profile.pressure {
        ring_score(pos, color)
    } else {
        0
    }) + pawn_value(pos, ci, profile, phase, 64)
}

/// Astra's evaluation for the side to move: its score less the other's, ten
/// for the move, within the mate bounds.
pub open spec fn astra_score(pos: &Position, profile: Profile) -> int {
    let us = pos.side_to_move.spec_index();
    let raw = side_value(pos, profile, us) - side_value(pos, profile, 1 - us) + 10;
    if raw < -(MATE_BOUND - 1) {
        -(MATE_BOUND - 1)
    } else if raw > MATE_BOUND - 1 {
        MATE_BOUND - 1
    } else {
        raw
    }
}

/// The king's placement, blended from middlegame to endgame by phase, and its
/// pawn shelter: pawns one or two ranks in front on the king's and the
/// neighbouring files, less an open king file, weighted by phase.
fn king_terms(pos: &Position, ci: usize, phase: i32, own_pawns: u64, pawn_files: [u32; 16]) -> (v: i32)
    requires
        ci < 2,
        0 <= phase <= 24,
        own_pawns == pawn_bits(pos, ci as int, 64),
        forall|k: int| 0 <= k < 16 ==> pawn_files[k] == file_pawns(pos, k / 8, k % 8, 64),
    ensures
        -200 <= v <= 1100,
        v == king_value(pos, ci as int, phase as int),
{
    let color = if ci == 0 {
        Color::White
    } else {
        Color::Black
    };
    let king = pos.king_sq[ci];
    if king >= 64 {
        return 0;
    }
    let mid = placement(PieceType::King, color, king, false);
    let end = placement(PieceType::King, color, king, true);
    proof {
        lemma_placement_bounds(PieceType::King, color, king, false);
        lemma_placement_bounds(PieceType::King, color, king, true);
    }
    assert(-2400 <= mid * phase <= 2400 && -2400 <= end * (24 - phase) <= 2400 && -2400 <= mid * phase + end * (24
        - phase) <= 2400) by (nonlinear_arith)
        requires
            -100 <= mid <= 100,
            -100 <= end <= 100,
            0 <= phase <= 24,
    ;
    let blended = quot(mid * phase + end * (24 - phase), 24);
    let mut shelter: i32 = 0;
    let mut sq: u8 = 0;
    while sq < 64
        invariant
            sq <= 64,
            king < 64,
            0 <= shelter <= 14 * sq,
            shelter == shelter_sum(ci as int, king as int, own_pawns, sq as int),
        decreases 64 - sq,
    {
        if (own_pawns & (1u64 << (sq as u64))) != 0 {
            let forward = if ci == 0 {
                rank_of(sq) - rank_of(king)
            } else {
                rank_of(king) - rank_of(sq)
            };
            if abs_of(file_of(sq) - file_of(king)) <= 1 && 1 <= forward && forward <= 2 {
                shelter += 14;
            }
        }
        sq += 1;
    }
    assert(pawn_files[ci * 8 + king % 8] == file_pawns(pos, ci as int, (king % 8) as int, 64));
    if pawn_files[ci * 8 + file_of(king) as usize] == 0 {
        shelter -= 24;
    }
    assert(-576 <= shelter * phase <= 21504) by (nonlinear_arith)
        requires
            -24 <= shelter <= 896,
            0 <= phase <= 24,
    ;
    blended + quot(shelter * phase, 24)
}

/// The passed-pawn bonus by rank counted from the pawn's side.
fn passed_bonus(rank: usize) -> (v: i32)
    requires
        rank < 8,
    ensures
        0 <= v <= 65,
        v == seq![0int, 0, 5, 12, 22, 38, 65, 0][rank as int],
{
    if rank == 2 {
        5
    } else if rank == 3 {
        12
    } else if rank == 4 {
        22
    } else if rank == 5 {
        38
    } else if rank == 6 {
        65
    } else {
        0
    }
}

/// The pawn terms of the side with color index `ci`, pawn by pawn in square
/// order: the promotion race where the profile has it, doubled and isolated
/// pawns, and passed pawns by rank.
fn pawn_terms(pos: &Position, ci: usize, profile: Profile, phase: i32, pawns: [u64; 2], pawn_files: [u32; 16]) -> (v: i32)
    requires
        ci < 2,
        0 <= phase <= 24,
        forall|c: int| 0 <= c < 2 ==> pawns[c] == pawn_bits(pos, c, 64),
        forall|k: int| 0 <= k < 16 ==> pawn_files[k] == file_pawns(pos, k / 8, k % 8, 64),
    ensures
        -21000 <= v <= 21000,
        v == pawn_value(pos, ci as int, profile, phase as int, 64),
{
    let color = if ci == 0 {
        Color::White
    } else {
        Color::Black
    };
    let mut total: i32 = 0;
    let mut sq: usize = 0;
    while sq < 64
        invariant
            sq <= 64,
            ci < 2,
            0 <= phase <= 24,
            -217 * sq <= total <= 315 * sq,
            forall|c: int| 0 <= c < 2 ==> pawns[c] == pawn_bits(pos, c, 64),
            forall|k: int| 0 <= k < 16 ==> pawn_files[k] == file_pawns(pos, k / 8, k % 8, 64),
            color == (if ci == 0 {
                Color::White
            } else {
                Color::Black
            }),
            total == pawn_value(pos, ci as int, profile, phase as int, sq as int),
        decreases 64 - sq,
    {
        assert(pawns[ci as int] == pawn_bits(pos, ci as int, 64));
        assert(pawns[1 - ci] == pawn_bits(pos, 1 - ci, 64));
        if (pawns[ci] & (1u64 << (sq as u64))) != 0 {
            let file = sq % 8;
            assert(pawn_files[(ci * 8 + file) as int] == file_pawns(pos, ci as int, file as int, 64));
            assert(file > 0 ==> pawn_files[(ci * 8 + file - 1) as int] == file_pawns(pos, ci as int, file - 1, 64));
            assert(file < 7 ==> pawn_files[(ci * 8 + file + 1) as int] == file_pawns(pos, ci as int, file + 1, 64));
            if profile.races {
                total = total + promotion_race(pos, color, sq as u8, phase);
            }
            if pawn_files[ci * 8 + file] > 1 {
                total = total - 9;
            }
            if (file == 0 || pawn_files[ci * 8 + file - 1] == 0) && (file == 7 || pawn_files[ci * 8 + file + 1] == 0) {
                total = total - 8;
            }
            if (pawns[1 - ci] & passed_mask(ci, sq)) == 0 {
                let rank = if ci == 0 {
                    sq / 8
                } else {
                    7 - sq / 8
                };
                total = total + passed_bonus(rank);
            }
        }
        sq += 1;
    }
    total
}

/// Astra's static evaluation from the side to move's point of view: each
/// side's material, placement, line pressure, king safety and pawn terms, ten
/// points for the move, held inside the mate bounds.
pub fn evaluate(pos: &Position, profile: Profile) -> (v: i32)
    ensures
        -(MATE_BOUND - 1) <= v <= MATE_BOUND - 1,
        v == astra_score(pos, profile),
{
    let s = survey(pos, profile);
    let mut score = s.score;
    let phase = if s.phase < 24 {
        s.phase
    } else {
        24
    };
    let mut ci: usize = 0;
    while ci < 2
        invariant
            ci <= 2,
            0 <= phase <= 24,
            forall|c: int| 0 <= c < ci ==> -110000 <= #[trigger] score[c] <= 110000,
            forall|c: int| ci <= c < 2 ==> #[trigger] score[c] == s.score[c],
            -83200 <= s.score[0] <= 83200,
            -83200 <= s.score[1] <= 83200,
            0 <= s.bishops[0] <= 64,
            0 <= s.bishops[1] <= 64,
            phase == (if phase_sum(pos, 64) < 24 {
                phase_sum(pos, 64)
            } else {
                24
            }),
            forall|c: int| 0 <= c < 2 ==> s.score[c] == survey_score(pos, profile, c, 64),
            forall|c: int| 0 <= c < 2 ==> s.pawns[c] == pawn_bits(pos, c, 64),
            forall|k: int| 0 <= k < 16 ==> s.pawn_files[k] == file_pawns(pos, k / 8, k % 8, 64),
            forall|c: int| 0 <= c < 2 ==> s.bishops[c] == bishop_total(pos, c, 64),
            forall|c: int| 0 <= c < ci ==> #[trigger] score[c] == side_value(pos, profile, c),
        decreases 2 - ci,
    {
        let color = if ci == 0 {
            Color::White
        } else {
            Color::Black
        };
        let mut side = score[ci];
        side = side + king_terms(pos, ci, phase, s.pawns[ci], s.pawn_files);
        if s.bishops[ci] >= 2 {
            side = side + 25;
        }
        if profile.pressure {
            side = side + king_pressure(pos, color);
        }
        side = side + pawn_terms(pos, ci, profile, phase, s.pawns, s.pawn_files);
        assert(side == side_value(pos, profile, ci as int));
        score[ci] = side;
        ci += 1;
    }
    let us = pos.side_to_move.index();
    clamp(score[us] - score[1 - us] + 10, -MATE_BOUND + 1, MATE_BOUND - 1)
}

/// Whether the square at rank `r`, file `f` holds a piece of `color`.
fn holds(pos: &Position, r: i32, f: i32, color: Color) -> (b: bool)
    requires
        spec_valid_rf(r as int, f as int),
    ensures
        b == pos.board@[r * 8 + f].spec_is_color(color),
{
    pos.board[make_square(r, f) as usize].is_color(color)
}

/// Whether the move meets a piece of its own side anywhere along its path,
/// destination included, even when the destination is empty: a knight along
/// the two legs its path kind chooses, any other piece along its line.
/// Castling pushes nothing. An ordering heuristic, not a rules test.
pub fn is_push(pos: &Position, mv: Move) -> (b: bool)
    requires
        shaped(pos.board@, mv),
{
    let piece = pos.board[mv.from as usize];
    let r0 = rank_of(mv.from);
    let f0 = file_of(mv.from);
    let dr = rank_of(mv.to) - r0;
    let df = file_of(mv.to) - f0;
    let c = piece.color;
    if piece.piece_type == PieceType::Knight {
        // The long leg covers two squares, the short one one.
        let (lr, lf, sr, sf) = if abs_of(dr) == 2 {
            (signum(dr), 0, 0, signum(df))
        } else {
            (0, signum(df), signum(dr), 0)
        };
        if mv.path_kind == 1 {
            holds(pos, r0 + lr, f0 + lf, c) || holds(pos, r0 + 2 * lr, f0 + 2 * lf, c) || holds(
                pos,
                r0 + 2 * lr + sr,
                f0 + 2 * lf + sf,
                c,
            )
        } else {
            holds(pos, r0 + sr, f0 + sf, c) || holds(pos, r0 + sr + lr, f0 + sf + lf, c) || holds(
                pos,
                r0 + sr + 2 * lr,
                f0 + sf + 2 * lf,
                c,
            )
        }
    } else if mv.special == SpecialMove::Castle {
        false
    } else {
        let sdr = signum(dr);
        let sdf = signum(df);
        let ar = abs_of(dr);
        let af = abs_of(df);
        let n = if ar > af {
            ar
        } else {
            af
        };
        let mut r = r0;
        let mut f = f0;
        let mut i: i32 = 0;
        while i < n
            invariant
                0 <= r0 < 8,
                0 <= f0 < 8,
                0 <= r0 + dr < 8,
                0 <= f0 + df < 8,
                dr == 0 || df == 0 || abs(dr as int) == abs(df as int),
                n == (if abs(dr as int) > abs(df as int) {
                    abs(dr as int)
                } else {
                    abs(df as int)
                }),
                sdr == (if dr > 0 {
                    1int
                } else if dr < 0 {
                    -1int
                } else {
                    0int
                }),
                sdf == (if df > 0 {
                    1int
                } else if df < 0 {
                    -1int
                } else {
                    0int
                }),
                0 <= i <= n,
                r == r0 + steps(i as int, sdr as int),
                f == f0 + steps(i as int, sdf as int),
            decreases n - i,
        {
            r += sdr;
            f += sdf;
            i += 1;
            if holds(pos, r, f, c) {
                return true;
            }
        }
        false
    }
}

} // verus!

//! Legal and pseudo-legal move generation.
use vstd::prelude::*;
use super::position::{
    Position, dir_dc, dir_dr, jump_dc, jump_dr, knight_dc, knight_dr, move_plan, attacked, can_make, board_after, faithful_record, kings_after_move, lemma_restore_undoes_change,
    move_changes, promotion_rank, ray_dc, ray_dr,
};
use super::push::{
    PathScan, PlanSpec, PushPlan, plan_on_board, ray_file, ray_on_board, ray_rank, ray_sq, resolve_knight_push,
    resolve_push, scan_path, scan_slots, sign, spec_resolve_knight_push, spec_resolve_push, steps, abs, knight_route,
};
use super::types::{
    CASTLE_BK, CASTLE_BQ, CASTLE_WK, CASTLE_WQ, Color, Move, Piece, PieceType, Square, SpecialMove,
    file_of, make_square, opponent, rank_of, spec_file_of, spec_make_square, spec_opponent,
    spec_rank_of, spec_valid_rf, valid_rf,
};

verus! {

pub open spec fn new_move(from: Square, to: Square, path_kind: u8, stop_index: u8, special: SpecialMove, promo: PieceType) -> Move {
    Move { from, to, path_kind, stop_index, special, promo_piece: promo }
}

/// Some displacement takes a pawn of `us` to its promotion rank.
pub open spec fn needs_promotion(board: Seq<Piece>, moves: Seq<(Square, Square)>, us: Color) -> bool {
    exists|i: int|
        0 <= i < moves.len() && board[(#[trigger] moves[i]).0 as int].piece_type == PieceType::Pawn
            && board[moves[i].0 as int].spec_is_color(us) && spec_rank_of(moves[i].1) == promotion_rank(us)
}

/// The moves a resolved push contributes: the four promotions, or the move itself.
pub open spec fn move_options(
    board: Seq<Piece>,
    moves: Seq<(Square, Square)>,
    from: Square,
    to: Square,
    path_kind: u8,
    stop_index: u8,
    special: SpecialMove,
    us: Color,
) -> Seq<Move> {
    if needs_promotion(board, moves, us) {
        seq![
            new_move(from, to, path_kind, stop_index, SpecialMove::Promotion, PieceType::Queen),
            new_move(from, to, path_kind, stop_index, SpecialMove::Promotion, PieceType::Rook),
            new_move(from, to, path_kind, stop_index, SpecialMove::Promotion, PieceType::Bishop),
            new_move(from, to, path_kind, stop_index, SpecialMove::Promotion, PieceType::Knight),
        ]
    } else {
        seq![new_move(from, to, path_kind, stop_index, special, PieceType::Empty)]
    }
}

/// The moves along one ray of a slider, from its `stop`-th square on: each
/// square the push resolves for, up to and including a capture.
pub open spec fn slider_ray(board: Seq<Piece>, from: Square, us: Color, dr: int, dc: int, stop: nat) -> Seq<Move>
    decreases 7 - stop,
{
    if stop >= 7 || !ray_on_board(from, dr, dc, (stop + 1) as int) {
        Seq::empty()
    } else {
        let to = ray_sq(from, dr, dc, (stop + 1) as int);
        match spec_resolve_push(board, from, to, dr, dc) {
            None => Seq::empty(),
            Some(plan) => move_options(board, plan.0, from, to, 0, stop as u8, SpecialMove::Normal, us) + if plan.1
                is Some {
                Seq::empty()
            } else {
                slider_ray(board, from, us, dr, dc, stop + 1)
            },
        }
    }
}

/// Slider moves along directions `dir..end`.
pub open spec fn slider_moves(board: Seq<Piece>, from: Square, us: Color, dir: nat, end: nat) -> Seq<Move>
    decreases end - dir,
{
    if dir >= end {
        Seq::empty()
    } else {
        slider_ray(board, from, us, ray_dr(dir as int), ray_dc(dir as int), 0) + slider_moves(board, from, us, dir + 1, end)
    }
}

pub open spec fn pawn_dir(us: Color) -> int {
    if us == Color::White {
        1
    } else {
        -1
    }
}

/// One step forward: onto an empty square, or pushing a friendly piece when
/// the push resolves without a capture.
#[verifier::opaque]
pub open spec fn pawn_single(board: Seq<Piece>, from: Square, us: Color) -> Seq<Move> {
    let nr = spec_rank_of(from) + pawn_dir(us);
    let f = spec_file_of(from);
    if !spec_valid_rf(nr, f) {
        Seq::empty()
    } else {
        let to = spec_make_square(nr, f);
        if board[to as int].spec_is_empty() {
            move_options(board, seq![(from, to)], from, to, 0, 0, SpecialMove::Normal, us)
        } else if board[to as int].spec_is_color(us) {
            match spec_resolve_push(board, from, to, pawn_dir(us), 0) {
                Some(plan) => if plan.1 is None {
                    move_options(board, plan.0, from, to, 0, 0, SpecialMove::Normal, us)
                } else {
                    Seq::empty()
                },
                None => Seq::empty(),
            }
        } else {
            Seq::empty()
        }
    }
}

/// Two steps forward from the start rank, when the push resolves without a capture.
#[verifier::opaque]
pub open spec fn pawn_double(board: Seq<Piece>, from: Square, us: Color) -> Seq<Move> {
    let start = if us == Color::White {
        1int
    } else {
        6int
    };
    let nr = spec_rank_of(from) + 2 * pawn_dir(us);
    let f = spec_file_of(from);
    if spec_rank_of(from) != start || !spec_valid_rf(nr, f) {
        Seq::empty()
    } else {
        let to = spec_make_square(nr, f);
        match spec_resolve_push(board, from, to, pawn_dir(us), 0) {
            Some(plan) => if plan.1 is None {
                move_options(board, plan.0, from, to, 0, 1, SpecialMove::Normal, us)
            } else {
                Seq::empty()
            },
            None => Seq::empty(),
        }
    }
}

/// A diagonal capture of an enemy piece.
#[verifier::opaque]
pub open spec fn pawn_capture(board: Seq<Piece>, from: Square, us: Color, dc: int) -> Seq<Move> {
    let nr = spec_rank_of(from) + pawn_dir(us);
    let nf = spec_file_of(from) + dc;
    if !spec_valid_rf(nr, nf) {
        Seq::empty()
    } else {
        let to = spec_make_square(nr, nf);
        if !board[to as int].spec_is_empty() && !board[to as int].spec_is_color(us) {
            move_options(board, seq![(from, to)], from, to, 0, 0, SpecialMove::Normal, us)
        } else {
            Seq::empty()
        }
    }
}

pub open spec fn pawn_en_passant(ep: Square, from: Square, us: Color) -> Seq<Move> {
    if ep < 64 && spec_rank_of(ep) == spec_rank_of(from) + pawn_dir(us) && (spec_file_of(ep) == spec_file_of(from) - 1
        || spec_file_of(ep) == spec_file_of(from) + 1) {
        seq![new_move(from, ep, 0, 0, SpecialMove::EnPassant, PieceType::Empty)]
    } else {
        Seq::empty()
    }
}

pub open spec fn pawn_moves(board: Seq<Piece>, ep: Square, from: Square, us: Color) -> Seq<Move> {
    pawn_single(board, from, us) + pawn_double(board, from, us) + pawn_capture(board, from, us, -1)
        + pawn_capture(board, from, us, 1) + pawn_en_passant(ep, from, us)
}

/// The knight moves to offset `i`: the long-leg-first route (path kind 1),
/// then the short-leg-first route (path kind 2) unless it resolves the same.
#[verifier::opaque]
pub open spec fn knight_jump(board: Seq<Piece>, from: Square, us: Color, i: int) -> Seq<Move> {
    let r = spec_rank_of(from) + knight_dr(i);
    let f = spec_file_of(from) + knight_dc(i);
    if !spec_valid_rf(r, f) {
        Seq::empty()
    } else {
        let to = spec_make_square(r, f);
        let first = spec_resolve_knight_push(board, from, to, true);
        let second = spec_resolve_knight_push(board, from, to, false);
        let a = match first {
            Some(plan) => move_options(board, plan.0, from, to, 1, 0, SpecialMove::Normal, us),
            None => Seq::empty(),
        };
        let b = match second {
            Some(plan) => if first != Some(plan) {
                move_options(board, plan.0, from, to, 2, 0, SpecialMove::Normal, us)
            } else {
                Seq::empty()
            },
            None => Seq::empty(),
        };
        a + b
    }
}

pub open spec fn knight_moves(board: Seq<Piece>, from: Square, us: Color, i: nat) -> Seq<Move>
    decreases 8 - i,
{
    if i >= 8 {
        Seq::empty()
    } else {
        knight_jump(board, from, us, i as int) + knight_moves(board, from, us, i + 1)
    }
}

/// A king step in direction `dir`: onto an empty or enemy square, or a push
/// of a friendly piece.
#[verifier::opaque]
pub open spec fn king_step(board: Seq<Piece>, from: Square, us: Color, dir: int) -> Seq<Move> {
    let nr = spec_rank_of(from) + ray_dr(dir);
    let nf = spec_file_of(from) + ray_dc(dir);
    if !spec_valid_rf(nr, nf) {
        Seq::empty()
    } else {
        let to = spec_make_square(nr, nf);
        if !board[to as int].spec_is_color(us) {
            seq![new_move(from, to, 0, 0, SpecialMove::Normal, PieceType::Empty)]
        } else {
            match spec_resolve_push(board, from, to, ray_dr(dir), ray_dc(dir)) {
                Some(plan) => move_options(board, plan.0, from, to, 0, 0, SpecialMove::Normal, us),
                None => Seq::empty(),
            }
        }
    }
}

pub open spec fn king_steps(board: Seq<Piece>, from: Square, us: Color, dir: nat) -> Seq<Move>
    decreases 8 - dir,
{
    if dir >= 8 {
        Seq::empty()
    } else {
        king_step(board, from, us, dir as int) + king_steps(board, from, us, dir + 1)
    }
}

/// `board` with the king on `from` moved to `to`.
pub open spec fn king_moved(board: Seq<Piece>, from: Square, to: Square) -> Seq<Piece> {
    board.update(to as int, board[from as int]).update(from as int, Piece::empty())
}

/// Castling from the king's home square: the right and empty squares between
/// king and rook; the king not attacked where it stands, nor on the square it
/// crosses once it has left its own; its destination not attacked as the
/// board stands (the king's safety there is the legality test's).
#[verifier::opaque]
pub open spec fn castles(board: Seq<Piece>, rights: u8, from: Square, us: Color) -> Seq<Move> {
    let rank = if us == Color::White {
        0int
    } else {
        7int
    };
    let them = spec_opponent(us);
    if spec_rank_of(from) != rank || spec_file_of(from) != 4 {
        Seq::empty()
    } else {
        let ks = if us == Color::White {
            CASTLE_WK
        } else {
            CASTLE_BK
        };
        let qs = if us == Color::White {
            CASTLE_WQ
        } else {
            CASTLE_BQ
        };
        let f_sq = spec_make_square(rank, 5);
        let g_sq = spec_make_square(rank, 6);
        let d_sq = spec_make_square(rank, 3);
        let c_sq = spec_make_square(rank, 2);
        let b_sq = spec_make_square(rank, 1);
        let king_side = if rights & ks != 0 && board[f_sq as int].spec_is_empty() && board[g_sq as int].spec_is_empty()
            && !attacked(board, from, them) && !attacked(king_moved(board, from, f_sq), f_sq, them) && !attacked(board, g_sq, them) {
            seq![new_move(from, g_sq, 0, 0, SpecialMove::Castle, PieceType::Empty)]
        } else {
            Seq::empty()
        };
        let queen_side = if rights & qs != 0 && board[d_sq as int].spec_is_empty() && board[c_sq as int].spec_is_empty()
            && board[b_sq as int].spec_is_empty() && !attacked(board, from, them) && !attacked(king_moved(board, from, d_sq), d_sq, them)
            && !attacked(board, c_sq, them) {
            seq![new_move(from, c_sq, 0, 0, SpecialMove::Castle, PieceType::Empty)]
        } else {
            Seq::empty()
        };
        king_side + queen_side
    }
}

/// The pseudo-legal moves of the piece of `us` on `sq`.
#[verifier::opaque]
pub open spec fn piece_moves(board: Seq<Piece>, ep: Square, rights: u8, sq: Square, us: Color) -> Seq<Move> {
    match board[sq as int].piece_type {
        PieceType::Pawn => pawn_moves(board, ep, sq, us),
        PieceType::Knight => knight_moves(board, sq, us, 0),
        PieceType::Bishop => slider_moves(board, sq, us, 4, 8),
        PieceType::Rook => slider_moves(board, sq, us, 0, 4),
        PieceType::Queen => slider_moves(board, sq, us, 0, 8),
        PieceType::King => king_steps(board, sq, us, 0) + castles(board, rights, sq, us),
        PieceType::Empty => Seq::empty(),
    }
}

/// Pseudo-legal moves of the pieces of `us` on squares `sq..64`, square by square.
pub open spec fn pseudo_from(board: Seq<Piece>, ep: Square, rights: u8, us: Color, sq: nat) -> Seq<Move>
    decreases 64 - sq,
{
    if sq >= 64 {
        Seq::empty()
    } else {
        (if board[sq as int].spec_is_color(us) {
            piece_moves(board, ep, rights, sq as Square, us)
        } else {
            Seq::empty()
        }) + pseudo_from(board, ep, rights, us, sq + 1)
    }
}

/// All pseudo-legal moves of the side to move, in square order.
pub open spec fn pseudo_legal(p: &Position) -> Seq<Move> {
    pseudo_from(p.board@, p.ep_square, p.castling_rights, p.side_to_move, 0)
}

/// A move is legal when the mover's king is not attacked afterwards.
pub open spec fn leaves_king_safe(p: &Position, m: Move) -> bool {
    let us = p.side_to_move;
    let after = board_after(p.board@, m, us);
    let kings = kings_after_move(p.king_sq@, p.board@, m, us);
    !attacked(after, kings[us.spec_index()], spec_opponent(us))
}

/// The first `n` moves that leave the king safe, in order.
pub open spec fn legal_prefix(p: &Position, moves: Seq<Move>, n: nat) -> Seq<Move>
    decreases n,
{
    if n == 0 || n > moves.len() {
        Seq::empty()
    } else {
        let prev = legal_prefix(p, moves, (n - 1) as nat);
        if leaves_king_safe(p, moves[n - 1]) {
            prev.push(moves[n - 1])
        } else {
            prev
        }
    }
}

/// The legal moves of the side to move, in generation order.
pub open spec fn legal_moves(p: &Position) -> Seq<Move> {
    legal_prefix(p, pseudo_legal(p), pseudo_legal(p).len())
}


/// What `make_move` needs of a move beyond the position's counters: squares
/// on the board and, for an ordinary move or a promotion, a push that resolves.
pub open spec fn makeable(board: Seq<Piece>, m: Move) -> bool {
    &&& m.from < 64
    &&& m.to < 64
    &&& (m.special != SpecialMove::Castle && m.special != SpecialMove::EnPassant) ==> move_plan(board, m) is Some
    &&& (m.special == SpecialMove::Castle || m.special == SpecialMove::EnPassant) ==> board[m.from as int].piece_type
        != PieceType::Knight
    &&& m.special == SpecialMove::EnPassant ==> abs(spec_rank_of(m.to) - spec_rank_of(m.from)) == 1 && abs(
        spec_file_of(m.to) - spec_file_of(m.from),
    ) == 1
    &&& m.special == SpecialMove::Castle ==> castle_path_clear(board, m)
}

/// The squares a castling move needs empty: between the king and the rook,
/// the b-, c- and d-squares for the long castle to the c-file, the f- and
/// g-squares for the short one to the g-file.
pub open spec fn castle_path_clear(board: Seq<Piece>, m: Move) -> bool {
    let home = spec_rank_of(m.to) * 8;
    &&& spec_file_of(m.to) == 2 ==> board[home + 1].spec_is_empty() && board[home + 2].spec_is_empty()
        && board[home + 3].spec_is_empty()
    &&& spec_file_of(m.to) == 6 ==> board[home + 5].spec_is_empty() && board[home + 6].spec_is_empty()
}

pub open spec fn all_makeable(board: Seq<Piece>, moves: Seq<Move>) -> bool {
    forall|i: int| 0 <= i < moves.len() ==> makeable(board, #[trigger] moves[i])
}

proof fn lemma_concat_makeable(board: Seq<Piece>, a: Seq<Move>, b: Seq<Move>)
    requires
        all_makeable(board, a),
        all_makeable(board, b),
    ensures
        all_makeable(board, a + b),
{
    assert forall|i: int| 0 <= i < (a + b).len() implies makeable(board, #[trigger] (a + b)[i]) by {
        if i < a.len() {
            assert((a + b)[i] == a[i]);
        } else {
            assert((a + b)[i] == b[i - a.len()]);
        }
    }
}

proof fn lemma_options_makeable(
    board: Seq<Piece>,
    moves: Seq<(Square, Square)>,
    from: Square,
    to: Square,
    path_kind: u8,
    stop_index: u8,
    special: SpecialMove,
    us: Color,
)
    requires
        from < 64,
        to < 64,
        move_plan(board, new_move(from, to, path_kind, stop_index, SpecialMove::Normal, PieceType::Empty)) is Some,
        special == SpecialMove::Normal,
    ensures
        all_makeable(board, move_options(board, moves, from, to, path_kind, stop_index, special, us)),
{
    let opts = move_options(board, moves, from, to, path_kind, stop_index, special, us);
    let base = new_move(from, to, path_kind, stop_index, SpecialMove::Normal, PieceType::Empty);
    assert forall|i: int| 0 <= i < opts.len() implies makeable(board, #[trigger] opts[i]) by {
        assert(opts[i].from == from && opts[i].to == to && opts[i].path_kind == path_kind);
        assert(move_plan(board, opts[i]) == move_plan(board, base));
    }
}

/// A square given by an on-board rank and file has that rank and file.
proof fn lemma_square(r: int, f: int)
    requires
        spec_valid_rf(r, f),
    ensures
        spec_make_square(r, f) == r * 8 + f,
        spec_make_square(r, f) < 64,
        spec_rank_of(spec_make_square(r, f)) == r,
        spec_file_of(spec_make_square(r, f)) == f,
{
}

/// The direction of the `n`-th square of a ray, read back from the squares.
proof fn lemma_ray_direction(from: Square, dr: int, dc: int, n: int)
    requires
        from < 64,
        -1 <= dr <= 1,
        -1 <= dc <= 1,
        n >= 1,
        ray_on_board(from, dr, dc, n),
    ensures
        ray_sq(from, dr, dc, n) < 64,
        sign(spec_rank_of(ray_sq(from, dr, dc, n)) - spec_rank_of(from)) == dr,
        sign(spec_file_of(ray_sq(from, dr, dc, n)) - spec_file_of(from)) == dc,
{
    lemma_square(ray_rank(from, dr, n), ray_file(from, dc, n));
}

/// A push onto the next square of a ray resolves when that square is not
/// held by the mover's side.
proof fn lemma_step_resolves(board: Seq<Piece>, from: Square, dr: int, dc: int)
    requires
        from < 64,
        board.len() == 64,
        !board[from as int].spec_is_empty(),
        -1 <= dr <= 1,
        -1 <= dc <= 1,
        !(dr == 0 && dc == 0),
        ray_on_board(from, dr, dc, 1),
        !board[ray_sq(from, dr, dc, 1) as int].spec_is_color(board[from as int].color),
    ensures
        spec_resolve_push(board, from, ray_sq(from, dr, dc, 1), dr, dc) is Some,
{
    let to = ray_sq(from, dr, dc, 1);
    lemma_square(ray_rank(from, dr, 1), ray_file(from, dc, 1));
    assert(to != from);
    let mover = board[from as int].color;
    let scan = scan_path(board, from, to, dr, dc, mover, 1, Seq::empty());
    if board[to as int].spec_is_empty() {
        assert(scan == PathScan::Reached(1, Seq::<Square>::empty()));
        assert(scan_slots(board, from, dr, dc, mover, 1, 0, Seq::empty()) is Some);
    } else {
        assert(scan == PathScan::Capture);
    }
}

proof fn lemma_slider_ray_makeable(board: Seq<Piece>, from: Square, us: Color, dr: int, dc: int, stop: nat)
    requires
        from < 64,
        board[from as int].piece_type != PieceType::Knight,
        -1 <= dr <= 1,
        -1 <= dc <= 1,
    ensures
        all_makeable(board, slider_ray(board, from, us, dr, dc, stop)),
    decreases 7 - stop,
{
    if stop < 7 && ray_on_board(from, dr, dc, (stop + 1) as int) {
        let to = ray_sq(from, dr, dc, (stop + 1) as int);
        lemma_ray_direction(from, dr, dc, (stop + 1) as int);
        match spec_resolve_push(board, from, to, dr, dc) {
            None => {},
            Some(plan) => {
                lemma_options_makeable(board, plan.0, from, to, 0, stop as u8, SpecialMove::Normal, us);
                lemma_slider_ray_makeable(board, from, us, dr, dc, stop + 1);
                let rest: Seq<Move> = if plan.1 is Some {
                    Seq::empty()
                } else {
                    slider_ray(board, from, us, dr, dc, stop + 1)
                };
                lemma_concat_makeable(
                    board,
                    move_options(board, plan.0, from, to, 0, stop as u8, SpecialMove::Normal, us),
                    rest,
                );
            },
        }
    }
}

proof fn lemma_slider_moves_makeable(board: Seq<Piece>, from: Square, us: Color, dir: nat, end: nat)
    requires
        from < 64,
        end <= 8,
        board[from as int].piece_type != PieceType::Knight,
    ensures
        all_makeable(board, slider_moves(board, from, us, dir, end)),
    decreases end - dir,
{
    if dir < end {
        lemma_slider_ray_makeable(board, from, us, ray_dr(dir as int), ray_dc(dir as int), 0);
        lemma_slider_moves_makeable(board, from, us, dir + 1, end);
        lemma_concat_makeable(
            board,
            slider_ray(board, from, us, ray_dr(dir as int), ray_dc(dir as int), 0),
            slider_moves(board, from, us, dir + 1, end),
        );
    }
}

proof fn lemma_pawn_makeable(board: Seq<Piece>, ep: Square, from: Square, us: Color)
    requires
        from < 64,
        board.len() == 64,
        board[from as int] == (Piece { piece_type: PieceType::Pawn, color: us }),
    ensures
        all_makeable(board, pawn_moves(board, ep, from, us)),
{
    reveal(pawn_single);
    reveal(pawn_double);
    reveal(pawn_capture);
    let dr = pawn_dir(us);
    // One step forward.
    if ray_on_board(from, dr, 0, 1) {
        lemma_ray_direction(from, dr, 0, 1);
        if board[ray_sq(from, dr, 0, 1) as int].spec_is_empty() {
            lemma_step_resolves(board, from, dr, 0);
            lemma_options_makeable(board, seq![(from, ray_sq(from, dr, 0, 1))], from, ray_sq(from, dr, 0, 1), 0, 0, SpecialMove::Normal, us);
        }
        match spec_resolve_push(board, from, ray_sq(from, dr, 0, 1), dr, 0) {
            Some(plan) => lemma_options_makeable(board, plan.0, from, ray_sq(from, dr, 0, 1), 0, 0, SpecialMove::Normal, us),
            None => {},
        }
    }
    // Two steps forward.
    if ray_on_board(from, dr, 0, 2) {
        lemma_ray_direction(from, dr, 0, 2);
        match spec_resolve_push(board, from, ray_sq(from, dr, 0, 2), dr, 0) {
            Some(plan) => lemma_options_makeable(board, plan.0, from, ray_sq(from, dr, 0, 2), 0, 1, SpecialMove::Normal, us),
            None => {},
        }
    }
    // Diagonal captures.
    if ray_on_board(from, dr, -1, 1) {
        lemma_ray_direction(from, dr, -1, 1);
        if !board[ray_sq(from, dr, -1, 1) as int].spec_is_empty() && !board[ray_sq(from, dr, -1, 1) as int].spec_is_color(us) {
            lemma_step_resolves(board, from, dr, -1);
            lemma_options_makeable(board, seq![(from, ray_sq(from, dr, -1, 1))], from, ray_sq(from, dr, -1, 1), 0, 0, SpecialMove::Normal, us);
        }
    }
    if ray_on_board(from, dr, 1, 1) {
        lemma_ray_direction(from, dr, 1, 1);
        if !board[ray_sq(from, dr, 1, 1) as int].spec_is_empty() && !board[ray_sq(from, dr, 1, 1) as int].spec_is_color(us) {
            lemma_step_resolves(board, from, dr, 1);
            lemma_options_makeable(board, seq![(from, ray_sq(from, dr, 1, 1))], from, ray_sq(from, dr, 1, 1), 0, 0, SpecialMove::Normal, us);
        }
    }
    assert(all_makeable(board, pawn_single(board, from, us)));
    assert(all_makeable(board, pawn_double(board, from, us)));
    assert(all_makeable(board, pawn_capture(board, from, us, -1)));
    assert(all_makeable(board, pawn_capture(board, from, us, 1)));
    assert(all_makeable(board, pawn_en_passant(ep, from, us)));
    lemma_concat_makeable(board, pawn_single(board, from, us), pawn_double(board, from, us));
    lemma_concat_makeable(board, pawn_single(board, from, us) + pawn_double(board, from, us), pawn_capture(board, from, us, -1));
    lemma_concat_makeable(
        board,
        pawn_single(board, from, us) + pawn_double(board, from, us) + pawn_capture(board, from, us, -1),
        pawn_capture(board, from, us, 1),
    );
    lemma_concat_makeable(
        board,
        pawn_single(board, from, us) + pawn_double(board, from, us) + pawn_capture(board, from, us, -1) + pawn_capture(board, from, us, 1),
        pawn_en_passant(ep, from, us),
    );
}

proof fn lemma_knight_makeable(board: Seq<Piece>, from: Square, us: Color, i: nat)
    requires
        from < 64,
        board[from as int].piece_type == PieceType::Knight,
    ensures
        all_makeable(board, knight_moves(board, from, us, i)),
    decreases 8 - i,
{
    if i < 8 {
        reveal(knight_jump);
        let r = spec_rank_of(from) + knight_dr(i as int);
        let f = spec_file_of(from) + knight_dc(i as int);
        if spec_valid_rf(r, f) {
            let to = spec_make_square(r, f);
            lemma_square(r, f);
            match spec_resolve_knight_push(board, from, to, true) {
                Some(plan) => lemma_options_makeable(board, plan.0, from, to, 1, 0, SpecialMove::Normal, us),
                None => {},
            }
            match spec_resolve_knight_push(board, from, to, false) {
                Some(plan) => lemma_options_makeable(board, plan.0, from, to, 2, 0, SpecialMove::Normal, us),
                None => {},
            }
        }
        assert(all_makeable(board, knight_jump(board, from, us, i as int)));
        lemma_knight_makeable(board, from, us, i + 1);
        lemma_concat_makeable(board, knight_jump(board, from, us, i as int), knight_moves(board, from, us, i + 1));
    }
}

proof fn lemma_king_makeable(board: Seq<Piece>, rights: u8, from: Square, us: Color, dir: nat)
    requires
        from < 64,
        board.len() == 64,
        board[from as int] == (Piece { piece_type: PieceType::King, color: us }),
    ensures
        all_makeable(board, king_steps(board, from, us, dir)),
        all_makeable(board, castles(board, rights, from, us)),
    decreases 8 - dir,
{
    reveal(castles);
    if dir < 8 {
        reveal(king_step);
        let dr = ray_dr(dir as int);
        let dc = ray_dc(dir as int);
        if ray_on_board(from, dr, dc, 1) {
            let to = ray_sq(from, dr, dc, 1);
            lemma_ray_direction(from, dr, dc, 1);
            if !board[to as int].spec_is_color(us) {
                lemma_step_resolves(board, from, dr, dc);
            } else {
                match spec_resolve_push(board, from, to, dr, dc) {
                    Some(plan) => lemma_options_makeable(board, plan.0, from, to, 0, 0, SpecialMove::Normal, us),
                    None => {},
                }
            }
        }
        assert(all_makeable(board, king_step(board, from, us, dir as int)));
        lemma_king_makeable(board, rights, from, us, dir + 1);
        lemma_concat_makeable(board, king_step(board, from, us, dir as int), king_steps(board, from, us, dir + 1));
    }
    let rank: int = if us == Color::White {
        0
    } else {
        7
    };
    lemma_square(rank, 6);
    lemma_square(rank, 2);
}

proof fn lemma_piece_makeable(board: Seq<Piece>, ep: Square, rights: u8, sq: Square, us: Color)
    requires
        sq < 64,
        board.len() == 64,
        board[sq as int].spec_is_color(us),
    ensures
        all_makeable(board, piece_moves(board, ep, rights, sq, us)),
{
    reveal(piece_moves);
    match board[sq as int].piece_type {
        PieceType::Pawn => lemma_pawn_makeable(board, ep, sq, us),
        PieceType::Knight => lemma_knight_makeable(board, sq, us, 0),
        PieceType::Bishop => lemma_slider_moves_makeable(board, sq, us, 4, 8),
        PieceType::Rook => lemma_slider_moves_makeable(board, sq, us, 0, 4),
        PieceType::Queen => lemma_slider_moves_makeable(board, sq, us, 0, 8),
        PieceType::King => {
            lemma_king_makeable(board, rights, sq, us, 0);
            lemma_concat_makeable(board, king_steps(board, sq, us, 0), castles(board, rights, sq, us));
        },
        PieceType::Empty => {},
    }
}

proof fn lemma_pseudo_from_makeable(board: Seq<Piece>, ep: Square, rights: u8, us: Color, sq: nat)
    requires
        board.len() == 64,
    ensures
        all_makeable(board, pseudo_from(board, ep, rights, us, sq)),
    decreases 64 - sq,
{
    if sq < 64 {
        let here: Seq<Move> = if board[sq as int].spec_is_color(us) {
            lemma_piece_makeable(board, ep, rights, sq as Square, us);
            piece_moves(board, ep, rights, sq as Square, us)
        } else {
            Seq::empty()
        };
        lemma_pseudo_from_makeable(board, ep, rights, us, sq + 1);
        lemma_concat_makeable(board, here, pseudo_from(board, ep, rights, us, sq + 1));
    }
}

/// Every pseudo-legal move of a position can be made on it: its squares are
/// on the board and, unless it castles or captures en passant, its push
/// resolves.
pub proof fn lemma_pseudo_legal_makeable(p: &Position)
    ensures
        all_makeable(p.board@, pseudo_legal(p)),
{
    lemma_pseudo_from_makeable(p.board@, p.ep_square, p.castling_rights, p.side_to_move, 0);
}

/// The squares a move walks stay on the board: a knight jumps two squares one
/// way and one the other; any other piece, castling aside, moves along a
/// rank, a file or a diagonal.
pub open spec fn shaped(board: Seq<Piece>, m: Move) -> bool {
    let dr = spec_rank_of(m.to) - spec_rank_of(m.from);
    let df = spec_file_of(m.to) - spec_file_of(m.from);
    &&& m.from < 64
    &&& m.to < 64
    &&& board[m.from as int].piece_type == PieceType::Knight ==> ((abs(dr) == 1 && abs(df) == 2) || (abs(dr) == 2
        && abs(df) == 1))
    &&& (board[m.from as int].piece_type != PieceType::Knight && m.special != SpecialMove::Castle) ==> (dr == 0 || df
        == 0 || abs(dr) == abs(df))
}

/// A walk that does not end blocked reaches the destination on the ray.
proof fn lemma_scan_on_ray(
    board: Seq<Piece>,
    from: Square,
    to: Square,
    dr: int,
    dc: int,
    mover: Color,
    n: nat,
    chain: Seq<Square>,
)
    requires
        !(scan_path(board, from, to, dr, dc, mover, n, chain) is Blocked),
    ensures
        exists|k: int| n <= k < 8 && ray_on_board(from, dr, dc, k) && #[trigger] ray_sq(from, dr, dc, k) == to,
    decreases 8 - n,
{
    if n < 8 && ray_on_board(from, dr, dc, n as int) {
        let sq = ray_sq(from, dr, dc, n as int);
        let piece = board[sq as int];
        if !piece.spec_is_empty() && !piece.spec_is_color(mover) {
            assert(sq == to);
        } else {
            let next = if piece.spec_is_color(mover) {
                chain.push(sq)
            } else {
                chain
            };
            if sq != to {
                lemma_scan_on_ray(board, from, to, dr, dc, mover, n + 1, next);
            }
        }
    }
}

/// The moves kept among the first `n` include every safe one among them.
proof fn lemma_prefix_keeps_safe(p: &Position, moves: Seq<Move>, n: nat, i: int)
    requires
        0 <= i < n <= moves.len(),
        leaves_king_safe(p, moves[i]),
    ensures
        legal_prefix(p, moves, n).contains(moves[i]),
    decreases n,
{
    let prev = legal_prefix(p, moves, (n - 1) as nat);
    if i == n - 1 {
        assert(legal_prefix(p, moves, n) == prev.push(moves[i]));
        assert(legal_prefix(p, moves, n)[prev.len() as int] == moves[i]);
    } else {
        lemma_prefix_keeps_safe(p, moves, (n - 1) as nat, i);
        let j = choose|j: int| 0 <= j < prev.len() && prev[j] == moves[i];
        if leaves_king_safe(p, moves[n - 1]) {
            assert(legal_prefix(p, moves, n)[j] == moves[i]);
        }
    }
}

/// A pseudo-legal move that leaves the mover's king safe is a legal move.
pub proof fn lemma_safe_move_is_legal(p: &Position, i: int)
    requires
        0 <= i < pseudo_legal(p).len(),
        leaves_king_safe(p, pseudo_legal(p)[i]),
    ensures
        legal_moves(p).contains(pseudo_legal(p)[i]),
{
    lemma_prefix_keeps_safe(p, pseudo_legal(p), pseudo_legal(p).len(), i);
}

/// Every move kept among the first `n` is one of them.
proof fn lemma_prefix_from_moves(p: &Position, moves: Seq<Move>, n: nat, m: Move)
    requires
        legal_prefix(p, moves, n).contains(m),
    ensures
        moves.contains(m),
    decreases n,
{
    if n > 0 && n <= moves.len() {
        let prev = legal_prefix(p, moves, (n - 1) as nat);
        if prev.contains(m) {
            lemma_prefix_from_moves(p, moves, (n - 1) as nat, m);
        } else {
            let j = choose|j: int| 0 <= j < legal_prefix(p, moves, n).len() && legal_prefix(p, moves, n)[j] == m;
            assert(leaves_king_safe(p, moves[n - 1]));
            if j < prev.len() {
                assert(prev[j] == m);
            }
            assert(moves[n - 1] == m);
        }
    }
}

/// A legal move is a pseudo-legal move.
pub proof fn lemma_legal_is_pseudo(p: &Position, m: Move)
    requires
        legal_moves(p).contains(m),
    ensures
        pseudo_legal(p).contains(m),
{
    lemma_prefix_from_moves(p, pseudo_legal(p), pseudo_legal(p).len(), m);
}

/// The moves kept by the legality test depend on the board, the side to
/// move and the king squares alone.
proof fn lemma_prefix_congruent(p: &Position, q: &Position, moves: Seq<Move>, n: nat)
    requires
        p.board == q.board,
        p.side_to_move == q.side_to_move,
        p.king_sq == q.king_sq,
    ensures
        legal_prefix(p, moves, n) == legal_prefix(q, moves, n),
    decreases n,
{
    if n > 0 && n <= moves.len() {
        lemma_prefix_congruent(p, q, moves, (n - 1) as nat);
    }
}

/// Two positions with the same board, side to move, castling rights,
/// en-passant square and king squares have the same legal moves.
pub proof fn lemma_legal_moves_congruent(p: &Position, q: &Position)
    requires
        p.board == q.board,
        p.side_to_move == q.side_to_move,
        p.castling_rights == q.castling_rights,
        p.ep_square == q.ep_square,
        p.king_sq == q.king_sq,
    ensures
        legal_moves(p) == legal_moves(q),
        pseudo_legal(p) == pseudo_legal(q),
{
    assert(pseudo_legal(p) == pseudo_legal(q));
    lemma_prefix_congruent(p, q, pseudo_legal(p), pseudo_legal(p).len());
}

/// A makeable move walks squares on the board.
pub proof fn lemma_makeable_shaped(board: Seq<Piece>, m: Move)
    requires
        makeable(board, m),
    ensures
        shaped(board, m),
{
    if m.special != SpecialMove::Castle && m.special != SpecialMove::EnPassant {
        if board[m.from as int].piece_type == PieceType::Knight {
            assert(knight_route(m.from, m.to, m.path_kind == 1) is Some);
        } else {
            let dr = sign(spec_rank_of(m.to) - spec_rank_of(m.from));
            let dc = sign(spec_file_of(m.to) - spec_file_of(m.from));
            let mover = board[m.from as int].color;
            assert(!(scan_path(board, m.from, m.to, dr, dc, mover, 1, Seq::empty()) is Blocked));
            lemma_scan_on_ray(board, m.from, m.to, dr, dc, mover, 1, Seq::empty());
            let k = choose|k: int| 1 <= k < 8 && ray_on_board(m.from, dr, dc, k) && #[trigger] ray_sq(m.from, dr, dc, k) == m.to;
            lemma_square(ray_rank(m.from, dr, k), ray_file(m.from, dc, k));
        }
    }
}

/// Check if any displacement moves a pawn of color `us` to its promotion rank.
fn needs_promotion_exec(pos: &Position, info: &PushPlan, us: Color) -> (b: bool)
    requires
        plan_on_board(info@),
    ensures
        b == needs_promotion(pos.board@, info@.0, us),
{
    let promo_rank: i32 = if us == Color::White {
        7
    } else {
        0
    };
    let n = info.len();
    let mut i: usize = 0;
    while i < n
        invariant
            n == info@.0.len(),
            i <= n,
            plan_on_board(info@),
            promo_rank == promotion_rank(us),
            forall|j: int|
                0 <= j < i ==> !(pos.board@[(#[trigger] info@.0[j]).0 as int].piece_type == PieceType::Pawn
                    && pos.board@[info@.0[j].0 as int].spec_is_color(us) && spec_rank_of(info@.0[j].1)
                    == promotion_rank(us)),
        decreases n - i,
    {
        let (f_sq, t_sq) = info.displacement(i);
        let piece = pos.board[f_sq as usize];
        if piece.piece_type == PieceType::Pawn && piece.is_color(us) && rank_of(t_sq) == promo_rank {
            return true;
        }
        i += 1;
    }
    false
}

/// Add a move (or 4 promotion moves) to the output list.
fn add_move(
    out: &mut Vec<Move>,
    pos: &Position,
    info: &PushPlan,
    from: Square,
    to: Square,
    path_kind: u8,
    stop_index: u8,
    special: SpecialMove,
    us: Color,
)
    requires
        plan_on_board(info@),
    ensures
        final(out)@ == old(out)@ + move_options(pos.board@, info@.0, from, to, path_kind, stop_index, special, us),
{
    if needs_promotion_exec(pos, info, us) {
        out.push(Move { from, to, path_kind, stop_index, special: SpecialMove::Promotion, promo_piece: PieceType::Queen });
        out.push(Move { from, to, path_kind, stop_index, special: SpecialMove::Promotion, promo_piece: PieceType::Rook });
        out.push(Move { from, to, path_kind, stop_index, special: SpecialMove::Promotion, promo_piece: PieceType::Bishop });
        out.push(Move { from, to, path_kind, stop_index, special: SpecialMove::Promotion, promo_piece: PieceType::Knight });
    } else {
        out.push(Move { from, to, path_kind, stop_index, special, promo_piece: PieceType::Empty });
    }
    assert(out@ =~= old(out)@ + move_options(pos.board@, info@.0, from, to, path_kind, stop_index, special, us));
}

/// Walk one ray of a slider, adding a move per square the push resolves for
/// and stopping after a capture, at the edge, or where the push fails.
fn gen_slider_ray(pos: &Position, from: Square, us: Color, dr: i32, dc: i32, out: &mut Vec<Move>)
    requires
        from < 64,
        -1 <= dr <= 1,
        -1 <= dc <= 1,
    ensures
        final(out)@ == old(out)@ + slider_ray(pos.board@, from, us, dr as int, dc as int, 0),
{
    let ghost board = pos.board@;
    let mut r = rank_of(from);
    let mut f = file_of(from);
    let mut stop: u8 = 0;
    while stop < 7
        invariant_except_break
            old(out)@ + slider_ray(board, from, us, dr as int, dc as int, 0) == out@ + slider_ray(
                board,
                from,
                us,
                dr as int,
                dc as int,
                stop as nat,
            ),
        invariant
            from < 64,
            stop <= 7,
            -1 <= dr <= 1,
            -1 <= dc <= 1,
            board == pos.board@,
            r == super::push::ray_rank(from, dr as int, stop as int),
            f == super::push::ray_file(from, dc as int, stop as int),
        ensures
            old(out)@ + slider_ray(board, from, us, dr as int, dc as int, 0) == out@,
        decreases 7 - stop,
    {
        let nr = r + dr;
        let nf = f + dc;
        assert(nr == super::push::ray_rank(from, dr as int, stop + 1));
        assert(nf == super::push::ray_file(from, dc as int, stop + 1));
        if !valid_rf(nr, nf) {
            assert(out@ =~= out@ + slider_ray(board, from, us, dr as int, dc as int, stop as nat));
            break ;
        }
        let to = make_square(nr, nf);
        let info = match resolve_push(pos, from, to, dr, dc) {
            Some(info) => info,
            None => {
                assert(out@ =~= out@ + slider_ray(board, from, us, dr as int, dc as int, stop as nat));
                break ;
            },
        };
        let ghost before = out@;
        add_move(out, pos, &info, from, to, 0, stop, SpecialMove::Normal, us);
        if info.captured().is_some() {
            assert(before + slider_ray(board, from, us, dr as int, dc as int, stop as nat) =~= out@);
            break ;
        }
        assert(before + slider_ray(board, from, us, dr as int, dc as int, stop as nat) =~= out@ + slider_ray(
            board,
            from,
            us,
            dr as int,
            dc as int,
            (stop + 1) as nat,
        ));
        r = nr;
        f = nf;
        stop += 1;
    }
}

/// Generate slider moves (bishop, rook, queen) along directions `dir_start..dir_end`.
fn gen_slider_moves(pos: &Position, from: Square, us: Color, dir_start: usize, dir_end: usize, out: &mut Vec<Move>)
    requires
        from < 64,
        dir_start <= dir_end <= 8,
    ensures
        final(out)@ == old(out)@ + slider_moves(pos.board@, from, us, dir_start as nat, dir_end as nat),
{
    let ghost board = pos.board@;
    let mut dir = dir_start;
    while dir < dir_end
        invariant
            from < 64,
            dir_start <= dir <= dir_end <= 8,
            board == pos.board@,
            old(out)@ + slider_moves(board, from, us, dir_start as nat, dir_end as nat) == out@ + slider_moves(
                board,
                from,
                us,
                dir as nat,
                dir_end as nat,
            ),
        decreases dir_end - dir,
    {
        let dr = dir_dr(dir);
        let dc = dir_dc(dir);
        let ghost before = out@;
        gen_slider_ray(pos, from, us, dr, dc, out);
        assert(before + slider_moves(board, from, us, dir as nat, dir_end as nat) =~= out@ + slider_moves(
            board,
            from,
            us,
            (dir + 1) as nat,
            dir_end as nat,
        ));
        dir += 1;
    }
    assert(out@ =~= out@ + slider_moves(board, from, us, dir as nat, dir_end as nat));
}

/// Generate pawn moves (forward 1, forward 2, diagonal captures, en passant).
fn gen_pawn_moves(pos: &Position, from: Square, us: Color, out: &mut Vec<Move>)
    requires
        from < 64,
    ensures
        final(out)@ == old(out)@ + pawn_moves(pos.board@, pos.ep_square, from, us),
{
    let ghost board = pos.board@;
    let ghost start = out@;
    gen_pawn_single(pos, from, us, out);
    let ghost after_single = out@;
    gen_pawn_double(pos, from, us, out);
    let ghost after_double = out@;
    gen_pawn_capture(pos, from, us, -1, out);
    let ghost after_left = out@;
    gen_pawn_capture(pos, from, us, 1, out);
    let ghost after_captures = out@;
    // En passant
    let dr: i32 = if us == Color::White {
        1
    } else {
        -1
    };
    let r = rank_of(from);
    let f = file_of(from);
    if pos.ep_square < 64 {
        let ep_r = rank_of(pos.ep_square);
        let ep_f = file_of(pos.ep_square);
        if ep_r == r + dr && (ep_f == f - 1 || ep_f == f + 1) {
            out.push(
                Move {
                    from,
                    to: pos.ep_square,
                    path_kind: 0,
                    stop_index: 0,
                    special: SpecialMove::EnPassant,
                    promo_piece: PieceType::Empty,
                },
            );
        }
    }
    assert(out@ =~= after_captures + pawn_en_passant(pos.ep_square, from, us));
    assert(out@ =~= start + pawn_moves(board, pos.ep_square, from, us));
}

/// One step forward: onto an empty square, or pushing a friendly piece when
/// that captures nothing (a pawn cannot capture forward).
fn gen_pawn_single(pos: &Position, from: Square, us: Color, out: &mut Vec<Move>)
    requires
        from < 64,
    ensures
        final(out)@ == old(out)@ + pawn_single(pos.board@, from, us),
{
    reveal(pawn_single);
    let dr: i32 = if us == Color::White {
        1
    } else {
        -1
    };
    let nr = rank_of(from) + dr;
    let f = file_of(from);
    if valid_rf(nr, f) {
        let to = make_square(nr, f);
        if pos.board[to as usize].is_empty() {
            let info = PushPlan::single(from, to, None);
            add_move(out, pos, &info, from, to, 0, 0, SpecialMove::Normal, us);
        } else if pos.board[to as usize].is_color(us) {
            match resolve_push(pos, from, to, dr, 0) {
                Some(info) => {
                    if info.captured().is_none() {
                        add_move(out, pos, &info, from, to, 0, 0, SpecialMove::Normal, us);
                    }
                },
                None => {},
            }
        }
    }
    assert(out@ =~= old(out)@ + pawn_single(pos.board@, from, us));
}

/// Two steps forward from the start rank, when the push captures nothing.
fn gen_pawn_double(pos: &Position, from: Square, us: Color, out: &mut Vec<Move>)
    requires
        from < 64,
    ensures
        final(out)@ == old(out)@ + pawn_double(pos.board@, from, us),
{
    reveal(pawn_double);
    let dr: i32 = if us == Color::White {
        1
    } else {
        -1
    };
    let start_rank: i32 = if us == Color::White {
        1
    } else {
        6
    };
    let r = rank_of(from);
    let f = file_of(from);
    if r == start_rank {
        let nr = r + 2 * dr;
        if valid_rf(nr, f) {
            let to = make_square(nr, f);
            match resolve_push(pos, from, to, dr, 0) {
                Some(info) => {
                    if info.captured().is_none() {
                        add_move(out, pos, &info, from, to, 0, 1, SpecialMove::Normal, us);
                    }
                },
                None => {},
            }
        }
    }
    assert(out@ =~= old(out)@ + pawn_double(pos.board@, from, us));
}

/// A diagonal pawn capture toward file offset `dc`.
fn gen_pawn_capture(pos: &Position, from: Square, us: Color, dc: i32, out: &mut Vec<Move>)
    requires
        from < 64,
        dc == -1 || dc == 1,
    ensures
        final(out)@ == old(out)@ + pawn_capture(pos.board@, from, us, dc as int),
{
    reveal(pawn_capture);
    let dr: i32 = if us == Color::White {
        1
    } else {
        -1
    };
    let nf = file_of(from) + dc;
    let nr = rank_of(from) + dr;
    if valid_rf(nr, nf) {
        let to = make_square(nr, nf);
        if !pos.board[to as usize].is_empty() && !pos.board[to as usize].is_color(us) {
            let info = PushPlan::single(from, to, Some(to));
            add_move(out, pos, &info, from, to, 0, 0, SpecialMove::Normal, us);
        }
    }
    assert(out@ =~= old(out)@ + pawn_capture(pos.board@, from, us, dc as int));
}

/// The knight's move to offset `i`, by its long-leg-first route and, where
/// that resolves differently, its short-leg-first route.
fn gen_knight_jump(pos: &Position, from: Square, us: Color, i: usize, out: &mut Vec<Move>)
    requires
        from < 64,
        i < 8,
    ensures
        final(out)@ == old(out)@ + knight_jump(pos.board@, from, us, i as int),
{
    reveal(knight_jump);
    let r = rank_of(from) + jump_dr(i);
    let f = file_of(from) + jump_dc(i);
    if valid_rf(r, f) {
        let to = make_square(r, f);
        let info1 = resolve_knight_push(pos, from, to, true);
        match &info1 {
            Some(info) => {
                add_move(out, pos, info, from, to, 1, 0, SpecialMove::Normal, us);
            },
            None => {},
        }
        let ghost after_first = out@;
        match resolve_knight_push(pos, from, to, false) {
            Some(info) => {
                let differs = match &info1 {
                    Some(first) => !(*first == info),
                    None => true,
                };
                if differs {
                    add_move(out, pos, &info, from, to, 2, 0, SpecialMove::Normal, us);
                }
            },
            None => {},
        }
    }
    assert(out@ =~= old(out)@ + knight_jump(pos.board@, from, us, i as int));
}

/// Generate knight moves (two path decompositions per target square).
fn gen_knight_moves(pos: &Position, from: Square, us: Color, out: &mut Vec<Move>)
    requires
        from < 64,
    ensures
        final(out)@ == old(out)@ + knight_moves(pos.board@, from, us, 0),
{
    let ghost board = pos.board@;
    let mut i: usize = 0;
    while i < 8
        invariant
            from < 64,
            i <= 8,
            board == pos.board@,
            old(out)@ + knight_moves(board, from, us, 0) == out@ + knight_moves(board, from, us, i as nat),
        decreases 8 - i,
    {
        let ghost before = out@;
        gen_knight_jump(pos, from, us, i, out);
        assert(before + knight_moves(board, from, us, i as nat) =~= out@ + knight_moves(board, from, us, (i + 1) as nat));
        i += 1;
    }
    assert(out@ =~= out@ + knight_moves(board, from, us, i as nat));
}

/// One king step in direction `dir`: onto an empty or enemy square, or
/// pushing a friendly piece along the step.
fn gen_king_step(pos: &Position, from: Square, us: Color, dir: usize, out: &mut Vec<Move>)
    requires
        from < 64,
        dir < 8,
    ensures
        final(out)@ == old(out)@ + king_step(pos.board@, from, us, dir as int),
{
    reveal(king_step);
    let dr = dir_dr(dir);
    let dc = dir_dc(dir);
    let nr = rank_of(from) + dr;
    let nf = file_of(from) + dc;
    if valid_rf(nr, nf) {
        let to = make_square(nr, nf);
        if !pos.board[to as usize].is_color(us) {
            // An empty square, or a capture of an enemy piece.
            out.push(
                Move {
                    from,
                    to,
                    path_kind: 0,
                    stop_index: 0,
                    special: SpecialMove::Normal,
                    promo_piece: PieceType::Empty,
                },
            );
        } else {
            // A friendly piece: the king pushes it along the movement direction.
            match resolve_push(pos, from, to, dr, dc) {
                Some(info) => {
                    add_move(out, pos, &info, from, to, 0, 0, SpecialMove::Normal, us);
                },
                None => {},
            }
        }
    }
    assert(out@ =~= old(out)@ + king_step(pos.board@, from, us, dir as int));
}

/// Whether `sq` is attacked once the king on `from` has stepped onto it.
fn attacked_after_king_step(pos: &Position, from: Square, sq: Square, attacker: Color) -> (b: bool)
    requires
        from < 64,
        sq < 64,
    ensures
        b == attacked(king_moved(pos.board@, from, sq), sq, attacker),
{
    let mut probe = Position::empty();
    probe.board = pos.board;
    probe.board[sq as usize] = pos.board[from as usize];
    probe.board[from as usize] = Piece { piece_type: PieceType::Empty, color: Color::White };
    assert(probe.board@ =~= king_moved(pos.board@, from, sq));
    probe.is_attacked_by(sq, attacker)
}

/// Castling moves of the king on `from`, if it stands on its home square.
fn gen_castles(pos: &Position, from: Square, us: Color, out: &mut Vec<Move>)
    requires
        from < 64,
    ensures
        final(out)@ == old(out)@ + castles(pos.board@, pos.castling_rights, from, us),
{
    reveal(castles);
    let castle_rank: i32 = if us == Color::White {
        0
    } else {
        7
    };
    if rank_of(from) != castle_rank || file_of(from) != 4 {
        assert(out@ =~= old(out)@ + castles(pos.board@, pos.castling_rights, from, us));
        return ;
    }
    let them = opponent(us);
    // Kingside
    let ks_flag: u8 = if us == Color::White {
        CASTLE_WK
    } else {
        CASTLE_BK
    };
    if pos.castling_rights & ks_flag != 0 {
        let f_sq = make_square(castle_rank, 5);
        let g_sq = make_square(castle_rank, 6);
        if pos.board[f_sq as usize].is_empty() && pos.board[g_sq as usize].is_empty() && !pos.is_attacked_by(from, them)
            && !attacked_after_king_step(pos, from, f_sq, them) && !pos.is_attacked_by(g_sq, them) {
            out.push(
                Move {
                    from,
                    to: g_sq,
                    path_kind: 0,
                    stop_index: 0,
                    special: SpecialMove::Castle,
                    promo_piece: PieceType::Empty,
                },
            );
        }
    }
    let ghost after_king_side = out@;
    // Queenside
    let qs_flag: u8 = if us == Color::White {
        CASTLE_WQ
    } else {
        CASTLE_BQ
    };
    if pos.castling_rights & qs_flag != 0 {
        let d_sq = make_square(castle_rank, 3);
        let c_sq = make_square(castle_rank, 2);
        let b_sq = make_square(castle_rank, 1);
        if pos.board[d_sq as usize].is_empty() && pos.board[c_sq as usize].is_empty() && pos.board[b_sq as usize].is_empty()
            && !pos.is_attacked_by(from, them) && !attacked_after_king_step(pos, from, d_sq, them) && !pos.is_attacked_by(
            c_sq,
            them,
        ) {
            out.push(
                Move {
                    from,
                    to: c_sq,
                    path_kind: 0,
                    stop_index: 0,
                    special: SpecialMove::Castle,
                    promo_piece: PieceType::Empty,
                },
            );
        }
    }
    assert(out@ =~= old(out)@ + castles(pos.board@, pos.castling_rights, from, us));
}

/// Generate king moves (normal steps, then castling).
fn gen_king_moves(pos: &Position, from: Square, us: Color, out: &mut Vec<Move>)
    requires
        from < 64,
    ensures
        final(out)@ == old(out)@ + king_steps(pos.board@, from, us, 0) + castles(
            pos.board@,
            pos.castling_rights,
            from,
            us,
        ),
{
    let ghost board = pos.board@;
    let mut dir: usize = 0;
    while dir < 8
        invariant
            from < 64,
            dir <= 8,
            board == pos.board@,
            old(out)@ + king_steps(board, from, us, 0) == out@ + king_steps(board, from, us, dir as nat),
        decreases 8 - dir,
    {
        let ghost before = out@;
        gen_king_step(pos, from, us, dir, out);
        assert(before + king_steps(board, from, us, dir as nat) =~= out@ + king_steps(board, from, us, (dir + 1) as nat));
        dir += 1;
    }
    assert(out@ =~= old(out)@ + king_steps(board, from, us, 0));
    gen_castles(pos, from, us, out);
}

/// The moves of the piece of `us` standing on `from`.
fn gen_piece_moves(pos: &Position, from: Square, us: Color, out: &mut Vec<Move>)
    requires
        from < 64,
    ensures
        final(out)@ == old(out)@ + piece_moves(pos.board@, pos.ep_square, pos.castling_rights, from, us),
{
    reveal(piece_moves);
    match pos.board[from as usize].piece_type {
        PieceType::Pawn => gen_pawn_moves(pos, from, us, out),
        PieceType::Knight => gen_knight_moves(pos, from, us, out),
        PieceType::Bishop => gen_slider_moves(pos, from, us, 4, 8, out),
        PieceType::Rook => gen_slider_moves(pos, from, us, 0, 4, out),
        PieceType::Queen => gen_slider_moves(pos, from, us, 0, 8, out),
        PieceType::King => gen_king_moves(pos, from, us, out),
        PieceType::Empty => {
            assert(out@ =~= old(out)@ + piece_moves(pos.board@, pos.ep_square, pos.castling_rights, from, us));
        },
    }
}

/// Generate all pseudo-legal moves for the side to move, appending them to
/// `out` square by square.
pub fn generate_pseudo_legal_moves(pos: &Position, out: &mut Vec<Move>)
    ensures
        final(out)@ == old(out)@ + pseudo_legal(pos),
{
    let us = pos.side_to_move;
    let ghost board = pos.board@;
    let mut sq: u8 = 0;
    while sq < 64
        invariant
            sq <= 64,
            us == pos.side_to_move,
            board == pos.board@,
            old(out)@ + pseudo_legal(pos) == out@ + pseudo_from(board, pos.ep_square, pos.castling_rights, us, sq as nat),
        decreases 64 - sq,
    {
        let ghost before = out@;
        if pos.board[sq as usize].is_color(us) {
            gen_piece_moves(pos, sq, us, out);
        }
        assert(before + pseudo_from(board, pos.ep_square, pos.castling_rights, us, sq as nat) =~= out@ + pseudo_from(
            board,
            pos.ep_square,
            pos.castling_rights,
            us,
            (sq + 1) as nat,
        ));
        sq += 1;
    }
    assert(out@ =~= out@ + pseudo_from(board, pos.ep_square, pos.castling_rights, us, sq as nat));
}

/// Generate all legal moves for the side to move: each pseudo-legal move is
/// made, kept when it leaves the mover's king unattacked, and unmade again.
/// The position comes back as it was.
pub fn generate_legal_moves(pos: &mut Position, out: &mut Vec<Move>)
    requires
        old(pos).castling_rights < 16,
        old(pos).halfmove_clock < u16::MAX,
        old(pos).side_to_move == Color::Black ==> old(pos).fullmove_number < u16::MAX,
    ensures
        final(out)@ == old(out)@ + legal_moves(old(pos)),
        final(pos).board == old(pos).board,
        final(pos).side_to_move == old(pos).side_to_move,
        final(pos).castling_rights == old(pos).castling_rights,
        final(pos).ep_square == old(pos).ep_square,
        final(pos).halfmove_clock == old(pos).halfmove_clock,
        final(pos).fullmove_number == old(pos).fullmove_number,
        final(pos).king_sq == old(pos).king_sq,
        final(pos).zobrist == old(pos).zobrist,
        final(pos).undo_stack@ == old(pos).undo_stack@,
{
    let ghost p0 = *old(pos);
    let us = pos.side_to_move;
    let mut moves: Vec<Move> = Vec::new();
    generate_pseudo_legal_moves(pos, &mut moves);
    proof {
        lemma_pseudo_legal_makeable(&p0);
    }
    assert(moves@ =~= pseudo_legal(&p0));
    let n = moves.len();
    let mut i: usize = 0;
    while i < n
        invariant
            n == moves@.len(),
            i <= n,
            moves@ == pseudo_legal(&p0),
            all_makeable(p0.board@, moves@),
            us == p0.side_to_move,
            p0.castling_rights < 16,
            p0.halfmove_clock < u16::MAX,
            p0.side_to_move == Color::Black ==> p0.fullmove_number < u16::MAX,
            pos.board == p0.board,
            pos.side_to_move == p0.side_to_move,
            pos.castling_rights == p0.castling_rights,
            pos.ep_square == p0.ep_square,
            pos.halfmove_clock == p0.halfmove_clock,
            pos.fullmove_number == p0.fullmove_number,
            pos.king_sq == p0.king_sq,
            pos.zobrist == p0.zobrist,
            pos.undo_stack@ == p0.undo_stack@,
            out@ == old(out)@ + legal_prefix(&p0, moves@, i as nat),
        decreases n - i,
    {
        let m = moves[i];
        assert(makeable(p0.board@, moves@[i as int]));
        let ghost before = *pos;
        pos.make_move(&m);
        let ghost made = *pos;
        let in_check = pos.in_check_color(us);
        proof {
            let changes = move_changes(before.board@, m, us);
            lemma_restore_undoes_change(before.board@, made.board@, changes);
        }
        pos.unmake_move();
        assert(pos.board@ =~= p0.board@);
        assert(pos.undo_stack@ =~= p0.undo_stack@);
        if !in_check {
            out.push(m);
        }
        assert(legal_prefix(&p0, moves@, (i + 1) as nat) == if leaves_king_safe(&p0, moves@[i as int]) {
            legal_prefix(&p0, moves@, i as nat).push(moves@[i as int])
        } else {
            legal_prefix(&p0, moves@, i as nat)
        });
        i += 1;
    }
}

/// Whether `make_move` accepts `m` on `pos`: squares on the board, castling
/// rights that index the key table, counters that do not overflow and, for
/// an ordinary move or a promotion, a push that resolves.
pub fn can_make_move(pos: &Position, m: &Move) -> (b: bool)
    ensures
        b == can_make(pos, *m),
{
    if m.from >= 64 || m.to >= 64 || pos.castling_rights >= 16 {
        return false;
    }
    if pos.side_to_move == Color::Black && pos.fullmove_number == u16::MAX {
        return false;
    }
    if m.special == SpecialMove::Castle {
        return pos.halfmove_clock < u16::MAX;
    }
    if m.special == SpecialMove::EnPassant {
        return true;
    }
    let plan = if pos.board[m.from as usize].piece_type == PieceType::Knight {
        resolve_knight_push(pos, m.from, m.to, m.path_kind == 1)
    } else {
        let rd = rank_of(m.to) - rank_of(m.from);
        let fd = file_of(m.to) - file_of(m.from);
        let dr: i32 = if rd > 0 {
            1
        } else if rd < 0 {
            -1
        } else {
            0
        };
        let dc: i32 = if fd > 0 {
            1
        } else if fd < 0 {
            -1
        } else {
            0
        };
        resolve_push(pos, m.from, m.to, dr, dc)
    };
    match plan {
        None => false,
        Some(p) => {
            if pos.board[m.from as usize].piece_type == PieceType::Pawn || p.captured().is_some() {
                true
            } else {
                pos.halfmove_clock < u16::MAX
            }
        },
    }
}

/// Castling needs the squares between king and rook empty: a castling move
/// among the position's pseudo-legal (so also its legal) moves to the c-file
/// has the b-, c- and d-squares of its rank empty, and one to the g-file the
/// f- and g-squares.
pub proof fn lemma_castle_needs_empty_path(p: &Position, m: Move)
    requires
        pseudo_legal(p).contains(m) || legal_moves(p).contains(m),
        m.special == SpecialMove::Castle,
    ensures
        spec_file_of(m.to) == 2 ==> p.board@[spec_rank_of(m.to) * 8 + 1].spec_is_empty()
            && p.board@[spec_rank_of(m.to) * 8 + 2].spec_is_empty() && p.board@[spec_rank_of(m.to) * 8 + 3].spec_is_empty(),
        spec_file_of(m.to) == 6 ==> p.board@[spec_rank_of(m.to) * 8 + 5].spec_is_empty()
            && p.board@[spec_rank_of(m.to) * 8 + 6].spec_is_empty(),
{
    if legal_moves(p).contains(m) {
        lemma_legal_is_pseudo(p, m);
    }
    lemma_pseudo_legal_makeable(p);
    let j = choose|j: int| 0 <= j < pseudo_legal(p).len() && pseudo_legal(p)[j] == m;
    assert(makeable(p.board@, pseudo_legal(p)[j]));
}

} // verus!

//! Positions: the board, the state that the rules track, and the undo stack.
use vstd::prelude::*;
use arrayvec::ArrayVec;
use super::bounded::{changed_clone, changed_get, changed_items, changed_len, changed_new, changed_push};
use super::push::{
    PlanSpec, PushPlan, apply_plan, lemma_apply_plan_frame, plan_on_board, plan_touches, resolve_knight_push,
    ray_on_board, ray_sq, resolve_push, sign, spec_resolve_knight_push, spec_resolve_push,
};
use super::zobrist::{
    board_hash, castling_key, ep_key, keys_on, lemma_board_hash_delta, lemma_overwrite_complete,
    lemma_xor_zero, piece_key, piece_key_index, position_hash, side_key, spec_castling_key, spec_ep_key,
    spec_side_key, square_key, stream_key,
};
use super::types::{
    Color, Move, Piece, PieceType, Square, SpecialMove, castling_after_move, file_of, make_square, opponent,
    rank_of, spec_castling_after_move, spec_file_of, spec_make_square, spec_opponent, spec_rank_of,
    spec_valid_rf, valid_rf,
};

verus! {

/// What `make_move` needs to restore the position it changed.
pub struct UndoInfo {
    pub mv: Move,
    pub changed: ArrayVec<(Square, Piece), 32>,
    pub castling_rights: u8,
    pub ep_square: Square,
    pub halfmove_clock: u16,
    pub zobrist: u64,
    pub king_sq: [Square; 2],
}

impl UndoInfo {
    /// The recorded (square, previous piece) pairs, in recording order.
    pub open spec fn changed(&self) -> Seq<(Square, Piece)> {
        changed_items(self.changed)
    }

    /// A record that has saved nothing yet.
    pub fn new() -> (u: Self)
        ensures
            u.changed() == Seq::<(Square, Piece)>::empty(),
            u.mv == Move::null(),
            u.castling_rights == 0,
            u.ep_square == 64,
            u.halfmove_clock == 0,
            u.zobrist == 0,
            u.king_sq@ == seq![4u8, 60u8],
    {
        UndoInfo {
            mv: Move::default(),
            changed: changed_new(),
            castling_rights: 0,
            ep_square: 64,
            halfmove_clock: 0,
            zobrist: 0,
            king_sq: [4, 60],
        }
    }
}

/// Whether `sq` is already listed.
pub open spec fn lists_square(list: Seq<(Square, Piece)>, sq: Square) -> bool {
    exists|i: int| 0 <= i < list.len() && #[trigger] list[i].0 == sq
}

/// `list` with (`sq`, `piece`) appended unless `sq` is already listed.
pub open spec fn record(list: Seq<(Square, Piece)>, sq: Square, piece: Piece) -> Seq<(Square, Piece)> {
    if lists_square(list, sq) {
        list
    } else {
        list.push((sq, piece))
    }
}

/// No square is listed twice and every listed square is on the board.
pub open spec fn distinct_squares(list: Seq<(Square, Piece)>) -> bool {
    &&& forall|i: int| 0 <= i < list.len() ==> #[trigger] list[i].0 < 64
    &&& forall|i: int, j: int| 0 <= i < j < list.len() ==> list[i].0 != list[j].0
}

/// The listed squares, in order.
pub open spec fn squares_of(list: Seq<(Square, Piece)>) -> Seq<Square> {
    Seq::new(list.len(), |i: int| list[i].0)
}

/// `board` with the first `n` listed squares given back their listed pieces.
pub open spec fn restore(board: Seq<Piece>, list: Seq<(Square, Piece)>, n: nat) -> Seq<Piece>
    decreases n,
{
    if n == 0 || n > list.len() {
        board
    } else {
        restore(board, list, (n - 1) as nat).update(list[n - 1].0 as int, list[n - 1].1)
    }
}

impl UndoInfo {
    /// Save the previous piece of `sq`, unless the square is already saved.
    pub fn add_changed(&mut self, sq: Square, old_piece: Piece)
        requires
            old(self).changed().len() < 32 || lists_square(old(self).changed(), sq),
        ensures
            final(self).changed() == record(old(self).changed(), sq, old_piece),
            final(self).mv == old(self).mv,
            final(self).castling_rights == old(self).castling_rights,
            final(self).ep_square == old(self).ep_square,
            final(self).halfmove_clock == old(self).halfmove_clock,
            final(self).zobrist == old(self).zobrist,
            final(self).king_sq == old(self).king_sq,
    {
        let n = changed_len(&self.changed);
        let mut i: usize = 0;
        while i < n
            invariant
                n == self.changed().len(),
                i <= n,
                forall|j: int| 0 <= j < i ==> #[trigger] self.changed()[j].0 != sq,
            decreases n - i,
        {
            let (changed_sq, _) = changed_get(&self.changed, i);
            if changed_sq == sq {
                return;
            }
            i += 1;
        }
        changed_push(&mut self.changed, (sq, old_piece));
    }
}


/// Every listed square holds, in the list, the piece it has on `board`.
pub open spec fn records_board(list: Seq<(Square, Piece)>, board: Seq<Piece>) -> bool {
    forall|i: int| 0 <= i < list.len() ==> (#[trigger] list[i]).1 == board[list[i].0 as int]
}

/// A faithful undo list for a change from `before` to `after`: distinct
/// squares on the board, the pieces they had before, and every square where
/// the two boards differ.
pub open spec fn faithful_record(list: Seq<(Square, Piece)>, before: Seq<Piece>, after: Seq<Piece>) -> bool {
    &&& distinct_squares(list)
    &&& records_board(list, before)
    &&& forall|q: int| 0 <= q < 64 && before[q] != after[q] ==> lists_square(list, q as Square)
}

/// The key of a piece of color `c` and type `pt` on `sq`.
pub open spec fn pk(c: Color, pt: PieceType, sq: Square) -> u64 {
    stream_key(piece_key_index(c.spec_index(), pt.spec_index(), sq as int))
}

pub open spec fn home_rank(us: Color) -> int {
    if us == Color::White {
        0
    } else {
        7
    }
}

/// The rook's (from, to) squares of a castling king move to `king_to`.
pub open spec fn castle_rook_squares(us: Color, king_to: Square) -> (Square, Square) {
    if spec_file_of(king_to) == 6 {
        (spec_make_square(home_rank(us), 7), spec_make_square(home_rank(us), 5))
    } else {
        (spec_make_square(home_rank(us), 0), spec_make_square(home_rank(us), 3))
    }
}

pub open spec fn castle_board(board: Seq<Piece>, m: Move, us: Color) -> Seq<Piece> {
    let (rf, rt) = castle_rook_squares(us, m.to);
    let b1 = board.update(m.to as int, board[m.from as int]).update(m.from as int, Piece::empty());
    b1.update(rt as int, b1[rf as int]).update(rf as int, Piece::empty())
}

pub open spec fn castle_changes(board: Seq<Piece>, m: Move, us: Color) -> Seq<(Square, Piece)> {
    let (rf, rt) = castle_rook_squares(us, m.to);
    record(
        record(
            record(record(Seq::empty(), m.from, board[m.from as int]), m.to, board[m.to as int]),
            rf,
            board[rf as int],
        ),
        rt,
        board[rt as int],
    )
}

pub open spec fn castle_z(z: u64, m: Move, us: Color) -> u64 {
    let (rf, rt) = castle_rook_squares(us, m.to);
    (((z ^ pk(us, PieceType::King, m.from)) ^ pk(us, PieceType::King, m.to)) ^ pk(
        us,
        PieceType::Rook,
        rf,
    )) ^ pk(us, PieceType::Rook, rt)
}

/// The square of the pawn that an en-passant capture removes.
pub open spec fn ep_capture_square(m: Move) -> Square {
    spec_make_square(spec_rank_of(m.from), spec_file_of(m.to))
}

pub open spec fn ep_board(board: Seq<Piece>, m: Move) -> Seq<Piece> {
    board.update(m.to as int, board[m.from as int]).update(m.from as int, Piece::empty()).update(
        ep_capture_square(m) as int,
        Piece::empty(),
    )
}

pub open spec fn ep_changes(board: Seq<Piece>, m: Move) -> Seq<(Square, Piece)> {
    let cap = ep_capture_square(m);
    record(
        record(record(Seq::empty(), m.from, board[m.from as int]), m.to, board[m.to as int]),
        cap,
        board[cap as int],
    )
}

pub open spec fn ep_z(z: u64, m: Move, us: Color) -> u64 {
    ((z ^ pk(us, PieceType::Pawn, m.from)) ^ pk(us, PieceType::Pawn, m.to)) ^ pk(
        spec_opponent(us),
        PieceType::Pawn,
        ep_capture_square(m),
    )
}

/// The push plan of an ordinary move or promotion: the knight route that the
/// path kind selects, or the straight line towards the destination.
pub open spec fn move_plan(board: Seq<Piece>, m: Move) -> Option<PlanSpec> {
    if board[m.from as int].piece_type == PieceType::Knight {
        spec_resolve_knight_push(board, m.from, m.to, m.path_kind == 1)
    } else {
        spec_resolve_push(
            board,
            m.from,
            m.to,
            sign(spec_rank_of(m.to) - spec_rank_of(m.from)),
            sign(spec_file_of(m.to) - spec_file_of(m.from)),
        )
    }
}

/// The undo list after recording both squares of the first `n` displacements.
pub open spec fn record_moves(board: Seq<Piece>, moves: Seq<(Square, Square)>, n: nat) -> Seq<(Square, Piece)>
    decreases n,
{
    if n == 0 || n > moves.len() {
        Seq::empty()
    } else {
        let prev = record_moves(board, moves, (n - 1) as nat);
        let (f, t) = moves[n - 1];
        record(record(prev, f, board[f as int]), t, board[t as int])
    }
}

pub open spec fn plan_changes(board: Seq<Piece>, plan: PlanSpec) -> Seq<(Square, Piece)> {
    let moved = record_moves(board, plan.0, plan.0.len());
    match plan.1 {
        Some(sq) => record(moved, sq, board[sq as int]),
        None => moved,
    }
}

pub open spec fn promotion_rank(us: Color) -> int {
    if us == Color::White {
        7
    } else {
        0
    }
}

/// Promote the first displaced pawn of `us`, from the `i`-th displacement on,
/// that stands on its promotion rank.
pub open spec fn promote_from(board: Seq<Piece>, moves: Seq<(Square, Square)>, us: Color, promo: PieceType, i: nat) -> Seq<Piece>
    decreases moves.len() - i,
{
    if i >= moves.len() {
        board
    } else {
        let t = moves[i as int].1;
        let p = board[t as int];
        if p.piece_type == PieceType::Pawn && p.color == us && spec_rank_of(t) == promotion_rank(us) {
            board.update(t as int, Piece { piece_type: promo, color: p.color })
        } else {
            promote_from(board, moves, us, promo, i + 1)
        }
    }
}

pub open spec fn plan_board(board: Seq<Piece>, plan: PlanSpec, us: Color, promo: PieceType) -> Seq<Piece> {
    let after = apply_plan(board, plan);
    if promo != PieceType::Empty {
        promote_from(after, plan.0, us, promo, 0)
    } else {
        after
    }
}

/// King squares after the first `n` displacements have been scanned for kings.
pub open spec fn kings_after(kings: Seq<Square>, board: Seq<Piece>, moves: Seq<(Square, Square)>, n: nat) -> Seq<Square>
    decreases n,
{
    if n == 0 || n > moves.len() {
        kings
    } else {
        let prev = kings_after(kings, board, moves, (n - 1) as nat);
        let t = moves[n - 1].1;
        if board[t as int].piece_type == PieceType::King {
            prev.update(board[t as int].color.spec_index(), t)
        } else {
            prev
        }
    }
}

/// The board after a move.
pub open spec fn board_after(board: Seq<Piece>, m: Move, us: Color) -> Seq<Piece> {
    match m.special {
        SpecialMove::Castle => castle_board(board, m, us),
        SpecialMove::EnPassant => ep_board(board, m),
        _ => plan_board(board, move_plan(board, m).unwrap(), us, m.promo_piece),
    }
}

/// The undo list of a move: each square it changes, with its previous piece.
pub open spec fn move_changes(board: Seq<Piece>, m: Move, us: Color) -> Seq<(Square, Piece)> {
    match m.special {
        SpecialMove::Castle => castle_changes(board, m, us),
        SpecialMove::EnPassant => ep_changes(board, m),
        _ => plan_changes(board, move_plan(board, m).unwrap()),
    }
}

pub open spec fn kings_after_move(kings: Seq<Square>, board: Seq<Piece>, m: Move, us: Color) -> Seq<Square> {
    match m.special {
        SpecialMove::Castle => kings.update(us.spec_index(), m.to),
        SpecialMove::EnPassant => kings,
        _ => {
            let plan = move_plan(board, m).unwrap();
            kings_after(kings, board_after(board, m, us), plan.0, plan.0.len())
        },
    }
}

pub open spec fn halfmove_after(board: Seq<Piece>, clock: u16, m: Move) -> int {
    match m.special {
        SpecialMove::Castle => clock + 1,
        SpecialMove::EnPassant => 0,
        _ => if board[m.from as int].piece_type == PieceType::Pawn || move_plan(board, m).unwrap().1 is Some {
            0
        } else {
            clock + 1
        },
    }
}

/// The en-passant square a move leaves: the square a pawn's double step passed.
pub open spec fn ep_after(board: Seq<Piece>, m: Move) -> Square {
    if m.special != SpecialMove::Castle && m.special != SpecialMove::EnPassant && board[m.from as int].piece_type
        == PieceType::Pawn && (spec_rank_of(m.to) - spec_rank_of(m.from) == 2 || spec_rank_of(m.from)
        - spec_rank_of(m.to) == 2) {
        spec_make_square((spec_rank_of(m.from) + spec_rank_of(m.to)) / 2, spec_file_of(m.from))
    } else {
        64
    }
}

/// The squares of the first `n` entries of an undo list, as a mask.
pub open spec fn affected_mask(list: Seq<(Square, Piece)>, n: nat) -> u64
    decreases n,
{
    if n == 0 || n > list.len() {
        0
    } else {
        affected_mask(list, (n - 1) as nat) | (1u64 << (list[n - 1].0 as u64))
    }
}

pub open spec fn board_z(board: Seq<Piece>, m: Move, us: Color, z: u64) -> u64 {
    match m.special {
        SpecialMove::Castle => castle_z(z, m, us),
        SpecialMove::EnPassant => ep_z(z, m, us),
        _ => {
            let squares = squares_of(move_changes(board, m, us));
            (z ^ keys_on(board, squares, squares.len())) ^ keys_on(
                board_after(board, m, us),
                squares,
                squares.len(),
            )
        },
    }
}

/// The hash `make_move` leaves: the previous value with the old en-passant
/// key, the changed pieces, both castling keys, the new en-passant key and
/// the side key XORed in, in that order.
pub open spec fn zobrist_after(
    z: u64,
    board: Seq<Piece>,
    m: Move,
    us: Color,
    rights: u8,
    new_rights: u8,
    ep: Square,
    new_ep: Square,
) -> u64 {
    let z1 = if ep < 64 {
        z ^ spec_ep_key(spec_file_of(ep))
    } else {
        z
    };
    let z2 = board_z(board, m, us, z1);
    let z3 = (z2 ^ spec_castling_key(rights as int)) ^ spec_castling_key(new_rights as int);
    let z4 = if new_ep < 64 {
        z3 ^ spec_ep_key(spec_file_of(new_ep))
    } else {
        z3
    };
    z4 ^ spec_side_key()
}

/// The pieces a castling or en-passant move expects: the moving pieces on
/// their squares and empty destinations. Other moves read the board itself.
pub open spec fn move_fits_board(board: Seq<Piece>, m: Move, us: Color) -> bool {
    match m.special {
        SpecialMove::Castle => {
            let (rf, rt) = castle_rook_squares(us, m.to);
            &&& board[m.from as int] == Piece { piece_type: PieceType::King, color: us }
            &&& board[rf as int] == Piece { piece_type: PieceType::Rook, color: us }
            &&& board[m.to as int].spec_is_empty()
            &&& board[rt as int].spec_is_empty()
            &&& m.from != m.to && m.from != rf && m.from != rt && m.to != rf && m.to != rt && rf != rt
        },
        SpecialMove::EnPassant => {
            let cap = ep_capture_square(m);
            &&& board[m.from as int] == Piece { piece_type: PieceType::Pawn, color: us }
            &&& board[cap as int] == Piece { piece_type: PieceType::Pawn, color: spec_opponent(us) }
            &&& board[m.to as int].spec_is_empty()
            &&& m.from != m.to && m.from != cap && m.to != cap
        },
        _ => true,
    }
}

/// What `make_move` needs: squares on the board, a resolvable push for an
/// ordinary move, castling rights that index the key table, and counters
/// that do not overflow.
pub open spec fn can_make(p: &Position, m: Move) -> bool {
    &&& m.from < 64
    &&& m.to < 64
    &&& p.castling_rights < 16
    &&& (m.special != SpecialMove::Castle && m.special != SpecialMove::EnPassant) ==> move_plan(p.board@, m) is Some
    &&& halfmove_after(p.board@, p.halfmove_clock, m) <= u16::MAX
    &&& p.side_to_move == Color::Black ==> p.fullmove_number < u16::MAX
}

proof fn lemma_record(list: Seq<(Square, Piece)>, sq: Square, piece: Piece, board: Seq<Piece>)
    ensures
        lists_square(record(list, sq, piece), sq),
        forall|q: Square| lists_square(list, q) ==> lists_square(record(list, sq, piece), q),
        forall|q: Square| lists_square(record(list, sq, piece), q) ==> lists_square(list, q) || q == sq,
        record(list, sq, piece).len() <= list.len() + 1,
        distinct_squares(list) && sq < 64 ==> distinct_squares(record(list, sq, piece)),
        records_board(list, board) && piece == board[sq as int] ==> records_board(record(list, sq, piece), board),
{
    let r = record(list, sq, piece);
    if !lists_square(list, sq) {
        assert(r[list.len() as int].0 == sq);
        assert forall|q: Square| lists_square(list, q) implies lists_square(r, q) by {
            let i = choose|i: int| 0 <= i < list.len() && #[trigger] list[i].0 == q;
            assert(r[i].0 == q);
        }
        assert forall|q: Square| lists_square(r, q) implies lists_square(list, q) || q == sq by {
            let i = choose|i: int| 0 <= i < r.len() && #[trigger] r[i].0 == q;
            if i < list.len() {
                assert(list[i].0 == q);
            }
        }
        if distinct_squares(list) && sq < 64 {
            assert forall|i: int, j: int| 0 <= i < j < r.len() implies r[i].0 != r[j].0 by {
                if j == list.len() {
                    assert(list[i].0 != sq);
                }
            }
        }
    }
}

/// Castling: the king moves two squares and the rook hops over it.
fn make_castle(board: &mut [Piece; 64], undo: &mut UndoInfo, m: Move, us: Color, z: u64) -> (z2: u64)
    requires
        m.from < 64,
        m.to < 64,
        old(undo).changed().len() == 0,
    ensures
        final(board)@ == castle_board(old(board)@, m, us),
        final(undo).changed() == castle_changes(old(board)@, m, us),
        faithful_record(final(undo).changed(), old(board)@, final(board)@),
        z2 == castle_z(z, m, us),
        final(undo).mv == old(undo).mv,
        final(undo).castling_rights == old(undo).castling_rights,
        final(undo).ep_square == old(undo).ep_square,
        final(undo).halfmove_clock == old(undo).halfmove_clock,
        final(undo).zobrist == old(undo).zobrist,
        final(undo).king_sq == old(undo).king_sq,
{
    let ghost before = board@;
    let rank: i32 = if us == Color::White {
        0
    } else {
        7
    };
    let (rook_from, rook_to) = if file_of(m.to) == 6 {
        (make_square(rank, 7), make_square(rank, 5))
    } else {
        (make_square(rank, 0), make_square(rank, 3))
    };
    assert((rook_from, rook_to) == castle_rook_squares(us, m.to));
    let ghost l0 = undo.changed();
    proof {
        assert(l0 =~= Seq::<(Square, Piece)>::empty());
        lemma_record(l0, m.from, before[m.from as int], before);
    }
    undo.add_changed(m.from, board[m.from as usize]);
    let ghost l1 = undo.changed();
    proof {
        lemma_record(l1, m.to, before[m.to as int], before);
    }
    undo.add_changed(m.to, board[m.to as usize]);
    let ghost l2 = undo.changed();
    proof {
        lemma_record(l2, rook_from, before[rook_from as int], before);
    }
    undo.add_changed(rook_from, board[rook_from as usize]);
    let ghost l3 = undo.changed();
    proof {
        lemma_record(l3, rook_to, before[rook_to as int], before);
    }
    undo.add_changed(rook_to, board[rook_to as usize]);
    let mut z = z;
    z = z ^ piece_key(us, PieceType::King, m.from);
    z = z ^ piece_key(us, PieceType::King, m.to);
    z = z ^ piece_key(us, PieceType::Rook, rook_from);
    z = z ^ piece_key(us, PieceType::Rook, rook_to);
    board[m.to as usize] = board[m.from as usize];
    board[m.from as usize] = Piece { piece_type: PieceType::Empty, color: Color::White };
    board[rook_to as usize] = board[rook_from as usize];
    board[rook_from as usize] = Piece { piece_type: PieceType::Empty, color: Color::White };
    proof {
        let after = board@;
        assert forall|q: int| 0 <= q < 64 && before[q] != after[q] implies lists_square(
            undo.changed(),
            q as Square,
        ) by {
            assert(q == m.from || q == m.to || q == rook_from || q == rook_to);
        }
    }
    z
}

/// En passant: the pawn moves diagonally and the pawn it passes is removed.
fn make_en_passant(board: &mut [Piece; 64], undo: &mut UndoInfo, m: Move, us: Color, z: u64) -> (z2: u64)
    requires
        m.from < 64,
        m.to < 64,
        old(undo).changed().len() == 0,
    ensures
        final(board)@ == ep_board(old(board)@, m),
        final(undo).changed() == ep_changes(old(board)@, m),
        faithful_record(final(undo).changed(), old(board)@, final(board)@),
        z2 == ep_z(z, m, us),
        final(undo).mv == old(undo).mv,
        final(undo).castling_rights == old(undo).castling_rights,
        final(undo).ep_square == old(undo).ep_square,
        final(undo).halfmove_clock == old(undo).halfmove_clock,
        final(undo).zobrist == old(undo).zobrist,
        final(undo).king_sq == old(undo).king_sq,
{
    let ghost before = board@;
    let cap_sq = make_square(rank_of(m.from), file_of(m.to));
    let ghost l0 = undo.changed();
    proof {
        assert(l0 =~= Seq::<(Square, Piece)>::empty());
        lemma_record(l0, m.from, before[m.from as int], before);
    }
    undo.add_changed(m.from, board[m.from as usize]);
    let ghost l1 = undo.changed();
    proof {
        lemma_record(l1, m.to, before[m.to as int], before);
    }
    undo.add_changed(m.to, board[m.to as usize]);
    let ghost l2 = undo.changed();
    proof {
        lemma_record(l2, cap_sq, before[cap_sq as int], before);
    }
    undo.add_changed(cap_sq, board[cap_sq as usize]);
    let them = opponent(us);
    let mut z = z;
    z = z ^ piece_key(us, PieceType::Pawn, m.from);
    z = z ^ piece_key(us, PieceType::Pawn, m.to);
    z = z ^ piece_key(them, PieceType::Pawn, cap_sq);
    board[m.to as usize] = board[m.from as usize];
    board[m.from as usize] = Piece { piece_type: PieceType::Empty, color: Color::White };
    board[cap_sq as usize] = Piece { piece_type: PieceType::Empty, color: Color::White };
    proof {
        let after = board@;
        assert forall|q: int| 0 <= q < 64 && before[q] != after[q] implies lists_square(
            undo.changed(),
            q as Square,
        ) by {
            assert(q == m.from || q == m.to || q == cap_sq);
        }
    }
    z
}

proof fn lemma_record_moves(board: Seq<Piece>, moves: Seq<(Square, Square)>, n: nat)
    requires
        n <= moves.len(),
        forall|i: int| 0 <= i < moves.len() ==> (#[trigger] moves[i]).0 < 64 && moves[i].1 < 64,
    ensures
        record_moves(board, moves, n).len() <= 2 * n,
        distinct_squares(record_moves(board, moves, n)),
        records_board(record_moves(board, moves, n), board),
        forall|i: int|
            0 <= i < n ==> lists_square(record_moves(board, moves, n), (#[trigger] moves[i]).0)
                && lists_square(record_moves(board, moves, n), moves[i].1),
    decreases n,
{
    if n > 0 {
        lemma_record_moves(board, moves, (n - 1) as nat);
        let prev = record_moves(board, moves, (n - 1) as nat);
        let (f, t) = moves[n - 1];
        lemma_record(prev, f, board[f as int], board);
        lemma_record(record(prev, f, board[f as int]), t, board[t as int], board);
    }
}

proof fn lemma_promote_from(board: Seq<Piece>, moves: Seq<(Square, Square)>, us: Color, promo: PieceType, i: nat)
    requires
        board.len() == 64,
        forall|k: int| 0 <= k < moves.len() ==> (#[trigger] moves[k]).1 < 64,
    ensures
        promote_from(board, moves, us, promo, i).len() == 64,
        forall|q: int|
            0 <= q < 64 && promote_from(board, moves, us, promo, i)[q] != board[q] ==> exists|k: int|
                0 <= k < moves.len() && (#[trigger] moves[k]).1 == q,
    decreases moves.len() - i,
{
    if i < moves.len() {
        lemma_promote_from(board, moves, us, promo, i + 1);
    }
}

/// An ordinary move or promotion: apply the push plan, then promote the
/// first displaced pawn of the mover that reached its last rank.
fn make_plan(board: &mut [Piece; 64], undo: &mut UndoInfo, plan: &PushPlan, us: Color, promo: PieceType, z: u64) -> (z2: u64)
    requires
        plan_on_board(plan@),
        plan@.0.len() <= 15,
        old(undo).changed().len() == 0,
    ensures
        final(board)@ == plan_board(old(board)@, plan@, us, promo),
        final(undo).changed() == plan_changes(old(board)@, plan@),
        faithful_record(final(undo).changed(), old(board)@, final(board)@),
        z2 == (z ^ keys_on(old(board)@, squares_of(final(undo).changed()), final(undo).changed().len()))
            ^ keys_on(final(board)@, squares_of(final(undo).changed()), final(undo).changed().len()),
        final(undo).mv == old(undo).mv,
        final(undo).castling_rights == old(undo).castling_rights,
        final(undo).ep_square == old(undo).ep_square,
        final(undo).halfmove_clock == old(undo).halfmove_clock,
        final(undo).zobrist == old(undo).zobrist,
        final(undo).king_sq == old(undo).king_sq,
{
    let ghost before = board@;
    let ghost moves = plan@.0;
    let n = plan.len();
    proof {
        assert(undo.changed() =~= record_moves(before, moves, 0));
    }
    let mut i: usize = 0;
    while i < n
        invariant
            n == moves.len(),
            moves == plan@.0,
            n <= 15,
            i <= n,
            board@ == before,
            plan_on_board(plan@),
            undo.changed() == record_moves(before, moves, i as nat),
            undo.mv == old(undo).mv,
            undo.castling_rights == old(undo).castling_rights,
            undo.ep_square == old(undo).ep_square,
            undo.halfmove_clock == old(undo).halfmove_clock,
            undo.zobrist == old(undo).zobrist,
            undo.king_sq == old(undo).king_sq,
        decreases n - i,
    {
        proof {
            lemma_record_moves(before, moves, i as nat);
        }
        let (f_sq, t_sq) = plan.displacement(i);
        let ghost l = undo.changed();
        proof {
            lemma_record(l, f_sq, before[f_sq as int], before);
        }
        undo.add_changed(f_sq, board[f_sq as usize]);
        undo.add_changed(t_sq, board[t_sq as usize]);
        i += 1;
    }
    proof {
        lemma_record_moves(before, moves, n as nat);
    }
    if let Some(sq) = plan.captured() {
        proof {
            lemma_record(undo.changed(), sq, before[sq as int], before);
        }
        undo.add_changed(sq, board[sq as usize]);
    }
    let ghost changes = undo.changed();
    let ghost squares = squares_of(changes);
    proof {
        assert(changes == plan_changes(before, plan@));
        let moved = record_moves(before, moves, n as nat);
        if let Some(sq) = plan@.1 {
            lemma_record(moved, sq, before[sq as int], before);
        }
    }
    // XOR out all pieces at affected squares.
    let count = changed_len(&undo.changed);
    let mut z = z;
    let ghost z0 = z;
    proof {
        lemma_xor_zero(z0);
    }
    let mut k: usize = 0;
    while k < count
        invariant
            count == changes.len(),
            changes == undo.changed(),
            squares == squares_of(changes),
            distinct_squares(changes),
            k <= count,
            board@ == before,
            z == z0 ^ keys_on(before, squares, k as nat),
        decreases count - k,
    {
        let (sq, _) = changed_get(&undo.changed, k);
        let piece = board[sq as usize];
        proof {
            lemma_xor_zero(z);
            assert(squares[k as int] == sq);
            vstd::seq::axiom_seq_new_index(changes.len(), |i: int| changes[i].0, k as int);
            assert(z0 ^ keys_on(before, squares, (k + 1) as nat) == (z0 ^ keys_on(before, squares, k as nat)) ^ super::zobrist::spec_piece_key(piece, sq as int)) by {
                let a = keys_on(before, squares, k as nat);
                let b = super::zobrist::spec_piece_key(piece, sq as int);
                assert((z0 ^ (a ^ b)) == ((z0 ^ a) ^ b)) by (bit_vector);
            }
        }
        if !piece.is_empty() {
            z = z ^ piece_key(piece.color, piece.piece_type, sq);
        }
        k += 1;
    }
    plan.apply(board);
    let ghost applied = board@;
    proof {
        lemma_apply_plan_frame(before, plan@);
    }
    // Promote the mover or a pushed pawn.
    if promo != PieceType::Empty {
        let promo_rank: i32 = if us == Color::White {
            7
        } else {
            0
        };
        let mut i: usize = 0;
        while i < n
            invariant_except_break
                board@ == applied,
                promote_from(applied, moves, us, promo, 0) == promote_from(applied, moves, us, promo, i as nat),
            invariant
                n == moves.len(),
                moves == plan@.0,
                i <= n,
                plan_on_board(plan@),
                promo_rank == promotion_rank(us),
            ensures
                board@ == promote_from(applied, moves, us, promo, 0),
            decreases n - i,
        {
            let (_, to) = plan.displacement(i);
            let p = board[to as usize];
            if p.piece_type == PieceType::Pawn && p.color == us && rank_of(to) == promo_rank {
                board[to as usize] = Piece { piece_type: promo, color: p.color };
                break ;
            }
            i += 1;
        }
    }
    let ghost after = board@;
    proof {
        assert(after == plan_board(before, plan@, us, promo));
        lemma_promote_from(applied, moves, us, promo, 0);
        assert forall|q: int| 0 <= q < 64 && before[q] != after[q] implies lists_square(changes, q as Square) by {
            if applied[q] == before[q] {
                let k = choose|k: int| 0 <= k < moves.len() && (#[trigger] moves[k]).1 == q;
                assert(lists_square(record_moves(before, moves, n as nat), moves[k].1));
            } else {
                assert(plan_touches(plan@, q));
                if exists|k: int| 0 <= k < moves.len() && (#[trigger] moves[k]).0 == q {
                    let k = choose|k: int| 0 <= k < moves.len() && (#[trigger] moves[k]).0 == q;
                    assert(lists_square(record_moves(before, moves, n as nat), moves[k].0));
                } else if exists|k: int| 0 <= k < moves.len() && (#[trigger] moves[k]).1 == q {
                    let k = choose|k: int| 0 <= k < moves.len() && (#[trigger] moves[k]).1 == q;
                    assert(lists_square(record_moves(before, moves, n as nat), moves[k].1));
                }
            }
        }
    }
    // XOR in all pieces at affected squares.
    let ghost z1 = z;
    proof {
        lemma_xor_zero(z1);
    }
    let mut k: usize = 0;
    while k < count
        invariant
            count == changes.len(),
            changes == undo.changed(),
            squares == squares_of(changes),
            distinct_squares(changes),
            k <= count,
            board@ == after,
            z == z1 ^ keys_on(after, squares, k as nat),
        decreases count - k,
    {
        let (sq, _) = changed_get(&undo.changed, k);
        let piece = board[sq as usize];
        proof {
            lemma_xor_zero(z);
            assert(squares[k as int] == sq);
            assert(z1 ^ keys_on(after, squares, (k + 1) as nat) == (z1 ^ keys_on(after, squares, k as nat)) ^ super::zobrist::spec_piece_key(piece, sq as int)) by {
                let a = keys_on(after, squares, k as nat);
                let b = super::zobrist::spec_piece_key(piece, sq as int);
                assert((z1 ^ (a ^ b)) == ((z1 ^ a) ^ b)) by (bit_vector);
            }
        }
        if !piece.is_empty() {
            z = z ^ piece_key(piece.color, piece.piece_type, sq);
        }
        k += 1;
    }
    z
}

#[verifier::rlimit(60)]
proof fn lemma_castle_keys(board: Seq<Piece>, m: Move, us: Color, z: u64)
    requires
        board.len() == 64,
        m.from < 64,
        m.to < 64,
        m.special == SpecialMove::Castle,
        move_fits_board(board, m, us),
    ensures
        ({
            let squares = squares_of(move_changes(board, m, us));
            let after = board_after(board, m, us);
            castle_z(z, m, us) == (z ^ keys_on(board, squares, squares.len())) ^ keys_on(after, squares, squares.len())
        }),
{
    reveal_with_fuel(keys_on, 5);
    let squares = squares_of(move_changes(board, m, us));
    let after = board_after(board, m, us);
    let (rf, rt) = castle_rook_squares(us, m.to);
    let l1 = record(Seq::empty(), m.from, board[m.from as int]);
    let l2 = record(l1, m.to, board[m.to as int]);
    let l3 = record(l2, rf, board[rf as int]);
    assert(!lists_square(Seq::empty(), m.from));
    assert(l1 =~= seq![(m.from, board[m.from as int])]);
    assert(!lists_square(l1, m.to));
    assert(l2 =~= seq![(m.from, board[m.from as int]), (m.to, board[m.to as int])]);
    assert(!lists_square(l2, rf));
    assert(!lists_square(l3, rt));
    assert(squares =~= seq![m.from, m.to, rf, rt]);
    let a = pk(us, PieceType::King, m.from);
    let b = pk(us, PieceType::King, m.to);
    let c = pk(us, PieceType::Rook, rf);
    let d = pk(us, PieceType::Rook, rt);
    let ko = keys_on(board, squares, 4);
    let kn = keys_on(after, squares, 4);
    let o1 = (0u64 ^ a) ^ 0u64;
    let n1 = (0u64 ^ 0u64) ^ b;
    assert(ko == (o1 ^ c) ^ 0u64);
    assert(kn == (n1 ^ 0u64) ^ d);
    let r1 = (z ^ a) ^ b;
    assert((r1 ^ c) ^ d == (z ^ ko) ^ kn) by (bit_vector)
        requires
            o1 == (0u64 ^ a) ^ 0u64,
            n1 == (0u64 ^ 0u64) ^ b,
            ko == (o1 ^ c) ^ 0u64,
            kn == (n1 ^ 0u64) ^ d,
            r1 == (z ^ a) ^ b,
    ;
}

#[verifier::rlimit(60)]
proof fn lemma_en_passant_keys(board: Seq<Piece>, m: Move, us: Color, z: u64)
    requires
        board.len() == 64,
        m.from < 64,
        m.to < 64,
        m.special == SpecialMove::EnPassant,
        move_fits_board(board, m, us),
    ensures
        ({
            let squares = squares_of(move_changes(board, m, us));
            let after = board_after(board, m, us);
            ep_z(z, m, us) == (z ^ keys_on(board, squares, squares.len())) ^ keys_on(after, squares, squares.len())
        }),
{
    reveal_with_fuel(keys_on, 4);
    let squares = squares_of(move_changes(board, m, us));
    let after = board_after(board, m, us);
    let cap = ep_capture_square(m);
    let l1 = record(Seq::empty(), m.from, board[m.from as int]);
    let l2 = record(l1, m.to, board[m.to as int]);
    assert(!lists_square(Seq::empty(), m.from));
    assert(l1 =~= seq![(m.from, board[m.from as int])]);
    assert(!lists_square(l1, m.to));
    assert(l2 =~= seq![(m.from, board[m.from as int]), (m.to, board[m.to as int])]);
    assert(!lists_square(l2, cap));
    assert(squares =~= seq![m.from, m.to, cap]);
    let a = pk(us, PieceType::Pawn, m.from);
    let b = pk(us, PieceType::Pawn, m.to);
    let c = pk(spec_opponent(us), PieceType::Pawn, cap);
    let ko = keys_on(board, squares, 3);
    let kn = keys_on(after, squares, 3);
    let o1 = (0u64 ^ a) ^ 0u64;
    let n1 = (0u64 ^ 0u64) ^ b;
    assert(ko == o1 ^ c);
    assert(kn == n1 ^ 0u64);
    let r1 = (z ^ a) ^ b;
    assert(r1 ^ c == (z ^ ko) ^ kn) by (bit_vector)
        requires
            o1 == (0u64 ^ a) ^ 0u64,
            n1 == (0u64 ^ 0u64) ^ b,
            ko == o1 ^ c,
            kn == n1 ^ 0u64,
            r1 == (z ^ a) ^ b,
    ;
}

proof fn lemma_board_hash_by_record(board: Seq<Piece>, after: Seq<Piece>, changes: Seq<(Square, Piece)>)
    requires
        board.len() == 64,
        after.len() == 64,
        faithful_record(changes, board, after),
    ensures
        board_hash(after, 64) == board_hash(board, 64) ^ (keys_on(board, squares_of(changes), changes.len())
            ^ keys_on(after, squares_of(changes), changes.len())),
{
    let squares = squares_of(changes);
    assert forall|q: int|
        0 <= q < 64 && board[q] != after[q] implies exists|i: int| 0 <= i < squares.len() && #[trigger] squares[i] == q by {
        assert(lists_square(changes, q as Square));
        let i = choose|i: int| 0 <= i < changes.len() && #[trigger] changes[i].0 == q as Square;
        assert(squares[i] == q);
    }
    assert forall|i: int, j: int| 0 <= i < j < squares.len() implies squares[i] != squares[j] by {
        assert(changes[i].0 != changes[j].0);
    }
    assert forall|i: int| 0 <= i < squares.len() implies #[trigger] squares[i] < 64 by {
        assert(changes[i].0 < 64);
    }
    lemma_board_hash_delta(board, after, squares, squares.len());
    lemma_overwrite_complete(board, after, squares);
}

proof fn lemma_hash_tail(bo: u64, bn: u64, ko: u64, kn: u64, s: u64, co: u64, cn: u64, eo: u64, en: u64, black: bool)
    requires
        bn == bo ^ (ko ^ kn),
    ensures
        ({
            let z = if black { ((bo ^ s) ^ co) ^ eo } else { (bo ^ co) ^ eo };
            let tail = ((((((z ^ eo) ^ ko) ^ kn) ^ co) ^ cn) ^ en) ^ s;
            tail == if black { (bn ^ cn) ^ en } else { ((bn ^ s) ^ cn) ^ en }
        }),
{
    let base = if black { bo ^ s } else { bo };
    let z = (base ^ co) ^ eo;
    let a1 = z ^ eo;
    let a2 = (a1 ^ ko) ^ kn;
    let a3 = (a2 ^ co) ^ cn;
    let a4 = (a3 ^ en) ^ s;
    if black {
        assert(a4 == (bn ^ cn) ^ en) by (bit_vector)
            requires
                base == bo ^ s,
                z == (base ^ co) ^ eo,
                a1 == z ^ eo,
                a2 == (a1 ^ ko) ^ kn,
                a3 == (a2 ^ co) ^ cn,
                a4 == (a3 ^ en) ^ s,
                bn == bo ^ (ko ^ kn),
        ;
    } else {
        let bs = bn ^ s;
        assert(a4 == (bs ^ cn) ^ en) by (bit_vector)
            requires
                base == bo,
                z == (base ^ co) ^ eo,
                a1 == z ^ eo,
                a2 == (a1 ^ ko) ^ kn,
                a3 == (a2 ^ co) ^ cn,
                a4 == (a3 ^ en) ^ s,
                bn == bo ^ (ko ^ kn),
                bs == bn ^ s,
        ;
    }
}

/// The incremental hash of `make_move` equals the hash of the position it
/// produces, when the previous hash was right and a castling or en-passant
/// move finds its pieces where it expects them.
#[verifier::rlimit(60)]
pub proof fn lemma_hash_after_move(
    z: u64,
    board: Seq<Piece>,
    m: Move,
    us: Color,
    rights: u8,
    new_rights: u8,
    ep: Square,
    new_ep: Square,
)
    requires
        board.len() == 64,
        m.from < 64,
        m.to < 64,
        board_after(board, m, us).len() == 64,
        faithful_record(move_changes(board, m, us), board, board_after(board, m, us)),
        move_fits_board(board, m, us),
        z == position_hash(board, us, rights, ep),
    ensures
        zobrist_after(z, board, m, us, rights, new_rights, ep, new_ep) == position_hash(
            board_after(board, m, us),
            spec_opponent(us),
            new_rights,
            new_ep,
        ),
{
    let after = board_after(board, m, us);
    let changes = move_changes(board, m, us);
    let squares = squares_of(changes);
    let n = squares.len();
    lemma_board_hash_by_record(board, after, changes);
    let ko = keys_on(board, squares, n);
    let kn = keys_on(after, squares, n);
    let eo = if ep < 64 { spec_ep_key(spec_file_of(ep)) } else { 0u64 };
    let en = if new_ep < 64 { spec_ep_key(spec_file_of(new_ep)) } else { 0u64 };
    let z1 = if ep < 64 { z ^ spec_ep_key(spec_file_of(ep)) } else { z };
    lemma_xor_zero(z);
    assert(z1 == z ^ eo);
    if m.special == SpecialMove::Castle {
        lemma_castle_keys(board, m, us, z1);
    } else if m.special == SpecialMove::EnPassant {
        lemma_en_passant_keys(board, m, us, z1);
    }
    assert(board_z(board, m, us, z1) == (z1 ^ ko) ^ kn);
    let bo = board_hash(board, 64);
    let bn = board_hash(after, 64);
    let sk = spec_side_key();
    let co = spec_castling_key(rights as int);
    let cn = spec_castling_key(new_rights as int);
    let base = if us == Color::Black { bo ^ sk } else { bo };
    lemma_xor_zero((base ^ co));
    assert(z == (base ^ co) ^ eo);
    let z3 = (board_z(board, m, us, z1) ^ co) ^ cn;
    lemma_xor_zero(z3);
    let z4 = if new_ep < 64 { z3 ^ spec_ep_key(spec_file_of(new_ep)) } else { z3 };
    assert(z4 == z3 ^ en);
    assert(zobrist_after(z, board, m, us, rights, new_rights, ep, new_ep) == z4 ^ sk);
    lemma_hash_tail(bo, bn, ko, kn, sk, co, cn, eo, en, us == Color::Black);
    let nbase = if us == Color::Black { bn } else { bn ^ sk };
    lemma_xor_zero(nbase ^ cn);
    assert(position_hash(after, spec_opponent(us), new_rights, new_ep) == (nbase ^ cn) ^ en);
}

proof fn lemma_restore_prefix(after: Seq<Piece>, changes: Seq<(Square, Piece)>, n: nat)
    requires
        after.len() == 64,
        n <= changes.len(),
        distinct_squares(changes),
    ensures
        restore(after, changes, n).len() == 64,
        forall|i: int| 0 <= i < n ==> #[trigger] restore(after, changes, n)[changes[i].0 as int] == changes[i].1,
        forall|q: int|
            0 <= q < 64 && !(exists|i: int| 0 <= i < n && changes[i].0 == q) ==> #[trigger] restore(
                after,
                changes,
                n,
            )[q] == after[q],
    decreases n,
{
    if n > 0 {
        lemma_restore_prefix(after, changes, (n - 1) as nat);
        let prev = restore(after, changes, (n - 1) as nat);
        let s = changes[n - 1].0 as int;
        assert forall|i: int| 0 <= i < n implies #[trigger] restore(after, changes, n)[changes[i].0 as int]
            == changes[i].1 by {
            if i < n - 1 {
                assert(changes[i].0 != changes[n - 1].0);
            }
        }
        assert forall|q: int|
            0 <= q < 64 && !(exists|i: int| 0 <= i < n && changes[i].0 == q) implies #[trigger] restore(
                after,
                changes,
                n,
            )[q] == after[q] by {
            assert(q != s);
            assert(!(exists|i: int| 0 <= i < n - 1 && changes[i].0 == q)) by {
                if exists|i: int| 0 <= i < n - 1 && changes[i].0 == q {
                    let i = choose|i: int| 0 <= i < n - 1 && changes[i].0 == q;
                    assert(0 <= i < n && changes[i].0 == q);
                }
            }
        }
    }
}

/// Giving every square of a faithful undo list its saved piece undoes the
/// change: what `unmake_move` restores from the record `make_move` saved is
/// the board before the move.
pub proof fn lemma_restore_undoes_change(before: Seq<Piece>, after: Seq<Piece>, changes: Seq<(Square, Piece)>)
    requires
        before.len() == 64,
        after.len() == 64,
        faithful_record(changes, before, after),
    ensures
        restore(after, changes, changes.len()) == before,
{
    lemma_restore_prefix(after, changes, changes.len());
    let r = restore(after, changes, changes.len());
    assert forall|q: int| 0 <= q < 64 implies #[trigger] r[q] == before[q] by {
        if exists|i: int| 0 <= i < changes.len() && changes[i].0 == q {
            let i = choose|i: int| 0 <= i < changes.len() && changes[i].0 == q;
            assert(r[changes[i].0 as int] == changes[i].1);
        } else if before[q] != after[q] {
            assert(lists_square(changes, q as Square));
            let i = choose|i: int| 0 <= i < changes.len() && #[trigger] changes[i].0 == q as Square;
            assert(false);
        }
    }
    assert(r =~= before);
}

/// Rank step of the eight ray directions: four orthogonal, then four diagonal.
pub open spec fn ray_dr(dir: int) -> int {
    if dir == 0 || dir == 4 || dir == 5 {
        1
    } else if dir == 1 || dir == 6 || dir == 7 {
        -1
    } else {
        0
    }
}

pub open spec fn ray_dc(dir: int) -> int {
    if dir == 2 || dir == 4 || dir == 6 {
        1
    } else if dir == 3 || dir == 5 || dir == 7 {
        -1
    } else {
        0
    }
}

pub open spec fn knight_dr(i: int) -> int {
    if i < 2 {
        -2
    } else if i < 4 {
        -1
    } else if i < 6 {
        1
    } else {
        2
    }
}

pub open spec fn knight_dc(i: int) -> int {
    if i == 0 || i == 6 {
        -1
    } else if i == 1 || i == 7 {
        1
    } else if i == 2 || i == 4 {
        -2
    } else {
        2
    }
}

pub open spec fn piece_at(board: Seq<Piece>, r: int, f: int, pt: PieceType, c: Color) -> bool {
    spec_valid_rf(r, f) && board[spec_make_square(r, f) as int] == Piece { piece_type: pt, color: c }
}

/// A pawn of `attacker` stands diagonally behind `sq`, seen from its side.
pub open spec fn pawn_attacks(board: Seq<Piece>, sq: Square, attacker: Color) -> bool {
    let r = spec_rank_of(sq) + if attacker == Color::White {
        -1int
    } else {
        1int
    };
    piece_at(board, r, spec_file_of(sq) - 1, PieceType::Pawn, attacker) || piece_at(
        board,
        r,
        spec_file_of(sq) + 1,
        PieceType::Pawn,
        attacker,
    )
}

/// Whether a push plan captures.
pub open spec fn plan_captures(plan: Option<PlanSpec>) -> bool {
    plan matches Some(p) && p.1 is Some
}

/// The knight at offset `i` from `sq` belongs to `attacker` and one of its
/// two routes to `sq` ends in a capture.
pub open spec fn knight_attacks_from(board: Seq<Piece>, sq: Square, attacker: Color, i: int) -> bool {
    let r = spec_rank_of(sq) + knight_dr(i);
    let f = spec_file_of(sq) + knight_dc(i);
    let k = spec_make_square(r, f);
    &&& piece_at(board, r, f, PieceType::Knight, attacker)
    &&& (plan_captures(spec_resolve_knight_push(board, k, sq, true)) || plan_captures(
        spec_resolve_knight_push(board, k, sq, false),
    ))
}

/// The first piece met walking from `sq` in direction (`dr`, `dc`), starting
/// at step `n`.
pub open spec fn first_blocker(board: Seq<Piece>, sq: Square, dr: int, dc: int, n: nat) -> Option<Piece>
    decreases 9 - n,
{
    if n >= 9 || !ray_on_board(sq, dr, dc, n as int) {
        None
    } else {
        let p = board[ray_sq(sq, dr, dc, n as int) as int];
        if !p.spec_is_empty() {
            Some(p)
        } else {
            first_blocker(board, sq, dr, dc, n + 1)
        }
    }
}

/// The first piece in direction `dir` is a queen of `attacker`, or a rook on
/// an orthogonal, or a bishop on a diagonal.
pub open spec fn slider_attacks_from(board: Seq<Piece>, sq: Square, attacker: Color, dir: int) -> bool {
    match first_blocker(board, sq, ray_dr(dir), ray_dc(dir), 1) {
        Some(p) => p.color == attacker && (p.piece_type == PieceType::Queen || (dir < 4 && p.piece_type
            == PieceType::Rook) || (dir >= 4 && p.piece_type == PieceType::Bishop)),
        None => false,
    }
}

pub open spec fn king_attacks_from(board: Seq<Piece>, sq: Square, attacker: Color, dir: int) -> bool {
    piece_at(board, spec_rank_of(sq) + ray_dr(dir), spec_file_of(sq) + ray_dc(dir), PieceType::King, attacker)
}

/// `attacker` attacks `sq`: by a pawn, by a knight route that captures on
/// `sq`, by the first piece along a line, or by an adjacent king.
pub open spec fn attacked(board: Seq<Piece>, sq: Square, attacker: Color) -> bool {
    ||| pawn_attacks(board, sq, attacker)
    ||| exists|i: int| 0 <= i < 8 && #[trigger] knight_attacks_from(board, sq, attacker, i)
    ||| exists|dir: int| 0 <= dir < 8 && #[trigger] slider_attacks_from(board, sq, attacker, dir)
    ||| exists|dir: int| 0 <= dir < 8 && #[trigger] king_attacks_from(board, sq, attacker, dir)
}

proof fn lemma_long_ray_off_board(sq: Square, dr: int, dc: int, n: int)
    requires
        -1 <= dr <= 1,
        -1 <= dc <= 1,
        dr != 0 || dc != 0,
        n >= 9,
        ray_on_board(sq, dr, dc, 1),
    ensures
        !ray_on_board(sq, dr, dc, n),
{
}

pub(crate) fn dir_dr(dir: usize) -> (d: i32)
    requires
        dir < 8,
    ensures
        d == ray_dr(dir as int),
{
    if dir == 0 || dir == 4 || dir == 5 {
        1
    } else if dir == 1 || dir == 6 || dir == 7 {
        -1
    } else {
        0
    }
}

pub(crate) fn dir_dc(dir: usize) -> (d: i32)
    requires
        dir < 8,
    ensures
        d == ray_dc(dir as int),
{
    if dir == 2 || dir == 4 || dir == 6 {
        1
    } else if dir == 3 || dir == 5 || dir == 7 {
        -1
    } else {
        0
    }
}

pub(crate) fn jump_dr(i: usize) -> (d: i32)
    requires
        i < 8,
    ensures
        d == knight_dr(i as int),
{
    if i < 2 {
        -2
    } else if i < 4 {
        -1
    } else if i < 6 {
        1
    } else {
        2
    }
}

pub(crate) fn jump_dc(i: usize) -> (d: i32)
    requires
        i < 8,
    ensures
        d == knight_dc(i as int),
{
    if i == 0 || i == 6 {
        -1
    } else if i == 1 || i == 7 {
        1
    } else if i == 2 || i == 4 {
        -2
    } else {
        2
    }
}

impl Clone for UndoInfo {
    fn clone(&self) -> (c: Self)
        ensures
            c.changed() == self.changed(),
            c.mv == self.mv,
            c.castling_rights == self.castling_rights,
            c.ep_square == self.ep_square,
            c.halfmove_clock == self.halfmove_clock,
            c.zobrist == self.zobrist,
            c.king_sq == self.king_sq,
    {
        UndoInfo {
            mv: self.mv,
            changed: changed_clone(&self.changed),
            castling_rights: self.castling_rights,
            ep_square: self.ep_square,
            halfmove_clock: self.halfmove_clock,
            zobrist: self.zobrist,
            king_sq: self.king_sq,
        }
    }
}

impl Default for UndoInfo {
    fn default() -> (u: Self)
        ensures
            u.changed() == Seq::<(Square, Piece)>::empty(),
            u.mv == Move::null(),
            u.castling_rights == 0,
            u.ep_square == 64,
            u.halfmove_clock == 0,
            u.zobrist == 0,
            u.king_sq@ == seq![4u8, 60u8],
    {
        UndoInfo::new()
    }
}

#[derive(Clone)]
pub struct Position {
    pub board: [Piece; 64],
    pub side_to_move: Color,
    pub castling_rights: u8,
    /// 64 stands for "no en-passant square".
    pub ep_square: Square,
    pub halfmove_clock: u16,
    pub fullmove_number: u16,
    /// The king squares, White's first.
    pub king_sq: [Square; 2],
    pub zobrist: u64,
    pub undo_stack: Vec<UndoInfo>,
}

impl Position {
    /// Lightweight constructor: empty board, no hash, no undo stack.
    pub fn empty() -> (p: Self)
        ensures
            forall|i: int| 0 <= i < 64 ==> #[trigger] p.board@[i] == Piece::empty(),
            p.side_to_move == Color::White,
            p.castling_rights == 0,
            p.ep_square == 64,
            p.halfmove_clock == 0,
            p.fullmove_number == 1,
            p.king_sq@ == seq![64u8, 64u8],
            p.zobrist == 0,
            p.undo_stack@.len() == 0,
    {
        Position {
            board: [Piece { piece_type: PieceType::Empty, color: Color::White }; 64],
            side_to_move: Color::White,
            castling_rights: 0,
            ep_square: 64,
            halfmove_clock: 0,
            fullmove_number: 1,
            king_sq: [64, 64],
            zobrist: 0,
            undo_stack: Vec::new(),
        }
    }
}

impl Position {
    /// The same position with no moves to undo.
    pub fn without_history(&self) -> (p: Position)
        ensures
            p.board == self.board,
            p.side_to_move == self.side_to_move,
            p.castling_rights == self.castling_rights,
            p.ep_square == self.ep_square,
            p.halfmove_clock == self.halfmove_clock,
            p.fullmove_number == self.fullmove_number,
            p.king_sq == self.king_sq,
            p.zobrist == self.zobrist,
            p.undo_stack@.len() == 0,
    {
        Position {
            board: self.board,
            side_to_move: self.side_to_move,
            castling_rights: self.castling_rights,
            ep_square: self.ep_square,
            halfmove_clock: self.halfmove_clock,
            fullmove_number: self.fullmove_number,
            king_sq: self.king_sq,
            zobrist: self.zobrist,
            undo_stack: Vec::new(),
        }
    }
}

impl Default for Position {
    fn default() -> (p: Self)
        ensures
            forall|i: int| 0 <= i < 64 ==> #[trigger] p.board@[i] == Piece::empty(),
            p.side_to_move == Color::White,
            p.castling_rights == 0x0F,
            p.ep_square == 64,
            p.halfmove_clock == 0,
            p.fullmove_number == 1,
            p.king_sq@ == seq![4u8, 60u8],
            p.zobrist == 0,
            p.undo_stack@.len() == 0,
    {
        Position {
            board: [Piece { piece_type: PieceType::Empty, color: Color::White }; 64],
            side_to_move: Color::White,
            castling_rights: 0x0F,
            ep_square: 64,
            halfmove_clock: 0,
            fullmove_number: 1,
            king_sq: [4, 60],
            zobrist: 0,
            undo_stack: Vec::new(),
        }
    }
}

/// `p1` is `p0` after the move `m`: the board, side to move, counters,
/// castling rights, en-passant square, king squares and hash the move gives,
/// and a new undo record holding what restores `p0`.
pub open spec fn made(p0: &Position, m: Move, p1: &Position) -> bool {
    {
        let b = p0.board@;
        let us = p0.side_to_move;
        let changes = move_changes(b, m, us);
        let rights = spec_castling_after_move(p0.castling_rights, affected_mask(changes, changes.len()));
        let new_ep = ep_after(b, m);
        let undo = p1.undo_stack@.last();
        &&& p1.board@ == board_after(b, m, us)
        &&& p1.side_to_move == spec_opponent(us)
        &&& p1.fullmove_number == if us == Color::Black {
            p0.fullmove_number + 1
        } else {
            p0.fullmove_number as int
        }
        &&& p1.halfmove_clock == halfmove_after(b, p0.halfmove_clock, m)
        &&& p1.castling_rights == rights
        &&& p1.ep_square == new_ep
        &&& p1.king_sq@ == kings_after_move(p0.king_sq@, b, m, us)
        &&& p1.zobrist == zobrist_after(
            p0.zobrist,
            b,
            m,
            us,
            p0.castling_rights,
            rights,
            p0.ep_square,
            new_ep,
        )
        &&& p1.undo_stack@.len() == p0.undo_stack@.len() + 1
        &&& p1.undo_stack@.drop_last() == p0.undo_stack@
        &&& undo.mv == m
        &&& undo.changed() == changes
        &&& undo.castling_rights == p0.castling_rights
        &&& undo.ep_square == p0.ep_square
        &&& undo.halfmove_clock == p0.halfmove_clock
        &&& undo.zobrist == p0.zobrist
        &&& undo.king_sq == p0.king_sq
        &&& faithful_record(changes, b, p1.board@)
        &&& (p0.zobrist == p0.spec_hash() && move_fits_board(b, m, us))
            ==> p1.zobrist == p1.spec_hash()
    }
}

/// `p2` is `p1` with its last move taken back from its last undo record.
pub open spec fn unmade(p1: &Position, p2: &Position) -> bool {
    let undo = p1.undo_stack@.last();
    &&& p2.board@ == restore(p1.board@, undo.changed(), undo.changed().len())
    &&& p2.side_to_move == spec_opponent(p1.side_to_move)
    &&& p2.fullmove_number == if p1.side_to_move == Color::White {
        p1.fullmove_number - 1
    } else {
        p1.fullmove_number as int
    }
    &&& p2.king_sq == undo.king_sq
    &&& p2.castling_rights == undo.castling_rights
    &&& p2.ep_square == undo.ep_square
    &&& p2.halfmove_clock == undo.halfmove_clock
    &&& p2.zobrist == undo.zobrist
    &&& p2.undo_stack@ == p1.undo_stack@.drop_last()
}

/// Taking back a move gives back the position it was made in: board, side to
/// move, counters, castling rights, en-passant square, king squares, hash and
/// the undo records.
pub proof fn lemma_unmake_undoes_make(p0: &Position, m: Move, p1: &Position, p2: &Position)
    requires
        made(p0, m, p1),
        unmade(p1, p2),
    ensures
        p2.board == p0.board,
        p2.side_to_move == p0.side_to_move,
        p2.castling_rights == p0.castling_rights,
        p2.ep_square == p0.ep_square,
        p2.halfmove_clock == p0.halfmove_clock,
        p2.fullmove_number == p0.fullmove_number,
        p2.king_sq == p0.king_sq,
        p2.zobrist == p0.zobrist,
        p2.undo_stack@ == p0.undo_stack@,
{
    lemma_restore_undoes_change(p0.board@, p1.board@, move_changes(p0.board@, m, p0.side_to_move));
    assert(p2.board@ =~= p0.board@);
}

impl Position {
    /// The hash that the position's fields determine.
    pub open spec fn spec_hash(&self) -> u64 {
        position_hash(self.board@, self.side_to_move, self.castling_rights, self.ep_square)
    }

    pub fn compute_zobrist(&mut self)
        requires
            old(self).castling_rights < 16,
        ensures
            final(self).zobrist == final(self).spec_hash(),
            final(self).board == old(self).board,
            final(self).side_to_move == old(self).side_to_move,
            final(self).castling_rights == old(self).castling_rights,
            final(self).ep_square == old(self).ep_square,
            final(self).halfmove_clock == old(self).halfmove_clock,
            final(self).fullmove_number == old(self).fullmove_number,
            final(self).king_sq == old(self).king_sq,
            final(self).undo_stack == old(self).undo_stack,
    {
        let mut z: u64 = 0;
        let mut sq: usize = 0;
        while sq < 64
            invariant
                sq <= 64,
                z == board_hash(self.board@, sq as nat),
            decreases 64 - sq,
        {
            let piece = self.board[sq];
            let key = square_key(piece, sq as u8);
            z = z ^ key;
            sq += 1;
        }
        if self.side_to_move == Color::Black {
            z = z ^ side_key();
        }
        z = z ^ castling_key(self.castling_rights);
        if self.ep_square < 64 {
            z = z ^ ep_key(file_of(self.ep_square));
        }
        self.zobrist = z;
    }

    /// Play a move: resolve its pushes, save what `unmake_move` restores, and
    /// update the hash incrementally.
    #[verifier::rlimit(60)]
    pub fn make_move(&mut self, m: &Move)
        requires
            can_make(old(self), *m),
        ensures
            made(old(self), *m, final(self)),
    {
        let ghost old_self = *self;
        let ghost b = self.board@;
        let mut undo = UndoInfo {
            mv: *m,
            changed: changed_new(),
            castling_rights: self.castling_rights,
            ep_square: self.ep_square,
            halfmove_clock: self.halfmove_clock,
            zobrist: self.zobrist,
            king_sq: self.king_sq,
        };
        let mover = self.board[m.from as usize];
        let us = self.side_to_move;
        let mut z = self.zobrist;
        // Clear the old en-passant key.
        if self.ep_square < 64 {
            z = z ^ ep_key(file_of(self.ep_square));
        }
        let mut new_ep: Square = 64;
        let mut board = self.board;
        if m.special == SpecialMove::Castle {
            z = make_castle(&mut board, &mut undo, *m, us, z);
            self.king_sq[us.index()] = m.to;
            self.halfmove_clock = self.halfmove_clock + 1;
        } else if m.special == SpecialMove::EnPassant {
            z = make_en_passant(&mut board, &mut undo, *m, us, z);
            self.halfmove_clock = 0;
        } else {
            let is_pawn = mover.piece_type == PieceType::Pawn;
            let is_knight = mover.piece_type == PieceType::Knight;
            let resolved = if is_knight {
                let long_first = m.path_kind == 1;
                resolve_knight_push(self, m.from, m.to, long_first)
            } else {
                let rd = rank_of(m.to) - rank_of(m.from);
                let fd = file_of(m.to) - file_of(m.from);
                let dr: i32 = if rd != 0 {
                    if rd > 0 {
                        1
                    } else {
                        -1
                    }
                } else {
                    0
                };
                let dc: i32 = if fd != 0 {
                    if fd > 0 {
                        1
                    } else {
                        -1
                    }
                } else {
                    0
                };
                resolve_push(self, m.from, m.to, dr, dc)
            };
            let plan = match resolved {
                Some(plan) => plan,
                None => {
                    assert(false);
                    return ;
                },
            };
            assert(move_plan(b, *m) == Some(plan@));
            z = make_plan(&mut board, &mut undo, &plan, us, m.promo_piece, z);
            // Push chains can displace kings of either side.
            let n = plan.len();
            let mut kings = self.king_sq;
            let mut i: usize = 0;
            while i < n
                invariant
                    n == plan@.0.len(),
                    i <= n,
                    plan_on_board(plan@),
                    kings@ == kings_after(old_self.king_sq@, board@, plan@.0, i as nat),
                decreases n - i,
            {
                let (_, t_sq) = plan.displacement(i);
                let placed = board[t_sq as usize];
                if placed.piece_type == PieceType::King {
                    kings[placed.color.index()] = t_sq;
                }
                i += 1;
            }
            self.king_sq = kings;
            if is_pawn || plan.captured().is_some() {
                self.halfmove_clock = 0;
            } else {
                self.halfmove_clock = self.halfmove_clock + 1;
            }
            if is_pawn && (rank_of(m.to) - rank_of(m.from) == 2 || rank_of(m.from) - rank_of(m.to) == 2) {
                new_ep = make_square((rank_of(m.from) + rank_of(m.to)) / 2, file_of(m.from));
            }
        }
        self.board = board;
        let ghost changes = undo.changed();
        assert(changes == move_changes(b, *m, us));
        // Update castling rights.
        z = z ^ castling_key(self.castling_rights);
        let count = changed_len(&undo.changed);
        let mut affected: u64 = 0;
        let mut k: usize = 0;
        while k < count
            invariant
                count == changes.len(),
                changes == undo.changed(),
                distinct_squares(changes),
                k <= count,
                affected == affected_mask(changes, k as nat),
            decreases count - k,
        {
            let (sq, _) = changed_get(&undo.changed, k);
            affected = affected | (1u64 << (sq as u64));
            k += 1;
        }
        self.castling_rights = castling_after_move(self.castling_rights, affected);
        proof {
            let r = self.castling_rights;
            let o = old_self.castling_rights;
            assert(r < 16) by (bit_vector)
                requires
                    o < 16,
                    r == o & !super::types::revoked_rights(affected),
            ;
        }
        z = z ^ castling_key(self.castling_rights);
        // Update the en-passant square.
        self.ep_square = new_ep;
        if self.ep_square < 64 {
            z = z ^ ep_key(file_of(self.ep_square));
        }
        // Switch sides.
        z = z ^ side_key();
        self.side_to_move = opponent(self.side_to_move);
        if self.side_to_move == Color::White {
            self.fullmove_number = self.fullmove_number + 1;
        }
        self.zobrist = z;
        self.undo_stack.push(undo);
        proof {
            assert(self.undo_stack@.drop_last() =~= old_self.undo_stack@);
            if old_self.zobrist == old_self.spec_hash() && move_fits_board(b, *m, us) {
                lemma_hash_after_move(
                    old_self.zobrist,
                    b,
                    *m,
                    us,
                    old_self.castling_rights,
                    self.castling_rights,
                    old_self.ep_square,
                    new_ep,
                );
            }
        }
    }

    /// Whether `attacker` attacks `sq`.
    pub fn is_attacked_by(&self, sq: Square, attacker: Color) -> (b: bool)
        ensures
            b == attacked(self.board@, sq, attacker),
    {
        let board = &self.board;
        // Pawn attacks: pawns of `attacker` attack from the other side.
        let dr: i32 = if attacker == Color::White {
            -1
        } else {
            1
        };
        let r = rank_of(sq) + dr;
        let f0 = file_of(sq) - 1;
        if valid_rf(r, f0) {
            let s = make_square(r, f0);
            if board[s as usize].piece_type == PieceType::Pawn && board[s as usize].color == attacker {
                return true;
            }
        }
        let f1 = file_of(sq) + 1;
        if valid_rf(r, f1) {
            let s = make_square(r, f1);
            if board[s as usize].piece_type == PieceType::Pawn && board[s as usize].color == attacker {
                return true;
            }
        }
        assert(!pawn_attacks(self.board@, sq, attacker));
        // Knight attacks: either route must capture on `sq`.
        let mut i: usize = 0;
        while i < 8
            invariant
                i <= 8,
                forall|j: int| 0 <= j < i ==> !#[trigger] knight_attacks_from(self.board@, sq, attacker, j),
            decreases 8 - i,
        {
            let r = rank_of(sq) + jump_dr(i);
            let f = file_of(sq) + jump_dc(i);
            if valid_rf(r, f) {
                let ksq = make_square(r, f);
                if self.board[ksq as usize].piece_type == PieceType::Knight && self.board[ksq as usize].color
                    == attacker {
                    let first = resolve_knight_push(self, ksq, sq, true);
                    let captures_first = match &first {
                        Some(p) => p.captured().is_some(),
                        None => false,
                    };
                    if captures_first {
                        assert(knight_attacks_from(self.board@, sq, attacker, i as int));
                        return true;
                    }
                    let second = resolve_knight_push(self, ksq, sq, false);
                    let captures_second = match &second {
                        Some(p) => p.captured().is_some(),
                        None => false,
                    };
                    if captures_second {
                        assert(knight_attacks_from(self.board@, sq, attacker, i as int));
                        return true;
                    }
                }
            }
            i += 1;
        }
        // Slider attacks: rook or queen on orthogonals, bishop or queen on diagonals.
        let mut dir: usize = 0;
        while dir < 8
            invariant
                dir <= 8,
                forall|j: int| 0 <= j < 8 ==> !#[trigger] knight_attacks_from(self.board@, sq, attacker, j),
                forall|j: int| 0 <= j < dir ==> !#[trigger] slider_attacks_from(self.board@, sq, attacker, j),
            decreases 8 - dir,
        {
            let ortho = dir < 4;
            let dr = dir_dr(dir);
            let dc = dir_dc(dir);
            let mut r = rank_of(sq) + dr;
            let mut f = file_of(sq) + dc;
            let ghost mut n: nat = 1;
            while valid_rf(r, f)
                invariant
                    1 <= n <= 9,
                    ortho == (dir < 4),
                    dr == ray_dr(dir as int),
                    dc == ray_dc(dir as int),
                    dir < 8,
                    r == super::push::ray_rank(sq, dr as int, n as int),
                    f == super::push::ray_file(sq, dc as int, n as int),
                    n > 1 ==> ray_on_board(sq, dr as int, dc as int, 1),
                    first_blocker(self.board@, sq, dr as int, dc as int, n)
                        == first_blocker(self.board@, sq, dr as int, dc as int, 1),
                ensures
                    !slider_attacks_from(self.board@, sq, attacker, dir as int),
                decreases 9 - n,
            {
                proof {
                    if n >= 9 {
                        lemma_long_ray_off_board(sq, dr as int, dc as int, n as int);
                    }
                }
                let s = make_square(r, f);
                let p = self.board[s as usize];
                assert(ray_on_board(sq, dr as int, dc as int, n as int));
                assert(s == ray_sq(sq, dr as int, dc as int, n as int));
                if !p.is_empty() {
                    assert(first_blocker(self.board@, sq, dr as int, dc as int, n) == Some(p));
                    assert(first_blocker(self.board@, sq, ray_dr(dir as int), ray_dc(dir as int), 1) == Some(p));
                    if p.color == attacker {
                        let pt = p.piece_type;
                        if pt == PieceType::Queen || (ortho && pt == PieceType::Rook) || (!ortho && pt
                            == PieceType::Bishop) {
                            assert(slider_attacks_from(self.board@, sq, attacker, dir as int));
                            return true;
                        }
                    }
                    break ;
                }
                r += dr;
                f += dc;
                proof {
                    n = n + 1;
                }
            }
            dir += 1;
        }
        // King attacks.
        let mut dir: usize = 0;
        while dir < 8
            invariant
                dir <= 8,
                forall|j: int| 0 <= j < 8 ==> !#[trigger] knight_attacks_from(self.board@, sq, attacker, j),
                forall|j: int| 0 <= j < 8 ==> !#[trigger] slider_attacks_from(self.board@, sq, attacker, j),
                forall|j: int| 0 <= j < dir ==> !#[trigger] king_attacks_from(self.board@, sq, attacker, j),
            decreases 8 - dir,
        {
            let r = rank_of(sq) + dir_dr(dir);
            let f = file_of(sq) + dir_dc(dir);
            if valid_rf(r, f) {
                let s = make_square(r, f);
                if self.board[s as usize].piece_type == PieceType::King && self.board[s as usize].color
                    == attacker {
                    assert(king_attacks_from(self.board@, sq, attacker, dir as int));
                    return true;
                }
            }
            dir += 1;
        }
        false
    }

    /// Is the side to move in check?
    pub fn in_check(&self) -> (b: bool)
        ensures
            b == attacked(self.board@, self.king_sq@[self.side_to_move.spec_index()], spec_opponent(self.side_to_move)),
    {
        self.in_check_color(self.side_to_move)
    }

    /// Is the given color in check?
    pub fn in_check_color(&self, c: Color) -> (b: bool)
        ensures
            b == attacked(self.board@, self.king_sq@[c.spec_index()], spec_opponent(c)),
    {
        self.is_attacked_by(self.king_sq[c.index()], opponent(c))
    }

    pub fn unmake_move(&mut self)
        requires
            old(self).undo_stack@.len() > 0,
            forall|i: int|
                0 <= i < old(self).undo_stack@.last().changed().len() ==> (#[trigger] old(self).undo_stack@.last().changed()[i]).0
                    < 64,
            old(self).side_to_move == Color::White ==> old(self).fullmove_number > 0,
        ensures
            unmade(old(self), final(self)),
    {
        let ghost before = *self;
        let undo = self.undo_stack.pop().unwrap();
        assert(undo == before.undo_stack@.last());
        assert(forall|j: int| 0 <= j < undo.changed().len() ==> (#[trigger] undo.changed()[j]).0 < 64);
        self.side_to_move = opponent(self.side_to_move);
        if self.side_to_move == Color::Black {
            self.fullmove_number = self.fullmove_number - 1;
        }
        let n = changed_len(&undo.changed);
        let mut i: usize = 0;
        let mut board = self.board;
        let ghost start = board@;
        while i < n
            invariant
                n == undo.changed().len(),
                i <= n,
                forall|j: int| 0 <= j < undo.changed().len() ==> (#[trigger] undo.changed()[j]).0 < 64,
                board@ == restore(start, undo.changed(), i as nat),
            decreases n - i,
        {
            let (sq, piece) = changed_get(&undo.changed, i);
            board[sq as usize] = piece;
            i += 1;
        }
        self.board = board;
        self.king_sq = undo.king_sq;
        self.castling_rights = undo.castling_rights;
        self.ep_square = undo.ep_square;
        self.halfmove_clock = undo.halfmove_clock;
        self.zobrist = undo.zobrist;
    }
}

/// A pawn attacks both squares diagonally ahead of it: a square with a pawn
/// of `attacker` one rank behind it (seen from the attacker's side) on
/// either neighbouring file is attacked.
pub proof fn lemma_pawn_attacks_both_diagonals(board: Seq<Piece>, sq: Square, attacker: Color, df: int)
    requires
        sq < 64,
        df == -1 || df == 1,
        0 <= sq / 8 + (if attacker == Color::White {
            -1int
        } else {
            1int
        }) < 8,
        0 <= sq % 8 + df < 8,
        board[(sq / 8 + (if attacker == Color::White {
            -1int
        } else {
            1int
        })) * 8 + sq % 8 + df] == (Piece { piece_type: PieceType::Pawn, color: attacker }),
    ensures
        attacked(board, sq, attacker),
{
    let r = spec_rank_of(sq) + if attacker == Color::White {
        -1int
    } else {
        1int
    };
    let f = spec_file_of(sq) + df;
    assert(spec_make_square(r, f) as int == r * 8 + f);
    assert(piece_at(board, r, f, PieceType::Pawn, attacker));
    assert(pawn_attacks(board, sq, attacker));
}

} // verus!

//! The candidate Cataclysm's transaction board: a position with piece and
//! occupancy bitboards, piece-square sums, the game phase, material and the
//! network's hidden sums kept up to date by each move made, and restored
//! whole from a snapshot when it is taken back.
use vstd::prelude::*;
use crate::engines::cataclysm::network::{WIDTH, feature, updated};
use crate::rules::position::{
    Position, attacked, first_blocker, king_attacks_from, knight_attacks_from, knight_dc, knight_dr, pawn_attacks, piece_at,
    plan_captures, ray_dc, ray_dr, slider_attacks_from,
};
use crate::rules::movegen::castle_path_clear;
use crate::rules::push::{ray_on_board, ray_sq, spec_resolve_knight_push, steps};
use crate::rules::push::{PushPlan, lemma_apply_plan_frame, plan_on_board, plan_touches, resolve_knight_push, resolve_push};
use crate::rules::zobrist::{castling_key, ep_key, piece_key, side_key};
use crate::rules::types::{
    Color, Move, Piece, PieceType, SpecialMove, castling_after_move, opponent, revoked_rights, file_of, make_square, rank_of, spec_file_of, spec_make_square, spec_rank_of,
    spec_valid_rf, valid_rf,
};
use super::eval::{piece_score, square_score, value};
use super::features::{
    belongs, bit, bits_agree, eg_term, hidden_agrees, lemma_bit_ops, lemma_change, lemma_empty_sums, lemma_square_score_bound,
    lemma_sum_bounds,
    lemma_clear_lowest, material_term, mg_term, mix, phase_term, phase_weight, prefix, sums_agree, total, weight_term,
};
use super::network::{Accumulator, Network};

verus! {

/// The square `dr` ranks and `df` files away from `sq`, if it is on the board.
pub fn step(sq: u8, dr: i32, df: i32) -> (s: Option<u8>)
    requires
        i32::MIN <= spec_rank_of(sq) + dr <= i32::MAX,
        i32::MIN <= spec_file_of(sq) + df <= i32::MAX,
    ensures
        s == if spec_valid_rf(spec_rank_of(sq) + dr, spec_file_of(sq) + df) {
            Some(spec_make_square(spec_rank_of(sq) + dr, spec_file_of(sq) + df))
        } else {
            None
        },
        s matches Some(t) ==> t < 64,
{
    let r = rank_of(sq) + dr;
    let f = file_of(sq) + df;
    if valid_rf(r, f) {
        Some(make_square(r, f))
    } else {
        None
    }
}

/// The packed move identifier.
pub fn pack(m: Move) -> (p: u32)
    ensures
        p == m.spec_id(),
{
    m.id()
}

/// A piece type's weight in the game phase.
pub fn phase_of(pt: PieceType) -> (w: i32)
    ensures
        w == phase_weight(pt),
{
    match pt {
        PieceType::Knight => 1,
        PieceType::Bishop => 1,
        PieceType::Rook => 2,
        PieceType::Queen => 4,
        _ => 0,
    }
}

/// A piece type's material value.
pub fn value_of(pt: PieceType) -> (v: i32)
    ensures
        v == value(pt),
{
    match pt {
        PieceType::Pawn => 100,
        PieceType::Knight => 305,
        PieceType::Bishop => 365,
        PieceType::Rook => 550,
        PieceType::Queen => 1050,
        _ => 0,
    }
}

/// The features kept beside a board, as one value: what a snapshot saves.
#[derive(Clone, Copy)]
pub struct Features {
    pub men: [[u64; 7]; 2],
    pub occupied: [u64; 2],
    pub mg: [i32; 2],
    pub eg: [i32; 2],
    pub phase: i32,
    pub net: Accumulator,
    pub material: [i32; 2],
}

impl Features {
    /// The features agree with `board` under `model`.
    pub open spec fn agree(&self, board: Seq<Piece>, model: &Network) -> bool {
        &&& bits_agree(board, self.men, self.occupied)
        &&& sums_agree(board, self.mg, self.eg, self.phase, self.material)
        &&& hidden_agrees(board, self.net.hidden, model.rows(), model.biases())
    }
}

/// The position with its features, over a network.
pub struct Board<'m> {
    pub model: &'m Network,
    pub pos: Position,
    pub f: Features,
}

/// What `make` saves for `unmake`: the board's squares, kings, hash, rights,
/// en-passant square and clocks, and the features.
#[derive(Clone, Copy)]
pub struct Snapshot {
    pub board: [Piece; 64],
    pub kings: [u8; 2],
    pub key: u64,
    pub castle: u8,
    pub ep: u8,
    pub half: u16,
    pub full: u16,
    pub f: Features,
}

impl<'m> Board<'m> {
    /// The features agree with the board, and the network is sound.
    pub open spec fn wf(&self) -> bool {
        &&& self.model.sound()
        &&& self.f.agree(self.pos.board@, self.model)
    }

    /// A board over `model` for the position `pos`, without its history.
    pub fn with_model(pos: &Position, model: &'m Network) -> (b: Board<'m>)
        requires
            model.sound(),
        ensures
            b.wf(),
            b.model == model,
            b.pos.board == pos.board,
            b.pos.side_to_move == pos.side_to_move,
            b.pos.castling_rights == pos.castling_rights,
            b.pos.ep_square == pos.ep_square,
            b.pos.halfmove_clock == pos.halfmove_clock,
            b.pos.fullmove_number == pos.fullmove_number,
            b.pos.king_sq == pos.king_sq,
            b.pos.zobrist == pos.zobrist,
            b.pos.undo_stack@.len() == 0,
    {
        let mut view = Position::empty();
        view.board = pos.board;
        view.side_to_move = pos.side_to_move;
        view.castling_rights = pos.castling_rights;
        view.ep_square = pos.ep_square;
        view.halfmove_clock = pos.halfmove_clock;
        view.fullmove_number = pos.fullmove_number;
        view.king_sq = pos.king_sq;
        view.zobrist = pos.zobrist;
        let mut f = Features {
            men: [[0; 7]; 2],
            occupied: [0; 2],
            mg: [0; 2],
            eg: [0; 2],
            phase: 0,
            net: Accumulator::new(model),
            material: [0; 2],
        };
        let ghost board = pos.board@;
        let ghost rows = model.rows();
        proof {
            model.lemma_shape();
            let none = Seq::new(64, |i: int| Piece::empty());
            assert forall|c: int| 0 <= c < 2 implies #[trigger] f.mg[c] == total(none, mg_term(c), 64) by {
                lemma_empty_sums(none, mg_term(c), 64);
            }
            assert forall|c: int| 0 <= c < 2 implies #[trigger] f.eg[c] == total(none, eg_term(c), 64) by {
                lemma_empty_sums(none, eg_term(c), 64);
            }
            assert forall|c: int| 0 <= c < 2 implies #[trigger] f.material[c] == total(none, material_term(c), 64) by {
                lemma_empty_sums(none, material_term(c), 64);
            }
            lemma_empty_sums(none, phase_term(), 64);
            assert forall|p: int, k: int| 0 <= p < 2 && 0 <= k < WIDTH implies #[trigger] f.net.hidden[p][k]
                == model.biases()[k] + total(none, weight_term(rows, p, k), 64) by {
                lemma_empty_sums(none, weight_term(rows, p, k), 64);
            }
            assert forall|c: int, pt: int, sq: int| 0 <= c < 2 && 0 <= pt < 7 && 0 <= sq < 64 implies !#[trigger] bit(
                f.men[c][pt],
                sq,
            ) by {
                lemma_bit_ops(0, 0, sq as u64);
            }
            assert forall|c: int, sq: int| 0 <= c < 2 && 0 <= sq < 64 implies !#[trigger] bit(f.occupied[c], sq) by {
                lemma_bit_ops(0, 0, sq as u64);
            }
            assert(f.agree(none, model));
            assert(prefix(board, 0) =~= none);
        }
        let mut sq: usize = 0;
        while sq < 64
            invariant
                sq <= 64,
                model.sound(),
                rows == model.rows(),
                board == pos.board@,
                f.agree(prefix(board, sq as int), model),
            decreases 64 - sq,
        {
            let ghost before = prefix(board, sq as int);
            let ghost after = prefix(board, sq + 1);
            assert(after =~= before.update(sq as int, board[sq as int]));
            let p = pos.board[sq];
            if !p.is_empty() {
                f.place(p, sq, model, Ghost(before));
            } else {
                proof {
                    lemma_agree_empty(f, before, model, sq as int, p);
                }
            }
            sq += 1;
        }
        assert(prefix(board, 64) =~= board);
        Board { model, pos: view, f }
    }
}

impl Features {
    /// Put `p` on the empty square `sq` of `board`.
    pub fn place(&mut self, p: Piece, sq: usize, model: &Network, Ghost(board): Ghost<Seq<Piece>>)
        requires
            old(self).agree(board, model),
            model.sound(),
            board.len() == 64,
            sq < 64,
            board[sq as int].piece_type == PieceType::Empty,
            p.piece_type != PieceType::Empty,
        ensures
            final(self).agree(board.update(sq as int, p), model),
    {
        let ghost rows = model.rows();
        let ghost after = board.update(sq as int, p);
        proof {
            model.lemma_shape();
            lemma_change(board, rows, sq as int, p);
            lemma_sum_bounds(board, rows);
            lemma_square_score_bound(p, sq as int);
        }
        let c = p.color.index();
        let pt = p.piece_type.index();
        let old_men = self.men[c][pt];
        let old_occ = self.occupied[c];
        let ghost men0 = self.men;
        let ghost occ0 = self.occupied;
        assert(bits_agree(board, men0, occ0));
        self.men[c][pt] = old_men | (1u64 << sq as u64);
        self.occupied[c] = old_occ | (1u64 << sq as u64);
        let (mg, eg) = piece_score(p, sq as u8);
        self.mg[c] = self.mg[c] + mg;
        self.eg[c] = self.eg[c] + eg;
        self.phase = self.phase + phase_of(p.piece_type);
        proof {
            assert forall|q: int, k: int| 0 <= q < 2 && 0 <= k < WIDTH implies {
                let delta = 1 * (#[trigger] rows[feature(p, sq as u8, q)][k]) as int;
                &&& i32::MIN <= delta <= i32::MAX
                &&& i32::MIN <= self.net.hidden[q][k] + delta <= i32::MAX
            } by {
                assert(self.net.hidden[q][k] == model.biases()[k] + total(board, weight_term(rows, q, k), 64));
            }
        }
        self.net.update(p, sq as u8, 1, model);
        self.material[c] = self.material[c] + value_of(p.piece_type);
        proof {
            assert forall|c2: int, pt2: int, t: int| 0 <= c2 < 2 && 0 <= pt2 < 7 && 0 <= t < 64 implies (#[trigger] bit(
                self.men[c2][pt2],
                t,
            ) <==> belongs(after[t], c2) && after[t].piece_type.spec_index() == pt2) by {
                assert(bit(men0[c2][pt2], t) <==> belongs(board[t], c2) && board[t].piece_type.spec_index() == pt2);
                if c2 == c && pt2 == pt {
                    lemma_bit_ops(old_men, sq as u64, t as u64);
                } else {
                    assert(self.men[c2][pt2] == men0[c2][pt2]);
                }
            }
            assert forall|c2: int, t: int| 0 <= c2 < 2 && 0 <= t < 64 implies (#[trigger] bit(self.occupied[c2], t)
                <==> belongs(after[t], c2)) by {
                assert(bit(occ0[c2], t) <==> belongs(board[t], c2));
                if c2 == c {
                    lemma_bit_ops(old_occ, sq as u64, t as u64);
                } else {
                    assert(self.occupied[c2] == occ0[c2]);
                }
            }
        }
    }

    /// Take the piece `p` off square `sq` of `board`, leaving the empty
    /// piece `x` there.
    pub fn lift(&mut self, p: Piece, sq: usize, model: &Network, Ghost(board): Ghost<Seq<Piece>>, Ghost(x): Ghost<Piece>)
        requires
            old(self).agree(board, model),
            model.sound(),
            board.len() == 64,
            sq < 64,
            board[sq as int] == p,
            p.piece_type != PieceType::Empty,
            x.piece_type == PieceType::Empty,
        ensures
            final(self).agree(board.update(sq as int, x), model),
    {
        let ghost rows = model.rows();
        let ghost after = board.update(sq as int, x);
        proof {
            model.lemma_shape();
            lemma_change(board, rows, sq as int, x);
            lemma_sum_bounds(board, rows);
            lemma_square_score_bound(p, sq as int);
        }
        let c = p.color.index();
        let pt = p.piece_type.index();
        let old_men = self.men[c][pt];
        let old_occ = self.occupied[c];
        let ghost men0 = self.men;
        let ghost occ0 = self.occupied;
        assert(bits_agree(board, men0, occ0));
        self.men[c][pt] = old_men & !(1u64 << sq as u64);
        self.occupied[c] = old_occ & !(1u64 << sq as u64);
        let (mg, eg) = piece_score(p, sq as u8);
        self.mg[c] = self.mg[c] - mg;
        self.eg[c] = self.eg[c] - eg;
        self.phase = self.phase - phase_of(p.piece_type);
        proof {
            assert forall|q: int, k: int| 0 <= q < 2 && 0 <= k < WIDTH implies {
                let delta = -1 * (#[trigger] rows[feature(p, sq as u8, q)][k]) as int;
                &&& i32::MIN <= delta <= i32::MAX
                &&& i32::MIN <= self.net.hidden[q][k] + delta <= i32::MAX
            } by {
                assert(self.net.hidden[q][k] == model.biases()[k] + total(board, weight_term(rows, q, k), 64));
            }
        }
        self.net.update(p, sq as u8, -1, model);
        self.material[c] = self.material[c] - value_of(p.piece_type);
        proof {
            assert forall|c2: int, pt2: int, t: int| 0 <= c2 < 2 && 0 <= pt2 < 7 && 0 <= t < 64 implies (#[trigger] bit(
                self.men[c2][pt2],
                t,
            ) <==> belongs(after[t], c2) && after[t].piece_type.spec_index() == pt2) by {
                assert(bit(men0[c2][pt2], t) <==> belongs(board[t], c2) && board[t].piece_type.spec_index() == pt2);
                if c2 == c && pt2 == pt {
                    lemma_bit_ops(old_men, sq as u64, t as u64);
                } else {
                    assert(self.men[c2][pt2] == men0[c2][pt2]);
                }
            }
            assert forall|c2: int, t: int| 0 <= c2 < 2 && 0 <= t < 64 implies (#[trigger] bit(self.occupied[c2], t)
                <==> belongs(after[t], c2)) by {
                assert(bit(occ0[c2], t) <==> belongs(board[t], c2));
                if c2 == c {
                    lemma_bit_ops(old_occ, sq as u64, t as u64);
                } else {
                    assert(self.occupied[c2] == occ0[c2]);
                }
            }
        }
    }
}

/// Features that agree with a board agree with it too when an empty square
/// holds another empty piece.
pub proof fn lemma_agree_empty(f: Features, board: Seq<Piece>, model: &Network, sq: int, x: Piece)
    requires
        f.agree(board, model),
        board.len() == 64,
        0 <= sq < 64,
        board[sq].piece_type == PieceType::Empty,
        x.piece_type == PieceType::Empty,
    ensures
        f.agree(board.update(sq, x), model),
{
    let after = board.update(sq, x);
    lemma_change(board, model.rows(), sq, x);
    assert forall|c: int, pt: int, t: int| 0 <= c < 2 && 0 <= pt < 7 && 0 <= t < 64 implies (#[trigger] bit(
        f.men[c][pt],
        t,
    ) <==> belongs(after[t], c) && after[t].piece_type.spec_index() == pt) by {
        assert(bit(f.men[c][pt], t) <==> belongs(board[t], c) && board[t].piece_type.spec_index() == pt);
    }
    assert forall|c: int, t: int| 0 <= c < 2 && 0 <= t < 64 implies (#[trigger] bit(f.occupied[c], t) <==> belongs(
        after[t],
        c,
    )) by {
        assert(bit(f.occupied[c], t) <==> belongs(board[t], c));
    }
}

/// A move compiled for the board: its push plan (none for castling and en
/// passant), the piece type it captures, whether it pushes other pieces,
/// whether it pushes a king, and its ordering score.
pub struct Action {
    pub mv: Move,
    pub plan: Option<PushPlan>,
    pub capture: PieceType,
    pub push: bool,
    pub king_push: bool,
    pub order: i32,
}

impl Action {
    /// The action's squares are on the board.
    pub open spec fn fits(&self) -> bool {
        &&& self.mv.from < 64
        &&& self.mv.to < 64
        &&& self.mv.path_kind < 3
        &&& self.plan matches Some(p) ==> plan_on_board(p@)
    }

    /// Whether the action captures or promotes.
    pub fn tactical(&self) -> (b: bool)
        ensures
            b == (self.capture != PieceType::Empty || self.mv.special == crate::rules::types::SpecialMove::Promotion),
    {
        self.capture != PieceType::Empty || self.mv.special == crate::rules::types::SpecialMove::Promotion
    }
}

/// `mask` with bit `sq` set.
fn mark(mask: u64, sq: u8) -> (r: u64)
    requires
        sq < 64,
    ensures
        bit(r, sq as int),
        forall|q: int| 0 <= q < 64 && #[trigger] bit(mask, q) ==> bit(r, q),
        forall|q: int| 0 <= q < 64 && #[trigger] bit(r, q) ==> bit(mask, q) || q == sq,
{
    let r = mask | (1u64 << sq as u64);
    proof {
        assert forall|q: int| 0 <= q < 64 implies (bit(r, q) <==> bit(mask, q) || q == sq) by {
            lemma_bit_ops(mask, sq as u64, q as u64);
        }
        lemma_bit_ops(mask, sq as u64, sq as u64);
    }
    r
}

/// Move the pieces of an action on `pos`'s board: its push plan, promoting
/// the pawn it carries to the last rank, or castling, or en passant. The
/// squares that may have changed come back as a mask.
fn transact(pos: &mut Position, a: &Action) -> (touched: u64)
    requires
        a.fits(),
    ensures
        forall|q: int| 0 <= q < 64 && !bit(touched, q) ==> #[trigger] final(pos).board@[q] == old(pos).board@[q],
        final(pos).side_to_move == old(pos).side_to_move,
        final(pos).castling_rights == old(pos).castling_rights,
        final(pos).ep_square == old(pos).ep_square,
        final(pos).halfmove_clock == old(pos).halfmove_clock,
        final(pos).fullmove_number == old(pos).fullmove_number,
        final(pos).king_sq == old(pos).king_sq,
        final(pos).zobrist == old(pos).zobrist,
        final(pos).undo_stack == old(pos).undo_stack,
{
    let ghost b0 = pos.board@;
    let m = a.mv;
    let us = pos.side_to_move;
    let mut touched = mark(mark(0, m.from), m.to);
    match &a.plan {
        Some(plan) => {
            plan.apply(&mut pos.board);
            proof {
                lemma_apply_plan_frame(b0, plan@);
            }
            let d = plan.displacements();
            let n = d.len();
            let mut i: usize = 0;
            while i < n
                invariant
                    i <= n,
                    n == d@.len(),
                    d@ == plan@.0,
                    plan_on_board(plan@),
                    forall|j: int| 0 <= j < i ==> bit(touched, (#[trigger] d@[j]).0 as int) && bit(touched, d@[j].1 as int),
                decreases n - i,
            {
                let (f, t) = d[i];
                touched = mark(mark(touched, f), t);
                i += 1;
            }
            match plan.captured() {
                Some(sq) => {
                    touched = mark(touched, sq);
                },
                None => {},
            }
            proof {
                assert forall|q: int| 0 <= q < 64 && !bit(touched, q) implies !plan_touches(plan@, q) by {
                    if exists|j: int| 0 <= j < plan@.0.len() && (#[trigger] plan@.0[j]).0 == q {
                        let j = choose|j: int| 0 <= j < plan@.0.len() && (#[trigger] plan@.0[j]).0 == q;
                        assert(bit(touched, d@[j].0 as int));
                    }
                    if exists|j: int| 0 <= j < plan@.0.len() && (#[trigger] plan@.0[j]).1 == q {
                        let j = choose|j: int| 0 <= j < plan@.0.len() && (#[trigger] plan@.0[j]).1 == q;
                        assert(bit(touched, d@[j].1 as int));
                    }
                }
            }
            if m.special == crate::rules::types::SpecialMove::Promotion {
                let last: i32 = if us == Color::White {
                    7
                } else {
                    0
                };
                let mut i: usize = 0;
                while i < n
                    invariant
                        i <= n,
                        n == d@.len(),
                        plan_on_board(plan@),
                        d@ == plan@.0,
                        forall|j: int| 0 <= j < n ==> bit(touched, (#[trigger] d@[j]).1 as int),
                        forall|q: int| 0 <= q < 64 && !bit(touched, q) ==> #[trigger] pos.board@[q] == b0[q],
                        pos.side_to_move == old(pos).side_to_move,
                        pos.castling_rights == old(pos).castling_rights,
                        pos.ep_square == old(pos).ep_square,
                        pos.halfmove_clock == old(pos).halfmove_clock,
                        pos.fullmove_number == old(pos).fullmove_number,
                        pos.king_sq == old(pos).king_sq,
                        pos.zobrist == old(pos).zobrist,
                        pos.undo_stack == old(pos).undo_stack,
                    decreases n - i,
                {
                    let t = d[i].1;
                    if pos.board[t as usize].piece_type == PieceType::Pawn && rank_of(t) == last {
                        pos.board[t as usize].piece_type = m.promo_piece;
                        break;
                    }
                    i += 1;
                }
            }
        },
        None => {
            if m.special == crate::rules::types::SpecialMove::Castle {
                let base: u8 = if us == Color::White {
                    0
                } else {
                    56
                };
                let (rf, rt): (u8, u8) = if file_of(m.to) == 6 {
                    (base + 7, base + 5)
                } else {
                    (base, base + 3)
                };
                pos.board[m.to as usize] = pos.board[m.from as usize];
                pos.board[m.from as usize] = Piece::default();
                pos.board[rt as usize] = pos.board[rf as usize];
                pos.board[rf as usize] = Piece::default();
                touched = mark(mark(touched, rt), rf);
            } else {
                let cap = make_square(rank_of(m.from), file_of(m.to));
                pos.board[m.to as usize] = pos.board[m.from as usize];
                pos.board[m.from as usize] = Piece::default();
                pos.board[cap as usize] = Piece::default();
                touched = mark(touched, cap);
            }
        },
    }
    touched
}

impl Snapshot {
    /// The snapshot holds `b`'s squares, kings, hash, rights, en-passant
    /// square, clocks and features.
    pub open spec fn saves(&self, b: &Board) -> bool {
        &&& self.board == b.pos.board
        &&& self.kings == b.pos.king_sq
        &&& self.key == b.pos.zobrist
        &&& self.castle == b.pos.castling_rights
        &&& self.ep == b.pos.ep_square
        &&& self.half == b.pos.halfmove_clock
        &&& self.full == b.pos.fullmove_number
        &&& self.f == b.f
    }
}

impl<'m> Board<'m> {
    /// The features follow the squares that changed from `old` to the
    /// current board, all of them among those of `touched`; a king that
    /// arrives updates its square.
    fn refresh(&mut self, prior: &[Piece; 64], touched: u64)
        requires
            old(self).model.sound(),
            old(self).f.agree(prior@, old(self).model),
            forall|q: int| 0 <= q < 64 && !bit(touched, q) ==> #[trigger] old(self).pos.board@[q] == prior@[q],
        ensures
            final(self).wf(),
            final(self).model == old(self).model,
            final(self).pos.board == old(self).pos.board,
            final(self).pos.side_to_move == old(self).pos.side_to_move,
            final(self).pos.castling_rights == old(self).pos.castling_rights,
            final(self).pos.ep_square == old(self).pos.ep_square,
            final(self).pos.halfmove_clock == old(self).pos.halfmove_clock,
            final(self).pos.fullmove_number == old(self).pos.fullmove_number,
            final(self).pos.undo_stack == old(self).pos.undo_stack,
    {
        let ghost new_board = self.pos.board@;
        let ghost start = *self;
        assert(mix(prior@, new_board, touched) =~= prior@);
        let mut rem = touched;
        while rem != 0
            invariant
                self.model == start.model,
                self.model.sound(),
                self.pos.board@ == new_board,
                self.pos.side_to_move == start.pos.side_to_move,
                self.pos.castling_rights == start.pos.castling_rights,
                self.pos.ep_square == start.pos.ep_square,
                self.pos.halfmove_clock == start.pos.halfmove_clock,
                self.pos.fullmove_number == start.pos.fullmove_number,
                self.pos.undo_stack == start.pos.undo_stack,
                self.f.agree(mix(prior@, new_board, rem), self.model),
            decreases rem,
        {
            let ghost rem0 = rem;
            let ghost mix0 = mix(prior@, new_board, rem0);
            let tz = rem.trailing_zeros();
            proof {
                vstd::std_specs::bits::axiom_u64_trailing_zeros(rem);
                lemma_clear_lowest(rem, tz as u64);
            }
            let sq = tz as usize;
            rem = rem & (rem - 1);
            proof {
                assert forall|q: int| 0 <= q < 64 implies (bit(rem, q) <==> bit(rem0, q) && q != sq) by {
                    lemma_bit_ops(rem0, sq as u64, q as u64);
                }
                assert(mix(prior@, new_board, rem) =~= mix0.update(sq as int, new_board[sq as int]));
            }
            let before = prior[sq];
            let after = self.pos.board[sq];
            if before != after {
                let model = self.model;
                if !before.is_empty() {
                    self.pos.zobrist = self.pos.zobrist ^ piece_key(before.color, before.piece_type, sq as u8);
                    if after.is_empty() {
                        self.f.lift(before, sq, model, Ghost(mix0), Ghost(after));
                    } else {
                        self.f.lift(before, sq, model, Ghost(mix0), Ghost(Piece::empty()));
                    }
                }
                if !after.is_empty() {
                    let ghost cleared = mix0.update(sq as int, Piece::empty());
                    proof {
                        if before.piece_type == PieceType::Empty {
                            lemma_agree_empty(self.f, mix0, model, sq as int, Piece::empty());
                        }
                    }
                    self.pos.zobrist = self.pos.zobrist ^ piece_key(after.color, after.piece_type, sq as u8);
                    self.f.place(after, sq, model, Ghost(cleared));
                    assert(cleared.update(sq as int, after) =~= mix0.update(sq as int, after));
                    if after.piece_type == PieceType::King {
                        self.pos.king_sq[after.color.index()] = sq as u8;
                    }
                } else if before.is_empty() {
                    proof {
                        lemma_agree_empty(self.f, mix0, model, sq as int, after);
                    }
                }
            } else {
                assert(mix0.update(sq as int, after) =~= mix0);
            }
        }
        proof {
            assert forall|q: int| 0 <= q < 64 implies !bit(0u64, q) by {
                lemma_bit_ops(0, 0, q as u64);
            }
            assert(mix(prior@, new_board, rem) =~= new_board);
        }
    }

    /// Make an action: move its pieces, clear the en-passant square and set
    /// a new one after a double pawn step, reset or advance the halfmove
    /// clock, drop the castling rights of every king or rook home square it
    /// changes (pushed pieces included, as the rules do), update the hash and the features, and pass the move. The
    /// snapshot it returns restores the board.
    #[verifier::rlimit(40)]
    pub fn make(&mut self, a: &Action) -> (s: Snapshot)
        requires
            old(self).wf(),
            a.fits(),
            old(self).pos.castling_rights < 16,
            old(self).pos.halfmove_clock < u16::MAX,
            old(self).pos.side_to_move == Color::Black ==> old(self).pos.fullmove_number < u16::MAX,
        ensures
            final(self).wf(),
            final(self).model == old(self).model,
            s.saves(old(self)),
            final(self).pos.side_to_move == crate::rules::types::spec_opponent(old(self).pos.side_to_move),
            final(self).pos.castling_rights < 16,
            final(self).pos.halfmove_clock <= old(self).pos.halfmove_clock + 1,
            final(self).pos.fullmove_number == old(self).pos.fullmove_number + if old(self).pos.side_to_move
                == Color::Black {
                1int
            } else {
                0
            },
            final(self).pos.ep_square <= 64,
            final(self).pos.halfmove_clock == if old(self).pos.board@[a.mv.from as int].piece_type == PieceType::Pawn
                || a.capture != PieceType::Empty {
                0
            } else {
                old(self).pos.halfmove_clock + 1
            },
            final(self).pos.ep_square == if old(self).pos.board@[a.mv.from as int].piece_type == PieceType::Pawn && (
            a.mv.to / 8 - a.mv.from / 8 == 2 || a.mv.to / 8 - a.mv.from / 8 == -2) {
                spec_make_square((a.mv.from / 8 + a.mv.to / 8) / 2, (a.mv.from % 8) as int)
            } else {
                64
            },
            final(self).pos.undo_stack == old(self).pos.undo_stack,
    {
        let s = Snapshot {
            board: self.pos.board,
            kings: self.pos.king_sq,
            key: self.pos.zobrist,
            castle: self.pos.castling_rights,
            ep: self.pos.ep_square,
            half: self.pos.halfmove_clock,
            full: self.pos.fullmove_number,
            f: self.f,
        };
        let m = a.mv;
        let us = self.pos.side_to_move;
        let touched = transact(&mut self.pos, a);
        if self.pos.ep_square < 64 {
            self.pos.zobrist = self.pos.zobrist ^ ep_key(file_of(self.pos.ep_square));
        }
        self.pos.ep_square = 64;
        let mover = s.board[m.from as usize];
        self.pos.halfmove_clock = if mover.piece_type == PieceType::Pawn || a.capture != PieceType::Empty {
            0
        } else {
            self.pos.halfmove_clock + 1
        };
        let step = rank_of(m.to) - rank_of(m.from);
        if mover.piece_type == PieceType::Pawn && (step == 2 || step == -2) {
            let ep = make_square((rank_of(m.from) + rank_of(m.to)) / 2, file_of(m.from));
            self.pos.ep_square = ep;
            self.pos.zobrist = self.pos.zobrist ^ ep_key(file_of(ep));
        }
        let prior_rights = self.pos.castling_rights;
        let rights = castling_after_move(prior_rights, touched);
        assert(prior_rights & !revoked_rights(touched) <= prior_rights) by (bit_vector);
        self.pos.castling_rights = rights;
        self.pos.zobrist = self.pos.zobrist ^ castling_key(s.castle) ^ castling_key(rights) ^ side_key();
        self.refresh(&s.board, touched);
        self.pos.side_to_move = crate::rules::types::opponent(us);
        if us == Color::Black {
            self.pos.fullmove_number = self.pos.fullmove_number + 1;
        }
        s
    }

    /// Take back a move from its snapshot.
    pub fn unmake(&mut self, s: Snapshot)
        requires
            old(self).model.sound(),
            s.f.agree(s.board@, old(self).model),
        ensures
            final(self).wf(),
            final(self).model == old(self).model,
            final(self).pos.board == s.board,
            final(self).pos.king_sq == s.kings,
            final(self).pos.zobrist == s.key,
            final(self).pos.castling_rights == s.castle,
            final(self).pos.ep_square == s.ep,
            final(self).pos.halfmove_clock == s.half,
            final(self).pos.fullmove_number == s.full,
            final(self).f == s.f,
            final(self).pos.side_to_move == crate::rules::types::spec_opponent(old(self).pos.side_to_move),
            final(self).pos.undo_stack == old(self).pos.undo_stack,
    {
        self.pos.board = s.board;
        self.pos.king_sq = s.kings;
        self.pos.zobrist = s.key;
        self.pos.castling_rights = s.castle;
        self.pos.ep_square = s.ep;
        self.pos.halfmove_clock = s.half;
        self.pos.fullmove_number = s.full;
        self.pos.side_to_move = crate::rules::types::opponent(self.pos.side_to_move);
        self.f = s.f;
    }
}

/// The eight line directions: the orthogonals, then the diagonals.
pub fn dir_of(i: usize) -> (d: (i32, i32))
    requires
        i < 8,
    ensures
        -1 <= d.0 <= 1,
        -1 <= d.1 <= 1,
        (d.0 as int, d.1 as int) == seq![(1int, 0int), (-1, 0), (0, 1), (0, -1), (1, 1), (1, -1), (-1, 1), (-1, -1)][i as int],
{
    if i == 0 {
        (1, 0)
    } else if i == 1 {
        (-1, 0)
    } else if i == 2 {
        (0, 1)
    } else if i == 3 {
        (0, -1)
    } else if i == 4 {
        (1, 1)
    } else if i == 5 {
        (1, -1)
    } else if i == 6 {
        (-1, 1)
    } else {
        (-1, -1)
    }
}

/// The eight knight jumps.
pub fn knight_of(i: usize) -> (d: (i32, i32))
    requires
        i < 8,
    ensures
        -2 <= d.0 <= 2,
        -2 <= d.1 <= 2,
        (d.0 as int, d.1 as int) == seq![(2int, 1int), (2, -1), (-2, 1), (-2, -1), (1, 2), (1, -2), (-1, 2), (-1, -2)][i as int],
{
    if i == 0 {
        (2, 1)
    } else if i == 1 {
        (2, -1)
    } else if i == 2 {
        (-2, 1)
    } else if i == 3 {
        (-2, -1)
    } else if i == 4 {
        (1, 2)
    } else if i == 5 {
        (1, -2)
    } else if i == 6 {
        (-1, 2)
    } else {
        (-1, -2)
    }
}

/// Whether a knight push from `from` to `to` on either path captures.
fn knight_captures(pos: &Position, from: u8, to: u8) -> (b: bool)
    ensures
        b == (plan_captures(spec_resolve_knight_push(pos.board@, from, to, true)) || plan_captures(
            spec_resolve_knight_push(pos.board@, from, to, false),
        )),
{
    match resolve_knight_push(pos, from, to, true) {
        Some(p) => {
            if p.captured().is_some() {
                return true;
            }
        },
        None => {},
    }
    match resolve_knight_push(pos, from, to, false) {
        Some(p) => p.captured().is_some(),
        None => false,
    }
}

impl<'m> Board<'m> {
    /// Whether the king of `color` is attacked: by an enemy pawn, by an
    /// enemy knight whose push on either path captures it, by the first
    /// piece on a line when it is a queen, a rook on a rank or file, a bishop
    /// on a diagonal, or a king one step away.
    #[verifier::rlimit(60)]
    pub fn checked(&self, color: Color) -> (b: bool)
        requires
            self.wf(),
        ensures
            self.pos.king_sq@[color.spec_index()] < 64 ==> b == attacked(
                self.pos.board@,
                self.pos.king_sq@[color.spec_index()],
                crate::rules::types::spec_opponent(color),
            ),
    {
        let sq = self.pos.king_sq[color.index()];
        let them = opponent(color);
        let ti = them.index();
        let ghost board = self.pos.board@;
        assert(sq == self.pos.king_sq@[color.spec_index()]);
        assert(them == crate::rules::types::spec_opponent(color));
        let r0 = rank_of(sq);
        let f0 = file_of(sq);
        let r = r0 + if them == Color::White {
            -1
        } else {
            1
        };
        let mut df: i32 = -1;
        while df <= 1
            invariant
                -1 <= df <= 3,
                df == -1 || df == 1 || df == 3,
                ti < 2,
                ti == them.spec_index(),
                -1 <= r <= 33,
                0 <= f0 < 8,
                self.wf(),
                board == self.pos.board@,
                sq == self.pos.king_sq@[color.spec_index()],
                them == crate::rules::types::spec_opponent(color),
                r == spec_rank_of(sq) + if them == Color::White {
                    -1int
                } else {
                    1
                },
                f0 == spec_file_of(sq),
                df > -1 ==> !piece_at(board, r as int, f0 - 1, PieceType::Pawn, them),
                df > 1 ==> !piece_at(board, r as int, f0 + 1, PieceType::Pawn, them),
            decreases 3 - df,
        {
            let f = f0 + df;
            if valid_rf(r, f) {
                let t = make_square(r, f);
                proof {
                    lemma_bit_of(self.f.men[ti as int][1], t as u64);
                    assert(bit(self.f.men[ti as int][1], t as int) <==> belongs(board[t as int], ti as int)
                        && board[t as int].piece_type.spec_index() == 1);
                    lemma_piece_is(board[t as int], PieceType::Pawn, them);
                }
                if self.f.men[ti][1] & (1u64 << t as u64) != 0 {
                    assert(pawn_attacks(board, sq, them));
                    assert(attacked(board, sq, them));
                    return true;
                }
            }
            df += 2;
        }
        assert(!pawn_attacks(board, sq, them));
        let mut i: usize = 0;
        while i < 8
            invariant
                i <= 8,
                ti < 2,
                ti == them.spec_index(),
                self.wf(),
                board == self.pos.board@,
                sq == self.pos.king_sq@[color.spec_index()],
                them == crate::rules::types::spec_opponent(color),
                !pawn_attacks(board, sq, them),
                forall|j: int| 0 <= j < i ==> !#[trigger] knight_attacks_from(board, sq, them, knight_index(j)),
            decreases 8 - i,
        {
            let (dr, df) = knight_of(i);
            assert(dr == knight_dr(knight_index(i as int)) && df == knight_dc(knight_index(i as int)));
            match step(sq, dr, df) {
                Some(from) => {
                    proof {
                        lemma_bit_of(self.f.men[ti as int][2], from as u64);
                        assert(bit(self.f.men[ti as int][2], from as int) <==> belongs(board[from as int], ti as int)
                            && board[from as int].piece_type.spec_index() == 2);
                        lemma_piece_is(board[from as int], PieceType::Knight, them);
                    }
                    if self.f.men[ti][2] & (1u64 << from as u64) != 0 && knight_captures(&self.pos, from, sq) {
                        let ghost k = knight_index(i as int);
                        assert(0 <= k < 8);
                        assert(knight_attacks_from(board, sq, them, k));
                        assert(attacked(board, sq, them));
                        return true;
                    }
                },
                None => {},
            }
            i += 1;
        }
        proof {
            lemma_knight_indices(board, sq, them);
        }
        let mut i: usize = 0;
        while i < 8
            invariant
                i <= 8,
                0 <= r0 < 32,
                0 <= f0 < 8,
                r0 == spec_rank_of(sq),
                f0 == spec_file_of(sq),
                ti == them.spec_index(),
                board == self.pos.board@,
                sq == self.pos.king_sq@[color.spec_index()],
                them == crate::rules::types::spec_opponent(color),
                !pawn_attacks(board, sq, them),
                forall|j: int| 0 <= j < 8 ==> !#[trigger] knight_attacks_from(board, sq, them, j),
                forall|j: int| 0 <= j < i ==> !#[trigger] slider_attacks_from(board, sq, them, j),
                forall|j: int| 0 <= j < i ==> !#[trigger] king_attacks_from(board, sq, them, j),
            decreases 8 - i,
        {
            let (dr, df) = dir_of(i);
            assert(dr == ray_dr(i as int) && df == ray_dc(i as int));
            let mut distance: i32 = 1;
            while distance <= 8
                invariant_except_break
                    first_blocker(board, sq, dr as int, df as int, 1) == first_blocker(
                        board,
                        sq,
                        dr as int,
                        df as int,
                        distance as nat,
                    ),
                invariant
                    1 <= distance <= 9,
                    -1 <= dr <= 1,
                    -1 <= df <= 1,
                    !(dr == 0 && df == 0),
                    0 <= r0 < 32,
                    0 <= f0 < 8,
                    r0 == spec_rank_of(sq),
                    f0 == spec_file_of(sq),
                    i < 8,
                    dr == ray_dr(i as int),
                    df == ray_dc(i as int),
                    ti == them.spec_index(),
                    board == self.pos.board@,
                    sq == self.pos.king_sq@[color.spec_index()],
                    them == crate::rules::types::spec_opponent(color),
                sq == self.pos.king_sq@[color.spec_index()],
                them == crate::rules::types::spec_opponent(color),
                    distance > 1 ==> !king_attacks_from(board, sq, them, i as int),
                ensures
                    !slider_attacks_from(board, sq, them, i as int),
                    !king_attacks_from(board, sq, them, i as int),
                decreases 9 - distance,
            {
                assert(-8 <= dr * distance <= 8 && -8 <= df * distance <= 8) by (nonlinear_arith)
                    requires
                        -1 <= dr <= 1,
                        -1 <= df <= 1,
                        1 <= distance <= 8,
                ;
                assert(dr * distance == steps(distance as int, dr as int) && df * distance == steps(
                    distance as int,
                    df as int,
                )) by (nonlinear_arith)
                    requires
                        -1 <= dr <= 1,
                        -1 <= df <= 1,
                ;
                let nr = r0 + dr * distance;
                let nf = f0 + df * distance;
                if !valid_rf(nr, nf) {
                    break;
                }
                let t = make_square(nr, nf);
                let p = self.pos.board[t as usize];
                assert(ray_sq(sq, dr as int, df as int, distance as int) == t);
                if !p.is_empty() {
                    if p.color == them && (p.piece_type == PieceType::Queen || (i < 4 && p.piece_type == PieceType::Rook)
                        || (i >= 4 && p.piece_type == PieceType::Bishop) || (distance == 1 && p.piece_type
                        == PieceType::King)) {
                        proof {
                            if distance == 1 && p.piece_type == PieceType::King {
                                lemma_piece_is(p, PieceType::King, them);
                                assert(king_attacks_from(board, sq, them, i as int));
                            } else {
                                assert(slider_attacks_from(board, sq, them, i as int));
                            }
                            assert(attacked(board, sq, them));
                        }
                        return true;
                    }
                    proof {
                        lemma_piece_is(p, PieceType::King, them);
                    }
                    break;
                }
                proof {
                    if distance == 1 {
                        lemma_piece_is(p, PieceType::King, them);
                    }
                }
                distance += 1;
            }
            i += 1;
        }
        false
    }
}

/// The index among the rules' knight jumps of the board's jump `i`.
pub open spec fn knight_index(i: int) -> int {
    seq![7int, 6, 1, 0, 5, 4, 3, 2][i]
}

/// Every one of the rules' knight jumps is one of the board's.
proof fn lemma_knight_indices(board: Seq<Piece>, sq: u8, them: Color)
    requires
        forall|j: int| 0 <= j < 8 ==> !#[trigger] knight_attacks_from(board, sq, them, knight_index(j)),
    ensures
        forall|j: int| 0 <= j < 8 ==> !#[trigger] knight_attacks_from(board, sq, them, j),
{
    assert forall|j: int| 0 <= j < 8 implies !#[trigger] knight_attacks_from(board, sq, them, j) by {
        let k = seq![3int, 2, 7, 6, 5, 4, 1, 0][j];
        assert(knight_index(k) == j);
        assert(!knight_attacks_from(board, sq, them, knight_index(k)));
    }
}

/// A piece of type `pt` and color `c` is that piece.
proof fn lemma_piece_is(p: Piece, pt: PieceType, c: Color)
    ensures
        (p.piece_type == pt && p.color == c) <==> p == (Piece { piece_type: pt, color: c }),
{
}

/// Bit `t` of `x` as the test the board makes.
proof fn lemma_bit_of(x: u64, t: u64)
    requires
        t < 64,
    ensures
        (x & (1u64 << t) != 0) == bit(x, t as int),
{
    assert((x & (1u64 << t) != 0) == ((x >> t) & 1u64 == 1u64)) by (bit_vector)
        requires
            t < 64,
    ;
}

/// Every action of `actions` fits the board.
/// Every castling action among `actions` has the squares between king and
/// rook empty on `board`.
pub open spec fn castles_clear(board: Seq<Piece>, actions: Seq<Action>) -> bool {
    forall|k: int|
        0 <= k < actions.len() && (#[trigger] actions[k]).mv.special == SpecialMove::Castle ==> castle_path_clear(
            board,
            actions[k].mv,
        )
}

pub open spec fn all_fit(actions: Seq<Action>) -> bool {
    forall|k: int| 0 <= k < actions.len() ==> (#[trigger] actions[k]).fits()
}

impl<'m> Board<'m> {
    /// Append the actions of a move: its capture (a pawn for en passant),
    /// whether it pushes other pieces and whether it pushes a king, and one
    /// action per promotion piece (queen, knight, rook, bishop) when a pawn
    /// it moves reaches the last rank.
    fn append(&self, out: &mut Vec<Action>, mv: Move, plan: Option<PushPlan>)
        requires
            all_fit(old(out)@),
            castles_clear(self.pos.board@, old(out)@),
            mv.from < 64,
            mv.to < 64,
            mv.path_kind < 3,
            plan matches Some(p) ==> plan_on_board(p@),
            mv.special == SpecialMove::Castle ==> castle_path_clear(self.pos.board@, mv),
        ensures
            all_fit(final(out)@),
            castles_clear(self.pos.board@, final(out)@),
    {
        let us = self.pos.side_to_move;
        let last: i32 = if us == Color::White {
            7
        } else {
            0
        };
        let mut capture = PieceType::Empty;
        let mut push = false;
        let mut king_push = false;
        let mut promotion = false;
        if mv.special == SpecialMove::EnPassant {
            capture = PieceType::Pawn;
        }
        match &plan {
            Some(p) => {
                if mv.special != SpecialMove::EnPassant {
                    match p.captured() {
                        Some(sq) => {
                            capture = self.pos.board[sq as usize].piece_type;
                        },
                        None => {},
                    }
                }
                let n = p.len();
                push = n > 1;
                let mut i: usize = 0;
                while i < n
                    invariant
                        i <= n,
                        n == p@.0.len(),
                        plan_on_board(p@),
                    decreases n - i,
                {
                    let (f, t) = p.displacement(i);
                    if f != mv.from && self.pos.board[f as usize].piece_type == PieceType::King {
                        king_push = true;
                    }
                    if self.pos.board[f as usize].piece_type == PieceType::Pawn && rank_of(t) == last {
                        promotion = true;
                    }
                    i += 1;
                }
            },
            None => {},
        }
        let mut mv = mv;
        if promotion {
            mv.special = SpecialMove::Promotion;
            let mut k: usize = 0;
            while k < 4
                invariant
                    k <= 4,
                    all_fit(out@),
                    castles_clear(self.pos.board@, out@),
                    mv.special == SpecialMove::Promotion,
                    mv.from < 64,
                    mv.to < 64,
                    mv.path_kind < 3,
                    plan matches Some(p) ==> plan_on_board(p@),
                decreases 4 - k,
            {
                mv.promo_piece = if k == 0 {
                    PieceType::Queen
                } else if k == 1 {
                    PieceType::Knight
                } else if k == 2 {
                    PieceType::Rook
                } else {
                    PieceType::Bishop
                };
                let copy = match &plan {
                    Some(p) => Some(p.duplicate()),
                    None => None,
                };
                let ghost before = out@;
                out.push(Action { mv, plan: copy, capture, push, king_push, order: 0 });
                assert(forall|j: int| 0 <= j < before.len() ==> out@[j] == before[j]);
                k += 1;
            }
        } else {
            let ghost before = out@;
            out.push(Action { mv, plan, capture, push, king_push, order: 0 });
            assert(forall|j: int| 0 <= j < before.len() ==> out@[j] == before[j]);
        }
    }
}

impl<'m> Board<'m> {
    /// The knight moves from `from`: each jump by the long leg first, then by
    /// the short leg first when that push differs.
    fn knight_moves(&self, out: &mut Vec<Action>, from: u8)
        requires
            all_fit(old(out)@),
            castles_clear(self.pos.board@, old(out)@),
            from < 64,
        ensures
            all_fit(final(out)@),
            castles_clear(self.pos.board@, final(out)@),
    {
        let mut i: usize = 0;
        while i < 8
            invariant
                i <= 8,
                from < 64,
                all_fit(out@),
                castles_clear(self.pos.board@, out@),
            decreases 8 - i,
        {
            let (dr, df) = knight_of(i);
            match step(from, dr, df) {
                Some(to) => {
                    let first = resolve_knight_push(&self.pos, from, to, true);
                    match &first {
                        Some(p) => {
                            let mv = Move { path_kind: 1, ..Move::default() };
                            self.append(out, Move { from, to, ..mv }, Some(p.duplicate()));
                        },
                        None => {},
                    }
                    match resolve_knight_push(&self.pos, from, to, false) {
                        Some(p) => {
                            let same = match &first {
                                Some(q) => q.same_as(&p),
                                None => false,
                            };
                            if !same {
                                let mv = Move { path_kind: 2, ..Move::default() };
                                self.append(out, Move { from, to, ..mv }, Some(p));
                            }
                        },
                        None => {},
                    }
                },
                None => {},
            }
            i += 1;
        }
    }

    /// The pawn moves from `from`: one step, two from the start rank, pushes
    /// that capture nothing; diagonal captures of enemy pieces; en passant.
    fn pawn_moves(&self, out: &mut Vec<Action>, from: u8)
        requires
            all_fit(old(out)@),
            castles_clear(self.pos.board@, old(out)@),
            from < 64,
        ensures
            all_fit(final(out)@),
            castles_clear(self.pos.board@, final(out)@),
    {
        let us = self.pos.side_to_move;
        let dr: i32 = if us == Color::White {
            1
        } else {
            -1
        };
        let start: i32 = if us == Color::White {
            1
        } else {
            6
        };
        let mut distance: i32 = 1;
        while distance <= 2
            invariant
                1 <= distance <= 3,
                dr == 1 || dr == -1,
                from < 64,
                all_fit(out@),
                castles_clear(self.pos.board@, out@),
            decreases 3 - distance,
        {
            if distance == 2 && rank_of(from) != start {
                break;
            }
            match step(from, dr * distance, 0) {
                Some(to) => {
                    match resolve_push(&self.pos, from, to, dr, 0) {
                        Some(p) => {
                            if p.captured().is_none() {
                                let stop = (distance - 1) as u8;
                                self.append(out, Move { from, to, stop_index: stop, ..Move::default() }, Some(p));
                            }
                        },
                        None => {},
                    }
                },
                None => {},
            }
            distance += 1;
        }
        let mut df: i32 = -1;
        while df <= 1
            invariant
                -1 <= df <= 3,
                dr == 1 || dr == -1,
                from < 64,
                all_fit(out@),
                castles_clear(self.pos.board@, out@),
            decreases 3 - df,
        {
            match step(from, dr, df) {
                Some(to) => {
                    if self.pos.board[to as usize].is_color(opponent(us)) {
                        self.append(
                            out,
                            Move { from, to, ..Move::default() },
                            Some(PushPlan::single(from, to, Some(to))),
                        );
                    }
                    if to == self.pos.ep_square {
                        self.append(
                            out,
                            Move { from, to, special: SpecialMove::EnPassant, ..Move::default() },
                            None,
                        );
                    }
                },
                None => {},
            }
            df += 2;
        }
    }

    /// The line and king moves from `from`: along each of its directions (the
    /// king's one step), every push that resolves, up to the first capture;
    /// and castling for a king on its home square.
    fn line_moves(&self, out: &mut Vec<Action>, from: u8, pt: PieceType)
        requires
            all_fit(old(out)@),
            castles_clear(self.pos.board@, old(out)@),
            from < 64,
        ensures
            all_fit(final(out)@),
            castles_clear(self.pos.board@, final(out)@),
    {
        let mut i: usize = 0;
        while i < 8
            invariant
                i <= 8,
                from < 64,
                all_fit(out@),
                castles_clear(self.pos.board@, out@),
            decreases 8 - i,
        {
            if !((pt == PieceType::Bishop && i < 4) || (pt == PieceType::Rook && i >= 4)) {
                let (dr, df) = dir_of(i);
                let stops: u8 = if pt == PieceType::King {
                    1
                } else {
                    7
                };
                let mut at = from;
                let mut stop: u8 = 0;
                while stop < stops
                    invariant
                        stop <= stops <= 7,
                        at < 64,
                        from < 64,
                        -1 <= dr <= 1,
                        -1 <= df <= 1,
                        all_fit(out@),
                        castles_clear(self.pos.board@, out@),
                    decreases stops - stop,
                {
                    let to = match step(at, dr, df) {
                        Some(t) => t,
                        None => {
                            break;
                        },
                    };
                    at = to;
                    let p = match resolve_push(&self.pos, from, to, dr, df) {
                        Some(p) => p,
                        None => {
                            break;
                        },
                    };
                    let cap = p.captured().is_some();
                    self.append(out, Move { from, to, stop_index: stop, ..Move::default() }, Some(p));
                    if cap {
                        break;
                    }
                    stop += 1;
                }
            }
            i += 1;
        }
        if pt == PieceType::King {
            let us = self.pos.side_to_move;
            let base: u8 = if us == Color::White {
                0
            } else {
                56
            };
            if from != base + 4 {
                return;
            }
            let them = opponent(us);
            let (short, long): (u8, u8) = if us == Color::White {
                (1, 2)
            } else {
                (4, 8)
            };
            if self.pos.castling_rights & short != 0 && self.pos.board[(base + 5) as usize].is_empty()
                && self.pos.board[(base + 6) as usize].is_empty() && !self.pos.is_attacked_by(from, them)
                && !self.pos.is_attacked_by(base + 5, them) && !self.pos.is_attacked_by(base + 6, them) {
                self.append(out, Move { from, to: base + 6, special: SpecialMove::Castle, ..Move::default() }, None);
            }
            if self.pos.castling_rights & long != 0 && self.pos.board[(base + 1) as usize].is_empty()
                && self.pos.board[(base + 2) as usize].is_empty() && self.pos.board[(base + 3) as usize].is_empty()
                && !self.pos.is_attacked_by(from, them) && !self.pos.is_attacked_by(base + 3, them)
                && !self.pos.is_attacked_by(base + 2, them) {
                self.append(out, Move { from, to: base + 2, special: SpecialMove::Castle, ..Move::default() }, None);
            }
        }
    }

    /// Every pseudo-legal action of the side to move, piece by piece in
    /// square order.
    pub fn generate(&self, out: &mut Vec<Action>)
        ensures
            all_fit(final(out)@),
            castles_clear(self.pos.board@, final(out)@),
    {
        out.clear();
        let us = self.pos.side_to_move;
        let mut remaining = self.f.occupied[us.index()];
        while remaining != 0
            invariant
                all_fit(out@),
                castles_clear(self.pos.board@, out@),
            decreases remaining,
        {
            let tz = remaining.trailing_zeros();
            proof {
                vstd::std_specs::bits::axiom_u64_trailing_zeros(remaining);
                lemma_clear_lowest(remaining, tz as u64);
            }
            let from = tz as u8;
            remaining = remaining & (remaining - 1);
            let pt = self.pos.board[from as usize].piece_type;
            if pt == PieceType::Knight {
                self.knight_moves(out, from);
            } else if pt == PieceType::Pawn {
                self.pawn_moves(out, from);
            } else {
                self.line_moves(out, from, pt);
            }
        }
    }
}

impl<'m> Board<'m> {
    /// The board is `other` in every part.
    pub open spec fn same(&self, other: &Board<'m>) -> bool {
        &&& self.model == other.model
        &&& self.pos.board == other.pos.board
        &&& self.pos.side_to_move == other.pos.side_to_move
        &&& self.pos.castling_rights == other.pos.castling_rights
        &&& self.pos.ep_square == other.pos.ep_square
        &&& self.pos.halfmove_clock == other.pos.halfmove_clock
        &&& self.pos.fullmove_number == other.pos.fullmove_number
        &&& self.pos.king_sq == other.pos.king_sq
        &&& self.pos.zobrist == other.pos.zobrist
        &&& self.pos.undo_stack == other.pos.undo_stack
        &&& self.f == other.f
    }

    /// Room for one more move: four castling bits and clocks below their
    /// limit.
    pub open spec fn room(&self) -> bool {
        &&& self.pos.castling_rights < 16
        &&& self.pos.halfmove_clock < u16::MAX
        &&& self.pos.side_to_move == Color::Black ==> self.pos.fullmove_number < u16::MAX
    }

    /// Whether the action leaves the mover's king unattacked; the board comes
    /// back as it was.
    pub fn legal_after(&mut self, a: &Action) -> (legal: bool)
        requires
            old(self).wf(),
            old(self).room(),
            a.fits(),
        ensures
            final(self).wf(),
            final(self).same(old(self)),
    {
        let us = self.pos.side_to_move;
        let undo = self.make(a);
        let legal = !self.checked(us);
        self.unmake(undo);
        legal
    }

    /// Whether the side to move has a legal move: a king step first, then
    /// the whole move set. The board comes back as it was.
    pub fn has_legal_move(&mut self) -> (found: bool)
        requires
            old(self).wf(),
            old(self).room(),
        ensures
            final(self).wf(),
            final(self).same(old(self)),
    {
        let us = self.pos.side_to_move;
        let from = self.pos.king_sq[us.index()];
        let last: i32 = if us == Color::White {
            7
        } else {
            0
        };
        let mut i: usize = 0;
        while i < 8
            invariant
                i <= 8,
                self.wf(),
                self.room(),
                self.same(old(self)),
            decreases 8 - i,
        {
            let (dr, df) = dir_of(i);
            match step(from, dr, df) {
                Some(to) => {
                    match resolve_push(&self.pos, from, to, dr, df) {
                        Some(plan) => {
                            let capture = match plan.captured() {
                                Some(sq) => self.pos.board[sq as usize].piece_type,
                                None => PieceType::Empty,
                            };
                            let mut promotion = false;
                            let n = plan.len();
                            let mut k: usize = 0;
                            while k < n
                                invariant
                                    k <= n,
                                    n == plan@.0.len(),
                                    plan_on_board(plan@),
                                decreases n - k,
                            {
                                let (f, t) = plan.displacement(k);
                                if self.pos.board[f as usize].piece_type == PieceType::Pawn && rank_of(t) == last {
                                    promotion = true;
                                }
                                k += 1;
                            }
                            let mv = Move {
                                from,
                                to,
                                special: if promotion {
                                    SpecialMove::Promotion
                                } else {
                                    SpecialMove::Normal
                                },
                                promo_piece: if promotion {
                                    PieceType::Queen
                                } else {
                                    PieceType::Empty
                                },
                                ..Move::default()
                            };
                            let a = Action { mv, plan: Some(plan), capture, push: false, king_push: false, order: 0 };
                            if self.legal_after(&a) {
                                return true;
                            }
                        },
                        None => {},
                    }
                },
                None => {},
            }
            i += 1;
        }
        let mut actions: Vec<Action> = Vec::new();
        self.generate(&mut actions);
        let n = actions.len();
        let mut i: usize = 0;
        while i < n
            invariant
                i <= n,
                n == actions@.len(),
                all_fit(actions@),
                self.wf(),
                self.room(),
                self.same(old(self)),
            decreases n - i,
        {
            if self.legal_after(&actions[i]) {
                return true;
            }
            i += 1;
        }
        false
    }
}

} // verus!

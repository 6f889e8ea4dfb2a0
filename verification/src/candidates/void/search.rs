//! Void's search: iterative deepening to depth 30 with a root aspiration
//! window, principal-variation search with null-move pruning, reverse
//! futility to depth 6, a one-ply reduction without a table move, late-move
//! pruning and reductions, lazily selected moves with separate push and
//! quiet histories, and a capture quiescence search ten plies deep.
use vstd::prelude::*;
use std::time::Instant;
use crate::candidates::support::{
    bring_to_front, clamp_i32, holds_move, legal_list, lemma_legal_is_on_board, listed, max_i32, min_i32, pick_listed, push_i32,
    push_text, push_u64, push_uci, seen_key,
};
use crate::engine::shared::{elapsed, now, whole_micros};
use crate::engine::walk::{headroom, play_legal, same_position, unplay};
use crate::engines::support::{ScoredMove, ScoredMoves};
use crate::rules::fen::string_from_chars;
use crate::rules::movegen::{generate_legal_moves, legal_moves, lemma_legal_moves_congruent};
use crate::rules::position::Position;
use crate::rules::types::{
    Color, Move, Piece, PieceType, SearchBudget, SearchStats, SpecialMove, file_of, opponent, pval, spec_pval,
};
use crate::rules::zobrist::{ep_key, side_key};
use super::eval::{eval_piece, evaluate, value_entry};

verus! {

/// Table slots.
pub const TT_SIZE: usize = 4194304;

/// History slots: mover, from square, to square.
pub const VOID_HISTORY: usize = 8192;

/// Late-move reductions: 32 depths by 256 move numbers.
pub const LMR_SIZE: usize = 8192;

/// No score reaches further out.
pub const BOUND: i32 = 150000;

/// The largest time budget whose nine tenths can be computed.
pub const MAX_TIME_US: i64 = 1024819115206086200;

/// A table entry: the high half of the key, the packed move, the score
/// clamped to the 16-bit range, the depth and the bound (0 exact, 1 upper,
/// 2 lower).
#[derive(Clone, Copy, Debug)]
pub struct TtEntry {
    pub key32: u32,
    pub packed_move: u32,
    pub score: i16,
    pub depth: u8,
    pub flag: u8,
}

/// The table index of square `sq` seen by `c`: mirrored for Black.
pub open spec fn pst_square(c: Color, sq: u8) -> int {
    if c == Color::White {
        sq as int
    } else {
        (sq ^ 56u8) as int
    }
}

/// `h` after the moves among the first `j` of `ml` that `quiet` selects
/// each lose `depth`, floored at -16000: pushes of friendly pieces when
/// `quiet` is false, quiet moves otherwise.
pub open spec fn lowered(
    h: Seq<i16>,
    ml: Seq<ScoredMove>,
    board: Seq<Piece>,
    stm: Color,
    depth: int,
    j: int,
    quiet: bool,
) -> Seq<i16>
    decreases j,
{
    if j <= 0 {
        h
    } else {
        let prev = lowered(h, ml, board, stm, depth, j - 1, quiet);
        let mj = ml[j - 1].mv;
        let target = board[mj.to as int];
        let k = stm.spec_index() * 4096 + mj.from * 64 + mj.to;
        let chosen = if quiet {
            target.piece_type == PieceType::Empty && mj.special != SpecialMove::Promotion && mj.special
                != SpecialMove::EnPassant
        } else {
            target.piece_type != PieceType::Empty && target.color == stm
        };
        if chosen {
            prev.update(k, (if prev[k] - depth > -16000 {
                prev[k] - depth
            } else {
                -16000
            }) as i16)
        } else {
            prev
        }
    }
}

/// `h` with the slot of `m` raised by `depth` squared, capped at 16000.
pub open spec fn raised(h: Seq<i16>, stm: Color, m: Move, depth: int) -> Seq<i16> {
    let k = stm.spec_index() * 4096 + m.from * 64 + m.to;
    h.update(k, (if h[k] + depth * depth < 16000 {
        h[k] + depth * depth
    } else {
        16000
    }) as i16)
}

/// How many of the first `k` entries of `tt` are in use.
pub open spec fn used_entries(tt: Seq<TtEntry>, k: int) -> nat
    decreases k,
{
    if k <= 0 {
        0
    } else {
        used_entries(tt, k - 1) + (if tt[k - 1].key32 != 0 {
            1nat
        } else {
            0nat
        })
    }
}

/// A score clamped to ±32000, as the table keeps it.
pub open spec fn clamp_score(x: i32) -> i32 {
    if x < -32000 {
        -32000i32
    } else if x > 32000 {
        32000
    } else {
        x
    }
}

/// An entry as a fresh table holds it.
pub open spec fn blank(e: TtEntry) -> bool {
    e.key32 == 0 && e.packed_move == 0 && e.score == 0 && e.depth == 0 && e.flag == 0
}

impl Default for TtEntry {
    fn default() -> (e: Self)
        ensures
            e.key32 == 0 && e.packed_move == 0 && e.score == 0 && e.depth == 0 && e.flag == 0,
    {
        TtEntry { key32: 0, packed_move: 0, score: 0, depth: 0, flag: 0 }
    }
}

/// The move a packed identifier stands for: six bits each of from and to,
/// two of path kind, four of stop index, two of special move, three of
/// promotion piece.
pub fn unpack_move(p: u32) -> (m: Move)
    ensures
        m.from < 64,
        m.to < 64,
        m.from == p & 0x3F,
        m.to == (p >> 6u32) & 0x3F,
{
    assert((p & 0x3F) < 64 && ((p >> 6u32) & 0x3F) < 64) by (bit_vector);
    let special = match (p >> 18u32) & 0x3 {
        1 => SpecialMove::Castle,
        2 => SpecialMove::EnPassant,
        3 => SpecialMove::Promotion,
        _ => SpecialMove::Normal,
    };
    let promo = match (p >> 20u32) & 0x7 {
        1 => PieceType::Pawn,
        2 => PieceType::Knight,
        3 => PieceType::Bishop,
        4 => PieceType::Rook,
        5 => PieceType::Queen,
        6 => PieceType::King,
        _ => PieceType::Empty,
    };
    Move {
        from: (p & 0x3F) as u8,
        to: ((p >> 6u32) & 0x3F) as u8,
        path_kind: ((p >> 12u32) & 0x3) as u8,
        stop_index: ((p >> 14u32) & 0xF) as u8,
        special,
        promo_piece: promo,
    }
}

/// The history slot of a move of color index `c` from `f` to `t`.
pub fn hist_idx(c: usize, f: usize, t: usize) -> (i: usize)
    requires
        c < 2,
        f < 64,
        t < 64,
    ensures
        i == c * 4096 + f * 64 + t,
        i < VOID_HISTORY,
{
    c * 4096 + f * 64 + t
}

/// The table slot of a key: its low bits.
fn void_slot(key: u64) -> (i: usize)
    ensures
        i < 4194304,
        i == key % 4194304,
{
    assert((key & 0x3FFFFF) < 4194304 && (key & 0x3FFFFF) == key % 4194304) by (bit_vector);
    (key & 0x3FFFFF) as usize
}

/// The Void engine: its table, quiet and push histories, killers and counter
/// moves, the late-move reductions it was built with, and the counters of
/// the search under way.
pub struct Void {
    color: Color,
    tt: Vec<TtEntry>,
    history: Vec<i16>,
    push_history: Vec<i16>,
    killers: Vec<Move>,
    countermove: Vec<Move>,
    lmr: Vec<i32>,
    prev_move: Move,
    nodes: u64,
    qnodes: u64,
    beta_cuts: u64,
    first_cuts: u64,
    tt_hits: u64,
    null_cuts: u64,
    lmr_tries: u64,
    lmr_re: u64,
    max_ply: u32,
    stopped: bool,
    budget_max_time_us: i64,
    t0: Instant,
    cut_hist: [u64; 6],
    cut_types: [u64; 3],
    max_qdep: i32,
}

impl Void {
    /// The engine's invariant: tables of their sizes, histories within
    /// ±16000, reductions between 0 and 64, the previous move on the board
    /// and a time budget whose nine tenths can be computed.
    pub closed spec fn wf(&self) -> bool {
        &&& self.tt@.len() == TT_SIZE
        &&& self.history@.len() == VOID_HISTORY
        &&& forall|k: int| 0 <= k < VOID_HISTORY ==> -16000 <= #[trigger] self.history@[k] <= 16000
        &&& self.push_history@.len() == VOID_HISTORY
        &&& forall|k: int| 0 <= k < VOID_HISTORY ==> -16000 <= #[trigger] self.push_history@[k] <= 16000
        &&& self.killers@.len() == 128
        &&& self.countermove@.len() == 4096
        &&& self.lmr@.len() == LMR_SIZE
        &&& forall|k: int| 0 <= k < LMR_SIZE ==> 0 <= #[trigger] self.lmr@[k] <= 64
        &&& self.prev_move.from < 64
        &&& self.prev_move.to < 64
        &&& self.budget_max_time_us <= MAX_TIME_US
        &&& 0 <= self.max_qdep <= 10
    }

    /// A fresh engine with the late-move reductions: 32 rows of depth by 256
    /// move numbers, each between 0 and 64.
    pub fn new(lmr: Vec<i32>) -> (e: Void)
        requires
            lmr@.len() == LMR_SIZE,
            forall|k: int| 0 <= k < LMR_SIZE ==> 0 <= #[trigger] lmr@[k] <= 64,
        ensures
            e.wf(),
    {
        let mut tt: Vec<TtEntry> = Vec::new();
        let mut k: usize = 0;
        while k < TT_SIZE
            invariant
                k <= TT_SIZE,
                tt@.len() == k,
            decreases TT_SIZE - k,
        {
            tt.push(TtEntry::default());
            k += 1;
        }
        let mut history: Vec<i16> = Vec::new();
        let mut push_history: Vec<i16> = Vec::new();
        let mut k: usize = 0;
        while k < VOID_HISTORY
            invariant
                k <= VOID_HISTORY,
                history@.len() == k,
                push_history@.len() == k,
                forall|j: int| 0 <= j < k ==> #[trigger] history@[j] == 0,
                forall|j: int| 0 <= j < k ==> #[trigger] push_history@[j] == 0,
            decreases VOID_HISTORY - k,
        {
            history.push(0);
            push_history.push(0);
            k += 1;
        }
        let mut killers: Vec<Move> = Vec::new();
        let mut k: usize = 0;
        while k < 128
            invariant
                k <= 128,
                killers@.len() == k,
            decreases 128 - k,
        {
            killers.push(Move::default());
            k += 1;
        }
        let mut countermove: Vec<Move> = Vec::new();
        let mut k: usize = 0;
        while k < 4096
            invariant
                k <= 4096,
                countermove@.len() == k,
            decreases 4096 - k,
        {
            countermove.push(Move::default());
            k += 1;
        }
        Void {
            color: Color::White,
            tt,
            history,
            push_history,
            killers,
            countermove,
            lmr,
            prev_move: Move::default(),
            nodes: 0,
            qnodes: 0,
            beta_cuts: 0,
            first_cuts: 0,
            tt_hits: 0,
            null_cuts: 0,
            lmr_tries: 0,
            lmr_re: 0,
            max_ply: 0,
            stopped: false,
            budget_max_time_us: 0,
            t0: now(),
            cut_hist: [0; 6],
            cut_types: [0; 3],
            max_qdep: 0,
        }
    }

    /// The engine's name.
    pub fn name(&self) -> &'static str {
        "void"
    }

    /// Forget the previous game: an empty table, cleared histories, killers
    /// and counter moves.
    /// A fresh game's state: an empty table, zero history, no killers or
    /// counter moves, no previous move, the given colour.
    pub closed spec fn fresh(&self, c: Color) -> bool {
        &&& self.color == c
        &&& forall|j: int| 0 <= j < self.tt@.len() ==> blank(#[trigger] self.tt@[j])
        &&& forall|j: int| 0 <= j < self.history@.len() ==> #[trigger] self.history@[j] == 0
        &&& forall|j: int| 0 <= j < self.push_history@.len() ==> #[trigger] self.push_history@[j] == 0
        &&& forall|j: int| 0 <= j < self.killers@.len() ==> #[trigger] self.killers@[j] == Move::null()
        &&& forall|j: int| 0 <= j < self.countermove@.len() ==> #[trigger] self.countermove@[j] == Move::null()
        &&& self.prev_move == Move::null()
    }

    pub fn new_game(&mut self, my_color: Color, game_seed: u64)
        requires
            old(self).wf(),
        ensures
            final(self).wf(),
            final(self).fresh(my_color),
    {
        self.color = my_color;
        let mut k: usize = 0;
        while k < TT_SIZE
            invariant
                self.wf(),
                k <= TT_SIZE,
                self.color == my_color,
                forall|j: int| 0 <= j < k ==> blank(#[trigger] self.tt@[j]),
            decreases TT_SIZE - k,
        {
            self.tt.set(k, TtEntry::default());
            k += 1;
        }
        let mut k: usize = 0;
        while k < VOID_HISTORY
            invariant
                self.wf(),
                k <= VOID_HISTORY,
                self.color == my_color,
                forall|j: int| 0 <= j < TT_SIZE ==> blank(#[trigger] self.tt@[j]),
                forall|j: int| 0 <= j < k ==> #[trigger] self.history@[j] == 0,
                forall|j: int| 0 <= j < k ==> #[trigger] self.push_history@[j] == 0,
            decreases VOID_HISTORY - k,
        {
            self.history.set(k, 0);
            self.push_history.set(k, 0);
            k += 1;
        }
        let mut k: usize = 0;
        while k < 128
            invariant
                self.wf(),
                k <= 128,
                self.color == my_color,
                forall|j: int| 0 <= j < TT_SIZE ==> blank(#[trigger] self.tt@[j]),
                forall|j: int| 0 <= j < VOID_HISTORY ==> #[trigger] self.history@[j] == 0,
                forall|j: int| 0 <= j < VOID_HISTORY ==> #[trigger] self.push_history@[j] == 0,
                forall|j: int| 0 <= j < k ==> #[trigger] self.killers@[j] == Move::null(),
            decreases 128 - k,
        {
            self.killers.set(k, Move::default());
            k += 1;
        }
        let mut k: usize = 0;
        while k < 4096
            invariant
                self.wf(),
                k <= 4096,
                self.color == my_color,
                forall|j: int| 0 <= j < TT_SIZE ==> blank(#[trigger] self.tt@[j]),
                forall|j: int| 0 <= j < VOID_HISTORY ==> #[trigger] self.history@[j] == 0,
                forall|j: int| 0 <= j < VOID_HISTORY ==> #[trigger] self.push_history@[j] == 0,
                forall|j: int| 0 <= j < 128 ==> #[trigger] self.killers@[j] == Move::null(),
                forall|j: int| 0 <= j < k ==> #[trigger] self.countermove@[j] == Move::null(),
            decreases 4096 - k,
        {
            self.countermove.set(k, Move::default());
            k += 1;
        }
        self.prev_move = Move::default();
    }

    /// The microseconds since the search began.
    fn elapsed_us(&self) -> i64 {
        (#[verifier::truncate] (whole_micros(&elapsed(&self.t0)) as i64))
    }

    /// Whether the search stops: once stopped, when nine tenths of the time
    /// budget are used at a check every 512 nodes, or when no more nodes can
    /// be counted.
    fn check_time(&mut self) -> (stop: bool)
        requires
            old(self).wf(),
        ensures
            final(self).wf(),
            !stop ==> final(self).nodes < u64::MAX,
            stop == final(self).stopped,
            *final(self) == (Void { stopped: final(self).stopped, ..*old(self) }),
    {
        if self.stopped {
            return true;
        }
        if self.nodes == u64::MAX {
            self.stopped = true;
            return true;
        }
        if self.budget_max_time_us > 0 && (self.nodes & 511) == 0 && self.elapsed_us() >= self.budget_max_time_us * 9
            / 10 {
            self.stopped = true;
        }
        self.stopped
    }

    /// Store a result unless the slot holds another position searched deeper.
    fn tt_store(&mut self, key: u64, depth: i32, score: i32, flag: u8, m: &Move)
        requires
            old(self).wf(),
            0 <= depth,
        ensures
            final(self).wf(),
            ({
                let idx = (key % 4194304) as int;
                let e = old(self).tt@[idx];
                if e.key32 != (key >> 32u64) as u32 || depth >= e.depth {
                    final(self).tt@ == old(self).tt@.update(idx, (TtEntry {
                    key32: (key >> 32u64) as u32,
                    packed_move: m.spec_id(),
                    score: clamp_score(score) as i16,
                    depth: (if depth < 255 {
                        depth
                    } else {
                        255
                    }) as u8,
                    flag,
                }))
                } else {
                    final(self).tt@ == old(self).tt@
                }
            }),
    {
        let idx = void_slot(key);
        let k32 = (key >> 32u64) as u32;
        let e = self.tt[idx];
        if e.key32 != k32 || depth >= e.depth as i32 {
            let clamped = clamp_i32(score, -32000, 32000);
            let d: u8 = if depth < 255 {
                depth as u8
            } else {
                255
            };
            self.tt.set(idx, TtEntry { key32: k32, packed_move: m.id(), score: clamped as i16, depth: d, flag });
        }
    }

    /// The ordering score of a move: the table move above all, then
    /// promotions, captures by victim and attacker, pushes by the pushed
    /// piece and push history, killers, the counter move, and for other quiet
    /// moves history and placement gain.
    /// The ordering score of `m` on `pos` at `ply`: the table move first;
    /// pushes of a friendly piece by its value and push history; captures by
    /// victim and attacker; then the killers, the counter move, and the
    /// history with the piece's placement gain; a promotion on top.
    pub closed spec fn ordering_score(&self, pos: &Position, m: Move, ply: usize, ttm: Move, cm: Move) -> int {
        if m == ttm {
            i32::MAX as int
        } else {
            let stm = pos.side_to_move;
            let mover = pos.board@[m.from as int];
            let tp = pos.board@[m.to as int];
            let slot = stm.spec_index() * 4096 + m.from * 64 + m.to;
            let sv: int = if tp.piece_type != PieceType::Empty {
                if tp.color == stm {
                    1_000_000 + spec_pval(tp.piece_type) * 10 + self.push_history@[slot]
                } else {
                    2_000_000 + spec_pval(tp.piece_type) * 100 - spec_pval(mover.piece_type)
                }
            } else if ply < 64 && m == self.killers@[ply * 2] {
                500_000
            } else if ply < 64 && m == self.killers@[ply * 2 + 1] {
                490_000
            } else if m == cm {
                400_000
            } else {
                self.history@[slot] + value_entry(mover.piece_type, pst_square(mover.color, m.to)) - value_entry(
                    mover.piece_type,
                    pst_square(mover.color, m.from),
                )
            };
            if m.special == SpecialMove::Promotion {
                sv + 1_500_000 + spec_pval(m.promo_piece)
            } else {
                sv
            }
        }
    }

    fn move_score(&self, pos: &Position, m: Move, ply: usize, ttm: &Move, cm: Move) -> (s: i32)
        requires
            self.wf(),
            m.from < 64,
            m.to < 64,
        ensures
            s == self.ordering_score(pos, m, ply, *ttm, cm),
    {
        if m == *ttm {
            return i32::MAX;
        }
        let stm = pos.side_to_move;
        let mpt = pos.board[m.from as usize].piece_type;
        let tp = pos.board[m.to as usize];
        let sv: i32 = if !tp.is_empty() {
            if tp.color == stm {
                1_000_000 + pval(tp.piece_type) * 10 + self.push_history[hist_idx(
                    stm.index(),
                    m.from as usize,
                    m.to as usize,
                )] as i32
            } else {
                2_000_000 + pval(tp.piece_type) * 100 - pval(mpt)
            }
        } else if ply < 64 && m == self.killers[ply * 2] {
            500_000
        } else if ply < 64 && m == self.killers[ply * 2 + 1] {
            490_000
        } else if m == cm {
            400_000
        } else {
            let mc = pos.board[m.from as usize].color;
            self.history[hist_idx(stm.index(), m.from as usize, m.to as usize)] as i32 + eval_piece(mpt, mc, m.to)
                - eval_piece(mpt, mc, m.from)
        };
        if m.special == SpecialMove::Promotion {
            sv + 1_500_000 + pval(m.promo_piece)
        } else {
            sv
        }
    }

    /// Score every move once; the search selects them lazily.
    fn score_moves(&self, pos: &Position, ml: &mut ScoredMoves, ply: usize, ttm: &Move, Ghost(p): Ghost<Position>)
        requires
            self.wf(),
            listed(old(ml)@, &p),
            same_position(pos, &p),
        ensures
            final(ml)@.len() == old(ml)@.len(),
            listed(final(ml)@, &p),
            final(ml)@ == old(ml)@.map_values(
                |sm: ScoredMove|
                    ScoredMove { mv: sm.mv, score: self.ordering_score(pos, sm.mv, ply, *ttm, self.counter_spec()) as i32 },
            ),
    {
        let cm = if self.prev_move.from != 0 || self.prev_move.to != 0 {
            self.countermove[self.prev_move.from as usize * 64 + self.prev_move.to as usize]
        } else {
            Move::default()
        };
        let n = ml.len();
        let mut i: usize = 0;
        while i < n
            invariant
                self.wf(),
                i <= n,
                ml@.len() == n,
                listed(ml@, &p),
                same_position(pos, &p),
                n == old(ml)@.len(),
                cm == self.counter_spec(),
                forall|k: int| i <= k < n ==> #[trigger] ml@[k] == old(ml)@[k],
                forall|k: int|
                    0 <= k < i ==> #[trigger] ml@[k] == (ScoredMove {
                        mv: old(ml)@[k].mv,
                        score: self.ordering_score(pos, old(ml)@[k].mv, ply, *ttm, cm) as i32,
                    }),
            decreases n - i,
        {
            let m = ml.get(i).mv;
            proof {
                assert(legal_moves(&p).contains(ml@[i as int].mv));
                lemma_legal_is_on_board(&p, m);
            }
            let s = self.move_score(pos, m, ply, ttm, cm);
            ml.set(i, ScoredMove { mv: m, score: s });
            i += 1;
        }
        assert(ml@ =~= old(ml)@.map_values(
            |sm: ScoredMove|
                ScoredMove { mv: sm.mv, score: self.ordering_score(pos, sm.mv, ply, *ttm, self.counter_spec()) as i32 },
        ));
    }

    /// The counter move of the previous move, or the null move when there
    /// is no previous move.
    pub closed spec fn counter_spec(&self) -> Move {
        if self.prev_move.from != 0 || self.prev_move.to != 0 {
            self.countermove@[self.prev_move.from * 64 + self.prev_move.to]
        } else {
            Move::null()
        }
    }
}

impl Void {
    /// The principal-variation search of `depth` plies at `ply`: the time and
    /// node limits, mate-distance bounds, the table, null-move pruning and
    /// reverse futility, one ply less without a table move, then the moves.
    /// A stop answers zero.
    #[verifier::rlimit(60)]
    fn search(
        &mut self,
        pos: &mut Position,
        depth: i32,
        alpha: i32,
        beta: i32,
        ply: i32,
        in_check: bool,
        is_pv: bool,
    ) -> (score: i32)
        requires
            old(self).wf(),
            0 <= ply <= 128,
            -64 <= depth <= 64,
            headroom(old(pos), 142 - ply),
            -BOUND <= alpha <= BOUND,
            -BOUND <= beta <= BOUND,
        ensures
            final(self).wf(),
            same_position(final(pos), old(pos)),
            -BOUND <= score <= BOUND,
            is_pv && depth > 0 && ply < 128 && alpha < beta && alpha < 99000 - ply - 1 && beta > -99000 + ply
                && !final(self).stopped && legal_moves(old(pos)).len() == 0 ==> score == (if in_check {
                -99000 + ply
            } else {
                0
            }),
        decreases 128 - ply, 1int,
    {
        if self.check_time() {
            return 0;
        }
        self.nodes = self.nodes + 1;
        if ply as u32 > self.max_ply {
            self.max_ply = ply as u32;
        }
        if ply >= 128 {
            return evaluate(pos);
        }
        let lo = max_i32(alpha, -99000 + ply);
        let hi = min_i32(beta, 99000 - ply - 1);
        if lo >= hi {
            return lo;
        }
        let key = pos.zobrist;
        let idx = void_slot(key);
        let k32 = (key >> 32u64) as u32;
        let mut ttm = Move::default();
        let e = self.tt[idx];
        if e.key32 == k32 {
            ttm = unpack_move(e.packed_move);
            if e.depth as i32 >= depth && !is_pv {
                self.tt_hits = self.tt_hits.wrapping_add(1);
                let s = e.score as i32;
                if e.flag == 0 {
                    return s;
                }
                if e.flag == 2 && s >= hi {
                    return s;
                }
                if e.flag == 1 && s <= lo {
                    return s;
                }
            }
        }
        if depth <= 0 {
            return self.qsearch(pos, lo, hi, 0);
        }
        if !is_pv && !in_check && ply > 0 && depth >= 3 {
            let se = pos.ep_square;
            let ss = pos.side_to_move;
            let sz = pos.zobrist;
            pos.side_to_move = opponent(pos.side_to_move);
            pos.zobrist = pos.zobrist ^ side_key();
            if pos.ep_square < 64 {
                pos.zobrist = pos.zobrist ^ ep_key(file_of(pos.ep_square));
                pos.ep_square = 64;
            }
            let r: i32 = if depth >= 6 {
                3
            } else {
                2
            };
            let child = self.search(pos, depth - 1 - r, -hi, -(hi - 1), ply + 1, false, false);
            let ns = -child;
            pos.side_to_move = ss;
            pos.ep_square = se;
            pos.zobrist = sz;
            if ns >= hi && !self.stopped {
                self.null_cuts = self.null_cuts.wrapping_add(1);
                return hi;
            }
        }
        if !in_check && !is_pv && depth <= 6 && ply > 0 {
            let eval = evaluate(pos);
            if eval - depth * 100 >= hi {
                self.null_cuts = self.null_cuts.wrapping_add(1);
                return hi;
            }
        }
        let search_depth = if ttm.from == 0 && ttm.to == 0 && depth >= 4 {
            depth - 1
        } else {
            depth
        };
        let ghost p1 = *pos;
        proof {
            lemma_legal_moves_congruent(&p1, old(pos));
        }
        let mut ml = legal_list(pos);
        if ml.len() == 0 {
            return if in_check {
                -99000 + ply
            } else {
                0
            };
        }
        proof {
            lemma_legal_moves_congruent(pos, &p1);
        }
        self.score_moves(pos, &mut ml, ply as usize, &ttm, Ghost(*pos));
        self.search_moves(pos, depth, search_depth, lo, hi, ply, in_check, is_pv, ml, key)
    }

    /// The moves of a node, each the best-scored of those left: late quiet
    /// moves pruned near the leaves, late quiet moves reduced by the table
    /// and by bad history and searched again at full depth when they beat
    /// alpha, checks extended near the leaves; a cutoff is counted by move
    /// number and kind, and feeds the push history for a push, or the
    /// killers, quiet history and counter move for a quiet move.
    #[verifier::rlimit(80)]
    fn search_moves(
        &mut self,
        pos: &mut Position,
        depth: i32,
        search_depth: i32,
        alpha: i32,
        beta: i32,
        ply: i32,
        in_check: bool,
        is_pv: bool,
        ml: ScoredMoves,
        key: u64,
    ) -> (score: i32)
        requires
            old(self).wf(),
            0 <= ply < 128,
            1 <= depth <= 64,
            depth - 1 <= search_depth <= depth,
            1 <= search_depth,
            headroom(old(pos), 142 - ply),
            -99000 + ply <= alpha < beta <= 99000 - ply - 1,
            ml@.len() > 0,
            listed(ml@, old(pos)),
        ensures
            final(self).wf(),
            same_position(final(pos), old(pos)),
            -BOUND <= score <= BOUND,
        decreases 128 - ply, 0int,
    {
        let ghost p1 = *pos;
        let mut ml = ml;
        let saved_prev = self.prev_move;
        let n = ml.len();
        let mut best_move = ml.get(0).mv;
        let mut best_score: i32 = -100000;
        let mut flag: u8 = 1;
        let stm = pos.side_to_move;
        let mut a = alpha;
        let mut i: usize = 0;
        while i < n
            invariant_except_break
                a < beta,
            invariant
                self.wf(),
                saved_prev.from < 64,
                saved_prev.to < 64,
                same_position(pos, &p1),
                p1 == *old(pos),
                stm == p1.side_to_move,
                headroom(&p1, 142 - ply),
                0 <= ply < 128,
                1 <= depth <= 64,
                depth - 1 <= search_depth <= depth,
                1 <= search_depth,
                -99000 + ply <= alpha <= a,
                a <= BOUND,
                beta <= 99000 - ply - 1,
                n == ml@.len(),
                listed(ml@, &p1),
                -100000 <= best_score <= BOUND,
                i <= n,
            decreases n - i,
        {
            if self.stopped {
                break;
            }
            let m = pick_listed(&mut ml, i, Ghost(p1));
            proof {
                lemma_legal_is_on_board(&p1, m);
            }
            let tp = pos.board[m.to as usize];
            let is_capture = !tp.is_empty() && tp.color != stm;
            let is_push = !tp.is_empty() && tp.color == stm;
            let is_promo = m.special == SpecialMove::Promotion;
            let push_hist: i16 = if is_push {
                self.push_history[hist_idx(stm.index(), m.from as usize, m.to as usize)]
            } else {
                0
            };
            let is_tactical = is_capture || is_promo || m.special == SpecialMove::EnPassant || (is_push && push_hist
                >= 0);
            if !is_tactical && !in_check && search_depth <= 2 && i as i64 >= 8 + search_depth as i64 * 4 {
                i += 1;
                continue;
            }
            self.prev_move = m;
            play_legal(pos, m, Ghost(p1), Ghost(142 - ply as int));
            let ghost made_pos = *pos;
            let gives_check = pos.in_check();
            let d: usize = if search_depth < 31 {
                search_depth as usize
            } else {
                31
            };
            let mi: usize = if i < 255 {
                i
            } else {
                255
            };
            let score: i32;
            if i >= 3 && search_depth >= 2 && !is_tactical && !gives_check && !in_check {
                self.lmr_tries = self.lmr_tries.wrapping_add(1);
                let mut r = clamp_i32(self.lmr[d * 256 + mi], 1, search_depth - 1);
                let ci = opponent(pos.side_to_move).index();
                let hs = self.history[hist_idx(ci, m.from as usize, m.to as usize)] as i32;
                if hs < -500 {
                    r = r + 2;
                } else if hs < -100 {
                    r = r + 1;
                }
                r = clamp_i32(r, 1, search_depth - 1);
                let s0 = -self.search(pos, search_depth - 1 - r, -(a + 1), -a, ply + 1, gives_check, false);
                if s0 > a && !self.stopped {
                    self.lmr_re = self.lmr_re.wrapping_add(1);
                    score = -self.search(pos, search_depth - 1, -beta, -a, ply + 1, gives_check, is_pv);
                } else {
                    score = s0;
                }
            } else {
                let ext: i32 = if gives_check && search_depth <= 4 {
                    1
                } else {
                    0
                };
                if i > 0 && !self.stopped {
                    let s1 = -self.search(pos, search_depth - 1 + ext, -(a + 1), -a, ply + 1, gives_check, false);
                    if s1 > a && s1 < beta && !self.stopped {
                        score = -self.search(pos, search_depth - 1 + ext, -beta, -a, ply + 1, gives_check, is_pv);
                    } else {
                        score = s1;
                    }
                } else {
                    score = -self.search(pos, search_depth - 1 + ext, -beta, -a, ply + 1, gives_check, is_pv);
                }
            }
            unplay(pos, Ghost(p1), Ghost(m), Ghost(made_pos));
            if score > best_score {
                best_score = score;
                best_move = m;
            }
            if score > a {
                a = score;
                flag = 0;
            }
            if a >= beta {
                flag = 2;
                self.beta_cuts = self.beta_cuts.wrapping_add(1);
                if i == 0 {
                    self.first_cuts = self.first_cuts.wrapping_add(1);
                }
                let ct: usize = if is_capture {
                    0
                } else if is_push {
                    1
                } else {
                    2
                };
                self.cut_types[ct] = self.cut_types[ct].wrapping_add(1);
                let hi: usize = if i < 5 {
                    i
                } else {
                    5
                };
                self.cut_hist[hi] = self.cut_hist[hi].wrapping_add(1);
                self.cutoff_update(pos, &ml, i, m, depth, ply, saved_prev, is_capture, is_push, is_promo, Ghost(p1));
                i += 1;
                break;
            }
            i += 1;
        }
        self.prev_move = saved_prev;
        if !self.stopped {
            self.tt_store(key, depth, best_score, flag, &best_move);
        }
        best_score
    }

    /// After a cutoff by the `i`-th move `m`: a push raises its push history
    /// by the squared depth and lowers that of the pushes tried before it; a
    /// quiet move becomes the first killer (within 64 plies), raises its
    /// history and lowers that of the quiet moves tried before it, and
    /// becomes the counter move of the previous move. Histories stay within
    /// ±16000.
    fn cutoff_update(
        &mut self,
        pos: &Position,
        ml: &ScoredMoves,
        i: usize,
        m: Move,
        depth: i32,
        ply: i32,
        saved_prev: Move,
        is_capture: bool,
        is_push: bool,
        is_promo: bool,
        Ghost(p): Ghost<Position>,
    )
        requires
            old(self).wf(),
            i < ml@.len(),
            0 <= ply < 128,
            1 <= depth <= 64,
            m.from < 64,
            m.to < 64,
            saved_prev.from < 64,
            saved_prev.to < 64,
            listed(ml@, &p),
            same_position(pos, &p),
        ensures
            final(self).wf(),
            final(self).prev_move == old(self).prev_move,
            final(self).stopped == old(self).stopped,
            is_push ==> final(self).push_history@ == lowered(
                raised(old(self).push_history@, pos.side_to_move, m, depth as int),
                ml@,
                pos.board@,
                pos.side_to_move,
                depth as int,
                i as int,
                false,
            ) && final(self).history@ == old(self).history@ && final(self).killers@ == old(self).killers@
                && final(self).countermove@ == old(self).countermove@,
            !is_push && !is_capture && !is_promo && m.special != SpecialMove::EnPassant ==> {
                &&& final(self).history@ == lowered(
                    raised(old(self).history@, pos.side_to_move, m, depth as int),
                    ml@,
                    pos.board@,
                    pos.side_to_move,
                    depth as int,
                    i as int,
                    true,
                )
                &&& final(self).push_history@ == old(self).push_history@
                &&& final(self).killers@ == (if ply < 64 {
                    old(self).killers@.update(ply * 2 + 1, old(self).killers@[ply * 2]).update(ply * 2, m)
                } else {
                    old(self).killers@
                })
                &&& final(self).countermove@ == (if saved_prev.from != 0 || saved_prev.to != 0 {
                    old(self).countermove@.update(saved_prev.from * 64 + saved_prev.to, m)
                } else {
                    old(self).countermove@
                })
            },
            !is_push && !(!is_capture && !is_promo && m.special != SpecialMove::EnPassant) ==> final(self).history@
                == old(self).history@ && final(self).push_history@ == old(self).push_history@ && final(self).killers@
                == old(self).killers@ && final(self).countermove@ == old(self).countermove@,
    {
        let stm = pos.side_to_move;
        let ci = stm.index();
        assert(depth * depth <= 4096) by (nonlinear_arith)
            requires
                1 <= depth <= 64,
        ;
        if is_push {
            let k = hist_idx(ci, m.from as usize, m.to as usize);
            let h = self.push_history[k] as i32;
            self.push_history.set(k, min_i32(h + depth * depth, 16000) as i16);
            let ghost start = self.push_history@;
            assert(start == raised(old(self).push_history@, pos.side_to_move, m, depth as int));
            let mut j: usize = 0;
            while j < i
                invariant
                    self.wf(),
                    self.prev_move == old(self).prev_move,
                    self.stopped == old(self).stopped,
                    j <= i,
                    i < ml@.len(),
                    ci < 2,
                    stm == pos.side_to_move,
                    1 <= depth <= 64,
                    listed(ml@, &p),
                    same_position(pos, &p),
                    self.push_history@ == lowered(start, ml@, pos.board@, stm, depth as int, j as int, false),
                    ci == stm.spec_index(),
                    self.history@ == old(self).history@,
                    self.killers@ == old(self).killers@,
                    self.countermove@ == old(self).countermove@,
                decreases i - j,
            {
                let pm = ml.get(j).mv;
                proof {
                    assert(legal_moves(&p).contains(ml@[j as int].mv));
                    lemma_legal_is_on_board(&p, pm);
                }
                let pt2 = pos.board[pm.to as usize];
                if !pt2.is_empty() && pt2.color == stm {
                    let kk = hist_idx(ci, pm.from as usize, pm.to as usize);
                    let hh = self.push_history[kk] as i32;
                    self.push_history.set(kk, max_i32(hh - depth, -16000) as i16);
                }
                j += 1;
            }
        } else if !is_capture && !is_promo && m.special != SpecialMove::EnPassant {
            if ply < 64 {
                let first = self.killers[ply as usize * 2];
                self.killers.set(ply as usize * 2 + 1, first);
                self.killers.set(ply as usize * 2, m);
            }
            let k = hist_idx(ci, m.from as usize, m.to as usize);
            let h = self.history[k] as i32;
            self.history.set(k, min_i32(h + depth * depth, 16000) as i16);
            let ghost start = self.history@;
            let ghost kill = self.killers@;
            assert(start == raised(old(self).history@, pos.side_to_move, m, depth as int));
            let mut j: usize = 0;
            while j < i
                invariant
                    self.wf(),
                    self.prev_move == old(self).prev_move,
                    self.stopped == old(self).stopped,
                    j <= i,
                    i < ml@.len(),
                    ci < 2,
                    stm == pos.side_to_move,
                    1 <= depth <= 64,
                    listed(ml@, &p),
                    same_position(pos, &p),
                    self.history@ == lowered(start, ml@, pos.board@, stm, depth as int, j as int, true),
                    ci == stm.spec_index(),
                    self.push_history@ == old(self).push_history@,
                    self.killers@ == kill,
                    self.countermove@ == old(self).countermove@,
                decreases i - j,
            {
                let pm = ml.get(j).mv;
                proof {
                    assert(legal_moves(&p).contains(ml@[j as int].mv));
                    lemma_legal_is_on_board(&p, pm);
                }
                let pt2 = pos.board[pm.to as usize];
                let pc = !pt2.is_empty() && pt2.color != stm;
                let pp = !pt2.is_empty() && pt2.color == stm;
                if !pc && !pp && pm.special != SpecialMove::Promotion && pm.special != SpecialMove::EnPassant {
                    let kk = hist_idx(ci, pm.from as usize, pm.to as usize);
                    let hh = self.history[kk] as i32;
                    self.history.set(kk, max_i32(hh - depth, -16000) as i16);
                }
                j += 1;
            }
            if saved_prev.from != 0 || saved_prev.to != 0 {
                self.countermove.set(saved_prev.from as usize * 64 + saved_prev.to as usize, m);
            }
        }
    }

    /// The quiescence search, ten plies deep: stand pat, then the captures
    /// and promotions not hopelessly behind, best victim first.
    fn qsearch(&mut self, pos: &mut Position, alpha: i32, beta: i32, qdepth: i32) -> (score: i32)
        requires
            old(self).wf(),
            0 <= qdepth <= 10,
            headroom(old(pos), 14 - qdepth),
            -BOUND <= alpha <= BOUND,
            -BOUND <= beta <= BOUND,
        ensures
            final(self).wf(),
            same_position(final(pos), old(pos)),
            -BOUND <= score <= BOUND,
        decreases 0int, 10 - qdepth,
    {
        if self.check_time() {
            return 0;
        }
        self.nodes = self.nodes + 1;
        self.qnodes = self.qnodes.wrapping_add(1);
        if qdepth > self.max_qdep {
            self.max_qdep = qdepth;
        }
        if qdepth >= 10 {
            return evaluate(pos);
        }
        let sp = evaluate(pos);
        if sp >= beta {
            return sp;
        }
        let mut a = alpha;
        if sp > a {
            a = sp;
        }
        let ghost p1 = *pos;
        let ml = legal_list(pos);
        let stm = pos.side_to_move;
        let mut tac: Vec<(Move, i32)> = Vec::new();
        let n = ml.len();
        let mut i: usize = 0;
        while i < n
            invariant
                i <= n,
                n == ml@.len(),
                listed(ml@, &p1),
                same_position(pos, &p1),
                stm == p1.side_to_move,
                tac@.len() <= 64,
                forall|k: int| 0 <= k < tac@.len() ==> legal_moves(&p1).contains(#[trigger] tac@[k].0),
                -BOUND <= sp <= BOUND,
                -BOUND <= a <= BOUND,
            decreases n - i,
        {
            let m = ml.get(i).mv;
            assert(legal_moves(&p1).contains(ml@[i as int].mv));
            proof {
                lemma_legal_is_on_board(&p1, m);
            }
            let target = pos.board[m.to as usize];
            let ic = !target.is_empty() && target.color != stm;
            let t = ic || m.special == SpecialMove::Promotion || m.special == SpecialMove::EnPassant;
            if t {
                let mut see = pval(target.piece_type);
                if m.special == SpecialMove::Promotion {
                    see = see + 800;
                }
                if !(sp + see + 200 < a) && tac.len() < 64 {
                    tac.push((m, see));
                }
            }
            i += 1;
        }
        let nt = tac.len();
        let mut i: usize = 0;
        while i < nt
            invariant
                i <= nt,
                nt == tac@.len(),
                forall|k: int| 0 <= k < tac@.len() ==> legal_moves(&p1).contains(#[trigger] tac@[k].0),
            decreases nt - i,
        {
            let mut bi = i;
            let mut bv = tac[i].1;
            let mut j = i + 1;
            while j < nt
                invariant
                    i < j <= nt,
                    i <= bi < nt,
                    nt == tac@.len(),
                decreases nt - j,
            {
                if tac[j].1 > bv {
                    bv = tac[j].1;
                    bi = j;
                }
                j += 1;
            }
            if bi != i {
                let first = tac[i];
                let best = tac[bi];
                tac.set(i, best);
                tac.set(bi, first);
                assert(legal_moves(&p1).contains(best.0));
                assert(legal_moves(&p1).contains(first.0));
            }
            i += 1;
        }
        let mut i: usize = 0;
        while i < nt
            invariant
                self.wf(),
                i <= nt,
                nt == tac@.len(),
                forall|k: int| 0 <= k < tac@.len() ==> legal_moves(&p1).contains(#[trigger] tac@[k].0),
                same_position(pos, &p1),
                p1 == *old(pos),
                headroom(&p1, 14 - qdepth),
                0 <= qdepth < 10,
                -BOUND <= a <= BOUND,
                -BOUND <= beta <= BOUND,
            decreases nt - i,
        {
            let m = tac[i].0;
            play_legal(pos, m, Ghost(p1), Ghost(14 - qdepth as int));
            let ghost made_pos = *pos;
            let child = self.qsearch(pos, -beta, -a, qdepth + 1);
            let s = -child;
            unplay(pos, Ghost(p1), Ghost(m), Ghost(made_pos));
            if self.stopped {
                return 0;
            }
            if s >= beta {
                return s;
            }
            if s > a {
                a = s;
            }
            i += 1;
        }
        a
    }
}

impl Void {
    /// The principal variation the table holds from the root: moves found
    /// legal where they stand, up to 32, never revisiting a position.
    fn principal_variation(&self, pos: &Position) -> Vec<Move>
        requires
            self.wf(),
            headroom(pos, 40),
    {
        let mut p = pos.without_history();
        let mut line: Vec<Move> = Vec::new();
        let mut seen: Vec<u64> = Vec::new();
        let mut depth_t: usize = 0;
        while depth_t < 32
            invariant
                self.wf(),
                depth_t <= 32,
                headroom(&p, 40 - depth_t),
            decreases 32 - depth_t,
        {
            let key = p.zobrist;
            if seen_key(&seen, key) {
                break;
            }
            if seen.len() < 32 {
                seen.push(key);
            }
            let e = self.tt[void_slot(key)];
            if e.key32 != (key >> 32u64) as u32 {
                break;
            }
            let m = unpack_move(e.packed_move);
            if m.from >= 64 || m.to >= 64 || p.board[m.from as usize].is_empty() {
                break;
            }
            let ghost prior = p;
            let mut legal: Vec<Move> = Vec::new();
            generate_legal_moves(&mut p, &mut legal);
            if !holds_move(&legal, m) {
                break;
            }
            line.push(m);
            play_legal(&mut p, m, Ghost(prior), Ghost(40 - depth_t as int));
            depth_t += 1;
        }
        line
    }

    /// The diagnostics: the counters, and the root moves ranked by the score
    /// the table (or else the evaluation) gives them, at most 32, as JSON.
    fn diagnostics(&self, pos: &mut Position, root: &ScoredMoves, Ghost(p): Ghost<Position>) -> (json: String)
        requires
            self.wf(),
            listed(root@, &p),
            same_position(old(pos), &p),
            headroom(&p, 8),
        ensures
            same_position(final(pos), &p),
    {
        let mut ranked: Vec<(Move, i32)> = Vec::new();
        let n = root.len();
        let mut i: usize = 0;
        while i < n
            invariant
                self.wf(),
                i <= n,
                n == root@.len(),
                listed(root@, &p),
                same_position(pos, &p),
                headroom(&p, 8),
                ranked@.len() == i,
                forall|k: int| 0 <= k < ranked@.len() ==> (#[trigger] ranked@[k]).0.from < 64 && ranked@[k].0.to < 64,
            decreases n - i,
        {
            let m = root.get(i).mv;
            assert(legal_moves(&p).contains(root@[i as int].mv));
            proof {
                lemma_legal_is_on_board(&p, m);
            }
            play_legal(pos, m, Ghost(p), Ghost(8));
            let ghost made_pos = *pos;
            let key = pos.zobrist;
            let e = self.tt[void_slot(key)];
            let sc = if e.key32 == (key >> 32u64) as u32 {
                -(e.score as i32)
            } else {
                -evaluate(pos)
            };
            unplay(pos, Ghost(p), Ghost(m), Ghost(made_pos));
            ranked.push((m, sc));
            i += 1;
        }
        // Highest score first; equal scores keep their order.
        let mut i: usize = 1;
        while i < n
            invariant
                1 <= i || n == 0,
                ranked@.len() == n,
                forall|k: int| 0 <= k < ranked@.len() ==> (#[trigger] ranked@[k]).0.from < 64 && ranked@[k].0.to < 64,
            decreases n - i,
        {
            let mut j = i;
            while j > 0 && ranked[j - 1].1 < ranked[j].1
                invariant
                    j <= i < n,
                    ranked@.len() == n,
                    forall|k: int|
                        0 <= k < ranked@.len() ==> (#[trigger] ranked@[k]).0.from < 64 && ranked@[k].0.to < 64,
                decreases j,
            {
                let lower = ranked[j - 1];
                let upper = ranked[j];
                ranked.set(j - 1, upper);
                ranked.set(j, lower);
                j -= 1;
            }
            i += 1;
        }
        let cap = if n < 32 {
            n
        } else {
            32
        };
        let mut out: Vec<char> = Vec::new();
        push_text(&mut out, "{\"engine\":\"void_002\",\"qn\":");
        push_u64(&mut out, self.qnodes);
        push_text(&mut out, ",\"tt\":");
        push_u64(&mut out, self.tt_hits);
        push_text(&mut out, ",\"bcut\":");
        push_u64(&mut out, self.beta_cuts);
        push_text(&mut out, ",\"fcut\":");
        push_u64(&mut out, self.first_cuts);
        push_text(&mut out, ",\"nmp\":");
        push_u64(&mut out, self.null_cuts);
        push_text(&mut out, ",\"lmr\":[");
        push_u64(&mut out, self.lmr_tries);
        out.push(',');
        push_u64(&mut out, self.lmr_re);
        push_text(&mut out, "],\"max_qdep\":");
        push_i32(&mut out, self.max_qdep);
        push_text(&mut out, ",\"hashfull\":");
        push_u64(&mut out, self.hashfull() as u64);
        push_text(&mut out, ",\"cut_hist\":[");
        let mut k: usize = 0;
        while k < 6
            decreases 6 - k,
        {
            if k > 0 {
                out.push(',');
            }
            push_u64(&mut out, self.cut_hist[k]);
            k += 1;
        }
        push_text(&mut out, "],\"cut_types\":{\"cap\":");
        push_u64(&mut out, self.cut_types[0]);
        push_text(&mut out, ",\"push\":");
        push_u64(&mut out, self.cut_types[1]);
        push_text(&mut out, ",\"quiet\":");
        push_u64(&mut out, self.cut_types[2]);
        out.push('}');
        push_text(&mut out, ",\"top_moves\":[");
        let mut i: usize = 0;
        while i < cap
            invariant
                cap <= n,
                ranked@.len() == n,
                forall|k: int| 0 <= k < ranked@.len() ==> (#[trigger] ranked@[k]).0.from < 64 && ranked@[k].0.to < 64,
            decreases cap - i,
        {
            if i > 0 {
                out.push(',');
            }
            push_text(&mut out, "[\"");
            let entry = ranked[i];
            push_uci(&mut out, entry.0);
            push_text(&mut out, "\",");
            push_i32(&mut out, entry.1);
            out.push(']');
            i += 1;
        }
        push_text(&mut out, "]}");
        string_from_chars(&out)
    }

    /// The table's fill in thousandths: the slots holding a key.
    fn hashfull(&self) -> (h: usize)
        requires
            self.wf(),
        ensures
            h <= 1000,
            h == used_entries(self.tt@, TT_SIZE as int) * 1000 / (TT_SIZE as nat),
    {
        let mut count: usize = 0;
        let mut k: usize = 0;
        while k < TT_SIZE
            invariant
                self.wf(),
                k <= TT_SIZE,
                count <= k,
                count == used_entries(self.tt@, k as int),
            decreases TT_SIZE - k,
        {
            if self.tt[k].key32 != 0 {
                count += 1;
            }
            k += 1;
        }
        count * 1000 / TT_SIZE
    }

    /// Choose a move: iterative deepening to depth 30 over the root moves,
    /// the previous best first, inside a ±50 window from depth 4 that is
    /// widened once on failure; a lost position falls back to the best static
    /// reply. The move is a legal move, or the null move when there is none;
    /// the position comes back as it was.
    #[verifier::rlimit(60)]
    pub fn choose_move(&mut self, pos: &mut Position, budget: &SearchBudget) -> (r: (Move, SearchStats))
        requires
            old(self).wf(),
            headroom(old(pos), 142),
            budget.max_time_us <= MAX_TIME_US,
        ensures
            final(self).wf(),
            same_position(final(pos), old(pos)),
            legal_moves(old(pos)).len() == 0 ==> r.0 == Move::null() && r.1.nodes == 0 && r.1.depth_reached == 0
                && r.1.eval_cp == 0 && r.1.pv@.len() == 0,
            legal_moves(old(pos)).len() > 0 ==> legal_moves(old(pos)).contains(r.0),
    {
        let ghost p0 = *pos;
        self.t0 = now();
        self.budget_max_time_us = budget.max_time_us;
        self.nodes = 0;
        self.qnodes = 0;
        self.max_ply = 0;
        self.stopped = false;
        self.beta_cuts = 0;
        self.first_cuts = 0;
        self.tt_hits = 0;
        self.null_cuts = 0;
        self.lmr_tries = 0;
        self.lmr_re = 0;
        self.prev_move = Move::default();
        self.cut_hist = [0; 6];
        self.cut_types = [0; 3];
        self.max_qdep = 0;
        let mut root = legal_list(pos);
        proof {
            lemma_legal_moves_congruent(pos, &p0);
        }
        let mut stats = SearchStats::default();
        if root.len() == 0 {
            return (Move::default(), stats);
        }
        if root.len() == 1 {
            stats.nodes = 1;
            stats.depth_reached = 0;
            let only = root.get(0).mv;
            assert(legal_moves(&p0).contains(root@[0].mv));
            return (only, stats);
        }
        let mut best = root.get(0).mv;
        let mut best_score: i32 = -100000;
        let mut depth: i32 = 1;
        while depth <= 30
            invariant
                self.wf(),
                1 <= depth <= 31,
                same_position(pos, &p0),
                p0 == *old(pos),
                headroom(&p0, 142),
                root@.len() >= 2,
                listed(root@, &p0),
                -BOUND <= best_score <= BOUND,
            decreases 31 - depth,
        {
            if self.stopped {
                break;
            }
            let full = depth <= 3 || best_score > 5000 || best_score < -5000;
            let mut alpha: i32 = if full {
                -100000
            } else {
                best_score - 50
            };
            let mut beta: i32 = if full {
                100000
            } else {
                best_score + 50
            };
            let mut iter_best = root.get(0).mv;
            let mut iter_best_score: i32 = -100000;
            let mut aspiration_fail = false;
            loop
                invariant
                    self.wf(),
                    1 <= depth <= 30,
                    same_position(pos, &p0),
                    headroom(&p0, 142),
                    root@.len() >= 2,
                    listed(root@, &p0),
                    -BOUND <= best_score <= BOUND,
                    -BOUND <= iter_best_score <= BOUND,
                    -100000 <= alpha <= BOUND,
                    -BOUND <= beta <= 100000,
                decreases (if aspiration_fail {
                    0int
                } else {
                    1int
                }),
            {
                iter_best = root.get(0).mv;
                iter_best_score = -100000;
                bring_to_front(&mut root, best, Ghost(p0));
                let n = root.len();
                let mut i: usize = 0;
                while i < n
                    invariant_except_break
                        i > 0 ==> alpha < beta,
                    invariant
                        self.wf(),
                        i <= n,
                        n == root@.len(),
                        same_position(pos, &p0),
                        headroom(&p0, 142),
                        listed(root@, &p0),
                        -BOUND <= iter_best_score <= BOUND,
                        -100000 <= alpha <= BOUND,
                        -BOUND <= beta <= 100000,
                        1 <= depth <= 30,
                    decreases n - i,
                {
                    if self.stopped {
                        break;
                    }
                    let m = root.get(i).mv;
                    assert(legal_moves(&p0).contains(root@[i as int].mv));
                    self.prev_move = m;
                    proof {
                        lemma_legal_is_on_board(&p0, m);
                    }
                    play_legal(pos, m, Ghost(p0), Ghost(142));
                    let ghost made_pos = *pos;
                    let gives_check = pos.in_check();
                    let score: i32;
                    if i > 0 && !self.stopped {
                        let s1 = -self.search(pos, depth - 1, -(alpha + 1), -alpha, 1, gives_check, false);
                        if s1 > alpha && s1 < beta && !self.stopped {
                            score = -self.search(pos, depth - 1, -beta, -alpha, 1, gives_check, true);
                        } else {
                            score = s1;
                        }
                    } else {
                        score = -self.search(pos, depth - 1, -beta, -alpha, 1, gives_check, true);
                    }
                    unplay(pos, Ghost(p0), Ghost(m), Ghost(made_pos));
                    if self.stopped {
                        break;
                    }
                    if score > iter_best_score {
                        iter_best_score = score;
                        iter_best = m;
                    }
                    if score > alpha {
                        alpha = score;
                    }
                    if alpha >= beta {
                        break;
                    }
                    i += 1;
                }
                if self.stopped {
                    break;
                }
                if iter_best_score <= best_score - 50 && !aspiration_fail {
                    alpha = max_i32(iter_best_score - 200, -100000);
                    beta = 100000;
                    aspiration_fail = true;
                    continue;
                }
                if iter_best_score >= best_score + 50 && depth > 3 && best_score <= 5000 && best_score >= -5000
                    && !aspiration_fail {
                    alpha = -100000;
                    beta = min_i32(iter_best_score + 200, 100000);
                    aspiration_fail = true;
                    continue;
                }
                break;
            }
            if !self.stopped {
                best_score = iter_best_score;
                best = iter_best;
            }
            stats.depth_reached = depth as u32;
            stats.eval_cp = best_score;
            depth += 1;
        }
        if best_score <= -90000 {
            let mut bs: i32 = -100000;
            let n = root.len();
            let mut i: usize = 0;
            while i < n
                invariant
                    i <= n,
                    n == root@.len(),
                    same_position(pos, &p0),
                    headroom(&p0, 142),
                    listed(root@, &p0),
                    -BOUND <= bs <= BOUND,
                decreases n - i,
            {
                let m = root.get(i).mv;
                assert(legal_moves(&p0).contains(root@[i as int].mv));
                play_legal(pos, m, Ghost(p0), Ghost(142));
                let ghost made_pos = *pos;
                let sc = -evaluate(pos);
                unplay(pos, Ghost(p0), Ghost(m), Ghost(made_pos));
                if sc > bs {
                    bs = sc;
                    best = m;
                }
                i += 1;
            }
        }
        let ghost before_fresh = *pos;
        let mut fresh: Vec<Move> = Vec::new();
        generate_legal_moves(pos, &mut fresh);
        proof {
            lemma_legal_moves_congruent(&before_fresh, &p0);
        }
        if !holds_move(&fresh, best) {
            best = if fresh.len() > 0 {
                fresh[0]
            } else {
                Move::default()
            };
            proof {
                if fresh@.len() > 0 {
                    assert(fresh@.contains(fresh@[0]));
                }
            }
        }
        stats.nodes = self.nodes;
        stats.seldepth = self.max_ply;
        stats.time_used_us = self.elapsed_us();
        stats.pv = self.principal_variation(pos);
        stats.diag_json = self.diagnostics(pos, &root, Ghost(p0));
        (best, stats)
    }
}

} // verus!

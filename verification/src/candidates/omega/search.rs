//! Omega's search: iterative deepening to depth 30 with a root aspiration
//! window, principal-variation search with null-move, futility and late-move
//! pruning and reductions, internal iterative deepening, killers, counter
//! moves and history, and a capture-only quiescence search four plies deep.
use vstd::prelude::*;
use std::time::Instant;
use crate::engine::shared::{elapsed, now, whole_micros};
use crate::engine::walk::{after, headroom, play_legal, same_position, unplay};
use crate::engines::support::{ScoredMove, ScoredMoves};
use crate::rules::fen::{string_from_chars, text_chars};
use crate::rules::movegen::{generate_legal_moves, legal_moves, lemma_legal_moves_congruent};
use crate::rules::position::Position;
use crate::rules::types::{
    Color, Move, PieceType, SearchBudget, SearchStats, SpecialMove, file_of, opponent, pval, spec_pval,
};
use crate::rules::zobrist::{ep_key, side_key};
use crate::candidates::titan::{penalised, capture_part, killer_part, promotion_part};
use super::eval::{evaluate, lazy_evaluate, pst_entry, pst_index, pst_value};
use crate::candidates::support::{
    bring_to_front, clamp_i32, holds_move, legal_list, lemma_legal_is_on_board, listed, max_i32, min_i32, push_i32, push_text, push_u64,
    push_uci, seen_key, selection_sort,
};

verus! {

/// Table slots.
pub const TT_SIZE: usize = 1048576;

/// History slots: mover, from square, to square.
pub const OMEGA_HISTORY: usize = 8192;

/// Late-move reductions: 32 depths by 256 move numbers.
pub const LMR_SIZE: usize = 8192;

/// No score reaches further out.
pub const BOUND: i32 = 150000;

/// The largest time budget whose nine tenths can be computed.
pub const MAX_TIME_US: i64 = 1024819115206086200;

/// A table entry: the high half of the key, the score clamped to the
/// 16-bit range, the depth, the bound (0 exact, 1 upper, 2 lower) and the move.
#[derive(Clone, Copy, Debug)]
pub struct TtEntry {
    pub key32: u32,
    pub score: i16,
    pub depth: u8,
    pub flag: u8,
    pub from: u8,
    pub to: u8,
    pub path_kind: u8,
    pub stop_idx: u8,
    pub special: SpecialMove,
    pub promo: PieceType,
}

/// A score clamped to ±32000, as the table keeps it.
pub open spec fn clamp_score(x: i32) -> i32 {
    if x < -32000 {
        -32000i32
    } else if x > 32000 {
        32000
    } else {
        x
    }
}

/// An entry as a fresh table holds it.
pub open spec fn blank(e: TtEntry) -> bool {
    e.key32 == 0 && e.score == 0 && e.depth == 0 && e.flag == 0 && e.from == 0 && e.to == 0
}

impl Default for TtEntry {
    fn default() -> (e: Self)
        ensures
            e.key32 == 0 && e.score == 0 && e.depth == 0 && e.flag == 0 && e.from == 0 && e.to == 0,
    {
        TtEntry {
            key32: 0,
            score: 0,
            depth: 0,
            flag: 0,
            from: 0,
            to: 0,
            path_kind: 0,
            stop_idx: 0,
            special: SpecialMove::Normal,
            promo: PieceType::Empty,
        }
    }
}

/// The move an entry holds.
pub fn tt_to_move(e: &TtEntry) -> (m: Move)
    ensures
        m.from == e.from && m.to == e.to && m.path_kind == e.path_kind && m.stop_index == e.stop_idx
            && m.special == e.special && m.promo_piece == e.promo,
{
    Move {
        from: e.from,
        to: e.to,
        path_kind: e.path_kind,
        stop_index: e.stop_idx,
        special: e.special,
        promo_piece: e.promo,
    }
}

/// The history slot of a move of color index `color` from `from` to `to`.
pub fn history_idx(color: usize, from: usize, to: usize) -> (i: usize)
    requires
        color < 2,
        from < 64,
        to < 64,
    ensures
        i == color * 4096 + from * 64 + to,
        i < OMEGA_HISTORY,
{
    color * 64 * 64 + from * 64 + to
}

/// The table slot of a key: its low bits.
fn omega_slot(key: u64) -> (i: usize)
    ensures
        i < 1048576,
        i == key % 1048576,
{
    assert((key & 0xFFFFF) < 1048576 && (key & 0xFFFFF) == key % 1048576) by (bit_vector);
    (key & 0xFFFFF) as usize
}

/// The Omega engine: its table, history, killers and counter moves, the
/// late-move reductions it was built with, and the counters of the search
/// under way.
pub struct Omega {
    color: Color,
    tt: Vec<TtEntry>,
    history: Vec<i16>,
    killers: Vec<Move>,
    countermove: Vec<Move>,
    lmr: Vec<i32>,
    prev_move: Move,
    nodes: u64,
    qnodes: u64,
    beta_cuts: u64,
    first_cuts: u64,
    tt_hits: u64,
    null_cuts: u64,
    lmr_tries: u64,
    lmr_re: u64,
    lazy_cuts: u64,
    max_ply: u32,
    stopped: bool,
    budget_max_time_us: i64,
    t0: Instant,
}

/// The ordering score of `m` on `pos` at `ply`: the table move first, then
/// captures by victim and attacker, promotions, the piece-square gain, the
/// two killers of the ply, the counter move, and the history.
pub open spec fn ordering_score(
    pos: &Position,
    m: Move,
    ply: usize,
    ttm: Move,
    cm: Move,
    killers: Seq<Move>,
    history: Seq<i16>,
) -> int {
    if m == ttm {
        10_000_000
    } else {
        let mover = pos.board@[m.from as int];
        capture_part(pos, m) + promotion_part(m) + (pst_entry(mover.piece_type, pst_index(mover.color, m.to))
            - pst_entry(mover.piece_type, pst_index(mover.color, m.from))) + killer_part(m, ply, killers) + (if m
            == cm {
            60_000int
        } else {
            0
        }) + history[pos.side_to_move.spec_index() * 4096 + m.from * 64 + m.to]
    }
}

impl Omega {
    /// The engine's invariant: tables of their sizes, history within ±16000,
    /// reductions between 0 and 64, the previous move on the board and a time
    /// budget whose nine tenths can be computed.
    pub closed spec fn wf(&self) -> bool {
        &&& self.tt@.len() == TT_SIZE
        &&& self.history@.len() == OMEGA_HISTORY
        &&& forall|k: int| 0 <= k < OMEGA_HISTORY ==> -16000 <= #[trigger] self.history@[k] <= 16000
        &&& self.killers@.len() == 128
        &&& self.countermove@.len() == 4096
        &&& self.lmr@.len() == LMR_SIZE
        &&& forall|k: int| 0 <= k < LMR_SIZE ==> 0 <= #[trigger] self.lmr@[k] <= 64
        &&& self.prev_move.from < 64
        &&& self.prev_move.to < 64
        &&& self.budget_max_time_us <= MAX_TIME_US
    }

    /// A fresh engine with the late-move reductions: 32 rows of depth by 256
    /// move numbers, each between 0 and 64.
    pub fn new(lmr: Vec<i32>) -> (e: Omega)
        requires
            lmr@.len() == LMR_SIZE,
            forall|k: int| 0 <= k < LMR_SIZE ==> 0 <= #[trigger] lmr@[k] <= 64,
        ensures
            e.wf(),
    {
        let mut tt: Vec<TtEntry> = Vec::new();
        let mut k: usize = 0;
        while k < TT_SIZE
            invariant
                k <= TT_SIZE,
                tt@.len() == k,
            decreases TT_SIZE - k,
        {
            tt.push(TtEntry::default());
            k += 1;
        }
        let mut history: Vec<i16> = Vec::new();
        let mut k: usize = 0;
        while k < OMEGA_HISTORY
            invariant
                k <= OMEGA_HISTORY,
                history@.len() == k,
                forall|j: int| 0 <= j < k ==> #[trigger] history@[j] == 0,
            decreases OMEGA_HISTORY - k,
        {
            history.push(0);
            k += 1;
        }
        let mut killers: Vec<Move> = Vec::new();
        let mut k: usize = 0;
        while k < 128
            invariant
                k <= 128,
                killers@.len() == k,
            decreases 128 - k,
        {
            killers.push(Move::default());
            k += 1;
        }
        let mut countermove: Vec<Move> = Vec::new();
        let mut k: usize = 0;
        while k < 4096
            invariant
                k <= 4096,
                countermove@.len() == k,
            decreases 4096 - k,
        {
            countermove.push(Move::default());
            k += 1;
        }
        Omega {
            color: Color::White,
            tt,
            history,
            killers,
            countermove,
            lmr,
            prev_move: Move::default(),
            nodes: 0,
            qnodes: 0,
            beta_cuts: 0,
            first_cuts: 0,
            tt_hits: 0,
            null_cuts: 0,
            lmr_tries: 0,
            lmr_re: 0,
            lazy_cuts: 0,
            max_ply: 0,
            stopped: false,
            budget_max_time_us: 0,
            t0: now(),
        }
    }

    /// The engine's name.
    pub fn name(&self) -> &'static str {
        "omega"
    }

    /// Forget the previous game: an empty table, cleared history, killers and
    /// counter moves.
    /// A fresh game's state: an empty table, zero history, no killers or
    /// counter moves, no previous move, the given colour.
    pub closed spec fn fresh(&self, c: Color) -> bool {
        &&& self.color == c
        &&& forall|j: int| 0 <= j < self.tt@.len() ==> blank(#[trigger] self.tt@[j])
        &&& forall|j: int| 0 <= j < self.history@.len() ==> #[trigger] self.history@[j] == 0
        &&& forall|j: int| 0 <= j < self.killers@.len() ==> #[trigger] self.killers@[j] == Move::null()
        &&& forall|j: int| 0 <= j < self.countermove@.len() ==> #[trigger] self.countermove@[j] == Move::null()
        &&& self.prev_move == Move::null()
    }

    pub fn new_game(&mut self, my_color: Color, game_seed: u64)
        requires
            old(self).wf(),
        ensures
            final(self).wf(),
            final(self).fresh(my_color),
    {
        self.color = my_color;
        let mut k: usize = 0;
        while k < TT_SIZE
            invariant
                self.wf(),
                k <= TT_SIZE,
                self.color == my_color,
                forall|j: int| 0 <= j < k ==> blank(#[trigger] self.tt@[j]),
            decreases TT_SIZE - k,
        {
            self.tt.set(k, TtEntry::default());
            k += 1;
        }
        let mut k: usize = 0;
        while k < OMEGA_HISTORY
            invariant
                self.wf(),
                k <= OMEGA_HISTORY,
                self.color == my_color,
                forall|j: int| 0 <= j < TT_SIZE ==> blank(#[trigger] self.tt@[j]),
                forall|j: int| 0 <= j < k ==> #[trigger] self.history@[j] == 0,
            decreases OMEGA_HISTORY - k,
        {
            self.history.set(k, 0);
            k += 1;
        }
        let mut k: usize = 0;
        while k < 128
            invariant
                self.wf(),
                k <= 128,
                self.color == my_color,
                forall|j: int| 0 <= j < TT_SIZE ==> blank(#[trigger] self.tt@[j]),
                forall|j: int| 0 <= j < OMEGA_HISTORY ==> #[trigger] self.history@[j] == 0,
                forall|j: int| 0 <= j < k ==> #[trigger] self.killers@[j] == Move::null(),
            decreases 128 - k,
        {
            self.killers.set(k, Move::default());
            k += 1;
        }
        let mut k: usize = 0;
        while k < 4096
            invariant
                self.wf(),
                k <= 4096,
                self.color == my_color,
                forall|j: int| 0 <= j < TT_SIZE ==> blank(#[trigger] self.tt@[j]),
                forall|j: int| 0 <= j < OMEGA_HISTORY ==> #[trigger] self.history@[j] == 0,
                forall|j: int| 0 <= j < 128 ==> #[trigger] self.killers@[j] == Move::null(),
                forall|j: int| 0 <= j < k ==> #[trigger] self.countermove@[j] == Move::null(),
            decreases 4096 - k,
        {
            self.countermove.set(k, Move::default());
            k += 1;
        }
        self.prev_move = Move::default();
    }

    /// The microseconds since the search began.
    fn elapsed_us(&self) -> i64 {
        (#[verifier::truncate] (whole_micros(&elapsed(&self.t0)) as i64))
    }

    /// Whether the search stops: once stopped, when nine tenths of the time
    /// budget are used at a check every 256 nodes, or when no more nodes can
    /// be counted.
    fn check_time(&mut self) -> (stop: bool)
        requires
            old(self).wf(),
        ensures
            final(self).wf(),
            !stop ==> final(self).nodes < u64::MAX,
            stop == final(self).stopped,
            *final(self) == (Omega { stopped: final(self).stopped, ..*old(self) }),
    {
        if self.stopped {
            return true;
        }
        if self.nodes == u64::MAX {
            self.stopped = true;
            return true;
        }
        if self.budget_max_time_us > 0 && (self.nodes & 255) == 0 && self.elapsed_us() >= self.budget_max_time_us * 9
            / 10 {
            self.stopped = true;
        }
        self.stopped
    }

    /// Store a result unless the slot holds another position searched deeper.
    fn tt_store(&mut self, key: u64, depth: i32, score: i32, flag: u8, m: &Move)
        requires
            old(self).wf(),
            0 <= depth,
        ensures
            final(self).wf(),
            ({
                let idx = (key % 1048576) as int;
                let e = old(self).tt@[idx];
                if e.key32 != (key >> 32u64) as u32 || depth >= e.depth {
                    final(self).tt@ == old(self).tt@.update(idx, (TtEntry {
                    key32: (key >> 32u64) as u32,
                    score: clamp_score(score) as i16,
                    depth: (if depth < 255 {
                        depth
                    } else {
                        255
                    }) as u8,
                    flag,
                    from: m.from,
                    to: m.to,
                    path_kind: m.path_kind,
                    stop_idx: m.stop_index,
                    special: m.special,
                    promo: m.promo_piece,
                }))
                } else {
                    final(self).tt@ == old(self).tt@
                }
            }),
    {
        let idx = omega_slot(key);
        let k32 = (key >> 32u64) as u32;
        let e = self.tt[idx];
        if e.key32 != k32 || depth >= e.depth as i32 {
            let clamped = clamp_i32(score, -32000, 32000);
            let d: u8 = if depth < 255 {
                depth as u8
            } else {
                255
            };
            self.tt.set(
                idx,
                TtEntry {
                    key32: k32,
                    score: clamped as i16,
                    depth: d,
                    flag,
                    from: m.from,
                    to: m.to,
                    path_kind: m.path_kind,
                    stop_idx: m.stop_index,
                    special: m.special,
                    promo: m.promo_piece,
                },
            );
        }
    }

    /// The ordering score of a move on the board.
    #[verifier::spinoff_prover]
    #[verifier::rlimit(100)]
    fn move_score(&self, pos: &Position, m: Move, ply: usize, ttm: &Move, cm: Move) -> (s: i32)
        requires
            self.wf(),
            m.from < 64,
            m.to < 64,
        ensures
            s == ordering_score(pos, m, ply, *ttm, cm, self.killers@, self.history@),
    {
        if m == *ttm {
            10_000_000
        } else {
            let mut sv: i32 = 0;
            let mpt = pos.board[m.from as usize].piece_type;
            let mc = pos.board[m.from as usize].color;
            if !pos.board[m.to as usize].is_empty() {
                sv = sv + 100_000 + pval(pos.board[m.to as usize].piece_type) * 10 - pval(mpt);
            }
            assert(sv == capture_part(pos, m));
            if m.special == SpecialMove::Promotion {
                sv = sv + 95_000 + pval(m.promo_piece);
            }
            assert(sv == capture_part(pos, m) + promotion_part(m));
            sv = sv + pst_value(mpt, mc, m.to) - pst_value(mpt, mc, m.from);
            let ghost before_killers = sv as int;
            if ply < 64 {
                if m == self.killers[ply * 2] {
                    sv = sv + 80_000;
                } else if m == self.killers[ply * 2 + 1] {
                    sv = sv + 79_000;
                }
            }
            assert(sv == before_killers + killer_part(m, ply, self.killers@));
            if m == cm {
                sv = sv + 60_000;
            }
            sv + self.history[history_idx(pos.side_to_move.index(), m.from as usize, m.to as usize)] as i32
        }
    }

    /// Score the moves for ordering, then sort them: the table move first,
    /// then captures by victim and attacker, promotions, table gain, killers,
    /// the counter move and history.
    fn order_moves(&self, pos: &Position, ml: &mut ScoredMoves, ply: usize, ttm: &Move, Ghost(p): Ghost<Position>)
        requires
            self.wf(),
            listed(old(ml)@, &p),
            same_position(pos, &p),
        ensures
            final(ml)@.len() == old(ml)@.len(),
            listed(final(ml)@, &p),
            final(ml)@.to_multiset() == old(ml)@.map_values(
                |sm: ScoredMove|
                    ScoredMove {
                        mv: sm.mv,
                        score: ordering_score(pos, sm.mv, ply, *ttm, self.counter_spec(), self.killers@, self.history@) as i32,
                    },
            ).to_multiset(),
            forall|a: int, b: int| 0 <= a < b < final(ml)@.len() ==> final(ml)@[a].score >= final(ml)@[b].score,
    {
        let cm = if self.prev_move.from != 0 || self.prev_move.to != 0 {
            self.countermove[self.prev_move.from as usize * 64 + self.prev_move.to as usize]
        } else {
            Move::default()
        };
        let n = ml.len();
        let mut i: usize = 0;
        while i < n
            invariant
                self.wf(),
                i <= n,
                ml@.len() == n,
                n == old(ml)@.len(),
                listed(ml@, &p),
                same_position(pos, &p),
                cm == self.counter_spec(),
                forall|k: int| i <= k < n ==> #[trigger] ml@[k] == old(ml)@[k],
                forall|k: int|
                    0 <= k < i ==> #[trigger] ml@[k] == (ScoredMove {
                        mv: old(ml)@[k].mv,
                        score: ordering_score(pos, old(ml)@[k].mv, ply, *ttm, cm, self.killers@, self.history@) as i32,
                    }),
            decreases n - i,
        {
            let m = ml.get(i).mv;
            proof {
                assert(legal_moves(&p).contains(ml@[i as int].mv));
                lemma_legal_is_on_board(&p, m);
            }
            let s = self.move_score(pos, m, ply, ttm, cm);
            ml.set(i, ScoredMove { mv: m, score: s });
            i += 1;
        }
        assert(ml@ =~= old(ml)@.map_values(
            |sm: ScoredMove|
                ScoredMove {
                    mv: sm.mv,
                    score: ordering_score(pos, sm.mv, ply, *ttm, self.counter_spec(), self.killers@, self.history@) as i32,
                },
        ));
        selection_sort(ml, Ghost(p));
    }

    /// The counter move of the previous move, or the null move when there
    /// is no previous move.
    pub closed spec fn counter_spec(&self) -> Move {
        if self.prev_move.from != 0 || self.prev_move.to != 0 {
            self.countermove@[self.prev_move.from * 64 + self.prev_move.to]
        } else {
            Move::null()
        }
    }
}

impl Omega {
    /// The principal-variation search of `depth` plies at `ply`: the time and
    /// node limits, mate-distance bounds, the table, null-move and futility
    /// pruning, internal iterative deepening, then the moves. A stop answers
    /// zero.
    #[verifier::rlimit(60)]
    fn search(
        &mut self,
        pos: &mut Position,
        depth: i32,
        alpha: i32,
        beta: i32,
        ply: i32,
        in_check: bool,
        is_pv: bool,
    ) -> (score: i32)
        requires
            old(self).wf(),
            0 <= ply <= 128,
            -64 <= depth <= 64,
            headroom(old(pos), 136 - ply),
            -BOUND <= alpha <= BOUND,
            -BOUND <= beta <= BOUND,
        ensures
            final(self).wf(),
            same_position(final(pos), old(pos)),
            -BOUND <= score <= BOUND,
            is_pv && depth > 0 && ply < 128 && alpha < beta && alpha < 99000 - ply - 1 && beta > -99000 + ply
                && !final(self).stopped && legal_moves(old(pos)).len() == 0 ==> score == (if in_check {
                -99000 + ply
            } else {
                0
            }),
        decreases 128 - ply, 1int, depth + 64,
    {
        if self.check_time() {
            return 0;
        }
        self.nodes = self.nodes + 1;
        if ply as u32 > self.max_ply {
            self.max_ply = ply as u32;
        }
        if ply >= 128 {
            return evaluate(pos);
        }
        let lo = max_i32(alpha, -99000 + ply);
        let hi = min_i32(beta, 99000 - ply - 1);
        if lo >= hi {
            return lo;
        }
        let key = pos.zobrist;
        let idx = omega_slot(key);
        let k32 = (key >> 32u64) as u32;
        let mut ttm = Move::default();
        let e = self.tt[idx];
        if e.key32 == k32 {
            ttm = tt_to_move(&e);
            if e.depth as i32 >= depth && !is_pv {
                self.tt_hits = self.tt_hits.wrapping_add(1);
                if e.flag == 0 {
                    return e.score as i32;
                }
                if e.flag == 2 && e.score as i32 >= hi {
                    return e.score as i32;
                }
                if e.flag == 1 && e.score as i32 <= lo {
                    return e.score as i32;
                }
            }
        }
        if depth <= 0 {
            return self.qsearch(pos, lo, hi, 0);
        }
        if !is_pv && !in_check && ply > 0 && depth >= 3 {
            let saved_ep = pos.ep_square;
            let saved_stm = pos.side_to_move;
            let saved_zobrist = pos.zobrist;
            pos.side_to_move = opponent(pos.side_to_move);
            pos.zobrist = pos.zobrist ^ side_key();
            if pos.ep_square < 64 {
                pos.zobrist = pos.zobrist ^ ep_key(file_of(pos.ep_square));
                pos.ep_square = 64;
            }
            let r: i32 = if depth >= 6 {
                3
            } else {
                2
            };
            let child = self.search(pos, depth - 1 - r, -hi, -(hi - 1), ply + 1, false, false);
            let null_score = -child;
            pos.side_to_move = saved_stm;
            pos.ep_square = saved_ep;
            pos.zobrist = saved_zobrist;
            if null_score >= hi && !self.stopped {
                self.null_cuts = self.null_cuts.wrapping_add(1);
                return hi;
            }
        }
        if !in_check && !is_pv && depth <= 4 && ply > 0 {
            let lazy_eval = lazy_evaluate(pos);
            if depth <= 3 && lazy_eval - depth * 150 >= hi {
                self.lazy_cuts = self.lazy_cuts.wrapping_add(1);
                self.null_cuts = self.null_cuts.wrapping_add(1);
                return hi;
            }
            let eval = evaluate(pos);
            if eval - depth * 100 >= hi {
                self.null_cuts = self.null_cuts.wrapping_add(1);
                return hi;
            }
            if depth <= 2 && eval + 300 < lo {
                let qs = self.qsearch(pos, lo, hi, 0);
                if qs < lo {
                    return qs;
                }
            }
        }
        if ttm.from == 0 && ttm.to == 0 && depth >= 4 && !self.stopped {
            self.search(pos, depth - 2, lo, hi, ply, in_check, is_pv);
            let again = self.tt[idx];
            if again.key32 == k32 {
                ttm = tt_to_move(&again);
            }
        }
        let ghost p1 = *pos;
        proof {
            lemma_legal_moves_congruent(&p1, old(pos));
        }
        let mut ml = legal_list(pos);
        if ml.len() == 0 {
            return if in_check {
                -99000 + ply
            } else {
                0
            };
        }
        proof {
            lemma_legal_moves_congruent(pos, &p1);
        }
        self.order_moves(pos, &mut ml, ply as usize, &ttm, Ghost(*pos));
        self.search_moves(pos, depth, lo, hi, ply, in_check, is_pv, &ml, key)
    }

    /// The moves of a node in order: late quiet moves pruned near the leaves,
    /// late quiet moves reduced by the table and by bad history and searched
    /// again at full depth when they beat alpha, checks extended near the
    /// leaves; a cutoff feeds the killers, the history (a bonus for the
    /// move, a malus for the quiet moves before it) and the counter move.
    #[verifier::rlimit(80)]
    fn search_moves(
        &mut self,
        pos: &mut Position,
        depth: i32,
        alpha: i32,
        beta: i32,
        ply: i32,
        in_check: bool,
        is_pv: bool,
        ml: &ScoredMoves,
        key: u64,
    ) -> (score: i32)
        requires
            old(self).wf(),
            0 <= ply < 128,
            1 <= depth <= 64,
            headroom(old(pos), 136 - ply),
            -99000 + ply <= alpha < beta <= 99000 - ply - 1,
            ml@.len() > 0,
            listed(ml@, old(pos)),
        ensures
            final(self).wf(),
            same_position(final(pos), old(pos)),
            -BOUND <= score <= BOUND,
        decreases 128 - ply, 0int, 0int,
    {
        let ghost p1 = *pos;
        let saved_prev = self.prev_move;
        let n = ml.len();
        let mut best_move = ml.get(0).mv;
        let mut best_score: i32 = -100000;
        let mut flag: u8 = 1;
        let mut a = alpha;
        let mut i: usize = 0;
        while i < n
            invariant_except_break
                a < beta,
            invariant
                self.wf(),
                saved_prev.from < 64,
                saved_prev.to < 64,
                same_position(pos, &p1),
                p1 == *old(pos),
                headroom(&p1, 136 - ply),
                0 <= ply < 128,
                1 <= depth <= 64,
                -99000 + ply <= alpha <= a,
                a <= BOUND,
                beta <= 99000 - ply - 1,
                n == ml@.len(),
                listed(ml@, &p1),
                -100000 <= best_score <= BOUND,
                i <= n,
            decreases n - i,
        {
            if self.stopped {
                break;
            }
            let m = ml.get(i).mv;
            assert(legal_moves(&p1).contains(ml@[i as int].mv));
            proof {
                lemma_legal_is_on_board(&p1, m);
            }
            let is_tactical = !pos.board[m.to as usize].is_empty() || m.special == SpecialMove::Promotion || m.special
                == SpecialMove::EnPassant;
            if !is_tactical && !in_check && depth <= 2 && i as i64 >= 8 + depth as i64 * 4 {
                i += 1;
                continue;
            }
            self.prev_move = m;
            play_legal(pos, m, Ghost(p1), Ghost(136 - ply as int));
            let ghost made_pos = *pos;
            let gives_check = pos.in_check();
            let d: usize = if depth < 31 {
                depth as usize
            } else {
                31
            };
            let mi: usize = if i < 255 {
                i
            } else {
                255
            };
            let score: i32;
            if i >= 3 && depth >= 2 && !is_tactical && !gives_check && !in_check {
                self.lmr_tries = self.lmr_tries.wrapping_add(1);
                let mut r = clamp_i32(self.lmr[d * 256 + mi], 1, depth - 1);
                let ci = opponent(pos.side_to_move).index();
                let hscore = self.history[history_idx(ci, m.from as usize, m.to as usize)] as i32;
                if hscore < -500 {
                    r = r + 2;
                } else if hscore < -100 {
                    r = r + 1;
                }
                r = clamp_i32(r, 1, depth - 1);
                let s0 = -self.search(pos, depth - 1 - r, -(a + 1), -a, ply + 1, gives_check, false);
                if s0 > a && !self.stopped {
                    self.lmr_re = self.lmr_re.wrapping_add(1);
                    score = -self.search(pos, depth - 1, -beta, -a, ply + 1, gives_check, is_pv);
                } else {
                    score = s0;
                }
            } else {
                let ext: i32 = if gives_check && depth <= 4 {
                    1
                } else {
                    0
                };
                if i > 0 && !self.stopped {
                    let s1 = -self.search(pos, depth - 1 + ext, -(a + 1), -a, ply + 1, gives_check, false);
                    if s1 > a && s1 < beta && !self.stopped {
                        score = -self.search(pos, depth - 1 + ext, -beta, -a, ply + 1, gives_check, is_pv);
                    } else {
                        score = s1;
                    }
                } else {
                    score = -self.search(pos, depth - 1 + ext, -beta, -a, ply + 1, gives_check, is_pv);
                }
            }
            unplay(pos, Ghost(p1), Ghost(m), Ghost(made_pos));
            if score > best_score {
                best_score = score;
                best_move = m;
            }
            if score > a {
                a = score;
                flag = 0;
            }
            if a >= beta {
                flag = 2;
                self.beta_cuts = self.beta_cuts.wrapping_add(1);
                if i == 0 {
                    self.first_cuts = self.first_cuts.wrapping_add(1);
                }
                if !is_tactical && (ply as usize) < 64 {
                    self.cutoff_update(pos, ml, i, m, depth, ply as usize, saved_prev, Ghost(p1));
                }
                i += 1;
                break;
            }
            i += 1;
        }
        self.prev_move = saved_prev;
        if !self.stopped {
            self.tt_store(key, depth, best_score, flag, &best_move);
        }
        best_score
    }

    /// After a quiet cutoff by the `i`-th move `m`: it becomes the first
    /// killer of its ply, its history grows by the squared depth (to 16000
    /// at most), the quiet moves tried before it lose the depth (to -16000 at
    /// least), and it becomes the counter move of the previous move.
    fn cutoff_update(
        &mut self,
        pos: &Position,
        ml: &ScoredMoves,
        i: usize,
        m: Move,
        depth: i32,
        ply: usize,
        saved_prev: Move,
        Ghost(p): Ghost<Position>,
    )
        requires
            old(self).wf(),
            i < ml@.len(),
            ply < 64,
            1 <= depth <= 64,
            m.from < 64,
            m.to < 64,
            saved_prev.from < 64,
            saved_prev.to < 64,
            listed(ml@, &p),
            same_position(pos, &p),
        ensures
            final(self).wf(),
            final(self).prev_move == old(self).prev_move,
            final(self).stopped == old(self).stopped,
            final(self).killers@ == old(self).killers@.update(ply * 2 + 1, old(self).killers@[ply * 2]).update(ply * 2, m),
            final(self).history@ == penalised(
                old(self).history@.update(
                    pos.side_to_move.spec_index() * 4096 + m.from * 64 + m.to,
                    (if old(self).history@[pos.side_to_move.spec_index() * 4096 + m.from * 64 + m.to] + depth * depth
                        < 16000 {
                        old(self).history@[pos.side_to_move.spec_index() * 4096 + m.from * 64 + m.to] + depth * depth
                    } else {
                        16000
                    }) as i16,
                ),
                ml@,
                pos.board@,
                pos.side_to_move.spec_index(),
                depth as int,
                i as int,
            ),
            final(self).countermove@ == (if saved_prev.from != 0 || saved_prev.to != 0 {
                old(self).countermove@.update(saved_prev.from * 64 + saved_prev.to, m)
            } else {
                old(self).countermove@
            }),
    {
        let first = self.killers[ply * 2];
        self.killers.set(ply * 2 + 1, first);
        self.killers.set(ply * 2, m);
        let ci = pos.side_to_move.index();
        let hi = history_idx(ci, m.from as usize, m.to as usize);
        let h = self.history[hi] as i32;
        assert(depth * depth <= 4096) by (nonlinear_arith)
            requires
                1 <= depth <= 64,
        ;
        let raised = min_i32(h + depth * depth, 16000);
        self.history.set(hi, raised as i16);
        let ghost raised_seq = self.history@;
        let mut j: usize = 0;
        while j < i
            invariant
                self.wf(),
                self.prev_move == old(self).prev_move,
                self.stopped == old(self).stopped,
                j <= i,
                i < ml@.len(),
                ci < 2,
                1 <= depth <= 64,
                listed(ml@, &p),
                same_position(pos, &p),
                ci == pos.side_to_move.spec_index(),
                self.killers@ == old(self).killers@.update(ply * 2 + 1, old(self).killers@[ply * 2]).update(ply * 2, m),
                self.countermove@ == old(self).countermove@,
                self.history@ == penalised(raised_seq, ml@, pos.board@, ci as int, depth as int, j as int),
            decreases i - j,
        {
            let mj = ml.get(j).mv;
            proof {
                assert(legal_moves(&p).contains(ml@[j as int].mv));
                lemma_legal_is_on_board(&p, mj);
            }
            if pos.board[mj.to as usize].is_empty() {
                let k = history_idx(ci, mj.from as usize, mj.to as usize);
                let hh = self.history[k] as i32;
                let lowered = max_i32(hh - depth, -16000);
                self.history.set(k, lowered as i16);
            }
            j += 1;
        }
        if saved_prev.from != 0 || saved_prev.to != 0 {
            self.countermove.set(saved_prev.from as usize * 64 + saved_prev.to as usize, m);
        }
    }

    /// The quiescence search, four plies deep: stand pat, then the captures
    /// and promotions not hopelessly behind, best victim first.
    fn qsearch(&mut self, pos: &mut Position, alpha: i32, beta: i32, qdepth: i32) -> (score: i32)
        requires
            old(self).wf(),
            0 <= qdepth <= 4,
            headroom(old(pos), 8 - qdepth),
            -BOUND <= alpha <= BOUND,
            -BOUND <= beta <= BOUND,
        ensures
            final(self).wf(),
            same_position(final(pos), old(pos)),
            -BOUND <= score <= BOUND,
        decreases 0int, 0int, 4 - qdepth,
    {
        if self.check_time() {
            return 0;
        }
        self.nodes = self.nodes + 1;
        self.qnodes = self.qnodes.wrapping_add(1);
        if qdepth >= 4 {
            return evaluate(pos);
        }
        let stand_pat = evaluate(pos);
        if stand_pat >= beta {
            return stand_pat;
        }
        let mut a = alpha;
        if stand_pat > a {
            a = stand_pat;
        }
        if stand_pat + 1000 < a {
            return a;
        }
        let ghost p1 = *pos;
        let ml = legal_list(pos);
        let mut tactical: Vec<(Move, i32)> = Vec::new();
        let n = ml.len();
        let mut i: usize = 0;
        while i < n
            invariant
                i <= n,
                n == ml@.len(),
                listed(ml@, &p1),
                same_position(pos, &p1),
                tactical@.len() <= 64,
                forall|k: int| 0 <= k < tactical@.len() ==> legal_moves(&p1).contains(#[trigger] tactical@[k].0),
                -BOUND <= stand_pat <= BOUND,
                -BOUND <= a <= BOUND,
            decreases n - i,
        {
            let m = ml.get(i).mv;
            assert(legal_moves(&p1).contains(ml@[i as int].mv));
            proof {
                lemma_legal_is_on_board(&p1, m);
            }
            let target = pos.board[m.to as usize];
            let tac = !target.is_empty() || m.special == SpecialMove::Promotion || m.special == SpecialMove::EnPassant;
            if tac {
                let mut see = pval(target.piece_type);
                if m.special == SpecialMove::Promotion {
                    see = see + 800;
                }
                if !(stand_pat + see + 200 < a) && tactical.len() < 64 {
                    tactical.push((m, see));
                }
            }
            i += 1;
        }
        let nt = tactical.len();
        let mut i: usize = 0;
        while i < nt
            invariant
                i <= nt,
                nt == tactical@.len(),
                forall|k: int| 0 <= k < tactical@.len() ==> legal_moves(&p1).contains(#[trigger] tactical@[k].0),
            decreases nt - i,
        {
            let mut best_idx = i;
            let mut best_val = tactical[i].1;
            let mut j = i + 1;
            while j < nt
                invariant
                    i < j <= nt,
                    i <= best_idx < nt,
                    nt == tactical@.len(),
                decreases nt - j,
            {
                if tactical[j].1 > best_val {
                    best_val = tactical[j].1;
                    best_idx = j;
                }
                j += 1;
            }
            if best_idx != i {
                let first = tactical[i];
                let best = tactical[best_idx];
                tactical.set(i, best);
                tactical.set(best_idx, first);
                assert(legal_moves(&p1).contains(best.0));
                assert(legal_moves(&p1).contains(first.0));
            }
            i += 1;
        }
        let mut i: usize = 0;
        while i < nt
            invariant
                self.wf(),
                i <= nt,
                nt == tactical@.len(),
                forall|k: int| 0 <= k < tactical@.len() ==> legal_moves(&p1).contains(#[trigger] tactical@[k].0),
                same_position(pos, &p1),
                p1 == *old(pos),
                headroom(&p1, 8 - qdepth),
                0 <= qdepth < 4,
                -BOUND <= a <= BOUND,
                -BOUND <= beta <= BOUND,
            decreases nt - i,
        {
            let m = tactical[i].0;
            play_legal(pos, m, Ghost(p1), Ghost(8 - qdepth as int));
            let ghost made_pos = *pos;
            let child = self.qsearch(pos, -beta, -a, qdepth + 1);
            let score = -child;
            unplay(pos, Ghost(p1), Ghost(m), Ghost(made_pos));
            if self.stopped {
                return 0;
            }
            if score >= beta {
                return score;
            }
            if score > a {
                a = score;
            }
            i += 1;
        }
        a
    }
}

impl Omega {
    /// The principal variation the table holds from the root: moves found
    /// legal where they stand, up to 32, never revisiting a position.
    fn principal_variation(&self, pos: &Position) -> Vec<Move>
        requires
            self.wf(),
            headroom(pos, 40),
    {
        let mut p = pos.without_history();
        let mut line: Vec<Move> = Vec::new();
        let mut seen: Vec<u64> = Vec::new();
        let mut depth_t: usize = 0;
        while depth_t < 32
            invariant
                self.wf(),
                depth_t <= 32,
                headroom(&p, 40 - depth_t),
            decreases 32 - depth_t,
        {
            let key = p.zobrist;
            if seen_key(&seen, key) {
                break;
            }
            if seen.len() < 32 {
                seen.push(key);
            }
            let e = self.tt[omega_slot(key)];
            if e.key32 != (key >> 32u64) as u32 {
                break;
            }
            let m = tt_to_move(&e);
            if m.from >= 64 || m.to >= 64 || p.board[m.from as usize].is_empty() {
                break;
            }
            let ghost prior = p;
            let mut legal: Vec<Move> = Vec::new();
            generate_legal_moves(&mut p, &mut legal);
            if !holds_move(&legal, m) {
                break;
            }
            line.push(m);
            play_legal(&mut p, m, Ghost(prior), Ghost(40 - depth_t as int));
            depth_t += 1;
        }
        line
    }

    /// The diagnostics: the counters, and the root moves ranked by the score
    /// the table (or else the evaluation) gives them, at most 32, as JSON.
    fn diagnostics(&self, pos: &mut Position, root: &ScoredMoves, Ghost(p): Ghost<Position>) -> (json: String)
        requires
            self.wf(),
            listed(root@, &p),
            same_position(old(pos), &p),
            headroom(&p, 8),
        ensures
            same_position(final(pos), &p),
    {
        let mut ranked: Vec<(Move, i32)> = Vec::new();
        let n = root.len();
        let mut i: usize = 0;
        while i < n
            invariant
                self.wf(),
                i <= n,
                n == root@.len(),
                listed(root@, &p),
                same_position(pos, &p),
                headroom(&p, 8),
                ranked@.len() == i,
                forall|k: int| 0 <= k < ranked@.len() ==> (#[trigger] ranked@[k]).0.from < 64 && ranked@[k].0.to < 64,
            decreases n - i,
        {
            let m = root.get(i).mv;
            assert(legal_moves(&p).contains(root@[i as int].mv));
            proof {
                lemma_legal_is_on_board(&p, m);
            }
            play_legal(pos, m, Ghost(p), Ghost(8));
            let ghost made_pos = *pos;
            let key = pos.zobrist;
            let e = self.tt[omega_slot(key)];
            let sc = if e.key32 == (key >> 32u64) as u32 {
                -(e.score as i32)
            } else {
                -evaluate(pos)
            };
            unplay(pos, Ghost(p), Ghost(m), Ghost(made_pos));
            ranked.push((m, sc));
            i += 1;
        }
        // Highest score first; equal scores keep their order.
        let mut i: usize = 1;
        while i < n
            invariant
                1 <= i || n == 0,
                ranked@.len() == n,
                forall|k: int| 0 <= k < ranked@.len() ==> (#[trigger] ranked@[k]).0.from < 64 && ranked@[k].0.to < 64,
            decreases n - i,
        {
            let mut j = i;
            while j > 0 && ranked[j - 1].1 < ranked[j].1
                invariant
                    j <= i < n,
                    ranked@.len() == n,
                    forall|k: int|
                        0 <= k < ranked@.len() ==> (#[trigger] ranked@[k]).0.from < 64 && ranked@[k].0.to < 64,
                decreases j,
            {
                let lower = ranked[j - 1];
                let upper = ranked[j];
                ranked.set(j - 1, upper);
                ranked.set(j, lower);
                j -= 1;
            }
            i += 1;
        }
        let cap = if n < 32 {
            n
        } else {
            32
        };
        let mut out: Vec<char> = Vec::new();
        push_text(&mut out, "{\"engine\":\"omega_001\",\"qn\":");
        push_u64(&mut out, self.qnodes);
        push_text(&mut out, ",\"tt\":");
        push_u64(&mut out, self.tt_hits);
        push_text(&mut out, ",\"bcut\":");
        push_u64(&mut out, self.beta_cuts);
        push_text(&mut out, ",\"fcut\":");
        push_u64(&mut out, self.first_cuts);
        push_text(&mut out, ",\"nmp\":");
        push_u64(&mut out, self.null_cuts);
        push_text(&mut out, ",\"lazy\":");
        push_u64(&mut out, self.lazy_cuts);
        push_text(&mut out, ",\"lmr\":[");
        push_u64(&mut out, self.lmr_tries);
        out.push(',');
        push_u64(&mut out, self.lmr_re);
        push_text(&mut out, "],\"top_moves\":[");
        let mut i: usize = 0;
        while i < cap
            invariant
                cap <= n,
                ranked@.len() == n,
                forall|k: int| 0 <= k < ranked@.len() ==> (#[trigger] ranked@[k]).0.from < 64 && ranked@[k].0.to < 64,
            decreases cap - i,
        {
            if i > 0 {
                out.push(',');
            }
            push_text(&mut out, "[\"");
            let entry = ranked[i];
            push_uci(&mut out, entry.0);
            push_text(&mut out, "\",");
            push_i32(&mut out, entry.1);
            out.push(']');
            i += 1;
        }
        push_text(&mut out, "]}");
        string_from_chars(&out)
    }

    /// Choose a move: iterative deepening to depth 30 over the root moves,
    /// the previous best first, inside a ±50 window from depth 4 that is
    /// widened once on failure; a lost position falls back to the best static
    /// reply. The move is a legal move, or the null move when there is none;
    /// the position comes back as it was.
    #[verifier::rlimit(60)]
    pub fn choose_move(&mut self, pos: &mut Position, budget: &SearchBudget) -> (r: (Move, SearchStats))
        requires
            old(self).wf(),
            headroom(old(pos), 136),
            budget.max_time_us <= MAX_TIME_US,
        ensures
            final(self).wf(),
            same_position(final(pos), old(pos)),
            legal_moves(old(pos)).len() == 0 ==> r.0 == Move::null() && r.1.nodes == 0 && r.1.depth_reached == 0
                && r.1.eval_cp == 0 && r.1.pv@.len() == 0,
            legal_moves(old(pos)).len() > 0 ==> legal_moves(old(pos)).contains(r.0),
    {
        let ghost p0 = *pos;
        self.t0 = now();
        self.budget_max_time_us = budget.max_time_us;
        self.nodes = 0;
        self.qnodes = 0;
        self.max_ply = 0;
        self.stopped = false;
        self.beta_cuts = 0;
        self.first_cuts = 0;
        self.tt_hits = 0;
        self.null_cuts = 0;
        self.lmr_tries = 0;
        self.lmr_re = 0;
        self.lazy_cuts = 0;
        self.prev_move = Move::default();
        let mut root = legal_list(pos);
        proof {
            lemma_legal_moves_congruent(pos, &p0);
        }
        let mut stats = SearchStats::default();
        if root.len() == 0 {
            return (Move::default(), stats);
        }
        if root.len() == 1 {
            stats.nodes = 1;
            stats.depth_reached = 0;
            let only = root.get(0).mv;
            assert(legal_moves(&p0).contains(root@[0].mv));
            return (only, stats);
        }
        let mut best = root.get(0).mv;
        let mut best_score: i32 = -100000;
        let mut depth: i32 = 1;
        while depth <= 30
            invariant
                self.wf(),
                1 <= depth <= 31,
                same_position(pos, &p0),
                p0 == *old(pos),
                headroom(&p0, 136),
                root@.len() >= 2,
                listed(root@, &p0),
                -BOUND <= best_score <= BOUND,
            decreases 31 - depth,
        {
            if self.stopped {
                break;
            }
            let full = depth <= 3 || best_score > 5000 || best_score < -5000;
            let mut alpha: i32 = if full {
                -100000
            } else {
                best_score - 50
            };
            let mut beta: i32 = if full {
                100000
            } else {
                best_score + 50
            };
            let mut iter_best = root.get(0).mv;
            let mut iter_best_score: i32 = -100000;
            let mut aspiration_fail = false;
            loop
                invariant
                    self.wf(),
                    1 <= depth <= 30,
                    same_position(pos, &p0),
                    headroom(&p0, 136),
                    root@.len() >= 2,
                    listed(root@, &p0),
                    -BOUND <= best_score <= BOUND,
                    -BOUND <= iter_best_score <= BOUND,
                    -100000 <= alpha <= BOUND,
                    -BOUND <= beta <= 100000,
                decreases (if aspiration_fail {
                    0int
                } else {
                    1int
                }),
            {
                iter_best = root.get(0).mv;
                iter_best_score = -100000;
                bring_to_front(&mut root, best, Ghost(p0));
                let n = root.len();
                let mut i: usize = 0;
                while i < n
                    invariant_except_break
                        i > 0 ==> alpha < beta,
                    invariant
                        self.wf(),
                        i <= n,
                        n == root@.len(),
                        same_position(pos, &p0),
                        headroom(&p0, 136),
                        listed(root@, &p0),
                        -BOUND <= iter_best_score <= BOUND,
                        -100000 <= alpha <= BOUND,
                        -BOUND <= beta <= 100000,
                        1 <= depth <= 30,
                    decreases n - i,
                {
                    if self.stopped {
                        break;
                    }
                    let m = root.get(i).mv;
                    assert(legal_moves(&p0).contains(root@[i as int].mv));
                    self.prev_move = m;
                    proof {
                        lemma_legal_is_on_board(&p0, m);
                    }
                    play_legal(pos, m, Ghost(p0), Ghost(136));
                    let ghost made_pos = *pos;
                    let gives_check = pos.in_check();
                    let score: i32;
                    if i > 0 && !self.stopped {
                        let s1 = -self.search(pos, depth - 1, -(alpha + 1), -alpha, 1, gives_check, false);
                        if s1 > alpha && s1 < beta && !self.stopped {
                            score = -self.search(pos, depth - 1, -beta, -alpha, 1, gives_check, true);
                        } else {
                            score = s1;
                        }
                    } else {
                        score = -self.search(pos, depth - 1, -beta, -alpha, 1, gives_check, true);
                    }
                    unplay(pos, Ghost(p0), Ghost(m), Ghost(made_pos));
                    if self.stopped {
                        break;
                    }
                    if score > iter_best_score {
                        iter_best_score = score;
                        iter_best = m;
                    }
                    if score > alpha {
                        alpha = score;
                    }
                    if alpha >= beta {
                        break;
                    }
                    i += 1;
                }
                if self.stopped {
                    break;
                }
                if iter_best_score <= best_score - 50 && !aspiration_fail {
                    alpha = max_i32(iter_best_score - 200, -100000);
                    beta = 100000;
                    aspiration_fail = true;
                    continue;
                }
                if iter_best_score >= best_score + 50 && depth > 3 && best_score <= 5000 && best_score >= -5000
                    && !aspiration_fail {
                    alpha = -100000;
                    beta = min_i32(iter_best_score + 200, 100000);
                    aspiration_fail = true;
                    continue;
                }
                break;
            }
            if !self.stopped {
                best_score = iter_best_score;
                best = iter_best;
            }
            stats.depth_reached = depth as u32;
            stats.eval_cp = best_score;
            depth += 1;
        }
        if best_score <= -90000 {
            let mut bs: i32 = -100000;
            let n = root.len();
            let mut i: usize = 0;
            while i < n
                invariant
                    i <= n,
                    n == root@.len(),
                    same_position(pos, &p0),
                    headroom(&p0, 136),
                    listed(root@, &p0),
                    -BOUND <= bs <= BOUND,
                decreases n - i,
            {
                let m = root.get(i).mv;
                assert(legal_moves(&p0).contains(root@[i as int].mv));
                play_legal(pos, m, Ghost(p0), Ghost(136));
                let ghost made_pos = *pos;
                let sc = -evaluate(pos);
                unplay(pos, Ghost(p0), Ghost(m), Ghost(made_pos));
                if sc > bs {
                    bs = sc;
                    best = m;
                }
                i += 1;
            }
        }
        let ghost before_fresh = *pos;
        let mut fresh: Vec<Move> = Vec::new();
        generate_legal_moves(pos, &mut fresh);
        proof {
            lemma_legal_moves_congruent(&before_fresh, &p0);
        }
        if !holds_move(&fresh, best) {
            best = if fresh.len() > 0 {
                fresh[0]
            } else {
                Move::default()
            };
            proof {
                if fresh@.len() > 0 {
                    assert(fresh@.contains(fresh@[0]));
                }
            }
        }
        stats.nodes = self.nodes;
        stats.seldepth = self.max_ply;
        stats.time_used_us = self.elapsed_us();
        stats.pv = self.principal_variation(pos);
        stats.diag_json = self.diagnostics(pos, &root, Ghost(p0));
        (best, stats)
    }
}

} // verus!

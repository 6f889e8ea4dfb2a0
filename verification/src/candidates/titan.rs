//! Titan: iterative deepening to depth 30 with a root aspiration window that
//! widens until the score falls inside, a principal-variation search that
//! takes no table cutoff at principal-variation nodes, reverse futility
//! pruning five plies deep, wide late-move pruning and reductions, check
//! extensions six plies deep, internal iterative deepening, killers, counter
//! moves and history, and a capture-only quiescence search four plies deep,
//! all over Chimera's evaluation.
use vstd::prelude::*;
use std::time::Instant;
use crate::candidates::chimera::eval::evaluate;
use crate::candidates::omega::search::{LMR_SIZE, MAX_TIME_US, TtEntry, history_idx, tt_to_move, blank, clamp_score};
use crate::candidates::support::{
    clamp_i32, holds_move, legal_list, lemma_legal_is_on_board, listed, max_i32, min_i32, push_i32, push_text, push_u64,
    push_uci, seen_key, selection_sort,
};
use crate::engine::shared::{elapsed, now, whole_micros};
use crate::engine::walk::{headroom, play_legal, same_position, unplay};
use crate::engines::support::{ScoredMove, ScoredMoves};
use crate::rules::fen::string_from_chars;
use crate::rules::movegen::{generate_legal_moves, legal_moves, lemma_legal_moves_congruent};
use crate::rules::position::Position;
use crate::rules::types::{Color, Move, Piece, PieceType, SearchBudget, SearchStats, SpecialMove, opponent, pval, spec_pval};

verus! {

/// Table slots.
pub const TITAN_TT_SIZE: usize = 524288;

/// History slots: mover, from square, to square.
pub const TITAN_HISTORY: usize = 8192;

/// A score strictly inside this bound is one a finished search can give.
pub const SCORE_BOUND: i32 = 100000;

/// The Titan engine: its table, history, killers and counter moves, the
/// late-move reductions it was built with, and the counters of the search
/// under way.
pub struct Titan {
    color: Color,
    tt: Vec<TtEntry>,
    history: Vec<i16>,
    killers: Vec<Move>,
    countermove: Vec<Move>,
    lmr: Vec<i32>,
    prev_move: Move,
    nodes: u64,
    qnodes: u64,
    beta_cuts: u64,
    first_cuts: u64,
    tt_hits: u64,
    null_cuts: u64,
    lmr_tries: u64,
    lmr_re: u64,
    max_ply: u32,
    stopped: bool,
    budget_max_time_us: i64,
    t0: Instant,
}

/// The table slot of a key: its low nineteen bits.
pub(crate) fn slot(key: u64) -> (i: usize)
    ensures
        i < TITAN_TT_SIZE,
        i == key % 524288,
{
    assert((key & 0x7FFFF) < 524288 && (key & 0x7FFFF) == key % 524288) by (bit_vector);
    (key & 0x7FFFF) as usize
}

/// How many ranks a piece of `c` on `sq` stands from its own back rank.
pub(crate) fn advance_of(c: Color, sq: u8) -> (adv: i32)
    requires
        sq < 64,
    ensures
        0 <= adv < 8,
        adv == (if c == Color::White {
            (sq / 8) as int
        } else {
            7 - sq / 8
        }),
{
    let rank = (sq / 8) as i32;
    match c {
        Color::White => rank,
        Color::Black => 7 - rank,
    }
}

/// The history after the quiet moves before a cutoff, the first `j` of
/// `ml`, each lose `depth`, floored at -16000.
pub open spec fn penalised(h: Seq<i16>, ml: Seq<ScoredMove>, board: Seq<Piece>, ci: int, depth: int, j: int) -> Seq<i16>
    decreases j,
{
    if j <= 0 {
        h
    } else {
        let prev = penalised(h, ml, board, ci, depth, j - 1);
        let mj = ml[j - 1].mv;
        let k = ci * 4096 + mj.from * 64 + mj.to;
        if board[mj.to as int].piece_type == PieceType::Empty {
            prev.update(k, (if prev[k] - depth > -16000 {
                prev[k] - depth
            } else {
                -16000
            }) as i16)
        } else {
            prev
        }
    }
}

/// The capture part of a move's ordering score: victim over attacker.
pub open spec fn capture_part(pos: &Position, m: Move) -> int {
    let mover = pos.board@[m.from as int];
    let victim = pos.board@[m.to as int];
    if victim.piece_type != PieceType::Empty {
        100_000 + spec_pval(victim.piece_type) * 10 - spec_pval(mover.piece_type)
    } else {
        0
    }
}

/// The promotion part of a move's ordering score.
pub open spec fn promotion_part(m: Move) -> int {
    if m.special == SpecialMove::Promotion {
        95_000 + spec_pval(m.promo_piece)
    } else {
        0
    }
}

/// The killer part of a move's ordering score at `ply`.
pub open spec fn killer_part(m: Move, ply: usize, killers: Seq<Move>) -> int {
    if ply < 64 && m == killers[ply * 2] {
        80_000
    } else if ply < 64 && m == killers[ply * 2 + 1] {
        79_000
    } else {
        0
    }
}

/// The pawn-advance part of a move's ordering score.
pub open spec fn advance_part(pos: &Position, m: Move) -> int {
    let mover = pos.board@[m.from as int];
    let adv: int = if mover.color == Color::White {
        (m.to / 8) as int
    } else {
        7 - m.to / 8
    };
    if mover.piece_type == PieceType::Pawn && adv >= 5 {
        50_000 + adv * 5000
    } else {
        0
    }
}

/// The ordering score of `m` on `pos` at `ply`: the table move first, then
/// captures by victim and attacker, promotions, pawns reaching the sixth rank
/// and beyond, the two killers of the ply, the counter move, and the history.
pub open spec fn ordering_score(
    pos: &Position,
    m: Move,
    ply: usize,
    ttm: Move,
    cm: Move,
    killers: Seq<Move>,
    history: Seq<i16>,
) -> int {
    if m == ttm {
        10_000_000
    } else {
        capture_part(pos, m) + promotion_part(m) + advance_part(pos, m) + killer_part(m, ply, killers) + (if m == cm {
            60_000int
        } else {
            0
        }) + history[pos.side_to_move.spec_index() * 4096 + m.from * 64 + m.to]
    }
}

impl Titan {
    /// The engine's invariant: tables of their sizes, history within ±16000,
    /// reductions between 0 and 64, the previous move on the board and a time
    /// budget whose nine tenths can be computed.
    pub closed spec fn wf(&self) -> bool {
        &&& self.tt@.len() == TITAN_TT_SIZE
        &&& self.history@.len() == TITAN_HISTORY
        &&& forall|k: int| 0 <= k < TITAN_HISTORY ==> -16000 <= #[trigger] self.history@[k] <= 16000
        &&& self.killers@.len() == 128
        &&& self.countermove@.len() == 4096
        &&& self.lmr@.len() == LMR_SIZE
        &&& forall|k: int| 0 <= k < LMR_SIZE ==> 0 <= #[trigger] self.lmr@[k] <= 64
        &&& self.prev_move.from < 64
        &&& self.prev_move.to < 64
        &&& self.budget_max_time_us <= MAX_TIME_US
    }

    /// Whether the search under way has been stopped.
    pub closed spec fn halted(&self) -> bool {
        self.stopped
    }

    /// A fresh engine with the late-move reductions: 32 rows of depth by 256
    /// move numbers, each between 0 and 64.
    pub fn new(lmr: Vec<i32>) -> (e: Titan)
        requires
            lmr@.len() == LMR_SIZE,
            forall|k: int| 0 <= k < LMR_SIZE ==> 0 <= #[trigger] lmr@[k] <= 64,
        ensures
            e.wf(),
    {
        let mut tt: Vec<TtEntry> = Vec::new();
        let mut k: usize = 0;
        while k < TITAN_TT_SIZE
            invariant
                k <= TITAN_TT_SIZE,
                tt@.len() == k,
            decreases TITAN_TT_SIZE - k,
        {
            tt.push(TtEntry::default());
            k += 1;
        }
        let mut history: Vec<i16> = Vec::new();
        let mut k: usize = 0;
        while k < TITAN_HISTORY
            invariant
                k <= TITAN_HISTORY,
                history@.len() == k,
                forall|j: int| 0 <= j < k ==> #[trigger] history@[j] == 0,
            decreases TITAN_HISTORY - k,
        {
            history.push(0);
            k += 1;
        }
        let mut killers: Vec<Move> = Vec::new();
        let mut k: usize = 0;
        while k < 128
            invariant
                k <= 128,
                killers@.len() == k,
            decreases 128 - k,
        {
            killers.push(Move::default());
            k += 1;
        }
        let mut countermove: Vec<Move> = Vec::new();
        let mut k: usize = 0;
        while k < 4096
            invariant
                k <= 4096,
                countermove@.len() == k,
            decreases 4096 - k,
        {
            countermove.push(Move::default());
            k += 1;
        }
        Titan {
            color: Color::White,
            tt,
            history,
            killers,
            countermove,
            lmr,
            prev_move: Move::default(),
            nodes: 0,
            qnodes: 0,
            beta_cuts: 0,
            first_cuts: 0,
            tt_hits: 0,
            null_cuts: 0,
            lmr_tries: 0,
            lmr_re: 0,
            max_ply: 0,
            stopped: false,
            budget_max_time_us: 0,
            t0: now(),
        }
    }

    /// The engine's name.
    pub fn name(&self) -> &'static str {
        "titan_019"
    }

    /// Forget the previous game: an empty table, cleared history, killers and
    /// counter moves.
    /// A fresh game's state: an empty table, zero history, no killers or
    /// counter moves, the given colour.
    pub closed spec fn fresh(&self, c: Color) -> bool {
        &&& self.color == c
        &&& forall|j: int| 0 <= j < self.tt@.len() ==> blank(#[trigger] self.tt@[j])
        &&& forall|j: int| 0 <= j < self.history@.len() ==> #[trigger] self.history@[j] == 0
        &&& forall|j: int| 0 <= j < self.killers@.len() ==> #[trigger] self.killers@[j] == Move::null()
        &&& forall|j: int| 0 <= j < self.countermove@.len() ==> #[trigger] self.countermove@[j] == Move::null()
    }

    pub fn new_game(&mut self, my_color: Color, game_seed: u64)
        requires
            old(self).wf(),
        ensures
            final(self).wf(),
            final(self).fresh(my_color),
    {
        self.color = my_color;
        let mut k: usize = 0;
        while k < TITAN_TT_SIZE
            invariant
                self.wf(),
                k <= TITAN_TT_SIZE,
                self.color == my_color,
                forall|j: int| 0 <= j < k ==> blank(#[trigger] self.tt@[j]),
            decreases TITAN_TT_SIZE - k,
        {
            self.tt.set(k, TtEntry::default());
            k += 1;
        }
        let mut k: usize = 0;
        while k < TITAN_HISTORY
            invariant
                self.wf(),
                k <= TITAN_HISTORY,
                self.color == my_color,
                forall|j: int| 0 <= j < TITAN_TT_SIZE ==> blank(#[trigger] self.tt@[j]),
                forall|j: int| 0 <= j < k ==> #[trigger] self.history@[j] == 0,
            decreases TITAN_HISTORY - k,
        {
            self.history.set(k, 0);
            k += 1;
        }
        let mut k: usize = 0;
        while k < 128
            invariant
                self.wf(),
                k <= 128,
                self.color == my_color,
                forall|j: int| 0 <= j < TITAN_TT_SIZE ==> blank(#[trigger] self.tt@[j]),
                forall|j: int| 0 <= j < TITAN_HISTORY ==> #[trigger] self.history@[j] == 0,
                forall|j: int| 0 <= j < k ==> #[trigger] self.killers@[j] == Move::null(),
            decreases 128 - k,
        {
            self.killers.set(k, Move::default());
            k += 1;
        }
        let mut k: usize = 0;
        while k < 4096
            invariant
                self.wf(),
                k <= 4096,
                self.color == my_color,
                forall|j: int| 0 <= j < TITAN_TT_SIZE ==> blank(#[trigger] self.tt@[j]),
                forall|j: int| 0 <= j < TITAN_HISTORY ==> #[trigger] self.history@[j] == 0,
                forall|j: int| 0 <= j < 128 ==> #[trigger] self.killers@[j] == Move::null(),
                forall|j: int| 0 <= j < k ==> #[trigger] self.countermove@[j] == Move::null(),
            decreases 4096 - k,
        {
            self.countermove.set(k, Move::default());
            k += 1;
        }
        self.prev_move = Move::default();
    }

    /// The microseconds since the search began.
    fn elapsed_us(&self) -> i64 {
        (#[verifier::truncate] (whole_micros(&elapsed(&self.t0)) as i64))
    }

    /// Whether the search stops: once stopped, when nine tenths of the time
    /// budget are used at a check every 256 nodes, or when no more nodes can
    /// be counted.
    fn check_time(&mut self) -> (stop: bool)
        requires
            old(self).wf(),
        ensures
            final(self).wf(),
            !stop ==> final(self).nodes < u64::MAX,
            stop == final(self).stopped,
            *final(self) == (Titan { stopped: final(self).stopped, ..*old(self) }),
            old(self).stopped ==> final(self).stopped,
    {
        if self.stopped {
            return true;
        }
        if self.nodes == u64::MAX {
            self.stopped = true;
            return true;
        }
        if self.budget_max_time_us > 0 && (self.nodes & 255) == 0 && self.elapsed_us() >= self.budget_max_time_us * 9
            / 10 {
            self.stopped = true;
        }
        self.stopped
    }

    /// Store a result unless the slot holds another position searched deeper.
    fn tt_store(&mut self, key: u64, depth: i32, score: i32, flag: u8, m: &Move)
        requires
            old(self).wf(),
            0 <= depth,
        ensures
            final(self).wf(),
            ({
                let idx = (key % 524288) as int;
                let e = old(self).tt@[idx];
                if e.key32 != (key >> 32u64) as u32 || depth >= e.depth {
                    final(self).tt@ == old(self).tt@.update(idx, (TtEntry {
                    key32: (key >> 32u64) as u32,
                    score: clamp_score(score) as i16,
                    depth: (if depth < 255 {
                        depth
                    } else {
                        255
                    }) as u8,
                    flag,
                    from: m.from,
                    to: m.to,
                    path_kind: m.path_kind,
                    stop_idx: m.stop_index,
                    special: m.special,
                    promo: m.promo_piece,
                }))
                } else {
                    final(self).tt@ == old(self).tt@
                }
            }),
            final(self).stopped == old(self).stopped,
    {
        let idx = slot(key);
        let k32 = (key >> 32u64) as u32;
        let e = self.tt[idx];
        if e.key32 != k32 || depth >= e.depth as i32 {
            let clamped = clamp_i32(score, -32000, 32000);
            let d: u8 = if depth < 255 {
                depth as u8
            } else {
                255
            };
            self.tt.set(
                idx,
                TtEntry {
                    key32: k32,
                    score: clamped as i16,
                    depth: d,
                    flag,
                    from: m.from,
                    to: m.to,
                    path_kind: m.path_kind,
                    stop_idx: m.stop_index,
                    special: m.special,
                    promo: m.promo_piece,
                },
            );
        }
    }

    /// The ordering score of a move on the board: the table move first, then
    /// captures by victim and attacker, promotions, pawns reaching the sixth
    /// rank and beyond, killers, the counter move and history.
    #[verifier::spinoff_prover]
    #[verifier::rlimit(100)]
    fn move_score(&self, pos: &Position, m: Move, ply: usize, ttm: &Move, cm: Move) -> (s: i32)
        requires
            self.wf(),
            m.from < 64,
            m.to < 64,
        ensures
            s == ordering_score(pos, m, ply, *ttm, cm, self.killers@, self.history@),
    {
        if m == *ttm {
            return 10_000_000;
        }
        let mover = pos.board[m.from as usize];
        let victim = pos.board[m.to as usize];
        let capture: i32 = if !victim.is_empty() {
            100_000 + pval(victim.piece_type) * 10 - pval(mover.piece_type)
        } else {
            0
        };
        assert(capture == capture_part(pos, m));
        let promotion: i32 = if m.special == SpecialMove::Promotion {
            95_000 + pval(m.promo_piece)
        } else {
            0
        };
        assert(promotion == promotion_part(m));
        let adv = advance_of(mover.color, m.to);
        let advance: i32 = if mover.piece_type == PieceType::Pawn && adv >= 5 {
            50_000 + adv * 5000
        } else {
            0
        };
        assert(advance == advance_part(pos, m));
        let killer: i32 = if ply < 64 && m == self.killers[ply * 2] {
            80_000
        } else if ply < 64 && m == self.killers[ply * 2 + 1] {
            79_000
        } else {
            0
        };
        assert(killer == killer_part(m, ply, self.killers@));
        let counter: i32 = if m == cm {
            60_000
        } else {
            0
        };
        let h = self.history[history_idx(pos.side_to_move.index(), m.from as usize, m.to as usize)] as i32;
        capture + promotion + advance + killer + counter + h
    }

    /// Score the moves for ordering, then sort them, the best first.
    fn order_moves(&self, pos: &Position, ml: &mut ScoredMoves, ply: usize, ttm: &Move, Ghost(p): Ghost<Position>)
        requires
            self.wf(),
            listed(old(ml)@, &p),
            same_position(pos, &p),
        ensures
            final(ml)@.len() == old(ml)@.len(),
            listed(final(ml)@, &p),
            final(ml)@.to_multiset() == old(ml)@.map_values(
                |sm: ScoredMove|
                    ScoredMove {
                        mv: sm.mv,
                        score: ordering_score(pos, sm.mv, ply, *ttm, self.counter_spec(), self.killers@, self.history@) as i32,
                    },
            ).to_multiset(),
            forall|a: int, b: int| 0 <= a < b < final(ml)@.len() ==> final(ml)@[a].score >= final(ml)@[b].score,
    {
        let cm = if self.prev_move.from != 0 || self.prev_move.to != 0 {
            self.countermove[self.prev_move.from as usize * 64 + self.prev_move.to as usize]
        } else {
            Move::default()
        };
        let n = ml.len();
        let mut i: usize = 0;
        while i < n
            invariant
                self.wf(),
                i <= n,
                ml@.len() == n,
                n == old(ml)@.len(),
                listed(ml@, &p),
                same_position(pos, &p),
                cm == self.counter_spec(),
                forall|k: int| i <= k < n ==> #[trigger] ml@[k] == old(ml)@[k],
                forall|k: int|
                    0 <= k < i ==> #[trigger] ml@[k] == (ScoredMove {
                        mv: old(ml)@[k].mv,
                        score: ordering_score(pos, old(ml)@[k].mv, ply, *ttm, cm, self.killers@, self.history@) as i32,
                    }),
            decreases n - i,
        {
            let m = ml.get(i).mv;
            proof {
                assert(legal_moves(&p).contains(ml@[i as int].mv));
                lemma_legal_is_on_board(&p, m);
            }
            let s = self.move_score(pos, m, ply, ttm, cm);
            ml.set(i, ScoredMove { mv: m, score: s });
            i += 1;
        }
        assert(ml@ =~= old(ml)@.map_values(
            |sm: ScoredMove|
                ScoredMove {
                    mv: sm.mv,
                    score: ordering_score(pos, sm.mv, ply, *ttm, self.counter_spec(), self.killers@, self.history@) as i32,
                },
        ));
        selection_sort(ml, Ghost(p));
    }

    /// The counter move of the previous move, or the null move when there
    /// is no previous move.
    pub closed spec fn counter_spec(&self) -> Move {
        if self.prev_move.from != 0 || self.prev_move.to != 0 {
            self.countermove@[self.prev_move.from * 64 + self.prev_move.to]
        } else {
            Move::null()
        }
    }
}

/// A score a search may give: within the bound.
pub open spec fn fits(s: int) -> bool {
    -SCORE_BOUND <= s <= SCORE_BOUND
}

/// A score a search that was not stopped gives: strictly inside the bound.
pub open spec fn inside(s: int) -> bool {
    -SCORE_BOUND < s < SCORE_BOUND
}

impl Titan {
    /// The principal-variation search of `depth` plies at `ply`: the time and
    /// node limits, mate-distance bounds, the table (no cutoff at
    /// principal-variation nodes), reverse futility pruning and a quiescence
    /// probe near the leaves, internal iterative deepening, then the moves. A
    /// stop answers zero.
    #[verifier::rlimit(60)]
    fn search(
        &mut self,
        pos: &mut Position,
        depth: i32,
        alpha: i32,
        beta: i32,
        ply: i32,
        in_check: bool,
        is_pv: bool,
    ) -> (score: i32)
        requires
            old(self).wf(),
            0 <= ply <= 128,
            -64 <= depth <= 64,
            headroom(old(pos), 136 - ply),
            -SCORE_BOUND <= alpha < beta <= SCORE_BOUND,
        ensures
            final(self).wf(),
            same_position(final(pos), old(pos)),
            fits(score as int),
            !final(self).stopped ==> inside(score as int),
            old(self).stopped ==> final(self).stopped,
            is_pv && depth > 0 && ply < 128 && alpha < 99000 - ply - 1 && beta > -99000 + ply
                && !final(self).stopped && legal_moves(old(pos)).len() == 0 ==> score == (if in_check {
                -99000 + ply
            } else {
                0
            }),
        decreases 128 - ply, 1int, depth + 64,
    {
        if self.check_time() {
            return 0;
        }
        self.nodes = self.nodes + 1;
        if ply as u32 > self.max_ply {
            self.max_ply = ply as u32;
        }
        if ply >= 128 {
            return evaluate(pos);
        }
        let lo = max_i32(alpha, -99000 + ply);
        let hi = min_i32(beta, 99000 - ply - 1);
        if lo >= hi {
            return lo;
        }
        let key = pos.zobrist;
        let idx = slot(key);
        let k32 = (key >> 32u64) as u32;
        let mut ttm = Move::default();
        let e = self.tt[idx];
        if e.key32 == k32 {
            ttm = tt_to_move(&e);
            if e.depth as i32 >= depth && !is_pv {
                self.tt_hits = self.tt_hits.wrapping_add(1);
                if e.flag == 0 {
                    return e.score as i32;
                }
                if e.flag == 2 && e.score as i32 >= hi {
                    return e.score as i32;
                }
                if e.flag == 1 && e.score as i32 <= lo {
                    return e.score as i32;
                }
            }
        }
        if depth <= 0 {
            return self.qsearch(pos, lo, hi, 0);
        }
        let static_eval = evaluate(pos);
        if !in_check && !is_pv && depth <= 5 && ply > 0 {
            if static_eval - depth * 120 >= hi {
                self.null_cuts = self.null_cuts.wrapping_add(1);
                return hi;
            }
            if depth <= 2 && static_eval + 300 < lo {
                let qs = self.qsearch(pos, lo, hi, 0);
                if qs < lo {
                    return qs;
                }
            }
        }
        if ttm.from == 0 && ttm.to == 0 && depth >= 4 && !self.stopped {
            self.search(pos, depth - 2, lo, hi, ply, in_check, false);
            let again = self.tt[idx];
            if again.key32 == k32 {
                ttm = tt_to_move(&again);
            }
        }
        let ghost p1 = *pos;
        proof {
            lemma_legal_moves_congruent(&p1, old(pos));
        }
        let mut ml = legal_list(pos);
        if ml.len() == 0 {
            return if in_check {
                -99000 + ply
            } else {
                0
            };
        }
        proof {
            lemma_legal_moves_congruent(pos, &p1);
        }
        self.order_moves(pos, &mut ml, ply as usize, &ttm, Ghost(*pos));
        self.search_moves(pos, depth, lo, hi, ply, in_check, is_pv, &ml, key)
    }

    /// The moves of a node in order: late quiet moves pruned three plies from
    /// the leaves, late quiet moves reduced by the table and by bad history
    /// and searched again at full depth when they beat alpha, checks extended
    /// six plies from the leaves; a cutoff feeds the killers, the history (a
    /// bonus for the move, a malus for the quiet moves before it) and the
    /// counter move.
    #[verifier::rlimit(80)]
    fn search_moves(
        &mut self,
        pos: &mut Position,
        depth: i32,
        alpha: i32,
        beta: i32,
        ply: i32,
        in_check: bool,
        is_pv: bool,
        ml: &ScoredMoves,
        key: u64,
    ) -> (score: i32)
        requires
            old(self).wf(),
            0 <= ply < 128,
            1 <= depth <= 64,
            headroom(old(pos), 136 - ply),
            -99000 + ply <= alpha < beta <= 99000 - ply - 1,
            ml@.len() > 0,
            listed(ml@, old(pos)),
        ensures
            final(self).wf(),
            same_position(final(pos), old(pos)),
            fits(score as int),
            !final(self).stopped ==> inside(score as int),
            old(self).stopped ==> final(self).stopped,
        decreases 128 - ply, 0int, 0int,
    {
        let ghost p1 = *pos;
        let ghost was_stopped = self.stopped;
        let saved_prev = self.prev_move;
        let n = ml.len();
        let mut best_move = ml.get(0).mv;
        let mut best_score: i32 = -100000;
        let mut flag: u8 = 1;
        let mut a = alpha;
        let mut i: usize = 0;
        while i < n
            invariant_except_break
                a < beta,
            invariant
                self.wf(),
                saved_prev.from < 64,
                saved_prev.to < 64,
                same_position(pos, &p1),
                p1 == *old(pos),
                headroom(&p1, 136 - ply),
                0 <= ply < 128,
                1 <= depth <= 64,
                -99000 + ply <= alpha <= a,
                a <= SCORE_BOUND,
                beta <= 99000 - ply - 1,
                n == ml@.len(),
                n > 0,
                listed(ml@, &p1),
                fits(best_score as int),
                best_score == -100000 || inside(best_score as int) || self.stopped,
                !self.stopped && i > 0 ==> inside(best_score as int),
                was_stopped ==> self.stopped,
                i <= n,
            ensures
                self.wf(),
                same_position(pos, &p1),
                fits(best_score as int),
                !self.stopped ==> i > 0 && inside(best_score as int),
                was_stopped ==> self.stopped,
            decreases n - i,
        {
            if self.stopped {
                break;
            }
            let m = ml.get(i).mv;
            assert(legal_moves(&p1).contains(ml@[i as int].mv));
            proof {
                lemma_legal_is_on_board(&p1, m);
            }
            let is_tactical = !pos.board[m.to as usize].is_empty() || m.special == SpecialMove::Promotion || m.special
                == SpecialMove::EnPassant;
            if !is_tactical && !in_check && depth <= 3 && i as i64 >= 6 + depth as i64 * 3 {
                i += 1;
                continue;
            }
            self.prev_move = m;
            play_legal(pos, m, Ghost(p1), Ghost(136 - ply as int));
            let ghost made_pos = *pos;
            let gives_check = pos.in_check();
            let d: usize = if depth < 31 {
                depth as usize
            } else {
                31
            };
            let mi: usize = if i < 255 {
                i
            } else {
                255
            };
            let score: i32;
            if i >= 3 && depth >= 2 && !is_tactical && !gives_check && !in_check {
                self.lmr_tries = self.lmr_tries.wrapping_add(1);
                let mut r = clamp_i32(self.lmr[d * 256 + mi], 1, depth - 1);
                let ci = opponent(pos.side_to_move).index();
                let hscore = self.history[history_idx(ci, m.from as usize, m.to as usize)] as i32;
                if hscore < -500 {
                    r = r + 2;
                } else if hscore < -100 {
                    r = r + 1;
                }
                r = clamp_i32(r, 1, depth - 1);
                let s0 = -self.search(pos, depth - 1 - r, -(a + 1), -a, ply + 1, gives_check, false);
                if s0 > a && !self.stopped {
                    self.lmr_re = self.lmr_re.wrapping_add(1);
                    score = -self.search(pos, depth - 1, -beta, -a, ply + 1, gives_check, is_pv);
                } else {
                    score = s0;
                }
            } else {
                let ext: i32 = if gives_check && depth <= 6 {
                    1
                } else {
                    0
                };
                if i > 0 && !self.stopped {
                    let s1 = -self.search(pos, depth - 1 + ext, -(a + 1), -a, ply + 1, gives_check, false);
                    if s1 > a && s1 < beta && !self.stopped {
                        score = -self.search(pos, depth - 1 + ext, -beta, -a, ply + 1, gives_check, is_pv);
                    } else {
                        score = s1;
                    }
                } else {
                    score = -self.search(pos, depth - 1 + ext, -beta, -a, ply + 1, gives_check, is_pv);
                }
            }
            unplay(pos, Ghost(p1), Ghost(m), Ghost(made_pos));
            if score > best_score {
                best_score = score;
                best_move = m;
            }
            if score > a {
                a = score;
                flag = 0;
            }
            if a >= beta {
                flag = 2;
                self.beta_cuts = self.beta_cuts.wrapping_add(1);
                if i == 0 {
                    self.first_cuts = self.first_cuts.wrapping_add(1);
                }
                if !is_tactical && (ply as usize) < 64 {
                    self.cutoff_update(pos, ml, i, m, depth, ply as usize, saved_prev, Ghost(p1));
                }
                i += 1;
                break;
            }
            i += 1;
        }
        self.prev_move = saved_prev;
        if !self.stopped {
            self.tt_store(key, depth, best_score, flag, &best_move);
        }
        best_score
    }

    /// After a quiet cutoff by the `i`-th move `m`: it becomes the first
    /// killer of its ply, its history grows by the squared depth (to 16000
    /// at most), the quiet moves tried before it lose the depth (to -16000 at
    /// least), and it becomes the counter move of the previous move.
    fn cutoff_update(
        &mut self,
        pos: &Position,
        ml: &ScoredMoves,
        i: usize,
        m: Move,
        depth: i32,
        ply: usize,
        saved_prev: Move,
        Ghost(p): Ghost<Position>,
    )
        requires
            old(self).wf(),
            i < ml@.len(),
            ply < 64,
            1 <= depth <= 64,
            m.from < 64,
            m.to < 64,
            saved_prev.from < 64,
            saved_prev.to < 64,
            listed(ml@, &p),
            same_position(pos, &p),
        ensures
            final(self).wf(),
            final(self).prev_move == old(self).prev_move,
            final(self).stopped == old(self).stopped,
            final(self).killers@ == old(self).killers@.update(ply * 2 + 1, old(self).killers@[ply * 2]).update(ply * 2, m),
            final(self).history@ == penalised(
                old(self).history@.update(
                    pos.side_to_move.spec_index() * 4096 + m.from * 64 + m.to,
                    (if old(self).history@[pos.side_to_move.spec_index() * 4096 + m.from * 64 + m.to] + depth * depth
                        < 16000 {
                        old(self).history@[pos.side_to_move.spec_index() * 4096 + m.from * 64 + m.to] + depth * depth
                    } else {
                        16000
                    }) as i16,
                ),
                ml@,
                pos.board@,
                pos.side_to_move.spec_index(),
                depth as int,
                i as int,
            ),
            final(self).countermove@ == (if saved_prev.from != 0 || saved_prev.to != 0 {
                old(self).countermove@.update(saved_prev.from * 64 + saved_prev.to, m)
            } else {
                old(self).countermove@
            }),
    {
        let first = self.killers[ply * 2];
        self.killers.set(ply * 2 + 1, first);
        self.killers.set(ply * 2, m);
        let ci = pos.side_to_move.index();
        let hi = history_idx(ci, m.from as usize, m.to as usize);
        let h = self.history[hi] as i32;
        assert(depth * depth <= 4096) by (nonlinear_arith)
            requires
                1 <= depth <= 64,
        ;
        let raised = min_i32(h + depth * depth, 16000);
        self.history.set(hi, raised as i16);
        let ghost raised_seq = self.history@;
        let mut j: usize = 0;
        while j < i
            invariant
                self.wf(),
                self.prev_move == old(self).prev_move,
                self.stopped == old(self).stopped,
                j <= i,
                i < ml@.len(),
                ci < 2,
                1 <= depth <= 64,
                listed(ml@, &p),
                same_position(pos, &p),
                ci == pos.side_to_move.spec_index(),
                self.killers@ == old(self).killers@.update(ply * 2 + 1, old(self).killers@[ply * 2]).update(ply * 2, m),
                self.countermove@ == old(self).countermove@,
                self.history@ == penalised(raised_seq, ml@, pos.board@, ci as int, depth as int, j as int),
            decreases i - j,
        {
            let mj = ml.get(j).mv;
            proof {
                assert(legal_moves(&p).contains(ml@[j as int].mv));
                lemma_legal_is_on_board(&p, mj);
            }
            if pos.board[mj.to as usize].is_empty() {
                let k = history_idx(ci, mj.from as usize, mj.to as usize);
                let hh = self.history[k] as i32;
                let lowered = max_i32(hh - depth, -16000);
                self.history.set(k, lowered as i16);
            }
            j += 1;
        }
        if saved_prev.from != 0 || saved_prev.to != 0 {
            self.countermove.set(saved_prev.from as usize * 64 + saved_prev.to as usize, m);
        }
    }

    /// The quiescence search, four plies deep: stand pat, then the captures
    /// and promotions not hopelessly behind, the most valuable gain first.
    fn qsearch(&mut self, pos: &mut Position, alpha: i32, beta: i32, qdepth: i32) -> (score: i32)
        requires
            old(self).wf(),
            0 <= qdepth <= 4,
            headroom(old(pos), 8 - qdepth),
            inside(alpha as int),
            inside(beta as int),
        ensures
            final(self).wf(),
            same_position(final(pos), old(pos)),
            inside(score as int),
            old(self).stopped ==> final(self).stopped,
        decreases 0int, 0int, 4 - qdepth,
    {
        if self.check_time() {
            return 0;
        }
        self.nodes = self.nodes + 1;
        self.qnodes = self.qnodes.wrapping_add(1);
        if qdepth >= 4 {
            return evaluate(pos);
        }
        let stand_pat = evaluate(pos);
        if stand_pat >= beta {
            return stand_pat;
        }
        let mut a = alpha;
        if stand_pat > a {
            a = stand_pat;
        }
        if stand_pat + 1000 < a {
            return a;
        }
        let ghost p1 = *pos;
        let ml = legal_list(pos);
        let mut tactical: Vec<(Move, i32)> = Vec::new();
        let n = ml.len();
        let mut i: usize = 0;
        while i < n
            invariant
                i <= n,
                n == ml@.len(),
                listed(ml@, &p1),
                same_position(pos, &p1),
                tactical@.len() <= i,
                forall|k: int| 0 <= k < tactical@.len() ==> legal_moves(&p1).contains(#[trigger] tactical@[k].0),
                -70000 <= stand_pat <= 70000,
                inside(a as int),
            decreases n - i,
        {
            let m = ml.get(i).mv;
            assert(legal_moves(&p1).contains(ml@[i as int].mv));
            proof {
                lemma_legal_is_on_board(&p1, m);
            }
            let target = pos.board[m.to as usize];
            let tac = !target.is_empty() || m.special == SpecialMove::Promotion || m.special == SpecialMove::EnPassant;
            if tac {
                let mut see = pval(target.piece_type);
                if m.special == SpecialMove::Promotion {
                    see = see + 800;
                }
                if !(stand_pat + see + 200 < a) {
                    tactical.push((m, see));
                }
            }
            i += 1;
        }
        let nt = tactical.len();
        let mut i: usize = 0;
        while i < nt
            invariant
                i <= nt,
                nt == tactical@.len(),
                forall|k: int| 0 <= k < tactical@.len() ==> legal_moves(&p1).contains(#[trigger] tactical@[k].0),
            decreases nt - i,
        {
            let mut j = i + 1;
            while j < nt
                invariant
                    i < nt,
                    i < j <= nt,
                    nt == tactical@.len(),
                    forall|k: int| 0 <= k < tactical@.len() ==> legal_moves(&p1).contains(#[trigger] tactical@[k].0),
                decreases nt - j,
            {
                if tactical[j].1 > tactical[i].1 {
                    let first = tactical[i];
                    let later = tactical[j];
                    assert(legal_moves(&p1).contains(tactical@[i as int].0));
                    assert(legal_moves(&p1).contains(tactical@[j as int].0));
                    tactical.set(i, later);
                    tactical.set(j, first);
                }
                j += 1;
            }
            i += 1;
        }
        let mut i: usize = 0;
        while i < nt
            invariant
                self.wf(),
                i <= nt,
                nt == tactical@.len(),
                forall|k: int| 0 <= k < tactical@.len() ==> legal_moves(&p1).contains(#[trigger] tactical@[k].0),
                same_position(pos, &p1),
                p1 == *old(pos),
                headroom(&p1, 8 - qdepth),
                0 <= qdepth < 4,
                inside(a as int),
                inside(beta as int),
                old(self).stopped ==> self.stopped,
            decreases nt - i,
        {
            let m = tactical[i].0;
            play_legal(pos, m, Ghost(p1), Ghost(8 - qdepth as int));
            let ghost made_pos = *pos;
            let child = self.qsearch(pos, -beta, -a, qdepth + 1);
            let score = -child;
            unplay(pos, Ghost(p1), Ghost(m), Ghost(made_pos));
            if self.stopped {
                return 0;
            }
            if score >= beta {
                return score;
            }
            if score > a {
                a = score;
            }
            i += 1;
        }
        a
    }
}

impl Titan {
    /// The principal variation the table holds from the root: moves found
    /// legal where they stand, up to 32, never revisiting a position.
    fn principal_variation(&self, pos: &Position) -> Vec<Move>
        requires
            self.wf(),
            headroom(pos, 40),
    {
        let mut p = pos.without_history();
        let mut line: Vec<Move> = Vec::new();
        let mut seen: Vec<u64> = Vec::new();
        let mut depth_t: usize = 0;
        while depth_t < 32
            invariant
                self.wf(),
                depth_t <= 32,
                headroom(&p, 40 - depth_t),
            decreases 32 - depth_t,
        {
            let key = p.zobrist;
            if seen_key(&seen, key) {
                break;
            }
            if seen.len() < 32 {
                seen.push(key);
            }
            let e = self.tt[slot(key)];
            if e.key32 != (key >> 32u64) as u32 {
                break;
            }
            let m = tt_to_move(&e);
            if m.from >= 64 || m.to >= 64 || p.board[m.from as usize].is_empty() {
                break;
            }
            let ghost prior = p;
            let mut legal: Vec<Move> = Vec::new();
            generate_legal_moves(&mut p, &mut legal);
            if !holds_move(&legal, m) {
                break;
            }
            line.push(m);
            play_legal(&mut p, m, Ghost(prior), Ghost(40 - depth_t as int));
            depth_t += 1;
        }
        line
    }

    /// The diagnostics: the counters, and the root moves ranked by the score
    /// the table (or else the evaluation) gives them, at most 32, as JSON.
    fn diagnostics(&self, pos: &mut Position, root: &ScoredMoves, Ghost(p): Ghost<Position>) -> (json: String)
        requires
            self.wf(),
            listed(root@, &p),
            same_position(old(pos), &p),
            headroom(&p, 8),
        ensures
            same_position(final(pos), &p),
    {
        let mut ranked: Vec<(Move, i32)> = Vec::new();
        let n = root.len();
        let mut i: usize = 0;
        while i < n
            invariant
                self.wf(),
                i <= n,
                n == root@.len(),
                listed(root@, &p),
                same_position(pos, &p),
                headroom(&p, 8),
                ranked@.len() == i,
                forall|k: int| 0 <= k < ranked@.len() ==> (#[trigger] ranked@[k]).0.from < 64 && ranked@[k].0.to < 64,
            decreases n - i,
        {
            let m = root.get(i).mv;
            assert(legal_moves(&p).contains(root@[i as int].mv));
            proof {
                lemma_legal_is_on_board(&p, m);
            }
            play_legal(pos, m, Ghost(p), Ghost(8));
            let ghost made_pos = *pos;
            let key = pos.zobrist;
            let e = self.tt[slot(key)];
            let sc = if e.key32 == (key >> 32u64) as u32 {
                -(e.score as i32)
            } else {
                -evaluate(pos)
            };
            unplay(pos, Ghost(p), Ghost(m), Ghost(made_pos));
            ranked.push((m, sc));
            i += 1;
        }
        // Highest score first; equal scores keep their order.
        let mut i: usize = 1;
        while i < n
            invariant
                1 <= i || n == 0,
                ranked@.len() == n,
                forall|k: int| 0 <= k < ranked@.len() ==> (#[trigger] ranked@[k]).0.from < 64 && ranked@[k].0.to < 64,
            decreases n - i,
        {
            let mut j = i;
            while j > 0 && ranked[j - 1].1 < ranked[j].1
                invariant
                    j <= i < n,
                    ranked@.len() == n,
                    forall|k: int|
                        0 <= k < ranked@.len() ==> (#[trigger] ranked@[k]).0.from < 64 && ranked@[k].0.to < 64,
                decreases j,
            {
                let lower = ranked[j - 1];
                let upper = ranked[j];
                ranked.set(j - 1, upper);
                ranked.set(j, lower);
                j -= 1;
            }
            i += 1;
        }
        let cap = if n < 32 {
            n
        } else {
            32
        };
        let mut out: Vec<char> = Vec::new();
        push_text(&mut out, "{\"engine\":\"titan_019\",\"qn\":");
        push_u64(&mut out, self.qnodes);
        push_text(&mut out, ",\"tt\":");
        push_u64(&mut out, self.tt_hits);
        push_text(&mut out, ",\"bcut\":");
        push_u64(&mut out, self.beta_cuts);
        push_text(&mut out, ",\"fcut\":");
        push_u64(&mut out, self.first_cuts);
        push_text(&mut out, ",\"nmp\":");
        push_u64(&mut out, self.null_cuts);
        push_text(&mut out, ",\"lmr\":[");
        push_u64(&mut out, self.lmr_tries);
        out.push(',');
        push_u64(&mut out, self.lmr_re);
        push_text(&mut out, "],\"top_moves\":[");
        let mut i: usize = 0;
        while i < cap
            invariant
                cap <= n,
                ranked@.len() == n,
                forall|k: int| 0 <= k < ranked@.len() ==> (#[trigger] ranked@[k]).0.from < 64 && ranked@[k].0.to < 64,
            decreases cap - i,
        {
            if i > 0 {
                out.push(',');
            }
            push_text(&mut out, "[\"");
            let entry = ranked[i];
            push_uci(&mut out, entry.0);
            push_text(&mut out, "\",");
            push_i32(&mut out, entry.1);
            out.push(']');
            i += 1;
        }
        push_text(&mut out, "]}");
        string_from_chars(&out)
    }

    /// Choose a move: iterative deepening to depth 30, each depth searched
    /// from the root inside a ±40 window from depth 4 that widens by 200 on
    /// the failing side until the score falls inside; the table's root move
    /// becomes the choice when it is a root move, and a lost position falls
    /// back to the best static reply. The move is a legal move, or the null
    /// move when there is none; the position comes back as it was.
    #[verifier::rlimit(60)]
    pub fn choose_move(&mut self, pos: &mut Position, budget: &SearchBudget) -> (r: (Move, SearchStats))
        requires
            old(self).wf(),
            headroom(old(pos), 136),
            budget.max_time_us <= MAX_TIME_US,
        ensures
            final(self).wf(),
            same_position(final(pos), old(pos)),
            legal_moves(old(pos)).len() == 0 ==> r.0 == Move::null() && r.1.nodes == 0 && r.1.depth_reached == 0
                && r.1.eval_cp == 0 && r.1.pv@.len() == 0,
            legal_moves(old(pos)).len() > 0 ==> legal_moves(old(pos)).contains(r.0),
    {
        let ghost p0 = *pos;
        self.t0 = now();
        self.budget_max_time_us = budget.max_time_us;
        self.nodes = 0;
        self.qnodes = 0;
        self.max_ply = 0;
        self.stopped = false;
        self.beta_cuts = 0;
        self.first_cuts = 0;
        self.tt_hits = 0;
        self.null_cuts = 0;
        self.lmr_tries = 0;
        self.lmr_re = 0;
        self.prev_move = Move::default();
        let root = legal_list(pos);
        proof {
            lemma_legal_moves_congruent(pos, &p0);
        }
        let mut stats = SearchStats::default();
        if root.len() == 0 {
            return (Move::default(), stats);
        }
        if root.len() == 1 {
            stats.nodes = 1;
            stats.depth_reached = 0;
            let only = root.get(0).mv;
            assert(legal_moves(&p0).contains(root@[0].mv));
            return (only, stats);
        }
        let mut best = root.get(0).mv;
        let mut best_score: i32 = -100000;
        let mut depth: i32 = 1;
        while depth <= 30
            invariant
                self.wf(),
                1 <= depth <= 31,
                same_position(pos, &p0),
                p0 == *old(pos),
                headroom(&p0, 136),
                root@.len() >= 2,
                listed(root@, &p0),
                fits(best_score as int),
            decreases 31 - depth,
        {
            if self.stopped {
                break;
            }
            let full = depth <= 3 || best_score > 5000 || best_score < -5000;
            let mut alpha: i32 = if full {
                -100000
            } else {
                best_score - 40
            };
            let mut beta: i32 = if full {
                100000
            } else {
                best_score + 40
            };
            let mut score: i32 = 0;
            loop
                invariant
                    self.wf(),
                    1 <= depth <= 30,
                    same_position(pos, &p0),
                    headroom(&p0, 136),
                    -SCORE_BOUND <= alpha < beta <= SCORE_BOUND,
                ensures
                    self.wf(),
                    same_position(pos, &p0),
                    fits(score as int),
                decreases alpha + 100000 + (100000 - beta),
            {
                let s = self.search(pos, depth, alpha, beta, 0, false, true);
                if self.stopped {
                    score = s;
                    break;
                }
                if s <= alpha {
                    alpha = max_i32(alpha - 200, -100000);
                } else if s >= beta {
                    beta = min_i32(beta + 200, 100000);
                } else {
                    score = s;
                    break;
                }
            }
            if !self.stopped {
                best_score = score;
                let key = pos.zobrist;
                let e = self.tt[slot(key)];
                if e.key32 == (key >> 32u64) as u32 {
                    let ttm = tt_to_move(&e);
                    let n = root.len();
                    let mut i: usize = 0;
                    while i < n
                        invariant
                            i <= n,
                            n == root@.len(),
                        decreases n - i,
                    {
                        if root.get(i).mv == ttm {
                            best = ttm;
                            break;
                        }
                        i += 1;
                    }
                }
            }
            stats.depth_reached = depth as u32;
            stats.eval_cp = best_score;
            depth += 1;
        }
        if best_score <= -90000 {
            let mut bs: i32 = -100000;
            let n = root.len();
            let mut i: usize = 0;
            while i < n
                invariant
                    i <= n,
                    n == root@.len(),
                    same_position(pos, &p0),
                    headroom(&p0, 136),
                    listed(root@, &p0),
                    -100000 <= bs <= 100000,
                decreases n - i,
            {
                let m = root.get(i).mv;
                assert(legal_moves(&p0).contains(root@[i as int].mv));
                play_legal(pos, m, Ghost(p0), Ghost(136));
                let ghost made_pos = *pos;
                let sc = -evaluate(pos);
                unplay(pos, Ghost(p0), Ghost(m), Ghost(made_pos));
                if sc > bs {
                    bs = sc;
                    best = m;
                }
                i += 1;
            }
        }
        let mut valid = false;
        let n = root.len();
        let mut i: usize = 0;
        while i < n
            invariant
                i <= n,
                n == root@.len(),
                listed(root@, &p0),
                valid ==> legal_moves(&p0).contains(best),
            decreases n - i,
        {
            if root.get(i).mv == best {
                assert(legal_moves(&p0).contains(root@[i as int].mv));
                valid = true;
                break;
            }
            i += 1;
        }
        if !valid {
            best = root.get(0).mv;
            assert(legal_moves(&p0).contains(root@[0].mv));
        }
        stats.nodes = self.nodes;
        stats.seldepth = self.max_ply;
        stats.time_used_us = self.elapsed_us();
        stats.pv = self.principal_variation(pos);
        stats.diag_json = self.diagnostics(pos, &root, Ghost(p0));
        (best, stats)
    }
}

} // verus!

//! Abyss: one-lookup material and placement, a table of packed 64-bit
//! entries, lazily picked moves, and a principal-variation search with
//! reverse futility and null-move pruning, internal iterative reduction,
//! late-move pruning and reductions and check extensions, over a quiescence
//! search that stops ten plies from the root.
use vstd::prelude::*;
use std::time::Instant;
use crate::candidates::support::{holds_move, legal_list, lemma_legal_is_on_board, listed, pick_listed};
use crate::candidates::void::eval::{eval_piece, evaluate, value_entry};
use crate::candidates::void::search::{pst_square, unpack_move};
use crate::engine::shared::{elapsed, now, whole_micros};
use crate::engine::walk::{headroom, play_legal, same_position, unplay};
use crate::engines::support::{ScoredMove, ScoredMoves};
use crate::rules::movegen::{generate_legal_moves, legal_moves, lemma_legal_moves_congruent};
use crate::rules::position::Position;
use crate::rules::types::{Color, Move, PieceType, SearchBudget, SearchStats, SpecialMove, file_of, opponent, pval, spec_pval};
use crate::rules::zobrist::{ep_key, side_key};

verus! {

/// Table entries.
pub const ABYSS_TT_SIZE: usize = 8388608;

/// Late-move reductions: 32 depths by 256 move numbers.
pub const ABYSS_LMR_SIZE: usize = 8192;

/// The key bits an entry keeps: the top sixteen.
pub const KEY_BITS: u64 = 0xFFFF_0000_0000_0000;

/// The key bits of an entry.
pub open spec fn entry_key(e: u64) -> u64 {
    e & KEY_BITS
}

/// The packed move of an entry: 23 bits from bit 25.
pub open spec fn entry_move(e: u64) -> u64 {
    (e >> 25u64) & 0x7FFFFF
}

/// The depth of an entry: 7 bits from bit 2.
pub open spec fn entry_depth(e: u64) -> u64 {
    (e >> 2u64) & 0x7F
}

/// The bound of an entry: 0 exact, 1 upper, 2 lower.
pub open spec fn entry_flag(e: u64) -> u64 {
    e & 3
}

/// Pack an entry: the key's top sixteen bits, the move's low 23 bits, the
/// score's low sixteen bits, the depth's low seven bits and the bound's low
/// two, each read back unchanged.
pub fn pack_entry(key: u64, mv: u32, sc: i32, d: i32, f: u32) -> (e: u64)
    requires
        0 <= d,
    ensures
        entry_key(e) == key & KEY_BITS,
        entry_move(e) == (mv as u64) & 0x7FFFFF,
        entry_depth(e) == (d as u64) & 0x7F,
        entry_flag(e) == (f as u64) & 3,
{
    let low = (#[verifier::truncate] (sc as u16)) as u64;
    let m = mv as u64;
    let dd = d as u64;
    let ff = f as u64;
    let e = (key & KEY_BITS) | ((m & 0x7FFFFF) << 25u64) | (low << 9u64) | ((dd & 0x7F) << 2u64) | (ff & 3);
    assert(low < 65536 ==> {
        let e = (key & 0xFFFF_0000_0000_0000u64) | ((m & 0x7FFFFF) << 25u64) | (low << 9u64) | ((dd & 0x7F) << 2u64) | (ff
            & 3);
        &&& e & 0xFFFF_0000_0000_0000u64 == key & 0xFFFF_0000_0000_0000u64
        &&& (e >> 25u64) & 0x7FFFFF == m & 0x7FFFFF
        &&& (e >> 2u64) & 0x7F == dd & 0x7F
        &&& e & 3 == ff & 3
    }) by (bit_vector);
    e
}

/// The key bits of an entry.
fn ttk(e: u64) -> (k: u64)
    ensures
        k == entry_key(e),
{
    e & KEY_BITS
}

/// The packed move of an entry.
fn ttm(e: u64) -> (m: u32)
    ensures
        m == entry_move(e),
{
    assert(((e >> 25u64) & 0x7FFFFF) <= 0x7FFFFF) by (bit_vector);
    ((e >> 25u64) & 0x7FFFFF) as u32
}

/// The score of an entry: sixteen bits from bit 9, read as signed.
fn tts(e: u64) -> (s: i32)
    ensures
        -32768 <= s <= 32767,
        s == (((e >> 9u64) & 0xFFFF) as i16) as i32,
{
    let bits = (e >> 9u64) & 0xFFFF;
    (#[verifier::truncate] (bits as i16)) as i32
}

/// The depth of an entry.
fn ttd(e: u64) -> (d: i32)
    ensures
        d == entry_depth(e),
        0 <= d < 128,
{
    assert(((e >> 2u64) & 0x7F) < 128) by (bit_vector);
    ((e >> 2u64) & 0x7F) as i32
}

/// The bound of an entry.
fn ttf(e: u64) -> (f: u32)
    ensures
        f == entry_flag(e),
{
    assert((e & 3) < 4) by (bit_vector);
    (e & 3) as u32
}

/// The ordering score of `m` on `pos`: the table move first, then captures
/// by victim and attacker, pushes of a friendly piece by its value,
/// promotions, and the mover's placement gain.
pub open spec fn abyss_order(pos: &Position, m: Move, tmv: u32) -> int {
    if m.spec_id() == tmv && tmv != 0 {
        100_000_000
    } else {
        let target = pos.board@[m.to as int];
        let mover = pos.board@[m.from as int];
        if target.piece_type != PieceType::Empty {
            if target.color != pos.side_to_move {
                2_000_000 + spec_pval(target.piece_type) * 10 - spec_pval(mover.piece_type)
            } else {
                1_000_000 + spec_pval(target.piece_type) * 10
            }
        } else if m.special == SpecialMove::Promotion {
            1_500_000 + spec_pval(m.promo_piece)
        } else {
            value_entry(mover.piece_type, pst_square(mover.color, m.to)) - value_entry(
                mover.piece_type,
                pst_square(mover.color, m.from),
            )
        }
    }
}

/// The table slot of a key: its low 23 bits.
fn abyss_slot(key: u64) -> (i: usize)
    ensures
        i < ABYSS_TT_SIZE,
        i == key % 8388608,
{
    assert((key & 0x7FFFFF) < 8388608 && (key & 0x7FFFFF) == key % 8388608) by (bit_vector);
    (key & 0x7FFFFF) as usize
}

/// The Abyss engine: its table, the late-move reductions it was built with,
/// and the counters of the search under way.
pub struct AbyssEngine {
    tt: Vec<u64>,
    lmr: Vec<i32>,
    nodes: u64,
    sd: u32,
    stopped: bool,
    budget: i64,
    t0: Instant,
}

/// The widest window a search at `ply` plies from the root is given.
pub open spec fn window(ply: int) -> int {
    100002 + ply
}

/// No search result reaches further out.
pub const RESULT_BOUND: i32 = 100130;

impl AbyssEngine {
    /// The engine's invariant: a table of its size and reductions between 0
    /// and 64.
    pub closed spec fn wf(&self) -> bool {
        &&& self.tt@.len() == ABYSS_TT_SIZE
        &&& self.lmr@.len() == ABYSS_LMR_SIZE
        &&& forall|k: int| 0 <= k < ABYSS_LMR_SIZE ==> 0 <= #[trigger] self.lmr@[k] <= 64
    }

    /// A fresh engine with the late-move reductions: 32 rows of depth by 256
    /// move numbers, each between 0 and 64.
    pub fn new(lmr: Vec<i32>) -> (e: AbyssEngine)
        requires
            lmr@.len() == ABYSS_LMR_SIZE,
            forall|k: int| 0 <= k < ABYSS_LMR_SIZE ==> 0 <= #[trigger] lmr@[k] <= 64,
        ensures
            e.wf(),
    {
        let mut tt: Vec<u64> = Vec::new();
        let mut k: usize = 0;
        while k < ABYSS_TT_SIZE
            invariant
                k <= ABYSS_TT_SIZE,
                tt@.len() == k,
            decreases ABYSS_TT_SIZE - k,
        {
            tt.push(0);
            k += 1;
        }
        AbyssEngine { tt, lmr, nodes: 0, sd: 0, stopped: false, budget: 0, t0: now() }
    }

    /// The engine's name.
    pub fn name(&self) -> (s: &'static str)
        ensures
            s@ == "abyss"@,
    {
        "abyss"
    }

    /// Forget the previous game: an empty table.
    /// A fresh game's state: every table entry zero.
    pub closed spec fn fresh(&self, c: Color) -> bool {
        &&& forall|j: int| 0 <= j < self.tt@.len() ==> #[trigger] self.tt@[j] == 0
    }

    pub fn new_game(&mut self, my_color: Color, game_seed: u64)
        requires
            old(self).wf(),
        ensures
            final(self).wf(),
            final(self).fresh(my_color),
    {
        let mut k: usize = 0;
        while k < ABYSS_TT_SIZE
            invariant
                self.wf(),
                k <= ABYSS_TT_SIZE,
                forall|j: int| 0 <= j < k ==> #[trigger] self.tt@[j] == 0,
            decreases ABYSS_TT_SIZE - k,
        {
            self.tt.set(k, 0);
            k += 1;
        }
    }

    /// Whether the search stops: once stopped, when seven eighths of the time
    /// budget are used at a check every 4096 nodes, or when no more nodes can
    /// be counted.
    fn ck(&mut self) -> (stop: bool)
        requires
            old(self).wf(),
        ensures
            final(self).wf(),
            !stop ==> final(self).nodes < u64::MAX,
            stop == final(self).stopped,
            *final(self) == (AbyssEngine { stopped: final(self).stopped, ..*old(self) }),
            old(self).stopped ==> final(self).stopped,
    {
        if self.stopped {
            return true;
        }
        if self.nodes == u64::MAX {
            self.stopped = true;
            return true;
        }
        if self.budget > 0 && (self.nodes & 4095) == 0 {
            let spent = (#[verifier::truncate] (whole_micros(&elapsed(&self.t0)) as i64));
            if spent >= self.budget - self.budget / 8 {
                self.stopped = true;
            }
        }
        self.stopped
    }

    /// The ordering score of a move on the board: the table move first, then
    /// captures by victim and attacker, pushes of a friendly piece by its
    /// value, promotions, and quiet moves by their placement gain.
    fn move_score(pos: &Position, m: Move, tmv: u32) -> (s: i32)
        requires
            m.from < 64,
            m.to < 64,
        ensures
            s == abyss_order(pos, m, tmv),
    {
        if m.id() == tmv && tmv != 0 {
            return 100_000_000;
        }
        let target = pos.board[m.to as usize];
        let mover = pos.board[m.from as usize];
        if target.piece_type != PieceType::Empty {
            if target.color != pos.side_to_move {
                2_000_000 + pval(target.piece_type) * 10 - pval(mover.piece_type)
            } else {
                1_000_000 + pval(target.piece_type) * 10
            }
        } else if m.special == SpecialMove::Promotion {
            1_500_000 + pval(m.promo_piece)
        } else {
            eval_piece(mover.piece_type, mover.color, m.to) - eval_piece(mover.piece_type, mover.color, m.from)
        }
    }

    /// Score the moves for ordering; `tmv` is the table's packed move.
    fn score(pos: &Position, ml: &mut ScoredMoves, tmv: u32, Ghost(p): Ghost<Position>)
        requires
            listed(old(ml)@, &p),
            same_position(pos, &p),
        ensures
            final(ml)@.len() == old(ml)@.len(),
            listed(final(ml)@, &p),
            final(ml)@ == old(ml)@.map_values(
                |sm: ScoredMove| ScoredMove { mv: sm.mv, score: abyss_order(pos, sm.mv, tmv) as i32 },
            ),
    {
        let n = ml.len();
        let mut i: usize = 0;
        while i < n
            invariant
                i <= n,
                ml@.len() == n,
                listed(ml@, &p),
                same_position(pos, &p),
                n == old(ml)@.len(),
                forall|k: int| i <= k < n ==> #[trigger] ml@[k] == old(ml)@[k],
                forall|k: int|
                    0 <= k < i ==> #[trigger] ml@[k] == (ScoredMove {
                        mv: old(ml)@[k].mv,
                        score: abyss_order(pos, old(ml)@[k].mv, tmv) as i32,
                    }),
            decreases n - i,
        {
            let m = ml.get(i).mv;
            proof {
                assert(legal_moves(&p).contains(ml@[i as int].mv));
                lemma_legal_is_on_board(&p, m);
            }
            let s = Self::move_score(pos, m, tmv);
            ml.set(i, ScoredMove { mv: m, score: s });
            i += 1;
        }
        assert(ml@ =~= old(ml)@.map_values(
            |sm: ScoredMove| ScoredMove { mv: sm.mv, score: abyss_order(pos, sm.mv, tmv) as i32 },
        ));
    }
}

/// The smaller of two integers.
pub open spec fn low(a: int, b: int) -> int {
    if a < b {
        a
    } else {
        b
    }
}

impl AbyssEngine {
    /// The quiescence search, which stops ten plies from the root (`qd`
    /// counts from the root): stand pat, then captures of enemy pieces,
    /// promotions and en-passant captures, best first. It never answers below
    /// both alpha and -100000.
    fn qs(&mut self, pos: &mut Position, a: i32, b: i32, qd: u32) -> (r: i32)
        requires
            old(self).wf(),
            qd <= 127,
            -RESULT_BOUND <= a <= b <= RESULT_BOUND,
            headroom(old(pos), 1),
            qd < 10 ==> headroom(old(pos), 11 - qd),
        ensures
            final(self).wf(),
            same_position(final(pos), old(pos)),
            -RESULT_BOUND <= r <= RESULT_BOUND,
            r >= low(a as int, -100000),
            old(self).stopped ==> final(self).stopped,
        decreases 0int, (if qd >= 10 {
            0int
        } else {
            10 - qd
        }),
    {
        if self.ck() {
            return 0;
        }
        self.nodes = self.nodes + 1;
        if qd > self.sd {
            self.sd = qd;
        }
        if qd >= 10 {
            return evaluate(pos);
        }
        let sp = evaluate(pos);
        if sp >= b {
            return sp;
        }
        let mut alpha = a;
        if sp > alpha {
            alpha = sp;
        }
        let ghost p1 = *pos;
        let all = legal_list(pos);
        let stm = pos.side_to_move;
        let mut ml = ScoredMoves::new();
        let na = all.len();
        let mut j: usize = 0;
        while j < na
            invariant
                j <= na,
                na == all@.len(),
                listed(all@, &p1),
                listed(ml@, &p1),
                ml@.len() <= j,
                same_position(pos, &p1),
            decreases na - j,
        {
            let mv = all.get(j).mv;
            proof {
                assert(legal_moves(&p1).contains(all@[j as int].mv));
                lemma_legal_is_on_board(&p1, mv);
            }
            let tp = pos.board[mv.to as usize];
            if (tp.piece_type != PieceType::Empty && tp.color != stm) || mv.special == SpecialMove::Promotion
                || mv.special == SpecialMove::EnPassant {
                ml.push(mv);
                assert(ml@.last().mv == mv);
            }
            j += 1;
        }
        Self::score(pos, &mut ml, 0, Ghost(p1));
        let n = ml.len();
        let mut i: usize = 0;
        while i < n
            invariant
                self.wf(),
                i <= n,
                n == ml@.len(),
                listed(ml@, &p1),
                same_position(pos, &p1),
                p1 == *old(pos),
                qd < 10,
                headroom(&p1, 11 - qd),
                a <= alpha <= b,
                -RESULT_BOUND <= a,
                b <= RESULT_BOUND,
                old(self).stopped ==> self.stopped,
            decreases n - i,
        {
            let m = pick_listed(&mut ml, i, Ghost(p1));
            play_legal(pos, m, Ghost(p1), Ghost(11 - qd as int));
            let ghost made_pos = *pos;
            let child = self.qs(pos, -b, -alpha, qd + 1);
            let s = -child;
            unplay(pos, Ghost(p1), Ghost(m), Ghost(made_pos));
            if s >= b {
                return s;
            }
            if s > alpha {
                alpha = s;
            }
            i += 1;
        }
        alpha
    }

    /// The principal-variation search of `depth` plies at `ply`: the time and
    /// node limits, the table (no cutoff at principal-variation nodes), a
    /// check extension near the leaves, internal iterative reduction without
    /// a table move, reverse futility and null-move pruning away from
    /// principal-variation nodes, then the moves picked best first: late
    /// quiet moves pruned near the leaves, late quiet moves reduced and
    /// searched again when they beat alpha, checks extended near the leaves.
    /// It never answers below both alpha and -100000.
    #[verifier::rlimit(80)]
    fn ab(&mut self, pos: &mut Position, depth: i32, a: i32, b: i32, ply: i32, ic: bool, pv: bool) -> (r: i32)
        requires
            old(self).wf(),
            0 <= ply <= 127,
            -200 <= depth <= 64,
            headroom(old(pos), 140 - ply),
            -window(ply as int) <= a <= b <= window(ply as int),
        ensures
            final(self).wf(),
            same_position(final(pos), old(pos)),
            -RESULT_BOUND <= r <= RESULT_BOUND,
            r >= low(a as int, -100000),
            old(self).stopped ==> final(self).stopped,
        decreases 128 - ply, 1int,
    {
        if self.ck() {
            return 0;
        }
        self.nodes = self.nodes + 1;
        if ply as u32 > self.sd {
            self.sd = ply as u32;
        }
        if ply >= 127 {
            return evaluate(pos);
        }
        if depth <= 0 {
            return self.qs(pos, a, b, ply as u32);
        }
        let d: i32 = if ic && depth <= 4 {
            depth + 1
        } else {
            depth
        };
        let key = pos.zobrist;
        let idx = abyss_slot(key);
        let e = self.tt[idx];
        let mut tmv: u32 = 0;
        if ttk(e) == key & KEY_BITS {
            tmv = ttm(e);
            if ttd(e) >= d && !pv {
                let s = tts(e);
                let ts = if s > 90000 {
                    s - ply
                } else if s < -90000 {
                    s + ply
                } else {
                    s
                };
                let f = ttf(e);
                if f == 0 {
                    return ts;
                }
                if f == 1 && ts <= a {
                    return a;
                }
                if f == 2 && ts >= b {
                    return b;
                }
            }
        }
        let ev = evaluate(pos);
        let sd: i32 = if tmv == 0 && d >= 4 {
            d - 1
        } else {
            d
        };
        if !ic && !pv && ply > 0 && d <= 6 && ev - d * 100 >= b {
            return ev;
        }
        if !pv && !ic && ply > 0 && d >= 3 && ev >= b {
            let r = 2 + d / 4;
            let se = pos.ep_square;
            let ss = pos.side_to_move;
            let sz = pos.zobrist;
            pos.side_to_move = opponent(ss);
            pos.zobrist = pos.zobrist ^ side_key();
            if se < 64 {
                pos.zobrist = pos.zobrist ^ ep_key(file_of(se));
                pos.ep_square = 64;
            }
            let child = self.ab(pos, d - r - 1, -b, -b + 1, ply + 1, false, false);
            let ns = -child;
            pos.side_to_move = ss;
            pos.ep_square = se;
            pos.zobrist = sz;
            if ns >= b && !self.stopped {
                return b;
            }
        }
        let ghost p1 = *pos;
        let mut ml = legal_list(pos);
        proof {
            lemma_legal_moves_congruent(pos, &p1);
        }
        if ml.len() == 0 {
            return if ic {
                -99000 + ply
            } else {
                0
            };
        }
        Self::score(pos, &mut ml, tmv, Ghost(*pos));
        self.ab_moves(pos, d, sd, a, b, ply, ic, pv, &mut ml, key, idx)
    }

    /// The moves of a node, picked best first; the result goes to the table
    /// unless the search was stopped.
    #[verifier::rlimit(80)]
    fn ab_moves(
        &mut self,
        pos: &mut Position,
        d: i32,
        sd: i32,
        a: i32,
        b: i32,
        ply: i32,
        ic: bool,
        pv: bool,
        ml: &mut ScoredMoves,
        key: u64,
        idx: usize,
    ) -> (r: i32)
        requires
            old(self).wf(),
            0 <= ply < 127,
            1 <= d <= 64,
            d - 1 <= sd <= d,
            headroom(old(pos), 140 - ply),
            -window(ply as int) <= a <= b <= window(ply as int),
            old(ml)@.len() > 0,
            listed(old(ml)@, old(pos)),
            idx < ABYSS_TT_SIZE,
        ensures
            final(self).wf(),
            same_position(final(pos), old(pos)),
            -RESULT_BOUND <= r <= RESULT_BOUND,
            r >= -100000,
            old(self).stopped ==> final(self).stopped,
        decreases 128 - ply, 0int,
    {
        let ghost p1 = *pos;
        let n = ml.len();
        let mut bm = ml.get(0).mv;
        let mut bs: i32 = -100000;
        let oa = a;
        let mut alpha = a;
        let mut i: usize = 0;
        while i < n
            invariant_except_break
                alpha < b || i == 0,
                i == 0 ==> alpha == a,
            invariant
                self.wf(),
                same_position(pos, &p1),
                p1 == *old(pos),
                headroom(&p1, 140 - ply),
                0 <= ply < 127,
                1 <= d <= 64,
                d - 1 <= sd <= d,
                a <= alpha,
                -window(ply as int) <= a,
                b <= window(ply as int),
                a <= b,
                alpha <= RESULT_BOUND,
                n == ml@.len(),
                listed(ml@, &p1),
                -100000 <= bs <= RESULT_BOUND,
                old(self).stopped ==> self.stopped,
                i <= n,
            decreases n - i,
        {
            let m = pick_listed(ml, i, Ghost(p1));
            proof {
                lemma_legal_is_on_board(&p1, m);
            }
            let tp = pos.board[m.to as usize];
            let tac = tp.piece_type != PieceType::Empty || m.special == SpecialMove::EnPassant || m.special
                == SpecialMove::Promotion;
            if !tac && !ic && d <= 2 && i as i64 >= 8 + d as i64 * 4 {
                i += 1;
                continue;
            }
            play_legal(pos, m, Ghost(p1), Ghost(140 - ply as int));
            let ghost made_pos = *pos;
            let gc = pos.in_check();
            let sc: i32;
            if i >= 3 && sd >= 2 && !tac && !gc && !ic {
                let dr: usize = if sd < 31 {
                    sd as usize
                } else {
                    31
                };
                let mi: usize = if i < 255 {
                    i
                } else {
                    255
                };
                let r = self.lmr[dr * 256 + mi];
                let s0 = -self.ab(pos, sd - 1 - r, -(alpha + 1), -alpha, ply + 1, gc, false);
                if s0 > alpha && r > 0 {
                    sc = -self.ab(pos, sd - 1, -b, -alpha, ply + 1, gc, pv);
                } else {
                    sc = s0;
                }
            } else {
                let ext: i32 = if gc && sd <= 4 {
                    1
                } else {
                    0
                };
                if i == 0 {
                    sc = -self.ab(pos, sd - 1 + ext, -b, -alpha, ply + 1, gc, pv);
                } else {
                    let s1 = -self.ab(pos, sd - 1 + ext, -(alpha + 1), -alpha, ply + 1, gc, false);
                    if s1 > alpha && s1 < b && !self.stopped {
                        sc = -self.ab(pos, sd - 1 + ext, -b, -alpha, ply + 1, gc, pv);
                    } else {
                        sc = s1;
                    }
                }
            }
            unplay(pos, Ghost(p1), Ghost(m), Ghost(made_pos));
            if self.stopped {
                break;
            }
            if sc > bs {
                bs = sc;
                bm = m;
            }
            if sc > alpha {
                alpha = sc;
            }
            if alpha >= b {
                break;
            }
            i += 1;
        }
        if !self.stopped {
            let f: u32 = if bs <= oa {
                1
            } else if bs >= b {
                2
            } else {
                0
            };
            let ts = if bs > 90000 {
                bs + ply
            } else if bs < -90000 {
                bs - ply
            } else {
                bs
            };
            self.tt.set(idx, pack_entry(key, bm.id(), ts, d, f));
        }
        bs
    }
}

impl AbyssEngine {
    /// The principal variation the table holds from the root: moves found
    /// legal where they stand, up to 32.
    fn principal_variation(&self, pos: &Position) -> Vec<Move>
        requires
            self.wf(),
            headroom(pos, 40),
    {
        let mut cp = pos.without_history();
        let mut line: Vec<Move> = Vec::new();
        let mut k: usize = 0;
        while k < 32
            invariant
                self.wf(),
                k <= 32,
                headroom(&cp, 40 - k),
            decreases 32 - k,
        {
            let e = self.tt[abyss_slot(cp.zobrist)];
            if ttk(e) != cp.zobrist & KEY_BITS {
                break;
            }
            let m = unpack_move(ttm(e));
            if m.from == 0 && m.to == 0 {
                break;
            }
            let ghost prior = cp;
            let mut legal: Vec<Move> = Vec::new();
            generate_legal_moves(&mut cp, &mut legal);
            if !holds_move(&legal, m) {
                break;
            }
            line.push(m);
            play_legal(&mut cp, m, Ghost(prior), Ghost(40 - k as int));
            k += 1;
        }
        line
    }

    /// Choose a move: iterative deepening to depth 64 over the root moves,
    /// re-scored each iteration with the best move first, the first searched
    /// with the full window and the others with a null window, searched again
    /// when they beat the best so far. The move is a legal move, or the null
    /// move when there is none; the position comes back as it was.
    #[verifier::rlimit(60)]
    pub fn choose_move(&mut self, pos: &mut Position, budget: &SearchBudget) -> (r: (Move, SearchStats))
        requires
            old(self).wf(),
            headroom(old(pos), 140),
        ensures
            final(self).wf(),
            same_position(final(pos), old(pos)),
            legal_moves(old(pos)).len() == 0 ==> r.0 == Move::null() && r.1.nodes == 0 && r.1.depth_reached == 0
                && r.1.eval_cp == 0 && r.1.pv@.len() == 0,
            legal_moves(old(pos)).len() > 0 ==> legal_moves(old(pos)).contains(r.0),
    {
        let ghost p0 = *pos;
        self.t0 = now();
        self.budget = budget.max_time_us;
        self.nodes = 0;
        self.sd = 0;
        self.stopped = false;
        let mut root = legal_list(pos);
        proof {
            lemma_legal_moves_congruent(pos, &p0);
        }
        let mut stats = SearchStats::default();
        if root.len() == 0 {
            return (Move::default(), stats);
        }
        if root.len() == 1 {
            stats.nodes = 1;
            let only = root.get(0).mv;
            assert(legal_moves(&p0).contains(root@[0].mv));
            return (only, stats);
        }
        let mut bm = root.get(0).mv;
        let mut bs: i32 = 0;
        let mut depth: i32 = 1;
        while depth <= 64
            invariant
                self.wf(),
                1 <= depth <= 65,
                same_position(pos, &p0),
                p0 == *old(pos),
                headroom(&p0, 140),
                root@.len() >= 2,
                listed(root@, &p0),
            decreases 65 - depth,
        {
            if self.stopped {
                break;
            }
            Self::score(pos, &mut root, bm.id(), Ghost(p0));
            let n = root.len();
            let mut cb = root.get(0).mv;
            let mut cs: i32 = -100000;
            let mut i: usize = 0;
            while i < n
                invariant
                    self.wf(),
                    i <= n,
                    n == root@.len(),
                    same_position(pos, &p0),
                    headroom(&p0, 140),
                    listed(root@, &p0),
                    1 <= depth <= 64,
                    -100000 <= cs <= RESULT_BOUND,
                    !self.stopped ==> cs <= 100000,
                decreases n - i,
            {
                if self.stopped {
                    break;
                }
                let m = pick_listed(&mut root, i, Ghost(p0));
                play_legal(pos, m, Ghost(p0), Ghost(140));
                let ghost made_pos = *pos;
                let gc = pos.in_check();
                let sc: i32;
                if i == 0 {
                    sc = -self.ab(pos, depth - 1, -100000, 100000, 1, gc, true);
                } else {
                    let s = -self.ab(pos, depth - 1, -(cs + 1), -cs, 1, gc, false);
                    if s > cs && !self.stopped {
                        sc = -self.ab(pos, depth - 1, -100000, -cs, 1, gc, true);
                    } else {
                        sc = s;
                    }
                }
                unplay(pos, Ghost(p0), Ghost(m), Ghost(made_pos));
                if sc > cs {
                    cs = sc;
                    cb = m;
                }
                i += 1;
            }
            if !self.stopped {
                bm = cb;
                bs = cs;
                stats.depth_reached = depth as u32;
                stats.eval_cp = bs;
            }
            depth += 1;
        }
        let ghost before_fresh = *pos;
        let mut fresh: Vec<Move> = Vec::new();
        generate_legal_moves(pos, &mut fresh);
        proof {
            lemma_legal_moves_congruent(&before_fresh, &p0);
        }
        if !holds_move(&fresh, bm) {
            bm = if fresh.len() > 0 {
                fresh[0]
            } else {
                Move::default()
            };
            proof {
                if fresh@.len() > 0 {
                    assert(fresh@.contains(fresh@[0]));
                }
            }
        }
        stats.nodes = self.nodes;
        stats.seldepth = self.sd;
        stats.time_used_us = (#[verifier::truncate] (whole_micros(&elapsed(&self.t0)) as i64));
        stats.pv = self.principal_variation(pos);
        (bm, stats)
    }
}

} // verus!

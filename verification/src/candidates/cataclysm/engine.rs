//! The candidate Cataclysm's search: a transaction board, a table of
//! four-entry buckets with aged replacement, mate scores kept relative to
//! the stored position, history, killers and counter moves, a forcing-check
//! proof search first, then iterative deepening with aspiration windows over
//! a principal-variation search with static and null-move pruning, late-move
//! pruning and reductions, and a quiescence search that also searches checks
//! near its root.
use vstd::prelude::*;
use std::time::Instant;
use crate::candidates::support::{decimal, legal_list, push_text, push_u64};
use crate::candidates::titan::slot;
use crate::engine::shared::{elapsed, is_pick, now, pick_best, whole_micros};
use crate::engine::walk::{headroom, same_position};
use crate::engines::astra::eval::{quot, toward_zero};
use crate::engines::cataclysm::{MATE, WIN, encoded};
use crate::engines::support::ScoredMoves;
use crate::rules::fen::string_from_chars;
use crate::rules::movegen::{legal_moves, lemma_legal_moves_congruent};
use crate::rules::position::{Position, attacked};
use crate::rules::push::plan_on_board;
use crate::rules::types::{Color, Move, PieceType, SearchBudget, SearchStats, SpecialMove, file_of, opponent, rank_of, spec_opponent};
use crate::rules::zobrist::{ep_key, side_key};
use super::board::{Action, Board, all_fit, pack, value_of};
use super::eval::{evaluate, piece_score};
use super::features::lemma_square_score_bound;
use super::network::Network;
use super::{decode, encode};

verus! {

/// Beyond every score.
pub const INF: i32 = 31_000;

/// The deepest ply a search reaches.
pub const MAX: usize = 128;

/// Table buckets, of four entries each.
pub const BUCKETS: usize = 524288;

pub const EXACT: u8 = 1;

pub const LOWER: u8 = 2;

pub const UPPER: u8 = 3;

/// History slots: mover, path kind, from square, to square.
pub const HISTORY_SLOTS: usize = 24576;

/// Counter-move slots: mover, piece type, to square.
pub const COUNTER_SLOTS: usize = 896;

/// No stored value reaches further out.
pub const STORED: i32 = 30129;

/// A table entry: the full key, the packed move, the value relative to the
/// stored position, the depth, the age and the bound (no bound: empty).
#[derive(Clone, Copy)]
pub struct Entry {
    pub key: u64,
    pub mv: u32,
    pub value: i16,
    pub depth: i8,
    pub flags: u8,
}

impl Entry {
    pub fn empty() -> (e: Entry)
        ensures
            e == (Entry { key: 0, mv: 0, value: 0, depth: 0, flags: 0 }),
    {
        Entry { key: 0, mv: 0, value: 0, depth: 0, flags: 0 }
    }
}

/// The entry is free for `key`: empty, or holding `key`.
pub open spec fn open_for(e: Entry, key: u64) -> bool {
    e.flags & 3 == 0 || e.key == key
}

/// An entry's replacement weight: its depth, sixteen less from an older
/// search.
pub open spec fn weight(e: Entry, age: u8) -> int {
    e.depth - (if e.flags & 252 != age {
        16int
    } else {
        0int
    })
}

/// The first of the bucket's first `i` entries free for `key`, or 4.
pub open spec fn first_open(b: [Entry; 4], key: u64, i: int) -> int
    decreases i,
{
    if i <= 0 {
        4
    } else {
        let f = first_open(b, key, i - 1);
        if f < 4 {
            f
        } else if open_for(b[i - 1], key) {
            i - 1
        } else {
            4
        }
    }
}

/// The first entry of least weight among the bucket's first `i`.
pub open spec fn shallowest(b: [Entry; 4], age: u8, i: int) -> int
    decreases i,
{
    if i <= 1 {
        0
    } else {
        let m = shallowest(b, age, i - 1);
        if weight(b[i - 1], age) < weight(b[m], age) {
            i - 1
        } else {
            m
        }
    }
}

/// Where a result for `key` goes in the bucket: the first free entry, else
/// the shallowest.
pub open spec fn target(b: [Entry; 4], key: u64, age: u8) -> int {
    if first_open(b, key, 4) < 4 {
        first_open(b, key, 4)
    } else {
        shallowest(b, age, 4)
    }
}

/// The entry is in use and holds `key`.
pub open spec fn holds(e: Entry, key: u64) -> bool {
    e.flags & 3 != 0 && e.key == key
}

/// How often `key` occurs in `path[i..j]`.
pub open spec fn occurrences(path: Seq<u64>, i: int, j: int, key: u64) -> nat
    decreases j - i,
{
    if i >= j {
        0
    } else {
        (if path[i] == key {
            1nat
        } else {
            0nat
        }) + occurrences(path, i + 1, j, key)
    }
}

/// Fewer items hold no more occurrences.
proof fn lemma_occurrences_shrink(path: Seq<u64>, a: int, b: int, j: int, key: u64)
    requires
        a <= b,
    ensures
        occurrences(path, a, j, key) >= occurrences(path, b, j, key),
    decreases b - a,
{
    if a < b && a < j {
        lemma_occurrences_shrink(path, a + 1, b, j, key);
    }
}

/// Every stored value lies within `STORED` either way.
pub open spec fn values_fit(table: Seq<[Entry; 4]>) -> bool {
    forall|i: int, j: int| 0 <= i < table.len() && 0 <= j < 4 ==> -STORED <= #[trigger] table[i][j].value <= STORED
}

/// The engine over a network, with the late-move reduction it is given
/// (the logarithms of depth and move count, halved), its table, history,
/// killers, counter moves and the counters of the search under way.
pub struct Cataclysm<'m, R: Fn(i32, i32) -> i32> {
    model: &'m Network,
    reduce: R,
    table: Vec<[Entry; 4]>,
    age: u8,
    history: Vec<i32>,
    killers: Vec<[u32; 2]>,
    counters: Vec<u32>,
    previous: Vec<usize>,
    statics: Vec<i32>,
    path: Vec<u64>,
    barrier: usize,
    root_depth: i32,
    root_best: Move,
    nodes: u64,
    qnodes: u64,
    hits: u64,
    seldepth: usize,
    start: Instant,
    micros: u128,
    limit: u64,
    abort: bool,
}

impl<'m, R: Fn(i32, i32) -> i32> Cataclysm<'m, R> {
    /// The engine's invariant: a sound network, a reduction defined
    /// everywhere with results between 0 and 64, tables of their sizes,
    /// stored values in range, history within ±20000, counter-move contexts
    /// in range and the repetition barrier inside the path.
    pub closed spec fn wf(&self) -> bool {
        &&& self.model.sound()
        &&& forall|d: i32, l: i32| #[trigger] self.reduce.requires((d, l))
        &&& forall|d: i32, l: i32, r: i32| self.reduce.ensures((d, l), r) ==> 0 <= r <= 64
        &&& self.table@.len() == BUCKETS
        &&& values_fit(self.table@)
        &&& self.history@.len() == HISTORY_SLOTS
        &&& forall|k: int| 0 <= k < HISTORY_SLOTS ==> -20000 <= #[trigger] self.history@[k] <= 20000
        &&& self.killers@.len() == MAX
        &&& self.counters@.len() == COUNTER_SLOTS
        &&& self.previous@.len() == MAX
        &&& forall|k: int| 0 <= k < MAX ==> #[trigger] self.previous@[k] < COUNTER_SLOTS
        &&& self.statics@.len() == MAX
        &&& self.barrier <= self.path@.len()
        &&& 0 <= self.root_depth <= 100
        &&& self.limit > 0 ==> self.nodes <= self.limit
    }

    /// A fresh game's state: every table entry empty, history, killers and
    /// counter moves zero, no path.
    pub closed spec fn cleared(&self) -> bool {
        &&& forall|a: int, j: int| 0 <= a < self.table@.len() && 0 <= j < 4 ==> #[trigger] self.table@[a][j] == (Entry {
            key: 0,
            mv: 0,
            value: 0,
            depth: 0,
            flags: 0,
        })
        &&& forall|a: int| 0 <= a < self.history@.len() ==> #[trigger] self.history@[a] == 0
        &&& forall|a: int| 0 <= a < self.killers@.len() ==> #[trigger] self.killers@[a] == [0u32, 0u32]
        &&& forall|a: int| 0 <= a < self.counters@.len() ==> #[trigger] self.counters@[a] == 0
        &&& self.path@.len() == 0
        &&& self.barrier == 0
    }

    /// The network the engine evaluates with.
    pub closed spec fn network(&self) -> &'m Network {
        self.model
    }

    /// The network the engine evaluates with.
    pub fn model(&self) -> (m: &'m Network)
        ensures
            m == self.network(),
    {
        self.model
    }

    /// A fresh engine over `model`, reducing late moves by `reduce`.
    pub fn new(model: &'m Network, reduce: R) -> (e: Self)
        requires
            model.sound(),
            forall|d: i32, l: i32| #[trigger] reduce.requires((d, l)),
            forall|d: i32, l: i32, r: i32| reduce.ensures((d, l), r) ==> 0 <= r <= 64,
        ensures
            e.wf(),
            e.network() == model,
    {
        let mut table: Vec<[Entry; 4]> = Vec::new();
        let mut k: usize = 0;
        while k < BUCKETS
            invariant
                k <= BUCKETS,
                table@.len() == k,
                values_fit(table@),
            decreases BUCKETS - k,
        {
            table.push([Entry::empty(); 4]);
            k += 1;
        }
        let mut history: Vec<i32> = Vec::new();
        let mut k: usize = 0;
        while k < HISTORY_SLOTS
            invariant
                k <= HISTORY_SLOTS,
                history@.len() == k,
                forall|j: int| 0 <= j < k ==> #[trigger] history@[j] == 0,
            decreases HISTORY_SLOTS - k,
        {
            history.push(0);
            k += 1;
        }
        let mut killers: Vec<[u32; 2]> = Vec::new();
        let mut previous: Vec<usize> = Vec::new();
        let mut statics: Vec<i32> = Vec::new();
        let mut k: usize = 0;
        while k < MAX
            invariant
                k <= MAX,
                killers@.len() == k,
                previous@.len() == k,
                statics@.len() == k,
                forall|j: int| 0 <= j < k ==> #[trigger] previous@[j] == 0,
            decreases MAX - k,
        {
            killers.push([0, 0]);
            previous.push(0);
            statics.push(0);
            k += 1;
        }
        let mut counters: Vec<u32> = Vec::new();
        let mut k: usize = 0;
        while k < COUNTER_SLOTS
            invariant
                k <= COUNTER_SLOTS,
                counters@.len() == k,
            decreases COUNTER_SLOTS - k,
        {
            counters.push(0);
            k += 1;
        }
        Cataclysm {
            model,
            reduce,
            table,
            age: 0,
            history,
            killers,
            counters,
            previous,
            statics,
            path: Vec::new(),
            barrier: 0,
            root_depth: 0,
            root_best: Move::default(),
            nodes: 0,
            qnodes: 0,
            hits: 0,
            seldepth: 0,
            start: now(),
            micros: 0,
            limit: 0,
            abort: false,
        }
    }

    /// The engine's name.
    pub fn name(&self) -> (s: &'static str)
        ensures
            s@ == "Cataclysm 002"@,
    {
        "Cataclysm 002"
    }

    /// Count a node at `ply`, unless the search stops: once stopped, at the
    /// node limit, when the time allowance is spent at a check every 128
    /// nodes, or when no more nodes can be counted.
    fn tick(&mut self, ply: usize) -> (stop: bool)
        requires
            old(self).wf(),
        ensures
            final(self).wf(),
            final(self).network() == old(self).network(),
            stop == final(self).abort,
            old(self).abort ==> final(self).abort,
            final(self).path == old(self).path,
            final(self).barrier == old(self).barrier,
            final(self).root_depth == old(self).root_depth,
            final(self).limit == old(self).limit,
    {
        if self.abort {
            return true;
        }
        if (self.limit > 0 && self.nodes >= self.limit) || (self.micros > 0 && self.nodes & 127 == 0 && whole_micros(
            &elapsed(&self.start),
        ) >= self.micros) {
            self.abort = true;
            return true;
        }
        if self.nodes == u64::MAX {
            self.abort = true;
            return true;
        }
        self.nodes = self.nodes + 1;
        if ply > self.seldepth {
            self.seldepth = ply;
        }
        false
    }

    /// The entry of `key`, if its bucket holds one.
    fn probe(&self, key: u64) -> (r: Option<Entry>)
        requires
            self.wf(),
        ensures
            r matches Some(e) ==> -STORED <= e.value <= STORED,
            r is None <==> forall|j: int| 0 <= j < 4 ==> !holds(#[trigger] self.table@[(key % 524288) as int][j], key),
            r matches Some(e) ==> exists|j: int|
                {
                    &&& 0 <= j < 4
                    &&& e == #[trigger] self.table@[(key % 524288) as int][j]
                    &&& holds(e, key)
                    &&& forall|k: int| 0 <= k < j ==> !holds(#[trigger] self.table@[(key % 524288) as int][k], key)
                },
    {
        let bucket = self.table[slot(key)];
        assert(forall|j: int| 0 <= j < 4 ==> -STORED <= #[trigger] bucket[j].value <= STORED);
        let mut i: usize = 0;
        while i < 4
            invariant
                i <= 4,
                bucket == self.table@[(key % 524288) as int],
                forall|j: int| 0 <= j < 4 ==> -STORED <= #[trigger] bucket[j].value <= STORED,
                forall|k: int| 0 <= k < i ==> !holds(#[trigger] bucket[k], key),
            decreases 4 - i,
        {
            if bucket[i].flags & 3 != 0 && bucket[i].key == key {
                return Some(bucket[i]);
            }
            i += 1;
        }
        None
    }

    /// Store a result in `key`'s bucket: in the first empty or matching
    /// entry, else in the shallowest, an entry of an older search counting
    /// sixteen plies shallower. A deeper entry of the same key keeps its place
    /// for anything but an exact result; an empty move keeps the stored one.
    fn save(&mut self, key: u64, mv: u32, depth: i32, v: i32, bound: u8, ply: usize)
        requires
            old(self).wf(),
            ply <= 128,
            -1 <= depth <= 300,
            -(STORED - ply) <= v <= STORED - ply,
            bound <= 3,
        ensures
            ({
                let idx = (key % 524288) as int;
                let b = old(self).table@[idx];
                let at = target(b, key, old(self).age);
                let prior = b[at];
                if prior.key == key && prior.depth > depth + 3 && bound != EXACT {
                    final(self).table@ == old(self).table@
                } else {
                    &&& forall|a: int| 0 <= a < BUCKETS && a != idx ==> #[trigger] final(self).table@[a] == old(self).table@[a]
                    &&& final(self).table@[idx]@ == b@.update(
                        at,
                        Entry {
                            key,
                            mv: if mv == 0 && prior.key == key {
                                prior.mv
                            } else {
                                mv
                            },
                            value: encoded(v, ply),
                            depth: (if depth < 126 {
                                depth
                            } else {
                                126
                            }) as i8,
                            flags: old(self).age | bound,
                        },
                    )
                }
            }),
            final(self).wf(),
            final(self).network() == old(self).network(),
            final(self).abort == old(self).abort,
            final(self).path == old(self).path,
            final(self).barrier == old(self).barrier,
            final(self).root_depth == old(self).root_depth,
            final(self).limit == old(self).limit,
    {
        let idx = slot(key);
        let mut bucket = self.table[idx];
        let mut at: usize = 4;
        let mut i: usize = 0;
        while i < 4
            invariant
                i <= 4,
                at <= 4,
                bucket == old(self).table@[(key % 524288) as int],
                at == first_open(bucket, key, i as int),
            decreases 4 - i,
        {
            if at == 4 && (bucket[i].flags & 3 == 0 || bucket[i].key == key) {
                at = i;
            }
            i += 1;
        }
        if at == 4 {
            let mut best_i: usize = 0;
            let mut best_v: i32 = bucket[0].depth as i32 - if bucket[0].flags & 252 != self.age {
                16
            } else {
                0
            };
            let mut i: usize = 1;
            while i < 4
                invariant
                    1 <= i <= 4,
                    best_i < 4,
                    best_i == shallowest(bucket, self.age, i as int),
                    best_v == weight(bucket[best_i as int], self.age),
                decreases 4 - i,
            {
                let v_i = bucket[i].depth as i32 - if bucket[i].flags & 252 != self.age {
                    16
                } else {
                    0
                };
                if v_i < best_v {
                    best_v = v_i;
                    best_i = i;
                }
                i += 1;
            }
            at = best_i;
        }
        let prior = bucket[at];
        if prior.key == key && prior.depth as i32 > depth + 3 && bound != EXACT {
            return;
        }
        let stored = encode(v, ply);
        let d: i32 = if depth < 126 {
            depth
        } else {
            126
        };
        bucket[at] = Entry {
            key,
            mv: if mv == 0 && prior.key == key {
                prior.mv
            } else {
                mv
            },
            value: stored,
            depth: d as i8,
            flags: self.age | bound,
        };
        proof {
            assert(forall|j: int| 0 <= j < 4 ==> -STORED <= #[trigger] self.table@[idx as int][j].value <= STORED);
        }
        self.table.set(idx, bucket);
        proof {
            assert forall|a: int, j: int| 0 <= a < self.table@.len() && 0 <= j < 4 implies -STORED
                <= #[trigger] self.table@[a][j].value <= STORED by {
                if a != idx {
                    assert(self.table@[a] == old(self).table@[a]);
                }
            }
        }
    }
}


/// Room for `n` more moves: four castling bits and clocks that can still
/// count `n` moves.
pub open spec fn spare(b: &Board, n: int) -> bool {
    &&& b.pos.castling_rights < 16
    &&& b.pos.halfmove_clock + n < u16::MAX
    &&& b.pos.fullmove_number + n < u16::MAX
}

/// A history entry moved by a bonus of at most 1800 either way, less its
/// share of the entry, stays within ±20000.
proof fn lemma_reward(h: int, b: int, m: int, q: int)
    requires
        -20000 <= h <= 20000,
        -1800 <= b <= 1800,
        m == (if b < 0 { -b } else { b }),
        q == toward_zero(h * m, 16384),
    ensures
        -20000 <= h + b - q <= 20000,
{
    if h >= 0 {
        let p = h * m;
        assert(p >= 0) by (nonlinear_arith)
            requires h >= 0, m >= 0, p == h * m;
        vstd::arithmetic::div_mod::lemma_fundamental_div_mod(p, 16384);
        assert(q == p / 16384);
        assert(0 <= p % 16384 < 16384) by {
            vstd::arithmetic::div_mod::lemma_mod_bound(p, 16384);
        }
        assert(h >= 16384 ==> p >= 16384 * m) by (nonlinear_arith)
            requires p == h * m, m >= 0;
        assert(p <= 20000 * m) by (nonlinear_arith)
            requires p == h * m, m >= 0, h <= 20000;
        assert(16384 * q <= p);
        assert(h + b - q <= 20000);
        assert(h + b - q >= -20000);
    } else {
        let p = (-h) * m;
        assert(p >= 0) by (nonlinear_arith)
            requires h < 0, m >= 0, p == (-h) * m;
        assert(h * m == -p) by (nonlinear_arith)
            requires p == (-h) * m;
        vstd::arithmetic::div_mod::lemma_fundamental_div_mod(p, 16384);
        assert(0 <= p % 16384 < 16384) by {
            vstd::arithmetic::div_mod::lemma_mod_bound(p, 16384);
        }
        assert(q == -(p / 16384));
        assert(-h >= 16384 ==> p >= 16384 * m) by (nonlinear_arith)
            requires p == (-h) * m, m >= 0;
        assert(p <= 20000 * m) by (nonlinear_arith)
            requires p == (-h) * m, m >= 0, -h <= 20000;
        assert(h + b - q <= 20000);
        assert(h + b - q >= -20000);
    }
}

impl<'m, R: Fn(i32, i32) -> i32> Cataclysm<'m, R> {
    /// Whether the position is drawn: by the fifty-move rule, or by its key
    /// recurring within the plies the halfmove clock covers on the path since
    /// the barrier, twice at the root and once elsewhere.
    pub closed spec fn drawn(&self, b: &Board, ply: usize) -> bool {
        b.pos.halfmove_clock >= 100 || occurrences(
            self.path@,
            if self.barrier > self.path@.len() - b.pos.halfmove_clock {
                self.barrier as int
            } else {
                self.path@.len() - b.pos.halfmove_clock
            },
            self.path@.len() as int,
            b.pos.zobrist,
        ) >= (if ply == 0 {
            2nat
        } else {
            1nat
        })
    }

    fn draw(&self, b: &Board, ply: usize) -> (d: bool)
        requires
            self.wf(),
        ensures
            d == self.drawn(b, ply),
    {
        if b.pos.halfmove_clock >= 100 {
            return true;
        }
        let needed: usize = if ply == 0 {
            2
        } else {
            1
        };
        let limit = b.pos.halfmove_clock as usize;
        let key = b.pos.zobrist;
        let mut found: usize = 0;
        let mut taken: usize = 0;
        let mut i = self.path.len();
        while i > self.barrier && taken < limit && found < needed
            invariant
                self.wf(),
                self.barrier <= i <= self.path@.len(),
                found <= needed,
                taken <= limit,
                taken == self.path@.len() - i,
                found == occurrences(self.path@, i as int, self.path@.len() as int, key),
            decreases i,
        {
            i -= 1;
            taken += 1;
            if self.path[i] == key {
                found += 1;
            }
        }
        proof {
            let len = self.path@.len() as int;
            let lo = if self.barrier > len - limit {
                self.barrier as int
            } else {
                len - limit
            };
            lemma_occurrences_shrink(self.path@, lo, i as int, len, key);
        }
        found == needed
    }

    /// The history slot of `m` for the side to move.
    fn hi(b: &Board, m: Move) -> (i: usize)
        requires
            m.from < 64,
            m.to < 64,
            m.path_kind < 3,
        ensures
            i < HISTORY_SLOTS,
            i == ((b.pos.side_to_move.spec_index() * 3 + m.path_kind) * 64 + m.from) * 64 + m.to,
    {
        ((b.pos.side_to_move.index() * 3 + m.path_kind as usize) * 64 + m.from as usize) * 64 + m.to as usize
    }

    /// Move a history entry toward `bonus`, by the bonus less the entry's
    /// share of it.
    fn reward(&mut self, index: usize, bonus: i32)
        requires
            old(self).wf(),
            index < HISTORY_SLOTS,
            -1800 <= bonus <= 1800,
        ensures
            final(self).history@ == old(self).history@.update(
                index as int,
                (old(self).history@[index as int] + bonus - toward_zero(
                    old(self).history@[index as int] * (if bonus < 0 {
                        -bonus
                    } else {
                        bonus as int
                    }),
                    16384,
                )) as i32,
            ),
            final(self).table@ == old(self).table@,
            final(self).killers@ == old(self).killers@,
            final(self).counters@ == old(self).counters@,
            final(self).previous@ == old(self).previous@,
            final(self).wf(),
            final(self).network() == old(self).network(),
            final(self).abort == old(self).abort,
            final(self).path == old(self).path,
            final(self).barrier == old(self).barrier,
            final(self).root_depth == old(self).root_depth,
            final(self).limit == old(self).limit,
    {
        let h = self.history[index];
        let m = if bonus < 0 {
            -bonus
        } else {
            bonus
        };
        assert(-36000000 <= h * m <= 36000000) by (nonlinear_arith)
            requires -20000 <= h <= 20000, 0 <= m <= 1800;
        let q = quot(h * m, 16384);
        proof {
            lemma_reward(h as int, bonus as int, m as int, q as int);
        }
        self.history.set(index, h + bonus - q);
        assert forall|k: int| 0 <= k < HISTORY_SLOTS implies -20000 <= #[trigger] self.history@[k] <= 20000 by {
            if k != index {
                assert(self.history@[k] == old(self).history@[k]);
            }
        }
    }

    /// The moves of the side to move, each with its ordering score: the
    /// table move first; then captures by victim and attacker, promotions,
    /// the killers, the counter move, the history, the piece-square gain of
    /// every displaced piece and the advance of displaced pawns, and pushes.
    fn prepare(&self, b: &Board, ply: usize, tt: u32) -> (actions: Vec<Action>)
        requires
            self.wf(),
            ply < MAX,
        ensures
            all_fit(actions@),
    {
        let mut actions: Vec<Action> = Vec::new();
        b.generate(&mut actions);
        let n = actions.len();
        let mut i: usize = 0;
        while i < n
            invariant
                self.wf(),
                ply < MAX,
                i <= n,
                actions@.len() == n,
                all_fit(actions@),
            decreases n - i,
        {
            let a = &actions[i];
            assert(a.fits());
            let id = pack(a.mv);
            let mut score: i32;
            if id == tt && tt != 0 {
                score = 10_000_000;
            } else {
                let mover = b.pos.board[a.mv.from as usize];
                score = self.history[Self::hi(b, a.mv)];
                if a.capture != PieceType::Empty {
                    score = score + 1_000_000 + value_of(a.capture) * 24 - value_of(mover.piece_type);
                }
                if a.mv.special == SpecialMove::Promotion {
                    score = score + 900_000 + value_of(a.mv.promo_piece) * 12;
                }
                let k = self.killers[ply];
                if id == k[0] {
                    score = score + 90_000;
                } else if id == k[1] {
                    score = score + 80_000;
                }
                if ply > 0 && id == self.counters[self.previous[ply - 1]] {
                    score = score + 70_000;
                }
                match &a.plan {
                    Some(p) => {
                        let d = p.displacements();
                        let mut j: usize = 0;
                        while j < d.len()
                            invariant
                                j <= d@.len(),
                                d@ == p@.0,
                                plan_on_board(p@),
                                -100_000 - (j as int) * 50_000 <= score <= 2_200_000 + (j as int) * 50_000,
                            decreases d@.len() - j,
                        {
                            let (f, t) = d[j];
                            assert(f < 64 && t < 64);
                            let piece = b.pos.board[f as usize];
                            let to_score = piece_score(piece, t);
                            let from_score = piece_score(piece, f);
                            proof {
                                lemma_square_score_bound(piece, t as int);
                                lemma_square_score_bound(piece, f as int);
                            }
                            score = score + (to_score.0 - from_score.0) * 12;
                            if piece.piece_type == PieceType::Pawn {
                                let rank = if mover.color == Color::White {
                                    rank_of(t)
                                } else {
                                    7 - rank_of(t)
                                };
                                if rank > 3 {
                                    score = score + (rank - 3) * 100;
                                }
                            }
                            j += 1;
                        }
                    },
                    None => {},
                }
                if a.push {
                    score = score + 300;
                }
            }
            let plan = match &a.plan {
                Some(p) => Some(p.duplicate()),
                None => None,
            };
            let ordered = Action {
                mv: a.mv,
                plan,
                capture: a.capture,
                push: a.push,
                king_push: a.king_push,
                order: score,
            };
            actions.set(i, ordered);
            i += 1;
        }
        actions
    }

    /// At a drawn position: a draw, unless the side to move is in check and
    /// has no legal move, which is mate. Elsewhere nothing.
    fn terminal_draw(&self, b: &mut Board, ply: usize, check: bool) -> (r: Option<i32>)
        requires
            self.wf(),
            old(b).wf(),
            old(b).room(),
            ply <= 126,
        ensures
            final(b).wf(),
            final(b).same(old(b)),
            r matches Some(v) ==> -(STORED - ply) <= v <= STORED - ply,
            r is Some <==> self.drawn(old(b), ply),
            r matches Some(v) ==> v == 0 || v == -MATE + ply,
            !check && self.drawn(old(b), ply) ==> r == Some(0i32),
    {
        if !self.draw(b, ply) {
            return None;
        }
        if !check {
            return Some(0);
        }
        let mut actions: Vec<Action> = Vec::new();
        b.generate(&mut actions);
        let mut legal = false;
        let mut i: usize = 0;
        while i < actions.len()
            invariant
                all_fit(actions@),
                i <= actions@.len(),
                b.wf(),
                b.room(),
                b.same(old(b)),
            decreases actions@.len() - i,
        {
            if b.legal_after(&actions[i]) {
                legal = true;
                break;
            }
            i += 1;
        }
        Some(
            if legal {
                0
            } else {
                -MATE + ply as i32
            },
        )
    }
}


/// Swap the action with the highest ordering score among `actions[i..]` to
/// `i`, the last of equal scores.
fn pick(actions: &mut Vec<Action>, i: usize)
    requires
        i < old(actions)@.len(),
        all_fit(old(actions)@),
    ensures
        final(actions)@.len() == old(actions)@.len(),
        all_fit(final(actions)@),
        exists|best: int|
            {
                &&& is_pick(old(actions)@.map_values(|a: Action| a.order), i as int, best, true)
                &&& final(actions)@ == old(actions)@.update(i as int, old(actions)@[best]).update(
                    best,
                    old(actions)@[i as int],
                )
            },
{
    let ghost before = actions@;
    let key = |a: &Action| -> (o: i32)
        ensures
            o == a.order,
        { a.order };
    let slice = actions.as_mut_slice();
    pick_best::<Action, true>(slice, i, key);
    proof {
        let (scores, best) = choose|scores: Seq<i32>, best: int|
            {
                &&& scores.len() == before.len()
                &&& forall|k: int| i <= k < scores.len() ==> key.ensures((&before[k],), #[trigger] scores[k])
                &&& is_pick(scores, i as int, best, true)
                &&& actions@ == before.update(i as int, before[best]).update(best, before[i as int])
            };
        let orders = before.map_values(|a: Action| a.order);
        assert forall|k: int| i <= k < before.len() implies #[trigger] orders[k] == scores[k] by {
            assert(key.ensures((&before[k],), scores[k]));
        }
        assert(is_pick(orders, i as int, best, true));
        assert forall|k: int| 0 <= k < actions@.len() implies (#[trigger] actions@[k]).fits() by {
            if k == i {
                assert(before[best].fits());
            } else if k == best {
                assert(before[i as int].fits());
            } else {
                assert(before[k].fits());
            }
        }
    }
}

impl<'m, R: Fn(i32, i32) -> i32> Cataclysm<'m, R> {
    /// What a search leaves as it was: the network, the path, the barrier,
    /// the root depth, and a stop once made.
    pub closed spec fn keeps(&self, earlier: &Self) -> bool {
        &&& self.model == earlier.model
        &&& self.path@ == earlier.path@
        &&& self.barrier == earlier.barrier
        &&& self.root_depth == earlier.root_depth
        &&& earlier.abort ==> self.abort
        &&& self.limit == earlier.limit
    }

    /// The quiescence search at `ply`, `qply` plies below the main search:
    /// the draw and table checks, the static score as a floor out of check
    /// (a cutoff, and every result at twelve plies, answers a draw when no
    /// legal move is left), then captures and promotions, in the first two
    /// layers quiet checks too, all evasions in check, and captures that
    /// cannot reach alpha by 220 skipped. A stop answers zero.
    #[verifier::rlimit(80)]
    pub fn qsearch(&mut self, b: &mut Board<'m>, alpha: i32, beta: i32, ply: usize, qply: usize) -> (r: i32)
        requires
            old(self).wf(),
            old(b).wf(),
            ply <= 126,
            qply <= ply,
            spare(old(b), 127 - ply),
            -INF <= alpha < beta <= INF,
        ensures
            final(self).wf(),
            final(self).keeps(old(self)),
            final(b).wf(),
            final(b).same(old(b)),
            -(STORED - ply) <= r <= STORED - ply,
        decreases 127 - ply, 0int,
    {
        if self.tick(ply) {
            return 0;
        }
        if self.qnodes < u64::MAX {
            self.qnodes = self.qnodes + 1;
        }
        let us = b.pos.side_to_move;
        let check = b.checked(us);
        match self.terminal_draw(b, ply, check) {
            Some(v) => {
                return v;
            },
            None => {},
        }
        if ply >= MAX - 2 {
            return evaluate(b);
        }
        let key = b.pos.zobrist;
        let entry = self.probe(key);
        let mut tt_mv: u32 = 0;
        match entry {
            Some(e) => {
                tt_mv = e.mv;
                let need: i8 = if qply < 2 {
                    0
                } else {
                    -1
                };
                if beta - alpha == 1 && e.depth >= need && b.pos.halfmove_clock < 80 {
                    let v = decode(e.value, ply);
                    let flag = e.flags & 3;
                    if flag == EXACT || (flag == LOWER && v >= beta) || (flag == UPPER && v <= alpha) {
                        if self.hits < u64::MAX {
                            self.hits = self.hits + 1;
                        }
                        return v;
                    }
                }
            },
            None => {},
        }
        let original = alpha;
        let mut alpha = alpha;
        let stand = evaluate(b);
        let mut best: i32 = if check {
            -INF
        } else {
            stand
        };
        if !check {
            if stand >= beta {
                return if b.has_legal_move() {
                    stand
                } else {
                    0
                };
            }
            if stand > alpha {
                alpha = stand;
            }
            if qply >= 12 {
                return if b.has_legal_move() {
                    stand
                } else {
                    0
                };
            }
        }
        let mut actions = self.prepare(b, ply, tt_mv);
        let mut legal: usize = 0;
        let mut best_id: u32 = 0;
        let n = actions.len();
        let mut i: usize = 0;
        while i < n
            invariant_except_break
                alpha < beta,
                legal <= i,
            invariant
                legal <= n,
                self.wf(),
                self.keeps(old(self)),
                b.wf(),
                b.same(old(b)),
                spare(b, 127 - ply),
                ply <= 125,
                qply <= ply,
                all_fit(actions@),
                actions@.len() == n,
                i <= n,
                b.pos.side_to_move == us,
                -INF <= original <= alpha <= INF,
                beta <= INF,
                -28000 <= stand <= 28000,
                best == -INF || -(STORED - ply) <= best <= STORED - ply,
                !check ==> best != -INF,
                check && legal > 0 && !self.abort ==> best != -INF,
            decreases n - i,
        {
            pick(&mut actions, i);
            let a = &actions[i];
            assert(a.fits());
            if !check && !a.tactical() && qply >= 2 {
                i += 1;
                continue;
            }
            let undo = b.make(a);
            if b.checked(us) {
                b.unmake(undo);
                i += 1;
                continue;
            }
            legal += 1;
            let gives_check = b.checked(opponent(us));
            if !check && !a.tactical() && !gives_check {
                b.unmake(undo);
                i += 1;
                continue;
            }
            if !check && !gives_check && a.mv.special != SpecialMove::Promotion && stand + value_of(a.capture)
                + 220 < alpha {
                b.unmake(undo);
                i += 1;
                continue;
            }
            let ghost path0 = self.path@;
            self.path.push(key);
            let value = -self.qsearch(b, -beta, -alpha, ply + 1, qply + 1);
            self.path.pop();
            assert(self.path@ =~= path0);
            b.unmake(undo);
            if self.abort {
                break;
            }
            if value > best {
                best = value;
                best_id = pack(a.mv);
            }
            if value > alpha {
                alpha = value;
            }
            if alpha >= beta {
                break;
            }
            i += 1;
        }
        if self.abort {
            return 0;
        }
        if check && legal == 0 {
            return -MATE + ply as i32;
        }
        if !check && legal == 0 && !b.has_legal_move() {
            return 0;
        }
        let bound = if best >= beta {
            LOWER
        } else if best <= original {
            UPPER
        } else {
            EXACT
        };
        self.save(
            key,
            best_id,
            if qply < 2 {
                0
            } else {
                -1
            },
            best,
            bound,
            ply,
        );
        best
    }
}


impl<'m, R: Fn(i32, i32) -> i32> Cataclysm<'m, R> {
    /// The principal-variation search of `depth` plies at `ply`: the
    /// quiescence search at the horizon, the node and time limits, the draw
    /// check, mate-distance bounds, a table cutoff outside the root and
    /// principal-variation nodes, a check extension while the ply is within
    /// twice the root depth, then out of check at null-window nodes static
    /// pruning within five plies and the null move, and the moves. A stop
    /// answers zero.
    #[verifier::rlimit(80)]
    pub fn search(&mut self, b: &mut Board<'m>, depth: i32, alpha: i32, beta: i32, ply: usize, null_ok: bool) -> (r: i32)
        requires
            old(self).wf(),
            old(b).wf(),
            ply <= 126,
            spare(old(b), 127 - ply),
            depth <= 100 + ply,
            -INF <= alpha < beta <= INF,
            ply > 0 ==> -(MATE - ply + 1) <= alpha && beta <= MATE - ply + 1,
        ensures
            final(self).wf(),
            final(self).keeps(old(self)),
            final(b).wf(),
            final(b).same(old(b)),
            -INF < r < INF,
            ply > 0 ==> -(STORED - ply) <= r <= STORED - ply,
        decreases 127 - ply, 1int,
    {
        if depth <= 0 {
            return self.qsearch(b, alpha, beta, ply, 0);
        }
        if self.tick(ply) {
            return 0;
        }
        let us = b.pos.side_to_move;
        let check = b.checked(us);
        match self.terminal_draw(b, ply, check) {
            Some(v) => {
                return v;
            },
            None => {},
        }
        if ply >= MAX - 2 {
            return evaluate(b);
        }
        let p = ply as i32;
        let alpha = if alpha > -MATE + p {
            alpha
        } else {
            -MATE + p
        };
        let beta = if beta < MATE - p - 1 {
            beta
        } else {
            MATE - p - 1
        };
        if alpha >= beta {
            return alpha;
        }
        let pv = beta - alpha > 1;
        let key = b.pos.zobrist;
        let entry = self.probe(key);
        let mut tt_mv: u32 = 0;
        match entry {
            Some(e) => {
                tt_mv = e.mv;
                if ply > 0 && !pv && e.depth as i32 >= depth && b.pos.halfmove_clock < 80 {
                    let v = decode(e.value, ply);
                    let flag = e.flags & 3;
                    if flag == EXACT || (flag == LOWER && v >= beta) || (flag == UPPER && v <= alpha) {
                        if self.hits < u64::MAX {
                            self.hits = self.hits + 1;
                        }
                        return v;
                    }
                }
            },
            None => {},
        }
        let mut depth = depth;
        if check && p < self.root_depth * 2 {
            depth = depth + 1;
        }
        let stand = evaluate(b);
        self.statics.set(ply, stand);
        let improving = ply >= 2 && stand > self.statics[ply - 2];
        if !check && !pv && ply > 0 && beta < WIN && beta > -WIN {
            if depth <= 5 && stand - 120 * depth - 40 >= beta {
                // Static pruning must not turn stalemate into a material score.
                return if b.has_legal_move() {
                    stand
                } else {
                    0
                };
            }
            let side = us.index();
            if null_ok && depth >= 3 && stand >= beta && b.f.phase > 4 && (b.f.occupied[side] & !b.f.men[side][1]
                & !b.f.men[side][6]) != 0 {
                let saved_ep = b.pos.ep_square;
                let saved_key = b.pos.zobrist;
                let saved_barrier = self.barrier;
                b.pos.side_to_move = opponent(us);
                b.pos.zobrist = b.pos.zobrist ^ side_key();
                if b.pos.ep_square < 64 {
                    b.pos.zobrist = b.pos.zobrist ^ ep_key(file_of(b.pos.ep_square));
                }
                b.pos.ep_square = 64;
                self.barrier = self.path.len();
                let cut = 3 + depth / 5;
                let reduction = if cut < depth - 1 {
                    cut
                } else {
                    depth - 1
                };
                let v = -self.search(b, depth - 1 - reduction, -beta, 1 - beta, ply + 1, false);
                b.pos.side_to_move = us;
                b.pos.ep_square = saved_ep;
                b.pos.zobrist = saved_key;
                self.barrier = saved_barrier;
                if self.abort {
                    return 0;
                }
                if v >= beta {
                    return if b.has_legal_move() {
                        if v < WIN - 1 {
                            v
                        } else {
                            WIN - 1
                        }
                    } else {
                        0
                    };
                }
            }
        }
        self.search_moves(b, depth, alpha, beta, ply, check, pv, improving, key, tt_mv)
    }

    /// The moves of a node in order: late quiet moves pruned within three
    /// plies of the horizon at null-window nodes, later quiet moves reduced
    /// by the given reduction, less at principal-variation nodes, for pushes
    /// and castling, when improving and for good history, searched again
    /// when they beat alpha; a quiet cutoff rewards its history, punishes the
    /// quiet moves before it, and becomes a killer and the counter move. The
    /// result goes into the table.
    #[verifier::rlimit(100)]
    #[verifier::spinoff_prover]
    fn search_moves(
        &mut self,
        b: &mut Board<'m>,
        depth: i32,
        alpha: i32,
        beta: i32,
        ply: usize,
        check: bool,
        pv: bool,
        improving: bool,
        key: u64,
        tt_mv: u32,
    ) -> (r: i32)
        requires
            old(self).wf(),
            old(b).wf(),
            ply <= 125,
            spare(old(b), 127 - ply),
            1 <= depth <= 101 + ply,
            -MATE + ply <= alpha < beta <= MATE - ply - 1,
        ensures
            final(self).wf(),
            final(self).keeps(old(self)),
            final(b).wf(),
            final(b).same(old(b)),
            -(STORED - ply) <= r <= STORED - ply,
        decreases 127 - ply, 0int,
    {
        let mut actions = self.prepare(b, ply, tt_mv);
        let us = b.pos.side_to_move;
        let start_alpha = alpha;
        let mut alpha = alpha;
        let mut legal: usize = 0;
        let mut searched: usize = 0;
        let mut best: i32 = -INF;
        let mut best_id: u32 = 0;
        let mut quiets: Vec<usize> = Vec::new();
        let n = actions.len();
        let mut i: usize = 0;
        while i < n
            invariant_except_break
                alpha < beta,
                legal <= i,
            invariant
                legal <= n,
                self.wf(),
                self.keeps(old(self)),
                b.wf(),
                b.same(old(b)),
                spare(b, 127 - ply),
                ply <= 125,
                1 <= depth <= 101 + ply,
                all_fit(actions@),
                actions@.len() == n,
                i <= n,
                b.pos.side_to_move == us,
                -MATE + ply <= start_alpha <= alpha,
                beta <= MATE - ply - 1,
                searched == 0 ==> best == -INF,
                searched > 0 ==> -(STORED - ply) <= best <= STORED - ply,
                !self.abort && legal > 0 ==> searched > 0,
                searched <= legal,
                forall|k: int| 0 <= k < quiets@.len() ==> #[trigger] quiets@[k] < HISTORY_SLOTS,
            decreases n - i,
        {
            pick(&mut actions, i);
            let a = &actions[i];
            assert(a.fits());
            let hi = Self::hi(b, a.mv);
            let mover = b.pos.board[a.mv.from as usize];
            let previous = (us.index() * 7 + mover.piece_type.index()) * 64 + a.mv.to as usize;
            let undo = b.make(a);
            if b.checked(us) {
                b.unmake(undo);
                i += 1;
                continue;
            }
            legal += 1;
            let gives_check = b.checked(opponent(us));
            let forcing = a.tactical() || gives_check;
            let critical = a.king_push || a.mv.special == SpecialMove::Castle;
            if searched > 0 && !pv && !check && !forcing && !critical && !a.push && depth <= 3 {
                let cap: usize = if improving {
                    (8 + depth * depth * 4) as usize
                } else {
                    (5 + depth * depth * 3) as usize
                };
                if legal > cap {
                    b.unmake(undo);
                    i += 1;
                    continue;
                }
            }
            let mut reduction: i32 = 0;
            if searched >= 3 && depth >= 3 && !check && !forcing {
                let count: i32 = if legal < 1_000_000 {
                    legal as i32
                } else {
                    1_000_000
                };
                reduction = (self.reduce)(depth, count);
                if pv {
                    reduction = reduction - 1;
                }
                if a.push || critical {
                    reduction = reduction - 1;
                }
                if improving {
                    reduction = reduction - 1;
                }
                reduction = reduction - quot(self.history[hi], 5000);
                if reduction < 0 {
                    reduction = 0;
                } else if reduction > depth - 2 {
                    reduction = depth - 2;
                }
            }
            self.previous.set(ply, previous);
            let ghost path0 = self.path@;
            self.path.push(key);
            let mut value: i32;
            if searched == 0 {
                value = -self.search(b, depth - 1, -beta, -alpha, ply + 1, true);
            } else {
                value = -self.search(b, depth - 1 - reduction, -alpha - 1, -alpha, ply + 1, true);
                if value > alpha && reduction > 0 && !self.abort {
                    value = -self.search(b, depth - 1, -alpha - 1, -alpha, ply + 1, true);
                }
                if value > alpha && value < beta && !self.abort {
                    value = -self.search(b, depth - 1, -beta, -alpha, ply + 1, true);
                }
            }
            self.path.pop();
            assert(self.path@ =~= path0);
            b.unmake(undo);
            if self.abort {
                break;
            }
            searched += 1;
            let tactical = a.tactical();
            if !tactical {
                quiets.push(hi);
            }
            if value > best {
                best = value;
                best_id = pack(a.mv);
            }
            if value > alpha {
                alpha = value;
                if ply == 0 {
                    self.root_best = a.mv;
                }
            }
            if alpha >= beta {
                if !tactical {
                    assert(40 * depth * depth <= 40 * 226 * 226) by (nonlinear_arith)
                        requires
                            1 <= depth <= 226,
                    ;
                    let sq = 40 * depth * depth;
                    let bonus = if sq < 1800 {
                        sq
                    } else {
                        1800
                    };
                    let mut k: usize = 0;
                    while k < quiets.len()
                        invariant
                            self.wf(),
                            self.keeps(old(self)),
                            self.abort == false,
                            0 <= bonus <= 1800,
                            forall|j: int| 0 <= j < quiets@.len() ==> #[trigger] quiets@[j] < HISTORY_SLOTS,
                        decreases quiets@.len() - k,
                    {
                        let index = quiets[k];
                        if index != hi {
                            self.reward(index, -(bonus / 2));
                        }
                        k += 1;
                    }
                    self.reward(hi, bonus);
                    let mut kl = self.killers[ply];
                    if kl[0] != best_id {
                        kl[1] = kl[0];
                        kl[0] = best_id;
                        self.killers.set(ply, kl);
                    }
                    if ply > 0 {
                        let slot = self.previous[ply - 1];
                        self.counters.set(slot, best_id);
                    }
                }
                break;
            }
            i += 1;
        }
        if self.abort {
            return 0;
        }
        if legal == 0 {
            return if check {
                -MATE + ply as i32
            } else {
                0
            };
        }
        let bound = if best >= beta {
            LOWER
        } else if best <= start_alpha {
            UPPER
        } else {
            EXACT
        };
        self.save(key, best_id, depth, best, bound, ply);
        best
    }
}


/// How far a forcing-check proof may go: the attacking side, a time
/// deadline in microseconds and a node limit.
pub struct Limits {
    pub attacker: Color,
    pub deadline: u128,
    pub nodes: u64,
}

/// The lower-case character of the hexadecimal digit `d`.
pub open spec fn hex_digit(d: u64) -> char {
    if d < 10 {
        ((48 + d) as u8) as char
    } else {
        ((87 + d) as u8) as char
    }
}

/// The hexadecimal digits of `x` below bit `shift`, most significant first.
pub open spec fn hex_below(x: u64, shift: nat) -> Seq<char>
    decreases shift,
{
    if shift < 4 {
        seq![]
    } else {
        seq![hex_digit((x >> ((shift - 4) as u64)) & 15)] + hex_below(x, (shift - 4) as nat)
    }
}

/// Append `x` as sixteen lower-case hexadecimal digits.
fn push_hex16(out: &mut Vec<char>, x: u64)
    ensures
        final(out)@ == old(out)@ + hex_below(x, 64),
{
    let mut shift: u64 = 64;
    while shift > 0
        invariant
            shift <= 64,
            shift % 4 == 0,
            out@ + hex_below(x, shift as nat) == old(out)@ + hex_below(x, 64),
        decreases shift,
    {
        let ghost before = out@;
        shift = shift - 4;
        let d = ((x >> shift) & 15) as u8;
        assert(((x >> shift) & 15) < 16) by (bit_vector);
        if d < 10 {
            out.push((48u8 + d) as char);
        } else {
            out.push((87u8 + d) as char);
        }
        assert(hex_below(x, (shift + 4) as nat) == seq![hex_digit((x >> shift) & 15)] + hex_below(x, shift as nat));
        assert(out@ + hex_below(x, shift as nat) =~= before + hex_below(x, (shift + 4) as nat));
    }
    assert(hex_below(x, 0) =~= Seq::<char>::empty());
    assert(out@ =~= out@ + hex_below(x, 0));
}

/// Whether `m` is one of the moves of `root`, the legal moves of `p`.
fn listed(root: &ScoredMoves, m: Move, Ghost(p): Ghost<Position>) -> (found: bool)
    requires
        root@.len() == legal_moves(&p).len(),
        forall|k: int| 0 <= k < root@.len() ==> #[trigger] root@[k].mv == legal_moves(&p)[k],
    ensures
        found == legal_moves(&p).contains(m),
{
    let n = root.len();
    let mut i: usize = 0;
    while i < n
        invariant
            i <= n,
            n == root@.len(),
            root@.len() == legal_moves(&p).len(),
            forall|k: int| 0 <= k < root@.len() ==> #[trigger] root@[k].mv == legal_moves(&p)[k],
            forall|k: int| 0 <= k < i ==> legal_moves(&p)[k] != m,
        decreases n - i,
    {
        if root.get(i).mv == m {
            assert(legal_moves(&p)[i as int] == m);
            return true;
        }
        i += 1;
    }
    proof {
        if legal_moves(&p).contains(m) {
            let k = choose|k: int| 0 <= k < legal_moves(&p).len() && legal_moves(&p)[k] == m;
            assert(legal_moves(&p)[k] != m);
        }
    }
    false
}

impl<'m, R: Fn(i32, i32) -> i32> Cataclysm<'m, R> {
    /// The proof search for forcing checks at `ply`: the attacker may play
    /// any checking move, and every legal reply of the defender must be
    /// refuted. The line found leads to mate; a failed or interrupted proof
    /// says nothing. The attacker gives up at the depth limit and at a draw.
    fn prove(&mut self, b: &mut Board<'m>, depth: i32, ply: usize, limits: &Limits) -> (r: Option<Vec<Move>>)
        requires
            old(self).wf(),
            old(b).wf(),
            ply <= 126,
            spare(old(b), 127 - ply),
        ensures
            final(self).wf(),
            final(self).keeps(old(self)),
            final(b).wf(),
            final(b).same(old(b)),
            r matches Some(line) ==> line@.len() <= 126 - ply,
            r matches Some(line) ==> (old(b).pos.side_to_move == limits.attacker ==> line@.len() >= 1),
        decreases 127 - ply,
    {
        if ply >= MAX - 2 || self.nodes >= limits.nodes {
            return None;
        }
        if whole_micros(&elapsed(&self.start)) >= limits.deadline {
            return None;
        }
        if self.tick(ply) {
            return None;
        }
        let us = b.pos.side_to_move;
        let attacking = us == limits.attacker;
        if attacking && (depth <= 0 || self.draw(b, ply)) {
            return None;
        }
        let key = b.pos.zobrist;
        let tt_mv = match self.probe(key) {
            Some(e) => e.mv,
            None => 0,
        };
        let mut actions = self.prepare(b, ply, tt_mv);
        let mut replies: usize = 0;
        let mut longest: Vec<Move> = Vec::new();
        let mut proof: Option<Vec<Move>> = None;
        let n = actions.len();
        let mut i: usize = 0;
        while i < n
            invariant_except_break
                replies <= i,
            invariant
                replies <= n,
                self.wf(),
                self.keeps(old(self)),
                b.wf(),
                b.same(old(b)),
                spare(b, 127 - ply),
                ply <= 125,
                all_fit(actions@),
                actions@.len() == n,
                i <= n,
                b.pos.side_to_move == us,
                attacking == (us == limits.attacker),
                longest@.len() <= 126 - ply,
                proof matches Some(line) ==> 1 <= line@.len() <= 126 - ply,
            decreases n - i,
        {
            pick(&mut actions, i);
            let a = &actions[i];
            assert(a.fits());
            let undo = b.make(a);
            if b.checked(us) || (attacking && !b.checked(opponent(us))) {
                b.unmake(undo);
                i += 1;
                continue;
            }
            replies += 1;
            let ghost path0 = self.path@;
            self.path.push(key);
            let child = if depth > 0 {
                self.prove(b, depth - 1, ply + 1, limits)
            } else {
                None
            };
            self.path.pop();
            assert(self.path@ =~= path0);
            b.unmake(undo);
            if attacking {
                match child {
                    Some(line) => {
                        let mut line = line;
                        line.insert(0, a.mv);
                        proof = Some(line);
                        break;
                    },
                    None => {},
                }
            } else {
                match child {
                    Some(line) => {
                        let mut line = line;
                        line.insert(0, a.mv);
                        if line.len() > longest.len() {
                            longest = line;
                        }
                    },
                    None => {
                        return None;
                    },
                }
            }
            i += 1;
        }
        if !attacking {
            if replies == 0 {
                return if b.checked(us) {
                    Some(Vec::new())
                } else {
                    None
                };
            }
            if self.draw(b, ply) {
                return None;
            }
            return Some(longest);
        }
        proof
    }

    /// Look for a forcing mate by checks, at odd depths up to `max_depth`
    /// (eleven at most), within a twelfth of the time and of the node limit
    /// (twenty thousand nodes without one).
    fn siege(&mut self, b: &mut Board<'m>, max_depth: i32) -> (r: Option<Vec<Move>>)
        requires
            old(self).wf(),
            old(b).wf(),
            spare(old(b), 127),
        ensures
            final(self).wf(),
            final(self).keeps(old(self)),
            final(b).wf(),
            final(b).same(old(b)),
            r matches Some(line) ==> 1 <= line@.len() <= 126,
    {
        let limits = Limits {
            attacker: b.pos.side_to_move,
            deadline: if self.micros == 0 {
                u128::MAX
            } else {
                self.micros / 12
            },
            nodes: if self.limit == 0 {
                20_000
            } else if self.limit / 12 > 1 {
                self.limit / 12
            } else {
                1
            },
        };
        let top: i32 = if max_depth < 11 {
            max_depth
        } else {
            11
        };
        let mut depth: i32 = 1;
        while depth <= top
            invariant
                self.wf(),
                self.keeps(old(self)),
                b.wf(),
                b.same(old(b)),
                spare(b, 127),
                limits.attacker == b.pos.side_to_move,
                top <= 11,
                1 <= depth <= 13,
            decreases 13 - depth,
        {
            match self.prove(b, depth, 0, &limits) {
                Some(line) => {
                    return Some(line);
                },
                None => {},
            }
            if self.nodes >= limits.nodes || whole_micros(&elapsed(&self.start)) >= limits.deadline {
                break;
            }
            depth = depth + 2;
        }
        None
    }
}


/// Whether `keys` holds `key`.
fn seen_before(keys: &Vec<u64>, key: u64) -> (found: bool)
    ensures
        found == keys@.contains(key),
{
    let mut i: usize = 0;
    while i < keys.len()
        invariant
            i <= keys@.len(),
            forall|k: int| 0 <= k < i ==> keys@[k] != key,
        decreases keys@.len() - i,
    {
        if keys[i] == key {
            return true;
        }
        i += 1;
    }
    false
}

/// The diagnostics of a forcing mate: its length in plies, the proof's
/// nodes and the network's fingerprint.
fn proof_diagnostics(plies: u64, nodes: u64, fingerprint: u64) -> (s: String)
    ensures
        s@ == "{\"mate_proof_plies\":"@ + decimal(plies as nat) + ",\"proof_nodes\":"@ + decimal(nodes as nat)
            + ",\"model\":\""@ + hex_below(fingerprint, 64) + "\"}"@,
{
    let mut out: Vec<char> = Vec::new();
    push_text(&mut out, "{\"mate_proof_plies\":");
    push_u64(&mut out, plies);
    push_text(&mut out, ",\"proof_nodes\":");
    push_u64(&mut out, nodes);
    push_text(&mut out, ",\"model\":\"");
    push_hex16(&mut out, fingerprint);
    push_text(&mut out, "\"}");
    string_from_chars(&out)
}

/// The diagnostics of a search: quiescence nodes, table hits, the proof
/// search's nodes and the network's fingerprint.
fn search_diagnostics(qnodes: u64, hits: u64, proof_nodes: u64, fingerprint: u64) -> (s: String)
    ensures
        s@ == "{\"qnodes\":"@ + decimal(qnodes as nat) + ",\"tt_hits\":"@ + decimal(hits as nat) + ",\"proof_nodes\":"@
            + decimal(proof_nodes as nat) + ",\"prepared_moves\":true,\"model\":\""@ + hex_below(fingerprint, 64) + "\"}"@,
{
    let mut out: Vec<char> = Vec::new();
    push_text(&mut out, "{\"qnodes\":");
    push_u64(&mut out, qnodes);
    push_text(&mut out, ",\"tt_hits\":");
    push_u64(&mut out, hits);
    push_text(&mut out, ",\"proof_nodes\":");
    push_u64(&mut out, proof_nodes);
    push_text(&mut out, ",\"prepared_moves\":true,\"model\":\"");
    push_hex16(&mut out, fingerprint);
    push_text(&mut out, "\"}");
    string_from_chars(&out)
}

impl<'m, R: Fn(i32, i32) -> i32> Cataclysm<'m, R> {
    /// Forget the previous game: an empty table, history, killers, counter
    /// moves and path.
    pub fn new_game(&mut self, _my_color: Color, _game_seed: u64)
        requires
            old(self).wf(),
        ensures
            final(self).wf(),
            final(self).network() == old(self).network(),
            final(self).cleared(),
    {
        let mut k: usize = 0;
        while k < BUCKETS
            invariant
                self.wf(),
                self.model == old(self).model,
                k <= BUCKETS,
                forall|a: int, j: int| 0 <= a < k && 0 <= j < 4 ==> #[trigger] self.table@[a][j] == (Entry {
                    key: 0,
                    mv: 0,
                    value: 0,
                    depth: 0,
                    flags: 0,
                }),
            decreases BUCKETS - k,
        {
            let e = Entry::empty();
            self.table.set(k, [e, e, e, e]);
            proof {
                assert forall|a: int, j: int| 0 <= a < self.table@.len() && 0 <= j < 4 implies -STORED
                    <= #[trigger] self.table@[a][j].value <= STORED by {}
            }
            k += 1;
        }
        let mut k: usize = 0;
        while k < HISTORY_SLOTS
            invariant
                self.wf(),
                self.model == old(self).model,
                k <= HISTORY_SLOTS,
                forall|a: int, j: int| 0 <= a < BUCKETS && 0 <= j < 4 ==> #[trigger] self.table@[a][j] == (Entry {
                    key: 0,
                    mv: 0,
                    value: 0,
                    depth: 0,
                    flags: 0,
                }),
                forall|a: int| 0 <= a < k ==> #[trigger] self.history@[a] == 0,
            decreases HISTORY_SLOTS - k,
        {
            self.history.set(k, 0);
            k += 1;
        }
        let mut k: usize = 0;
        while k < MAX
            invariant
                self.wf(),
                self.model == old(self).model,
                k <= MAX,
                forall|a: int, j: int| 0 <= a < BUCKETS && 0 <= j < 4 ==> #[trigger] self.table@[a][j] == (Entry {
                    key: 0,
                    mv: 0,
                    value: 0,
                    depth: 0,
                    flags: 0,
                }),
                forall|a: int| 0 <= a < HISTORY_SLOTS ==> #[trigger] self.history@[a] == 0,
                forall|a: int| 0 <= a < k ==> #[trigger] self.killers@[a] == [0u32, 0u32],
            decreases MAX - k,
        {
            self.killers.set(k, [0, 0]);
            k += 1;
        }
        let mut k: usize = 0;
        while k < COUNTER_SLOTS
            invariant
                self.wf(),
                self.model == old(self).model,
                k <= COUNTER_SLOTS,
                forall|a: int, j: int| 0 <= a < BUCKETS && 0 <= j < 4 ==> #[trigger] self.table@[a][j] == (Entry {
                    key: 0,
                    mv: 0,
                    value: 0,
                    depth: 0,
                    flags: 0,
                }),
                forall|a: int| 0 <= a < HISTORY_SLOTS ==> #[trigger] self.history@[a] == 0,
                forall|a: int| 0 <= a < MAX ==> #[trigger] self.killers@[a] == [0u32, 0u32],
                forall|a: int| 0 <= a < k ==> #[trigger] self.counters@[a] == 0,
            decreases COUNTER_SLOTS - k,
        {
            self.counters.set(k, 0);
            k += 1;
        }
        self.path.clear();
        self.barrier = 0;
    }

    /// Choose a move: first a forcing mate by checks; else iterative
    /// deepening to the depth limit (a hundred at most, sixty-four without
    /// one), from depth 4 inside a ±35 window that doubles on the failing
    /// side, until the time or node limit, a mate score, or three quarters of
    /// the time; then the principal variation along the table's moves. The
    /// move is a legal move, or the null move when there is none; the
    /// position comes back as it was.
    #[verifier::rlimit(80)]
    pub fn choose_move(&mut self, pos: &mut Position, budget: &SearchBudget) -> (r: (Move, SearchStats))
        requires
            old(self).wf(),
            headroom(old(pos), 128),
        ensures
            final(self).wf(),
            final(self).network() == old(self).network(),
            same_position(final(pos), old(pos)),
            legal_moves(old(pos)).len() == 0 ==> r.0 == Move::null() && r.1.nodes == 0 && r.1.eval_cp == (if attacked(
                old(pos).board@,
                old(pos).king_sq@[old(pos).side_to_move.spec_index()],
                spec_opponent(old(pos).side_to_move),
            ) {
                -MATE
            } else {
                0
            }),
            legal_moves(old(pos)).len() > 0 ==> legal_moves(old(pos)).contains(r.0),
            budget.max_nodes > 0 ==> r.1.nodes <= budget.max_nodes,
    {
        let ghost p0 = *pos;
        self.start = now();
        self.nodes = 0;
        self.qnodes = 0;
        self.hits = 0;
        self.seldepth = 0;
        self.abort = false;
        let micros: u128 = if budget.max_time_us > 0 {
            let m = budget.max_time_us as u128 * 94 / 100;
            if m > 1 {
                m
            } else {
                1
            }
        } else {
            0
        };
        assert(micros < u128::MAX / 4);
        self.micros = micros;
        self.limit = if budget.max_nodes > 0 {
            budget.max_nodes as u64
        } else {
            0
        };
        self.age = self.age.wrapping_add(4) & 252;
        let mut path: Vec<u64> = Vec::new();
        let mut k: usize = 0;
        while k < pos.undo_stack.len()
            invariant
                k <= pos.undo_stack@.len(),
            decreases pos.undo_stack@.len() - k,
        {
            path.push(pos.undo_stack[k].zobrist);
            k += 1;
        }
        self.path = path;
        self.barrier = 0;
        let mut k: usize = 0;
        while k < HISTORY_SLOTS
            invariant
                self.wf(),
                self.model == old(self).model,
                self.limit == (if budget.max_nodes > 0 { budget.max_nodes as u64 } else { 0u64 }),
                k <= HISTORY_SLOTS,
            decreases HISTORY_SLOTS - k,
        {
            let h = self.history[k];
            self.history.set(k, quot(h, 2));
            assert forall|j: int| 0 <= j < HISTORY_SLOTS implies -20000 <= #[trigger] self.history@[j] <= 20000 by {}
            k += 1;
        }
        let root = legal_list(pos);
        proof {
            lemma_legal_moves_congruent(pos, &p0);
        }
        if root.len() == 0 {
            let mut stats = SearchStats::default();
            stats.eval_cp = if pos.in_check() {
                -MATE
            } else {
                0
            };
            return (Move::default(), stats);
        }
        let mut best = root.get(0).mv;
        assert(legal_moves(&p0).contains(root@[0].mv));
        let mut board = Board::with_model(pos, self.model);
        let proof_cap = if budget.max_depth > 0 {
            budget.max_depth
        } else {
            11
        };
        match self.siege(&mut board, proof_cap) {
            Some(line) => {
                let first = line[0];
                if listed(&root, first, Ghost(p0)) {
                    let plies = line.len();
                    let stats = SearchStats {
                        nodes: self.nodes,
                        depth_reached: 0,
                        seldepth: (#[verifier::truncate] (self.seldepth as u32)),
                        eval_cp: MATE - plies as i32,
                        time_used_us: (#[verifier::truncate] (whole_micros(&elapsed(&self.start)) as i64)),
                        diag_json: proof_diagnostics(plies as u64, self.nodes, self.model.fingerprint()),
                        pv: line,
                    };
                    return (first, stats);
                }
            },
            None => {},
        }
        let proof_nodes = self.nodes;
        let mut score = evaluate(&board);
        let mut completed: i32 = 0;
        let cap: i32 = if budget.max_depth > 0 {
            if budget.max_depth < 100 {
                budget.max_depth
            } else {
                100
            }
        } else {
            64
        };
        let mut depth: i32 = 1;
        while depth <= cap
            invariant
                self.wf(),
                self.model == old(self).model,
                self.limit == (if budget.max_nodes > 0 { budget.max_nodes as u64 } else { 0u64 }),
                board.wf(),
                spare(&board, 127),
                cap <= 100,
                1 <= depth <= 101,
                0 <= completed <= 100,
                micros < u128::MAX / 4,
                -INF < score < INF,
                root@.len() == legal_moves(&p0).len(),
                forall|j: int| 0 <= j < root@.len() ==> #[trigger] root@[j].mv == legal_moves(&p0)[j],
                legal_moves(&p0).contains(best),
            decreases 101 - depth,
        {
            self.root_depth = depth;
            self.root_best = best;
            let mut width: i32 = if depth >= 4 {
                35
            } else {
                INF
            };
            let mut lo: i32 = if score - width > -INF {
                score - width
            } else {
                -INF
            };
            let mut hi: i32 = if score + width < INF {
                score + width
            } else {
                INF
            };
            loop
                invariant
                    self.wf(),
                    self.model == old(self).model,
                    self.limit == (if budget.max_nodes > 0 { budget.max_nodes as u64 } else { 0u64 }),
                self.limit == (if budget.max_nodes > 0 { budget.max_nodes as u64 } else { 0u64 }),
                    self.root_depth == depth,
                    board.wf(),
                    spare(&board, 127),
                    1 <= depth <= 100,
                    0 <= completed <= 100,
                    -INF <= lo < hi <= INF,
                    35 <= width <= INF,
                    -INF < score < INF,
                    root@.len() == legal_moves(&p0).len(),
                    forall|j: int| 0 <= j < root@.len() ==> #[trigger] root@[j].mv == legal_moves(&p0)[j],
                    legal_moves(&p0).contains(best),
                decreases lo + INF + INF - hi,
            {
                let value = self.search(&mut board, depth, lo, hi, 0, true);
                if self.abort {
                    break;
                }
                if value <= lo {
                    lo = if value - width > -INF {
                        value - width
                    } else {
                        -INF
                    };
                    width = if width < INF / 2 {
                        width * 2
                    } else {
                        INF
                    };
                } else if value >= hi {
                    hi = if value + width < INF {
                        value + width
                    } else {
                        INF
                    };
                    width = if width < INF / 2 {
                        width * 2
                    } else {
                        INF
                    };
                } else {
                    if listed(&root, self.root_best, Ghost(p0)) {
                        best = self.root_best;
                    }
                    score = value;
                    completed = depth;
                    break;
                }
            }
            if self.abort || score >= WIN || score <= -WIN {
                break;
            }
            if micros > 0 {
                let spent = whole_micros(&elapsed(&self.start));
                if spent >= u128::MAX / 4 || spent * 4 >= micros * 3 {
                    break;
                }
            }
            depth = depth + 1;
        }
        let mut pv: Vec<Move> = Vec::new();
        pv.push(best);
        let mut view = Board::with_model(pos, self.model);
        let mut id = pack(best);
        let mut seen: Vec<u64> = Vec::new();
        let mut step: usize = 0;
        while step < 24
            invariant_except_break
                spare(&view, 128 - step),
            invariant
                view.wf(),
                step <= 24,
                self.wf(),
                self.limit == (if budget.max_nodes > 0 { budget.max_nodes as u64 } else { 0u64 }),
            decreases 24 - step,
        {
            let z = view.pos.zobrist;
            if seen_before(&seen, z) {
                break;
            }
            seen.push(z);
            let mut actions: Vec<Action> = Vec::new();
            view.generate(&mut actions);
            let n = actions.len();
            let mut found = n;
            let mut k: usize = 0;
            while k < n
                invariant
                    k <= n,
                    n == actions@.len(),
                    found == n || found < n,
                decreases n - k,
            {
                if pack(actions[k].mv) == id {
                    found = k;
                    break;
                }
                k += 1;
            }
            if found >= n {
                break;
            }
            let a = &actions[found];
            assert(a.fits());
            let us = view.pos.side_to_move;
            view.make(a);
            if view.checked(us) {
                break;
            }
            if !(pv.len() == 1 && id == pack(best)) {
                pv.push(a.mv);
            }
            match self.probe(view.pos.zobrist) {
                Some(e) => {
                    id = e.mv;
                },
                None => {
                    break;
                },
            }
            step += 1;
        }
        let stats = SearchStats {
            nodes: self.nodes,
            depth_reached: completed as u32,
            seldepth: (#[verifier::truncate] (self.seldepth as u32)),
            eval_cp: score,
            time_used_us: (#[verifier::truncate] (whole_micros(&elapsed(&self.start)) as i64)),
            pv,
            diag_json: search_diagnostics(self.qnodes, self.hits, proof_nodes, self.model.fingerprint()),
        };
        (best, stats)
    }
}

} // verus!

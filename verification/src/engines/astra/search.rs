//! Astra's search: iterative deepening with aspiration windows over a
//! principal-variation alpha-beta search, a transposition table, null-move,
//! static and late-move pruning, late-move reductions, and a quiescence
//! search over captures, promotions and checks.
use vstd::prelude::*;
use crate::engine::shared::{Buckets, SearchLimits, elapsed, whole_micros};
use crate::engines::support::{ScoredMove, ScoredMoves};
use crate::rules::movegen::{
    all_makeable, generate_legal_moves, generate_pseudo_legal_moves, legal_moves, leaves_king_safe,
    legal_prefix, lemma_legal_is_pseudo, lemma_makeable_shaped, lemma_pseudo_legal_makeable,
    lemma_legal_moves_congruent, lemma_safe_move_is_legal, makeable, pseudo_legal, shaped,
};
use crate::rules::position::{
    Position, UndoInfo, affected_mask, attacked, can_make, lemma_restore_undoes_change, lemma_unmake_undoes_make, made,
    move_changes, unmade,
};
use crate::rules::types::{
    Color, Move, Piece, PieceType, SearchBudget, SearchStats, SpecialMove, file_of, opponent, revoked_rights,
    spec_castling_after_move, spec_opponent,
};
use crate::rules::zobrist::{ep_key, side_key};
use crate::engine::walk::{after, lemma_listed_move, lemma_rights_stay, same_position, take_back, unplay};
use super::{BUCKETS, Bound, Entry, MATE, MATE_BOUND, abs, from_table, pack, placement, probe, store};
use super::eval::{PROFILE_COUNT, Profile, evaluate, is_push, lemma_placement_bounds, profile, value};

verus! {

/// Beyond every score.
pub const INF: i32 = 31_000;

/// The deepest ply a search reaches.
pub const MAX_PLY: usize = 128;

/// History slots: side, path kind (capped at 2), from square, to square.
pub const HISTORY: usize = 24576;

/// Late-move reductions: 64 depths by 256 move counts.
pub const REDUCTIONS: usize = 16384;

/// Room for the moves a search from `ply` can still make: castling rights
/// that index the key table, a halfmove clock that can count another move,
/// and a fullmove number that can count all the rest.
pub open spec fn searchable(p: &Position, ply: int) -> bool {
    &&& p.castling_rights < 16
    &&& p.halfmove_clock < u16::MAX
    &&& p.fullmove_number + MAX_PLY - ply < u16::MAX
}

/// Room for a whole search from the root and for its reported line.
pub open spec fn room(p: &Position) -> bool {
    &&& p.castling_rights < 16
    &&& p.halfmove_clock + 64 < u16::MAX
    &&& p.fullmove_number + MAX_PLY < u16::MAX
}

/// Every null-move barrier lies within the undo history.
pub open spec fn barriers_fit(barriers: Seq<usize>, len: nat) -> bool {
    forall|i: int| 0 <= i < barriers.len() ==> #[trigger] barriers[i] <= len
}

/// A table entry whose score a search from any ply can read back.
pub open spec fn entry_fits(e: Entry) -> bool {
    -MATE <= e.score <= MATE
}

/// What a search with the window (`alpha`, `beta`) at `ply` can return: a
/// score no further out than the window or a mate found from this ply.
pub open spec fn window_bound(ply: int, alpha: int, beta: int) -> int {
    let a = abs(alpha);
    let b = abs(beta);
    let m = MATE - ply;
    if a >= b && a >= m {
        a
    } else if b >= m {
        b
    } else {
        m
    }
}

/// An Astra engine: one profile, its table, history and killer moves, and the
/// limits of the search under way.
pub struct Astra {
    variant: usize,
    profile: Profile,
    table: Buckets<Entry, 2>,
    history: Vec<i32>,
    killers: Vec<u32>,
    reductions: Vec<i32>,
    null_barriers: Vec<usize>,
    limits: SearchLimits,
    qnodes: u64,
    tt_hits: u64,
    root_depth: i32,
    root_best: Move,
}

/// A move made during a search leaves room for the search below it.
proof fn lemma_child_room(p0: &Position, m: Move, p1: &Position, ply: int)
    requires
        made(p0, m, p1),
        searchable(p0, ply),
        ply < MAX_PLY - 1,
        p0.halfmove_clock < 100,
    ensures
        searchable(p1, ply + 1),
        p1.halfmove_clock <= 100,
{
    let changes = move_changes(p0.board@, m, p0.side_to_move);
    lemma_rights_stay(p0.castling_rights, revoked_rights(affected_mask(changes, changes.len())));
}

/// A key's bucket is one of the table's.
proof fn lemma_bucket_in_range(key: u64)
    ensures
        0 <= super::bucket_of(key) < BUCKETS,
{
    assert((key & 0xFFFFF) < 1048576) by (bit_vector);
}

/// Whether `mv` leaves the mover's king safe: made, tested and taken back.
fn try_move(pos: &mut Position, mv: Move) -> (safe: bool)
    requires
        can_make(old(pos), mv),
    ensures
        same_position(final(pos), old(pos)),
        safe == leaves_king_safe(old(pos), mv),
{
    let ghost p0 = *pos;
    let side = pos.side_to_move;
    pos.make_move(&mv);
    let safe = !pos.in_check_color(side);
    take_back(pos, Ghost(p0), Ghost(mv));
    safe
}

/// How often `key` occurs among the hashes of the last `n` entries of `stack`.
pub open spec fn back_repeats(stack: Seq<UndoInfo>, n: int, key: u64) -> nat
    decreases n,
{
    if n <= 0 {
        0
    } else {
        back_repeats(stack, n - 1, key) + (if stack[stack.len() - n].zobrist == key {
            1nat
        } else {
            0nat
        })
    }
}

/// More entries hold no fewer occurrences.
proof fn lemma_back_repeats_grow(stack: Seq<UndoInfo>, a: int, b: int, key: u64)
    requires
        0 <= a <= b,
    ensures
        back_repeats(stack, a, key) <= back_repeats(stack, b, key),
    decreases b - a,
{
    if a < b {
        lemma_back_repeats_grow(stack, a, b - 1, key);
    }
}

/// Whether the side to move has a legal move. The position comes back as it was.
fn has_legal_move(pos: &mut Position) -> (found: bool)
    requires
        old(pos).castling_rights < 16,
        old(pos).halfmove_clock < u16::MAX,
        old(pos).side_to_move == Color::Black ==> old(pos).fullmove_number < u16::MAX,
    ensures
        same_position(final(pos), old(pos)),
        found == (legal_moves(old(pos)).len() > 0),
{
    let ghost p0 = *pos;
    let mut buffer: Vec<Move> = Vec::new();
    generate_pseudo_legal_moves(pos, &mut buffer);
    proof {
        lemma_pseudo_legal_makeable(&p0);
    }
    assert(buffer@ =~= pseudo_legal(&p0));
    let n = buffer.len();
    let mut i: usize = 0;
    while i < n
        invariant
            n == buffer@.len(),
            i <= n,
            buffer@ == pseudo_legal(&p0),
            all_makeable(p0.board@, buffer@),
            p0.castling_rights < 16,
            p0.halfmove_clock < u16::MAX,
            p0.side_to_move == Color::Black ==> p0.fullmove_number < u16::MAX,
            same_position(pos, &p0),
            *old(pos) == p0,
            legal_prefix(&p0, buffer@, i as nat).len() == 0,
        decreases n - i,
    {
        let mv = buffer[i];
        assert(makeable(p0.board@, buffer@[i as int]));
        if try_move(pos, mv) {
            proof {
                lemma_safe_move_is_legal(&p0, i as int);
            }
            return true;
        }
        assert(!leaves_king_safe(&p0, buffer@[i as int]));
        i += 1;
    }
    false
}

impl Astra {
    /// The engine's invariant, null-move barriers aside: a table of the full
    /// size whose scores any ply can read back, bounded history and
    /// reductions, killer slots for every ply, counters within the nodes.
    pub closed spec fn inner(&self) -> bool {
        &&& self.variant < PROFILE_COUNT
        &&& self.table@.len() == BUCKETS
        &&& forall|i: int, j: int| 0 <= i < BUCKETS && 0 <= j < 2 ==> entry_fits(#[trigger] self.table@[i][j])
        &&& self.history@.len() == HISTORY
        &&& forall|k: int| 0 <= k < HISTORY ==> 0 <= #[trigger] self.history@[k] <= 16384
        &&& self.killers@.len() == 2 * MAX_PLY
        &&& self.reductions@.len() == REDUCTIONS
        &&& forall|k: int| 0 <= k < REDUCTIONS ==> 0 <= #[trigger] self.reductions@[k] <= 64
        &&& self.qnodes + self.tt_hits <= self.limits.nodes
        &&& self.limits.limit > 0 ==> self.limits.nodes <= self.limits.limit
        &&& 0 <= self.root_depth <= 64
    }

    /// The engine's invariant between searches: no null move under way.
    pub closed spec fn wf(&self) -> bool {
        &&& self.inner()
        &&& self.null_barriers@.len() == 0
    }

    /// A fresh engine with profile `variant` and the late-move reduction
    /// table: 64 rows of depth by 256 move counts, each between 0 and 64.
    pub fn new(variant: usize, reductions: Vec<i32>) -> (e: Astra)
        requires
            variant < PROFILE_COUNT,
            reductions@.len() == REDUCTIONS,
            forall|k: int| 0 <= k < REDUCTIONS ==> 0 <= #[trigger] reductions@[k] <= 64,
            vstd::layout::size_of::<[Entry; 2]>() == 32,
        ensures
            e.wf(),
            e.variant() == variant,
    {
        assert(1048576usize & (1048576usize - 1) as usize == 0) by (bit_vector);
        let table: Buckets<Entry, 2> = Buckets::new(BUCKETS * core::mem::size_of::<[Entry; 2]>());
        let ghost filled = table@;
        let mut history: Vec<i32> = Vec::new();
        let mut k: usize = 0;
        while k < HISTORY
            invariant
                k <= HISTORY,
                history@.len() == k,
                forall|j: int| 0 <= j < k ==> #[trigger] history@[j] == 0,
            decreases HISTORY - k,
        {
            history.push(0);
            k += 1;
        }
        let mut killers: Vec<u32> = Vec::new();
        let mut k: usize = 0;
        while k < 2 * MAX_PLY
            invariant
                k <= 2 * MAX_PLY,
                killers@.len() == k,
            decreases 2 * MAX_PLY - k,
        {
            killers.push(0);
            k += 1;
        }
        let mut table = table;
        table.fill([Entry::default(); 2]);
        Astra {
            variant,
            profile: profile(variant),
            table,
            history,
            killers,
            reductions,
            null_barriers: Vec::new(),
            limits: SearchLimits::default(),
            qnodes: 0,
            tt_hits: 0,
            root_depth: 0,
            root_best: Move::default(),
        }
    }

    pub closed spec fn variant(&self) -> usize {
        self.variant
    }

    /// Whether the search under way has stopped, at its node or time limit.
    pub closed spec fn halted(&self) -> bool {
        self.limits.stopped
    }

    /// The profile the engine plays with.
    pub closed spec fn profile_spec(&self) -> Profile {
        self.profile
    }

    /// The profile's name.
    pub fn name(&self) -> (s: &'static str)
        ensures
            s == self.profile_spec().name,
    {
        self.profile.name
    }

    /// Forget the previous game: an empty table, cleared history and killers.
    pub fn new_game(&mut self, color: Color, seed: u64)
        requires
            old(self).inner(),
        ensures
            final(self).wf(),
            final(self).variant() == old(self).variant(),
    {
        self.table.fill([Entry::default(); 2]);
        let mut k: usize = 0;
        while k < HISTORY
            invariant
                self.inner(),
                self.variant == old(self).variant,
                k <= HISTORY,
            decreases HISTORY - k,
        {
            self.history.set(k, 0);
            k += 1;
        }
        let mut k: usize = 0;
        while k < 2 * MAX_PLY
            invariant
                self.inner(),
                self.variant == old(self).variant,
                k <= 2 * MAX_PLY,
            decreases 2 * MAX_PLY - k,
        {
            self.killers.set(k, 0);
            k += 1;
        }
        self.null_barriers.clear();
    }

    /// Count a node; a search that cannot count another node stops.
    fn tick(&mut self, ply: usize) -> (stop: bool)
        requires
            old(self).inner(),
        ensures
            final(self).inner(),
            !stop ==> final(self).limits.nodes == old(self).limits.nodes + 1,
            final(self).limits.micros == old(self).limits.micros,
            final(self).limits.limit == old(self).limits.limit,
            final(self).limits.started == old(self).limits.started,
            stop ==> final(self).limits.stopped,
            *final(self) == (Astra { limits: final(self).limits, ..*old(self) }),
    {
        if self.limits.nodes == u64::MAX {
            self.limits.stopped = true;
            return true;
        }
        self.limits.tick(ply)
    }

    /// Whether the position is drawn for the search: the fifty-move rule, or
    /// a repetition since the last irreversible move and the last null move,
    /// once inside the tree and twice at the root.
    /// Whether `pos` is drawn `ply` plies from the root: by the fifty-move
    /// rule, or by its key recurring among the positions the halfmove clock
    /// covers since the last null move, twice at the root and once elsewhere.
    pub closed spec fn drawn(&self, pos: &Position, ply: usize) -> bool {
        let len = pos.undo_stack@.len() as int;
        let last = if self.null_barriers@.len() > 0 {
            self.null_barriers@[self.null_barriers@.len() - 1] as int
        } else {
            0
        };
        let available = if (pos.halfmove_clock as int) < len - last {
            pos.halfmove_clock as int
        } else {
            len - last
        };
        pos.halfmove_clock >= 100 || back_repeats(pos.undo_stack@, available, pos.zobrist) >= (if ply == 0 {
            2nat
        } else {
            1nat
        })
    }

    fn draw(&self, pos: &Position, ply: usize) -> (b: bool)
        requires
            barriers_fit(self.null_barriers@, pos.undo_stack@.len()),
        ensures
            pos.halfmove_clock >= 100 ==> b,
            b == self.drawn(pos, ply),
    {
        if pos.halfmove_clock >= 100 {
            return true;
        }
        let len = pos.undo_stack.len();
        let last = if self.null_barriers.len() > 0 {
            self.null_barriers[self.null_barriers.len() - 1]
        } else {
            0
        };
        let since_null = len - last;
        let clock = pos.halfmove_clock as usize;
        let available = if clock < since_null {
            clock
        } else {
            since_null
        };
        let needed: usize = if ply == 0 {
            2
        } else {
            1
        };
        let mut count: usize = 0;
        let mut i: usize = 0;
        while i < available && count < needed
            invariant
                available <= len,
                len == pos.undo_stack@.len(),
                count <= i,
                count <= needed,
                i <= available,
                count == back_repeats(pos.undo_stack@, i as int, pos.zobrist),
            decreases available - i,
        {
            if pos.undo_stack[len - 1 - i].zobrist == pos.zobrist {
                count += 1;
            }
            i += 1;
        }
        proof {
            lemma_back_repeats_grow(pos.undo_stack@, i as int, available as int, pos.zobrist);
        }
        count == needed
    }

    /// The score of a drawn position: a mate when the profile keeps terminal
    /// witnesses and the side to move is checkmated, otherwise zero.
    fn draw_score(&self, pos: &mut Position, ply: usize) -> (s: Option<i32>)
        requires
            ply < MAX_PLY,
            barriers_fit(self.null_barriers@, old(pos).undo_stack@.len()),
            old(pos).castling_rights < 16,
            old(pos).halfmove_clock < u16::MAX,
            old(pos).side_to_move == Color::Black ==> old(pos).fullmove_number < u16::MAX,
        ensures
            same_position(final(pos), old(pos)),
            match s {
                Some(v) => v == 0 || v == -MATE + ply,
                None => old(pos).halfmove_clock < 100,
            },
            s is None <==> !self.drawn(old(pos), ply),
            s == Some((-MATE + ply as i32) as i32) <==> (self.drawn(old(pos), ply) && self.variant() != 0 && attacked(
                old(pos).board@,
                old(pos).king_sq@[old(pos).side_to_move.spec_index()],
                spec_opponent(old(pos).side_to_move),
            ) && legal_moves(old(pos)).len() == 0),
    {
        if !self.draw(pos, ply) {
            return None;
        }
        if self.variant != 0 && pos.in_check() && !has_legal_move(pos) {
            Some(-MATE + ply as i32)
        } else {
            Some(0)
        }
    }

    /// A static cutoff, unless the profile keeps terminal witnesses and the
    /// side to move has no legal move: then the position is stalemate, zero.
    fn static_cutoff(&self, pos: &mut Position, score: i32) -> (s: i32)
        requires
            old(pos).castling_rights < 16,
            old(pos).halfmove_clock < u16::MAX,
            old(pos).side_to_move == Color::Black ==> old(pos).fullmove_number < u16::MAX,
        ensures
            s == (if self.variant() != 0 && legal_moves(old(pos)).len() == 0 {
                0
            } else {
                score
            }),
            same_position(final(pos), old(pos)),
    {
        if self.variant != 0 && !has_legal_move(pos) {
            0
        } else {
            score
        }
    }

    /// The history slot of a move: side to move, path kind capped at 2, from, to.
    fn history_index(pos: &Position, mv: Move) -> (i: usize)
        requires
            mv.from < 64,
            mv.to < 64,
        ensures
            i < HISTORY,
            i == ((pos.side_to_move.spec_index() * 3 + (if mv.path_kind < 2 {
                mv.path_kind as int
            } else {
                2
            })) * 64 + mv.from) * 64 + mv.to,
    {
        let kind: usize = if mv.path_kind < 2 {
            mv.path_kind as usize
        } else {
            2
        };
        ((pos.side_to_move.index() * 3 + kind) * 64 + mv.from as usize) * 64 + mv.to as usize
    }

    /// The pseudo-legal moves in generation order, each scored for ordering:
    /// history and placement gain, then pushes, killers, captures by victim
    /// and attacker, promotions, and the table move above all.
    fn moves(&self, pos: &Position, ply: usize, table_move: u32) -> (list: ScoredMoves)
        requires
            self.inner(),
            ply < MAX_PLY,
        ensures
            list@.len() == pseudo_legal(pos).len(),
            forall|k: int| 0 <= k < list@.len() ==> #[trigger] list@[k].mv == pseudo_legal(pos)[k],
    {
        let mut buffer: Vec<Move> = Vec::new();
        generate_pseudo_legal_moves(pos, &mut buffer);
        proof {
            lemma_pseudo_legal_makeable(pos);
        }
        assert(buffer@ =~= pseudo_legal(pos));
        let mut list = ScoredMoves::new();
        let n = buffer.len();
        let mut i: usize = 0;
        while i < n
            invariant
                self.inner(),
                ply < MAX_PLY,
                n == buffer@.len(),
                i <= n,
                buffer@ == pseudo_legal(pos),
                all_makeable(pos.board@, buffer@),
                list@.len() == i,
                forall|k: int| 0 <= k < i ==> #[trigger] list@[k].mv == buffer@[k],
            decreases n - i,
        {
            let mv = buffer[i];
            assert(makeable(pos.board@, buffer@[i as int]));
            proof {
                lemma_makeable_shaped(pos.board@, mv);
            }
            list.push(mv);
            let index = list.len() - 1;
            let target = pos.board[mv.to as usize];
            let capture = (!target.is_empty() && target.color != pos.side_to_move) || mv.special
                == SpecialMove::EnPassant;
            let mover = pos.board[mv.from as usize].piece_type;
            proof {
                lemma_placement_bounds(mover, pos.side_to_move, mv.to, false);
                lemma_placement_bounds(mover, pos.side_to_move, mv.from, false);
            }
            let h = self.history[Self::history_index(pos, mv)];
            let mut score = h + placement(mover, pos.side_to_move, mv.to, false) - placement(
                mover,
                pos.side_to_move,
                mv.from,
                false,
            );
            if is_push(pos, mv) {
                score = score + 80_000;
            }
            let id = pack(mv);
            if id == self.killers[ply * 2 + 1] {
                score = score + 200_000;
            }
            if id == self.killers[ply * 2] {
                score = score + 250_000;
            }
            if capture {
                score = score + 2_000_000 + value(target.piece_type) * 16 - value(mover);
            }
            if mv.special == SpecialMove::Promotion {
                score = score + 1_500_000 + value(mv.promo_piece);
            }
            if id == table_move && table_move != 0 {
                score = i32::MAX;
            }
            list.set(index, ScoredMove { mv, score });
            i += 1;
        }
        list
    }
}

/// Play a listed move of `p1` during a search: it leaves room for the search
/// below, and it is safe exactly when it leaves the mover's king unattacked,
/// which makes it a legal move.
fn play(pos: &mut Position, mv: Move, Ghost(p1): Ghost<Position>, Ghost(ply): Ghost<int>) -> (safe: bool)
    requires
        same_position(old(pos), &p1),
        pseudo_legal(&p1).contains(mv),
        searchable(&p1, ply),
        p1.halfmove_clock < 100,
        0 <= ply < MAX_PLY - 1,
    ensures
        after(&p1, mv, final(pos)),
        searchable(final(pos), ply + 1),
        final(pos).undo_stack@.len() == p1.undo_stack@.len() + 1,
        safe == leaves_king_safe(&p1, mv),
        safe ==> legal_moves(&p1).contains(mv),
{
    proof {
        lemma_listed_move(&p1, mv);
    }
    let side = pos.side_to_move;
    pos.make_move(&mv);
    proof {
        reveal(after);
        lemma_child_room(&p1, mv, pos, ply);
    }
    !pos.in_check_color(side)
}

/// Select the best-scored move of `index..` into `index`: the list keeps its
/// length, and every move stays one of `listed`.
fn pick(moves: &mut ScoredMoves, index: usize, Ghost(listed): Ghost<Seq<Move>>) -> (mv: Move)
    requires
        index < old(moves)@.len(),
        forall|k: int| 0 <= k < old(moves)@.len() ==> listed.contains(#[trigger] old(moves)@[k].mv),
    ensures
        final(moves)@.len() == old(moves)@.len(),
        forall|k: int| 0 <= k < final(moves)@.len() ==> listed.contains(#[trigger] final(moves)@[k].mv),
        mv == final(moves)@[index as int].mv,
        listed.contains(mv),
{
    let ghost before = moves@;
    moves.pick_best(index);
    assert forall|k: int| 0 <= k < moves@.len() implies listed.contains(#[trigger] moves@[k].mv) by {
        assert(exists|j: int| 0 <= j < before.len() && moves@[k] == before[j]);
        let j = choose|j: int| 0 <= j < before.len() && moves@[k] == before[j];
        assert(listed.contains(before[j].mv));
    }
    moves.get(index).mv
}

impl Astra {
    /// The quiescence search: stand pat unless in check, then captures,
    /// promotions and (near the horizon) checking moves, or every evasion
    /// in check; a node limit or a stop answers zero.
    #[verifier::rlimit(60)]
    fn qsearch(&mut self, pos: &mut Position, alpha: i32, beta: i32, ply: usize, qply: usize) -> (score: i32)
        requires
            old(self).inner(),
            ply < MAX_PLY,
            qply <= ply,
            searchable(old(pos), ply as int),
            barriers_fit(old(self).null_barriers@, old(pos).undo_stack@.len()),
            -INF <= alpha < beta <= INF,
        ensures
            final(self).inner(),
            final(self).null_barriers@ == old(self).null_barriers@,
            final(self).root_best == old(self).root_best,
            final(self).root_depth == old(self).root_depth,
            final(self).variant == old(self).variant,
            final(self).limits.micros == old(self).limits.micros,
            final(self).limits.limit == old(self).limits.limit,
            final(self).limits.started == old(self).limits.started,
            same_position(final(pos), old(pos)),
            -window_bound(ply as int, alpha as int, beta as int) <= score <= window_bound(
                ply as int,
                alpha as int,
                beta as int,
            ),
            !final(self).limits.stopped && !old(self).drawn(old(pos), ply) && ply < MAX_PLY - 1 && attacked(
                old(pos).board@,
                old(pos).king_sq@[old(pos).side_to_move.spec_index()],
                spec_opponent(old(pos).side_to_move),
            ) && legal_moves(old(pos)).len() == 0 ==> score == -MATE + ply,
        decreases MAX_PLY - ply, 0usize,
    {
        let ghost p0 = *pos;
        if self.tick(ply) {
            return 0;
        }
        self.qnodes = self.qnodes + 1;
        match self.draw_score(pos, ply) {
            Some(s) => {
                return s;
            },
            None => {},
        }
        if ply >= MAX_PLY - 1 {
            return evaluate(pos, self.profile);
        }
        let check = pos.in_check();
        let stand_pat = evaluate(pos, self.profile);
        let mut a = alpha;
        if !check {
            if stand_pat >= beta {
                return self.static_cutoff(pos, stand_pat);
            }
            if stand_pat > a {
                a = stand_pat;
            }
            if qply >= 12 {
                return self.static_cutoff(pos, a);
            }
        }
        let ghost p1 = *pos;
        proof {
            lemma_legal_moves_congruent(&p1, &p0);
        }
        let mut moves = self.moves(pos, ply, 0);
        let ghost listed = pseudo_legal(&p1);
        let us = pos.side_to_move;
        let n = moves.len();
        let horizon: usize = if self.profile.tactical {
            3
        } else {
            1
        };
        let mut legal: usize = 0;
        let mut index: usize = 0;
        while index < n
            invariant
                self.inner(),
                self.null_barriers@ == old(self).null_barriers@,
                self.root_best == old(self).root_best,
                self.root_depth == old(self).root_depth,
                self.variant == old(self).variant,
                self.limits.micros == old(self).limits.micros,
                self.limits.limit == old(self).limits.limit,
                self.limits.started == old(self).limits.started,
                same_position(pos, &p1),
                same_position(&p1, &p0),
                p0 == *old(pos),
                searchable(&p1, ply as int),
                p1.halfmove_clock < 100,
                ply < MAX_PLY - 1,
                qply <= ply,
                legal <= index,
                barriers_fit(self.null_barriers@, p1.undo_stack@.len()),
                us == p1.side_to_move,
                moves@.len() == n,
                forall|k: int| 0 <= k < n ==> listed.contains(#[trigger] moves@[k].mv),
                listed == pseudo_legal(&p1),
                -INF <= alpha <= a < beta <= INF,
                -(MATE_BOUND - 1) <= stand_pat <= MATE_BOUND - 1,
                index <= n,
                legal > 0 ==> legal_moves(&p1).len() > 0,
                legal_moves(&p1) == legal_moves(&p0),
            decreases n - index,
        {
            let mv = pick(&mut moves, index, Ghost(listed));
            proof {
                lemma_listed_move(&p1, mv);
            }
            let target = pos.board[mv.to as usize];
            let capture = (!target.is_empty() && target.color != us) || mv.special == SpecialMove::EnPassant;
            let promotion = mv.special == SpecialMove::Promotion;
            if !check && !capture && !promotion && qply >= horizon {
                index += 1;
                continue;
            }
            let safe = play(pos, mv, Ghost(p1), Ghost(ply as int));
            let ghost made_pos = *pos;
            if !safe {
                unplay(pos, Ghost(p1), Ghost(mv), Ghost(made_pos));
                index += 1;
                continue;
            }
            legal += 1;
            assert(legal_moves(&p1).contains(mv));
            let gives_check = pos.in_check();
            if !check && !capture && !promotion && !gives_check {
                unplay(pos, Ghost(p1), Ghost(mv), Ghost(made_pos));
                index += 1;
                continue;
            }
            if !check && !self.profile.conservative && !gives_check && !promotion && capture && stand_pat + value(
                target.piece_type,
            ) + 250 < a {
                unplay(pos, Ghost(p1), Ghost(mv), Ghost(made_pos));
                index += 1;
                continue;
            }
            let child = self.qsearch(pos, -beta, -a, ply + 1, qply + 1);
            let score = -child;
            unplay(pos, Ghost(p1), Ghost(mv), Ghost(made_pos));
            if self.limits.stopped {
                return 0;
            }
            if score >= beta {
                return score;
            }
            if score > a {
                a = score;
            }
            index += 1;
        }
        proof {
            lemma_legal_moves_congruent(&p1, &p0);
        }
        if !check && legal == 0 && self.variant != 0 && !has_legal_move(pos) {
            return 0;
        }
        if check && legal == 0 {
            -MATE + ply as i32
        } else {
            a
        }
    }
}

/// The piece is a knight, bishop, rook or queen of `c`.
pub open spec fn officer_of(p: Piece, c: Color) -> bool {
    p.color == c && (p.piece_type == PieceType::Knight || p.piece_type == PieceType::Bishop || p.piece_type
        == PieceType::Rook || p.piece_type == PieceType::Queen)
}

/// Whether the side to move has a knight, bishop, rook or queen.
fn has_officer(pos: &Position) -> (b: bool)
    ensures
        b == exists|sq: int| 0 <= sq < 64 && #[trigger] officer_of(pos.board@[sq], pos.side_to_move),
{
    let mut sq: usize = 0;
    while sq < 64
        invariant
            sq <= 64,
            forall|q: int| 0 <= q < sq ==> !#[trigger] officer_of(pos.board@[q], pos.side_to_move),
        decreases 64 - sq,
    {
        let p = pos.board[sq];
        if p.is_color(pos.side_to_move) && (p.piece_type == PieceType::Knight || p.piece_type == PieceType::Bishop
            || p.piece_type == PieceType::Rook || p.piece_type == PieceType::Queen) {
            assert(officer_of(pos.board@[sq as int], pos.side_to_move));
            return true;
        }
        sq += 1;
    }
    false
}

impl Astra {
    /// The alpha-beta search of `depth` plies from `ply`: limits, draws and
    /// the ply cap first, then mate-distance bounds, the table, static and
    /// null-move pruning, and the moves. A node limit or a stop answers zero.
    #[verifier::rlimit(60)]
    fn search(&mut self, pos: &mut Position, depth: i32, alpha: i32, beta: i32, ply: usize, allow_null: bool) -> (score: i32)
        requires
            old(self).inner(),
            ply < MAX_PLY,
            depth <= 64,
            searchable(old(pos), ply as int),
            barriers_fit(old(self).null_barriers@, old(pos).undo_stack@.len()),
            -INF <= alpha < beta <= INF,
        ensures
            final(self).inner(),
            final(self).null_barriers@ == old(self).null_barriers@,
            final(self).root_depth == old(self).root_depth,
            final(self).variant == old(self).variant,
            final(self).limits.micros == old(self).limits.micros,
            final(self).limits.limit == old(self).limits.limit,
            final(self).limits.started == old(self).limits.started,
            same_position(final(pos), old(pos)),
            -window_bound(ply as int, alpha as int, beta as int) <= score <= window_bound(
                ply as int,
                alpha as int,
                beta as int,
            ),
            depth > 0 && alpha <= -(MATE - ply) ==> -(MATE - ply) <= score <= MATE - ply,
            depth > 0 ==> (-(MATE - ply) <= score <= MATE - ply || score <= alpha || score >= beta),
            ply > 0 ==> final(self).root_best == old(self).root_best,
            ply == 0 ==> final(self).root_best == old(self).root_best || legal_moves(old(pos)).contains(
                final(self).root_best,
            ),
            depth > 0 && ply == 0 && !final(self).limits.stopped && !old(self).drawn(old(pos), ply) && alpha < MATE - 1
                && beta > -MATE && legal_moves(old(pos)).len() == 0 ==> score == (if attacked(
                old(pos).board@,
                old(pos).king_sq@[old(pos).side_to_move.spec_index()],
                spec_opponent(old(pos).side_to_move),
            ) {
                -MATE
            } else {
                0
            }),
        decreases MAX_PLY - ply, 3usize,
    {
        if depth <= 0 {
            return self.qsearch(pos, alpha, beta, ply, 0);
        }
        let ghost p0 = *pos;
        if self.tick(ply) {
            return 0;
        }
        match self.draw_score(pos, ply) {
            Some(s) => {
                return s;
            },
            None => {},
        }
        if ply >= MAX_PLY - 1 {
            return evaluate(pos, self.profile);
        }
        let floor = -MATE + ply as i32;
        let ceiling = MATE - ply as i32 - 1;
        let lo = if alpha > floor {
            alpha
        } else {
            floor
        };
        let hi = if beta < ceiling {
            beta
        } else {
            ceiling
        };
        if lo >= hi {
            return lo;
        }
        let pv = hi - lo > 1;
        let check = pos.in_check();
        let depth = if check && (ply as i32) < 2 * self.root_depth {
            depth + 1
        } else {
            depth
        };
        let cached = probe(&self.table, pos.zobrist);
        proof {
            lemma_bucket_in_range(pos.zobrist);
            assert(entry_fits(self.table@[super::bucket_of(pos.zobrist)][0]));
            assert(entry_fits(self.table@[super::bucket_of(pos.zobrist)][1]));
        }
        match cached {
            Some(entry) => {
                if entry.depth as i32 >= depth && !pv && ply > 0 {
                    let score = from_table(entry.score, ply);
                    if entry.bound == Bound::Exact || (entry.bound == Bound::Lower && score >= hi) || (entry.bound
                        == Bound::Upper && score <= lo) {
                        self.tt_hits = self.tt_hits + 1;
                        return score;
                    }
                }
            },
            None => {},
        }
        let static_eval = evaluate(pos, self.profile);
        if !self.profile.conservative && !check && !pv && ply > 0 && -MATE_BOUND < hi && hi < MATE_BOUND {
            if depth <= 5 && static_eval - 110 * depth >= hi {
                return self.static_cutoff(pos, static_eval);
            }
            if allow_null && depth >= 3 && static_eval >= hi && has_officer(pos) {
                match self.try_null(pos, depth, hi, ply) {
                    Some(s) => {
                        return s;
                    },
                    None => {},
                }
            }
        }
        let table_move = match cached {
            Some(entry) => entry.mv,
            None => 0,
        };
        proof {
            lemma_legal_moves_congruent(pos, &p0);
        }
        self.search_moves(pos, depth, lo, hi, ply, check, pv, table_move)
    }

    /// The null move: pass the turn and search the reduced depth with a zero
    /// window at `beta`; a fail high is a cutoff (a mate score reported as
    /// `beta`), a stop answers zero, anything else no decision.
    fn try_null(&mut self, pos: &mut Position, depth: i32, beta: i32, ply: usize) -> (r: Option<i32>)
        requires
            old(self).inner(),
            ply < MAX_PLY - 1,
            3 <= depth <= 65,
            searchable(old(pos), ply as int),
            old(pos).halfmove_clock < 100,
            barriers_fit(old(self).null_barriers@, old(pos).undo_stack@.len()),
            -MATE_BOUND < beta < MATE_BOUND,
        ensures
            final(self).inner(),
            final(self).null_barriers@ == old(self).null_barriers@,
            final(self).root_depth == old(self).root_depth,
            final(self).root_best == old(self).root_best,
            final(self).variant == old(self).variant,
            final(self).limits.micros == old(self).limits.micros,
            final(self).limits.limit == old(self).limits.limit,
            final(self).limits.started == old(self).limits.started,
            same_position(final(pos), old(pos)),
            match r {
                Some(s) => -MATE_BOUND <= s <= MATE_BOUND,
                None => true,
            },
        decreases MAX_PLY - ply, 2usize,
    {
        let side = pos.side_to_move;
        let ep = pos.ep_square;
        let key = pos.zobrist;
        pos.side_to_move = opponent(side);
        pos.zobrist = pos.zobrist ^ side_key();
        if ep < 64 {
            pos.zobrist = pos.zobrist ^ ep_key(file_of(ep));
        }
        pos.ep_square = 64;
        let ghost passed = *pos;
        self.null_barriers.push(pos.undo_stack.len());
        let r3 = 3 + depth / 5;
        let reduction = if r3 < depth - 1 {
            r3
        } else {
            depth - 1
        };
        let child = self.search(pos, depth - 1 - reduction, -beta, 1 - beta, ply + 1, false);
        let score = -child;
        self.null_barriers.pop();
        assert(self.null_barriers@ =~= old(self).null_barriers@);
        pos.side_to_move = side;
        pos.ep_square = ep;
        pos.zobrist = key;
        if self.limits.stopped {
            return Some(0);
        }
        if score >= beta {
            let reported = if score >= MATE_BOUND {
                beta
            } else {
                score
            };
            return Some(self.static_cutoff(pos, reported));
        }
        None
    }

    /// Search the moves in order: late quiet moves pruned near the leaves,
    /// late moves reduced and re-searched when they beat alpha, the first move
    /// with the full window and the rest with a zero window; a cutoff by a
    /// quiet move feeds the history and the killers; the result goes to the
    /// table.
    #[verifier::rlimit(80)]
    fn search_moves(
        &mut self,
        pos: &mut Position,
        depth: i32,
        alpha: i32,
        beta: i32,
        ply: usize,
        check: bool,
        pv: bool,
        table_move: u32,
    ) -> (score: i32)
        requires
            old(self).inner(),
            ply < MAX_PLY - 1,
            1 <= depth <= 65,
            searchable(old(pos), ply as int),
            old(pos).halfmove_clock < 100,
            barriers_fit(old(self).null_barriers@, old(pos).undo_stack@.len()),
            -(MATE - ply) <= alpha < beta <= MATE - ply - 1,
        ensures
            final(self).inner(),
            final(self).null_barriers@ == old(self).null_barriers@,
            final(self).root_depth == old(self).root_depth,
            final(self).variant == old(self).variant,
            final(self).limits.micros == old(self).limits.micros,
            final(self).limits.limit == old(self).limits.limit,
            final(self).limits.started == old(self).limits.started,
            same_position(final(pos), old(pos)),
            -(MATE - ply) <= score <= MATE - ply,
            ply > 0 ==> final(self).root_best == old(self).root_best,
            ply == 0 ==> final(self).root_best == old(self).root_best || legal_moves(old(pos)).contains(
                final(self).root_best,
            ),
            legal_moves(old(pos)).len() == 0 ==> score == (if check {
                -MATE + ply
            } else {
                0
            }),
        decreases MAX_PLY - ply, 2usize,
    {
        let ghost p1 = *pos;
        let mut moves = self.moves(pos, ply, table_move);
        let ghost listed = pseudo_legal(&p1);
        let us = pos.side_to_move;
        let key = pos.zobrist;
        let n = moves.len();
        let mut legal: usize = 0;
        let mut best_score: i32 = -INF;
        let mut best = Move::default();
        let mut a = alpha;
        let mut index: usize = 0;
        while index < n
            invariant_except_break
                a < beta,
            invariant
                self.inner(),
                self.null_barriers@ == old(self).null_barriers@,
                self.root_depth == old(self).root_depth,
                self.variant == old(self).variant,
                self.limits.micros == old(self).limits.micros,
                self.limits.limit == old(self).limits.limit,
                self.limits.started == old(self).limits.started,
                ply > 0 ==> self.root_best == old(self).root_best,
                ply == 0 ==> self.root_best == old(self).root_best || legal_moves(&p1).contains(self.root_best),
                same_position(pos, &p1),
                p1 == *old(pos),
                searchable(&p1, ply as int),
                p1.halfmove_clock < 100,
                ply < MAX_PLY - 1,
                1 <= depth <= 65,
                barriers_fit(self.null_barriers@, p1.undo_stack@.len()),
                us == p1.side_to_move,
                moves@.len() == n,
                forall|k: int| 0 <= k < n ==> listed.contains(#[trigger] moves@[k].mv),
                listed == pseudo_legal(&p1),
                -(MATE - ply) <= alpha <= a <= MATE - ply,
                alpha < beta <= MATE - ply - 1,
                legal <= index,
                legal == 0 ==> best_score == -INF,
                legal > 0 ==> -(MATE - ply) <= best_score <= MATE - ply,
                legal > 0 ==> legal_moves(&p1).len() > 0,
                index <= n,
            decreases n - index,
        {
            let mv = pick(&mut moves, index, Ghost(listed));
            proof {
                lemma_listed_move(&p1, mv);
            }
            let target = pos.board[mv.to as usize];
            let capture = (!target.is_empty() && target.color != us) || mv.special == SpecialMove::EnPassant;
            let promotion = mv.special == SpecialMove::Promotion;
            let push = is_push(pos, mv);
            let hi = Self::history_index(pos, mv);
            let safe = play(pos, mv, Ghost(p1), Ghost(ply as int));
            let ghost made_pos = *pos;
            if !safe {
                unplay(pos, Ghost(p1), Ghost(mv), Ghost(made_pos));
                index += 1;
                continue;
            }
            legal += 1;
            assert(legal_moves(&p1).contains(mv));
            let gives_check = pos.in_check();
            // Never prune the first legal move, captures, promotions, pushes or checks.
            if legal > 1 && !self.profile.conservative && !pv && !check && !gives_check && !capture && !promotion
                && !push && depth <= 2 && legal > (8 + depth * 5) as usize {
                unplay(pos, Ghost(p1), Ghost(mv), Ghost(made_pos));
                index += 1;
                continue;
            }
            let child_depth = depth - 1;
            let reduction = self.reduction(depth, legal, pv, push, hi, check || gives_check || capture || promotion);
            let mut score: i32;
            if legal == 1 {
                score = -self.search(pos, child_depth, -beta, -a, ply + 1, true);
            } else {
                score = -self.search(pos, child_depth - reduction, -a - 1, -a, ply + 1, true);
                if score > a && reduction > 0 && !self.limits.stopped {
                    score = -self.search(pos, child_depth, -a - 1, -a, ply + 1, true);
                }
                if score > a && score < beta && !self.limits.stopped {
                    score = -self.search(pos, child_depth, -beta, -a, ply + 1, true);
                }
            }
            unplay(pos, Ghost(p1), Ghost(mv), Ghost(made_pos));
            if self.limits.stopped {
                return 0;
            }
            if score > best_score {
                best_score = score;
                best = mv;
            }
            if score > a {
                a = score;
                if ply == 0 {
                    self.root_best = mv;
                }
            }
            if a >= beta {
                if !capture && !promotion {
                    self.reward(depth, hi, ply, mv);
                }
                index += 1;
                break;
            }
            index += 1;
        }
        if legal == 0 {
            return if check {
                -MATE + ply as i32
            } else {
                0
            };
        }
        let bound = if best_score >= beta {
            Bound::Lower
        } else if best_score <= alpha {
            Bound::Upper
        } else {
            Bound::Exact
        };
        self.store_result(key, depth, best_score, bound, best, ply);
        best_score
    }

    /// A reduction kept between 0 and `depth - 2`.
    pub open spec fn clamp_reduction(r: int, depth: int) -> int {
        if r < 0 {
            0
        } else if r > depth - 2 {
            depth - 2
        } else {
            r
        }
    }

    /// The late-move reduction of the `legal`-th legal move at `depth`: none
    /// for the conservative profile, tactical pushes, early moves, shallow
    /// depths and forcing moves; otherwise the table's, one less in a PV node
    /// or for a push and one less for a move with good history, kept between
    /// 0 and `depth - 2`.
    fn reduction(&self, depth: i32, legal: usize, pv: bool, push: bool, hi: usize, forcing: bool) -> (r: i32)
        requires
            self.inner(),
            1 <= depth <= 65,
            hi < HISTORY,
        ensures
            0 <= r,
            r == 0 || r <= depth - 2,
            r == (if !self.profile.conservative && !(self.profile.tactical && push) && legal >= 4 && depth >= 3
                && !forcing {
                Self::clamp_reduction(
                    self.reductions@[(if depth < 63 {
                        depth as int
                    } else {
                        63
                    }) * 256 + (if legal < 255 {
                        legal as int
                    } else {
                        255
                    })] - (if pv || push {
                        1int
                    } else {
                        0
                    }) - (if self.history@[hi as int] > 3_000 {
                        1int
                    } else {
                        0
                    }),
                    depth as int,
                )
            } else {
                0
            }),
    {
        if !self.profile.conservative && !(self.profile.tactical && push) && legal >= 4 && depth >= 3 && !forcing {
            let row: usize = if depth < 63 {
                depth as usize
            } else {
                63
            };
            let col: usize = if legal < 255 {
                legal
            } else {
                255
            };
            let mut reduction = self.reductions[row * 256 + col];
            if pv || push {
                reduction = reduction - 1;
            }
            if self.history[hi] > 3_000 {
                reduction = reduction - 1;
            }
            if reduction < 0 {
                0
            } else if reduction > depth - 2 {
                depth - 2
            } else {
                reduction
            }
        } else {
            0
        }
    }

    /// The history bonus of a cutoff at `depth`: 32 per squared ply, at most
    /// 2000.
    pub open spec fn quiet_bonus(depth: int) -> int {
        if depth * depth * 32 < 2_000 {
            depth * depth * 32
        } else {
            2_000
        }
    }

    /// A quiet move that caused a cutoff: its history grows toward 16384 by a
    /// depth-squared bonus, and it becomes the first killer of its ply.
    fn reward(&mut self, depth: i32, hi: usize, ply: usize, mv: Move)
        requires
            old(self).inner(),
            1 <= depth <= 65,
            hi < HISTORY,
            ply < MAX_PLY,
        ensures
            final(self).inner(),
            *final(self) == (Astra { history: final(self).history, killers: final(self).killers, ..*old(self) }),
            final(self).history@ == old(self).history@.update(
                hi as int,
                (old(self).history@[hi as int] + Self::quiet_bonus(depth as int) - old(self).history@[hi as int]
                    * Self::quiet_bonus(depth as int) / 16_384) as i32,
            ),
            old(self).killers@[ply * 2] != mv.spec_id() ==> final(self).killers@ == old(self).killers@.update(
                ply * 2 + 1,
                old(self).killers@[ply * 2],
            ).update(ply * 2, mv.spec_id()),
            old(self).killers@[ply * 2] == mv.spec_id() ==> final(self).killers@ == old(self).killers@,
    {
        assert(depth * depth * 32 <= 135200) by (nonlinear_arith)
            requires
                1 <= depth <= 65,
        ;
        let squared = depth * depth * 32;
        let bonus = if squared < 2_000 {
            squared
        } else {
            2_000
        };
        let h = self.history[hi];
        assert(0 <= h + bonus - h * bonus / 16_384 <= 16384) by (nonlinear_arith)
            requires
                0 <= h <= 16384,
                0 <= bonus <= 2000,
        ;
        self.history.set(hi, h + bonus - h * bonus / 16_384);
        let id = pack(mv);
        if self.killers[ply * 2] != id {
            let first = self.killers[ply * 2];
            self.killers.set(ply * 2 + 1, first);
            self.killers.set(ply * 2, id);
        }
    }

    /// Store a search result found `ply` plies from the root.
    fn store_result(&mut self, key: u64, depth: i32, score: i32, bound: Bound, mv: Move, ply: usize)
        requires
            old(self).inner(),
            ply < MAX_PLY,
            -(MATE - ply) <= score <= MATE - ply,
        ensures
            final(self).inner(),
            *final(self) == (Astra { table: final(self).table, ..*old(self) }),
            ({
                let b = super::bucket_of(key);
                let old_bucket = old(self).table@[b];
                let entry = Entry {
                    key,
                    mv: mv.spec_id(),
                    score: super::normalized(score, ply) as i16,
                    depth: if depth < 0 {
                        0
                    } else if depth > 127 {
                        127
                    } else {
                        depth as u8
                    },
                    bound,
                };
                &&& forall|j: int| 0 <= j < BUCKETS && j != b ==> #[trigger] final(self).table@[j] == old(self).table@[j]
                &&& final(self).table@[b]@ == old_bucket@.update(super::victim(old_bucket, key), entry)
            }),
    {
        let ghost before = self.table@;
        store(&mut self.table, key, depth, score, bound, mv, ply);
        assert forall|i: int, j: int| 0 <= i < BUCKETS && 0 <= j < 2 implies entry_fits(#[trigger] self.table@[i][j]) by {
            if i != super::bucket_of(key) {
                assert(self.table@[i] == before[i]);
            }
        }
    }
}

/// The first move of `legal` whose packed identifier is `id`.
fn find_listed(legal: &Vec<Move>, id: u32) -> (m: Option<Move>)
    ensures
        match m {
            Some(mv) => legal@.contains(mv) && mv.spec_id() == id && exists|k: int|
                0 <= k < legal@.len() && legal@[k] == mv && forall|j: int| 0 <= j < k ==> #[trigger] legal@[j].spec_id() != id,
            None => forall|j: int| 0 <= j < legal@.len() ==> #[trigger] legal@[j].spec_id() != id,
        },
{
    let mut k: usize = 0;
    while k < legal.len()
        invariant
            k <= legal@.len(),
            forall|j: int| 0 <= j < k ==> #[trigger] legal@[j].spec_id() != id,
        decreases legal@.len() - k,
    {
        if pack(legal[k]) == id {
            assert(legal@.contains(legal@[k as int]));
            return Some(legal[k]);
        }
        k += 1;
    }
    None
}

/// Play a legal move along the reported line.
fn advance_line(p: &mut Position, mv: Move)
    requires
        legal_moves(old(p)).contains(mv),
        old(p).castling_rights < 16,
        old(p).halfmove_clock < u16::MAX,
        old(p).fullmove_number < u16::MAX,
    ensures
        made(old(p), mv, final(p)),
        final(p).castling_rights < 16,
        final(p).halfmove_clock <= old(p).halfmove_clock + 1,
        final(p).fullmove_number <= old(p).fullmove_number + 1,
{
    proof {
        lemma_legal_is_pseudo(old(p), mv);
        lemma_listed_move(old(p), mv);
    }
    let ghost here = *p;
    p.make_move(&mv);
    proof {
        let changes = move_changes(here.board@, mv, here.side_to_move);
        lemma_rights_stay(here.castling_rights, revoked_rights(affected_mask(changes, changes.len())));
    }
}

/// Whether `keys` holds `key`.
fn holds_key(keys: &Vec<u64>, key: u64) -> (b: bool)
    ensures
        b == keys@.contains(key),
{
    let mut i: usize = 0;
    while i < keys.len()
        invariant
            i <= keys@.len(),
            forall|j: int| 0 <= j < i ==> keys@[j] != key,
        decreases keys@.len() - i,
    {
        if keys[i] == key {
            assert(keys@[i as int] == key);
            return true;
        }
        i += 1;
    }
    false
}

impl Astra {
    /// The principal variation from the root: the best move, then the move
    /// the table holds for each following position, while it is legal there,
    /// up to 32 moves and no further than a position already on the line.
    fn pv(&self, pos: &Position, best: Move) -> Vec<Move>
        requires
            self.inner(),
            room(pos),
    {
        let mut p = pos.without_history();
        let mut line: Vec<Move> = Vec::new();
        let mut seen: Vec<u64> = Vec::new();
        let mut next = pack(best);
        let mut step: usize = 0;
        while step < 32
            invariant_except_break
                p.halfmove_clock <= pos.halfmove_clock + step,
                p.fullmove_number <= pos.fullmove_number + step,
            invariant
                self.inner(),
                room(pos),
                step <= 32,
                p.castling_rights < 16,
            decreases 32 - step,
        {
            if holds_key(&seen, p.zobrist) {
                break;
            }
            seen.push(p.zobrist);
            let ghost prior = p;
            let mut legal: Vec<Move> = Vec::new();
            generate_legal_moves(&mut p, &mut legal);
            proof {
                lemma_legal_moves_congruent(&p, &prior);
            }
            match find_listed(&legal, next) {
                None => {
                    break;
                },
                Some(mv) => {
                    line.push(mv);
                    advance_line(&mut p, mv);
                    match probe(&self.table, p.zobrist) {
                        None => {
                            break;
                        },
                        Some(entry) => {
                            next = entry.mv;
                        },
                    }
                },
            }
            step += 1;
        }
        line
    }

    /// Choose a move for the side to move within the budget: iterative
    /// deepening up to the budget's depth (64 at most), each iteration inside
    /// an aspiration window that widens on failure, until the limits stop the
    /// search, a mate is found or two thirds of the time is used. The move is
    /// legal; with no legal move it is the null move. The position comes back
    /// as it was.
    pub fn choose_move(&mut self, pos: &mut Position, budget: &SearchBudget) -> (r: (Move, SearchStats))
        requires
            old(self).wf(),
            room(old(pos)),
        ensures
            final(self).wf(),
            final(self).variant() == old(self).variant(),
            same_position(final(pos), old(pos)),
            legal_moves(old(pos)).len() == 0 ==> r.0 == Move::null() && r.1.nodes == 0 && r.1.depth_reached == 0
                && r.1.eval_cp == 0 && r.1.pv@.len() == 0,
            legal_moves(old(pos)).len() > 0 ==> legal_moves(old(pos)).contains(r.0),
            budget.max_nodes > 0 ==> r.1.nodes <= budget.max_nodes,
    {
        let ghost p0 = *pos;
        self.limits.begin(budget, 92);
        self.qnodes = 0;
        self.tt_hits = 0;
        let mut k: usize = 0;
        while k < HISTORY
            invariant
                self.inner(),
                self.null_barriers@.len() == 0,
                self.variant == old(self).variant,
                self.limits.micros <= 0x7fff_ffff_ffff_ffff,
                self.limits.limit == (if budget.max_nodes > 0 { budget.max_nodes as u64 } else { 0u64 }),
                k <= HISTORY,
            decreases HISTORY - k,
        {
            let h = self.history[k];
            self.history.set(k, h / 2);
            k += 1;
        }
        let mut legal: Vec<Move> = Vec::new();
        generate_legal_moves(pos, &mut legal);
        if legal.len() == 0 {
            return (Move::default(), SearchStats::default());
        }
        let mut best = legal[0];
        assert(legal_moves(&p0).contains(legal@[0]));
        let mut score = evaluate(pos, self.profile);
        let mut completed: u32 = 0;
        let max_depth: i32 = if budget.max_depth > 0 && budget.max_depth < 64 {
            budget.max_depth
        } else {
            64
        };
        let mut depth: i32 = 1;
        while depth <= max_depth
            invariant
                self.wf(),
                self.variant == old(self).variant,
                self.limits.micros <= 0x7fff_ffff_ffff_ffff,
                self.limits.limit == (if budget.max_nodes > 0 { budget.max_nodes as u64 } else { 0u64 }),
                1 <= depth <= max_depth + 1,
                1 <= max_depth <= 64,
                same_position(pos, &p0),
                p0 == *old(pos),
                room(&p0),
                legal_moves(&p0).contains(best),
                -MATE <= score <= MATE,
            decreases max_depth + 1 - depth,
        {
            self.root_depth = depth;
            let mut margin: i32 = if depth >= 4 && -MATE_BOUND < score && score < MATE_BOUND {
                35
            } else {
                INF * 2
            };
            loop
                invariant
                    self.wf(),
                    self.variant == old(self).variant,
                    self.limits.micros <= 0x7fff_ffff_ffff_ffff,
                    self.limits.limit == (if budget.max_nodes > 0 { budget.max_nodes as u64 } else { 0u64 }),
                    self.root_depth == depth,
                    1 <= depth <= 64,
                    same_position(pos, &p0),
                    room(&p0),
                    legal_moves(&p0).contains(best),
                    -MATE <= score <= MATE,
                    35 <= margin <= INF * 2,
                decreases INF * 2 - margin,
            {
                self.root_best = best;
                let alpha = if score - margin > -INF {
                    score - margin
                } else {
                    -INF
                };
                let beta = if score + margin < INF {
                    score + margin
                } else {
                    INF
                };
                let ghost here = *pos;
                let result = self.search(pos, depth, alpha, beta, 0, true);
                if self.limits.stopped {
                    break;
                }
                if result <= alpha || result >= beta {
                    margin = if margin < INF {
                        margin * 2
                    } else {
                        INF * 2
                    };
                    continue;
                }
                proof {
                    lemma_legal_moves_congruent(&here, &p0);
                }
                score = result;
                best = self.root_best;
                completed = depth as u32;
                break;
            }
            if self.limits.stopped || score >= MATE_BOUND || score <= -MATE_BOUND {
                break;
            }
            if self.limits.micros > 0 && whole_micros(&elapsed(&self.limits.started)) > self.limits.micros * 2 / 3 {
                break;
            }
            depth += 1;
        }
        let line = self.pv(pos, best);
        let used = whole_micros(&elapsed(&self.limits.started));
        let stats = SearchStats {
            nodes: self.limits.nodes,
            depth_reached: completed,
            seldepth: (#[verifier::truncate] (self.limits.seldepth as u32)),
            eval_cp: score,
            time_used_us: (#[verifier::truncate] (used as i64)),
            pv: line,
            diag_json: String::new(),
        };
        (best, stats)
    }
}

impl Astra {
    /// The quiescence search from `ply`, `qply` plies into it, between
    /// searches: the position comes back as it was, and the score is no
    /// further out than the window or a mate found from `ply`.
    pub fn quiescence(&mut self, pos: &mut Position, alpha: i32, beta: i32, ply: usize, qply: usize) -> (score: i32)
        requires
            old(self).wf(),
            ply < MAX_PLY,
            qply <= ply,
            searchable(old(pos), ply as int),
            -INF <= alpha < beta <= INF,
        ensures
            final(self).wf(),
            same_position(final(pos), old(pos)),
            -window_bound(ply as int, alpha as int, beta as int) <= score <= window_bound(
                ply as int,
                alpha as int,
                beta as int,
            ),
            !final(self).halted() && !old(self).drawn(old(pos), ply) && ply < MAX_PLY - 1 && attacked(
                old(pos).board@,
                old(pos).king_sq@[old(pos).side_to_move.spec_index()],
                spec_opponent(old(pos).side_to_move),
            ) && legal_moves(old(pos)).len() == 0 ==> score == -MATE + ply,
    {
        self.qsearch(pos, alpha, beta, ply, qply)
    }
}

} // verus!

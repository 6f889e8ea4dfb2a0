//! Self-play support: a validated position with its legal moves prepared,
//! and the order in which a search considers the root's candidate moves.
use vstd::prelude::*;
use crate::game::{Outcome, adjudicate, hash_count, outcome_of, repeats_of};
use crate::rules::fen::{string_from_chars, text_chars};
use crate::rules::fen_check::{counter_ok, fault_message, fen_fault};
use crate::rules::fen::{castle_bits, castle_flag, decimal_value, fen_counter, field, reads_fen, unsigned_digits, words};
use crate::rules::movegen::{makeable, lemma_legal_is_pseudo, lemma_legal_moves_congruent, lemma_pseudo_legal_makeable, legal_moves, pseudo_legal};
use crate::rules::position::{Position, UndoInfo, affected_mask, can_make, made, move_changes};
use crate::rules::prepared::{MoveScratch, PreparedMove, carries, generate_prepared};
use crate::rules::types::{Color, Move, revoked_rights};
use crate::engine::walk::lemma_rights_stay;
use vstd::arithmetic::power2::pow2;

verus! {

/// The number of halvings from `p` up to at least `c`, starting from `r`:
/// `r` plus the base-two logarithm of `c` rounded up, when `p` is 1.
pub open spec fn rounds_from(c: nat, r: nat, p: nat) -> nat
    decreases (if p < c {
        c - p
    } else {
        0
    }),
{
    if p == 0 || p >= c {
        r
    } else {
        rounds_from(c, r + 1, 2 * p)
    }
}

/// `count` visits of `value`.
pub open spec fn block(count: nat, value: nat) -> Seq<u32> {
    Seq::new(count, |i: int| value as u32)
}

/// `k` blocks of `count` visits, of `v`, `v + 1`, ... in turn.
pub open spec fn blocks(count: nat, v: nat, k: nat) -> Seq<u32>
    decreases k,
{
    if k == 0 {
        Seq::empty()
    } else {
        blocks(count, v, (k - 1) as nat) + block(count, (v + k - 1) as nat)
    }
}

/// How many blocks a round of `count` candidates adds: the simulations
/// shared out over the rounds and candidates, at least one.
pub open spec fn repeats(sims: nat, rounds: nat, count: nat) -> nat {
    let q = sims / (rounds * count);
    if q < 1 {
        1
    } else {
        q
    }
}

/// The candidates left after a round: half of them, at least two.
pub open spec fn halved(count: nat) -> nat {
    if count / 2 < 2 {
        2
    } else {
        count / 2
    }
}

/// `k` blocks of `count` add `count * k` visits.
pub proof fn lemma_blocks_len(count: nat, v: nat, k: nat)
    ensures
        blocks(count, v, k).len() == count * k,
    decreases k,
{
    if k > 0 {
        lemma_blocks_len(count, v, (k - 1) as nat);
        assert(block(count, (v + k - 1) as nat).len() == count);
        assert(count * k == count * (k - 1) + count) by (nonlinear_arith)
            requires
                k > 0,
        ;
    } else {
        assert(count * k == 0) by (nonlinear_arith)
            requires
                k == 0,
        ;
    }
}

/// The visit schedule from `acc` on, with `count` candidates each seen `v`
/// times so far: rounds of blocks until `sims` visits are reached.
pub open spec fn scheduled(sims: nat, rounds: nat, count: nat, v: nat, acc: Seq<u32>) -> Seq<u32>
    decreases (if acc.len() < sims {
        sims - acc.len()
    } else {
        0
    }),
{
    if acc.len() >= sims || count == 0 {
        acc
    } else {
        let k = repeats(sims, rounds, count);
        let next = acc + blocks(count, v, k);
        proof {
            lemma_blocks_len(count, v, k);
            assert(count * k >= 1) by (nonlinear_arith)
                requires
                    count >= 1,
                    k >= 1,
            ;
        }
        scheduled(sims, rounds, halved(count), v + k, next)
    }
}

/// The visit counts at which the candidates are considered over `sims`
/// simulations: with one candidate each simulation in turn; otherwise rounds
/// over halving sets of candidates, each round sharing the simulations over
/// the rounds, cut at `sims`.
pub open spec fn visit_schedule(candidates: nat, sims: nat) -> Seq<u32> {
    if candidates == 1 {
        Seq::new(sims, |i: int| i as u32)
    } else {
        scheduled(sims, rounds_from(candidates, 0, 1), candidates, 0, Seq::empty()).take(sims as int)
    }
}

/// The visit counts at which the root's candidates are considered.
pub fn considered_visits(candidates: usize, simulations: usize) -> (sequence: Vec<u32>)
    requires
        candidates > 0,
        simulations > 0,
        simulations <= u32::MAX,
        candidates <= u32::MAX,
        2 * simulations + candidates <= usize::MAX,
    ensures
        sequence@ == visit_schedule(candidates as nat, simulations as nat),
{
    if candidates == 1 {
        let mut sequence: Vec<u32> = Vec::new();
        let mut i: usize = 0;
        while i < simulations
            invariant
                i <= simulations <= u32::MAX,
                sequence@ == Seq::new(i as nat, |j: int| j as u32),
            decreases simulations - i,
        {
            sequence.push(i as u32);
            i += 1;
            assert(sequence@ =~= Seq::new(i as nat, |j: int| j as u32));
        }
        return sequence;
    }
    let mut rounds: u64 = 0;
    let mut p: u64 = 1;
    proof {
        vstd::arithmetic::power2::lemma2_to64();
    }
    while p < candidates as u64
        invariant
            1 <= p <= 2 * candidates,
            rounds <= 33,
            p == vstd::arithmetic::power2::pow2(rounds as nat),
            rounds == 0 ==> p == 1,
            rounds_from(candidates as nat, rounds as nat, p as nat) == rounds_from(candidates as nat, 0, 1),
            candidates <= u32::MAX,
        decreases (if p < candidates {
            candidates - p
        } else {
            0
        }),
    {
        proof {
            vstd::arithmetic::power2::lemma_pow2_unfold((rounds + 1) as nat);
            vstd::arithmetic::power2::lemma2_to64();
            vstd::arithmetic::power2::lemma_pow2_unfold(33);
            if rounds + 1 > 33 {
                vstd::arithmetic::power2::lemma_pow2_strictly_increases(33, (rounds + 1) as nat);
            }
        }
        p = 2 * p;
        rounds = rounds + 1;
    }
    let ghost whole = scheduled(simulations as nat, rounds as nat, candidates as nat, 0, Seq::empty());
    let mut sequence: Vec<u32> = Vec::new();
    let mut visits: Vec<u32> = Vec::new();
    while visits.len() < candidates
        invariant
            visits@.len() <= candidates,
            forall|i: int| 0 <= i < visits@.len() ==> visits@[i] == 0,
        decreases candidates - visits@.len(),
    {
        visits.push(0);
    }
    let mut count: usize = candidates;
    let ghost mut v: nat = 0;
    while sequence.len() < simulations
        invariant
            2 <= count <= candidates <= u32::MAX,
            1 <= rounds <= 33,
            visits@.len() == candidates,
            forall|i: int| 0 <= i < count ==> visits@[i] == v,
            2 * v <= sequence@.len(),
            sequence@.len() < 2 * simulations + candidates,
            simulations <= u32::MAX,
            2 * simulations + candidates <= usize::MAX,
            scheduled(simulations as nat, rounds as nat, count as nat, v, sequence@) == whole,
        decreases (if sequence@.len() < simulations {
            simulations - sequence@.len()
        } else {
            0
        }),
    {
        let ghost acc = sequence@;
        let ghost v0 = v;
        assert(2 <= rounds * count <= 33 * 0xffff_ffff) by (nonlinear_arith)
            requires
                1 <= rounds <= 33,
                2 <= count <= 0xffff_ffff,
        ;
        let product: u64 = rounds * (count as u64);
        let share: u64 = (simulations as u64) / product;
        let reps: usize = if share < 1 {
            1
        } else {
            share as usize
        };
        assert(reps as nat == repeats(simulations as nat, rounds as nat, count as nat));
        assert(reps == 1 || reps * count <= simulations) by (nonlinear_arith)
            requires
                share == (simulations as int) / ((rounds as int) * (count as int)),
                reps == (if share < 1 {
                    1
                } else {
                    share
                }),
                rounds >= 1,
                count >= 2,
        ;
        assert(reps == 1 || 2 * reps <= simulations) by (nonlinear_arith)
            requires
                reps == 1 || reps * count <= simulations,
                count >= 2,
        ;
        let mut t: usize = 0;
        while t < reps
            invariant
                t <= reps,
                2 <= count <= candidates,
                visits@.len() == candidates,
                forall|i: int| 0 <= i < count ==> visits@[i] == v0 + t,
                sequence@ == acc + blocks(count as nat, v0, t as nat),
                2 * v0 <= acc.len(),
                acc.len() < simulations,
                reps == 1 || reps * count <= simulations,
                reps == 1 || 2 * reps <= simulations,
                simulations <= u32::MAX,
                2 * simulations + candidates <= usize::MAX,
                count <= candidates,
            decreases reps - t,
        {
            proof {
                lemma_blocks_len(count as nat, v0, t as nat);
                assert(acc.len() + count * t + count <= 2 * simulations + candidates) by (nonlinear_arith)
                    requires
                        t < reps,
                        acc.len() < simulations,
                        reps == 1 || reps * count <= simulations,
                        count <= candidates,
                ;
            }
            let ghost before = sequence@;
            let mut j: usize = 0;
            while j < count
                invariant
                    j <= count,
                    2 <= count <= candidates,
                    visits@.len() == candidates,
                    forall|i: int| 0 <= i < count ==> visits@[i] == v0 + t,
                    sequence@ == before + Seq::new(j as nat, |i: int| (v0 + t) as u32),
                    before.len() + count <= 2 * simulations + candidates,
                    2 * simulations + candidates <= usize::MAX,
                decreases count - j,
            {
                sequence.push(visits[j]);
                j += 1;
                assert(sequence@ =~= before + Seq::new(j as nat, |i: int| (v0 + t) as u32));
            }
            assert(sequence@ =~= acc + blocks(count as nat, v0, (t + 1) as nat));
            assert(v0 + t + 1 <= simulations) by (nonlinear_arith)
                requires
                    2 * v0 <= acc.len(),
                    acc.len() < simulations,
                    t < reps,
                    reps == 1 || 2 * reps <= simulations,
            ;
            let mut j: usize = 0;
            while j < count
                invariant
                    j <= count,
                    2 <= count <= candidates,
                    visits@.len() == candidates,
                    forall|i: int| 0 <= i < j ==> visits@[i] == v0 + t + 1,
                    forall|i: int| j <= i < count ==> visits@[i] == v0 + t,
                    v0 + t + 1 <= simulations <= u32::MAX,
                decreases count - j,
            {
                let x = visits[j];
                visits.set(j, x + 1);
                j += 1;
            }
            t += 1;
        }
        proof {
            lemma_blocks_len(count as nat, v0, reps as nat);
            assert(2 * (v0 + reps) <= acc.len() + count * reps) by (nonlinear_arith)
                requires
                    2 * v0 <= acc.len(),
                    count >= 2,
            ;
            assert(acc.len() + count * reps < 2 * simulations + candidates) by (nonlinear_arith)
                requires
                    acc.len() < simulations,
                    reps == 1 || reps * count <= simulations,
                    count <= candidates,
            ;
            v = (v0 + reps) as nat;
        }
        count = if count / 2 < 2 {
            2
        } else {
            count / 2
        };
    }
    let ghost full = sequence@;
    sequence.truncate(simulations);
    assert(sequence@ =~= full.take(simulations as int));
    sequence
}


/// The moves of a list of prepared moves, in order.
pub open spec fn moves_of(s: Seq<PreparedMove>) -> Seq<Move> {
    s.map_values(|m: PreparedMove| m.mv)
}

/// The move identifiers of `moves` never decrease.
pub open spec fn ids_sorted(moves: Seq<Move>) -> bool {
    forall|a: int, b: int| 0 <= a < b < moves.len() ==> moves[a].spec_id() <= moves[b].spec_id()
}

/// Room in `p`'s counters for one more move and the legality test after it.
pub open spec fn room(p: &Position) -> bool {
    &&& p.castling_rights < 16
    &&& p.halfmove_clock + 1 < u16::MAX
    &&& p.fullmove_number + 1 < u16::MAX
}

/// A validated position plus its legal moves, each prepared with its push
/// plan and ordered by identifier, and the game's outcome; a finished game
/// keeps no moves.
pub struct State {
    pos: Position,
    legal: Vec<Move>,
    prepared: Vec<PreparedMove>,
    scratch: MoveScratch,
    outcome: Outcome,
}

impl State {
    /// The position.
    pub closed spec fn position_of(&self) -> Position {
        self.pos
    }

    /// The moves the state offers.
    pub closed spec fn moves(&self) -> Seq<Move> {
        self.legal@
    }

    /// The state's outcome.
    pub closed spec fn result(&self) -> Outcome {
        self.outcome
    }

    /// The outcome is the position's; while the game goes on the moves are
    /// its legal moves ordered by identifier, each prepared with its plan;
    /// once it is over there are none.
    pub closed spec fn wf(&self) -> bool {
        &&& self.outcome == outcome_of(&self.pos, legal_moves(&self.pos).len() == 0, repeats_of(&self.pos))
        &&& self.legal@.len() == self.prepared@.len()
        &&& forall|k: int|
            0 <= k < self.legal@.len() ==> (#[trigger] self.prepared@[k]).mv == self.legal@[k] && carries(
                self.pos.board@,
                self.legal@[k],
                self.prepared@[k].plan,
            ) && legal_moves(&self.pos).contains(self.legal@[k])
        &&& ids_sorted(self.legal@)
        &&& if self.outcome == Outcome::Playing {
            self.legal@.to_multiset() == legal_moves(&self.pos).to_multiset()
        } else {
            self.legal@.len() == 0
        }
    }

    /// The prepared legal moves of the position, ordered by identifier, and
    /// the outcome; none kept when the game is over.
    #[verifier::spinoff_prover]
    #[verifier::rlimit(60)]
    fn refresh(&mut self)
        requires
            old(self).pos.castling_rights < 16,
            old(self).pos.halfmove_clock < u16::MAX,
            old(self).pos.side_to_move == Color::Black ==> old(self).pos.fullmove_number < u16::MAX,
        ensures
            final(self).wf(),
            final(self).pos.board == old(self).pos.board,
            final(self).pos.side_to_move == old(self).pos.side_to_move,
            final(self).pos.castling_rights == old(self).pos.castling_rights,
            final(self).pos.ep_square == old(self).pos.ep_square,
            final(self).pos.halfmove_clock == old(self).pos.halfmove_clock,
            final(self).pos.fullmove_number == old(self).pos.fullmove_number,
            final(self).pos.king_sq == old(self).pos.king_sq,
            final(self).pos.zobrist == old(self).pos.zobrist,
            final(self).pos.undo_stack@ == old(self).pos.undo_stack@,
    {
        let ghost p0 = self.pos;
        self.legal.clear();
        self.prepared.clear();
        let mut fresh: Vec<PreparedMove> = Vec::new();
        let ghost start = fresh@.len() as int;
        let ghost p1 = self.pos;
        generate_prepared(&mut self.pos, &mut fresh, &mut self.scratch);
        proof {
            lemma_legal_moves_congruent(&self.pos, &p0);
        }
        let ghost all = legal_moves(&self.pos);
        assert forall|k: int| 0 <= k < fresh@.len() implies all.contains((#[trigger] fresh@[k]).mv) && carries(
            self.pos.board@,
            fresh@[k].mv,
            fresh@[k].plan,
        ) by {
            assert(fresh@[start + k].mv == legal_moves(&p1)[k]);
        }
        let ghost p2 = self.pos;
        let mut sorted: Vec<PreparedMove> = Vec::new();
        proof {
            broadcast use vstd::multiset::group_multiset_axioms;

            assert(moves_of(fresh@) =~= all) by {
                assert forall|k: int| 0 <= k < all.len() implies moves_of(fresh@)[k] == all[k] by {
                    assert(fresh@[start + k].mv == legal_moves(&p1)[k]);
                }
            }
            assert(moves_of(sorted@) =~= Seq::<Move>::empty());
            vstd::seq_lib::to_multiset_len(moves_of(sorted@));
            vstd::multiset::lemma_multiset_empty_len(moves_of(sorted@).to_multiset());
            assert(moves_of(sorted@).to_multiset().add(moves_of(fresh@).to_multiset()) =~= all.to_multiset());
        }
        while fresh.len() > 0
            invariant
                self.pos == p2,
                all == legal_moves(&p2),
                forall|k: int|
                    0 <= k < fresh@.len() ==> carries(self.pos.board@, (#[trigger] fresh@[k]).mv, fresh@[k].plan)
                        && all.contains(fresh@[k].mv),
                forall|k: int|
                    0 <= k < sorted@.len() ==> carries(self.pos.board@, (#[trigger] sorted@[k]).mv, sorted@[k].plan)
                        && all.contains(sorted@[k].mv),
                forall|a: int, b: int|
                    0 <= a < b < sorted@.len() ==> (#[trigger] sorted@[a]).mv.spec_id() <= (#[trigger] sorted@[b]).mv.spec_id(),
                forall|a: int, b: int|
                    0 <= a < sorted@.len() && 0 <= b < fresh@.len() ==> (#[trigger] sorted@[a]).mv.spec_id() <= (
                    #[trigger] fresh@[b]).mv.spec_id(),
                moves_of(sorted@).to_multiset().add(moves_of(fresh@).to_multiset()) == all.to_multiset(),
            decreases fresh@.len(),
        {
            let ghost before = fresh@;
            let mut best: usize = 0;
            let mut i: usize = 1;
            while i < fresh.len()
                invariant
                    1 <= i <= fresh@.len(),
                    best < fresh@.len(),
                    fresh@ == before,
                    forall|k: int| 0 <= k < i ==> fresh@[best as int].mv.spec_id() <= (#[trigger] fresh@[k]).mv.spec_id(),
                decreases fresh@.len() - i,
            {
                if fresh[i].mv.id() < fresh[best].mv.id() {
                    best = i;
                }
                i += 1;
            }
            let item = fresh.remove(best);
            let ghost s0 = sorted@;
            sorted.push(item);
            proof {
                broadcast use vstd::multiset::group_multiset_axioms;

                let fm = moves_of(fresh@);
                assert(moves_of(before) =~= fm.insert(best as int, item.mv));
                vstd::seq_lib::to_multiset_insert(fm, best as int, item.mv);
                assert(moves_of(sorted@) =~= moves_of(s0).push(item.mv));
                vstd::seq_lib::to_multiset_build(moves_of(s0), item.mv);
                assert(moves_of(sorted@).to_multiset().add(fm.to_multiset()) =~= moves_of(s0).to_multiset().add(
                    moves_of(before).to_multiset(),
                ));
            }
        }
        proof {
            broadcast use vstd::multiset::group_multiset_axioms;

            assert(moves_of(fresh@) =~= Seq::<Move>::empty());
            vstd::seq_lib::to_multiset_len(moves_of(fresh@));
            vstd::multiset::lemma_multiset_empty_len(moves_of(fresh@).to_multiset());
            assert(moves_of(sorted@).to_multiset() =~= all.to_multiset());
        }
        let mut i: usize = 0;
        while i < sorted.len()
            invariant
                self.pos == p2,
                i <= sorted@.len(),
                self.legal@.len() == i,
                forall|k: int| 0 <= k < i ==> self.legal@[k] == (#[trigger] sorted@[k]).mv,
            decreases sorted@.len() - i,
        {
            self.legal.push(sorted[i].mv);
            i += 1;
        }
        assert(self.legal@ =~= moves_of(sorted@));
        self.prepared = sorted;
        proof {
            vstd::seq_lib::to_multiset_len(self.legal@);
            vstd::seq_lib::to_multiset_len(all);
        }
        self.outcome = adjudicate(&self.pos, self.legal.as_slice());
        if self.outcome != Outcome::Playing {
            self.legal.clear();
            self.prepared.clear();
        }
    }
}


impl State {
    /// The state of a FEN, or the FEN's fault.
    pub fn from_fen(fen: &str) -> (r: Result<State, String>)
        ensures
            r is Ok <==> fen_fault(fen) is None,
            r matches Err(e) ==> e@ == fault_message(fen_fault(fen).unwrap())@,
            r matches Ok(st) ==> st.wf() && room(&st.position_of()) && reads_fen(
                &st.position_of(),
                fen@,
                seq![64u8, 64u8],
            ),
    {
        match Position::try_from_fen(fen) {
            Err(e) => {
                let chars = text_chars(e.0);
                Err(string_from_chars(&chars))
            },
            Ok(pos) => {
                proof {
                    lemma_read_fen_has_room(fen, &pos);
                }
                let ghost p0 = pos;
                let mut st = State {
                    pos,
                    legal: Vec::new(),
                    prepared: Vec::new(),
                    scratch: MoveScratch::new(),
                    outcome: Outcome::Playing,
                };
                st.refresh();
                proof {
                    assert(st.pos.board@ == p0.board@);
                }
                Ok(st)
            },
        }
    }

    /// The position.
    pub fn position(&self) -> (p: &Position)
        ensures
            *p == self.position_of(),
    {
        &self.pos
    }

    /// The moves on offer: while the game goes on, the position's legal
    /// moves ordered by identifier; none once it is over.
    pub fn legal_moves(&self) -> (r: &[Move])
        requires
            self.wf(),
        ensures
            r@ == self.moves(),
            ids_sorted(r@),
            self.result() == Outcome::Playing ==> r@.to_multiset() == legal_moves(&self.position_of()).to_multiset(),
            self.result() != Outcome::Playing ==> r@.len() == 0,
    {
        self.legal.as_slice()
    }

    /// The offered moves, each prepared with its push plan, in the order of
    /// the offered moves.
    pub fn prepared(&self) -> (r: &[PreparedMove])
        requires
            self.wf(),
        ensures
            r@.len() == self.moves().len(),
            forall|k: int| 0 <= k < r@.len() ==> (#[trigger] r@[k]).mv == self.moves()[k],
    {
        &self.prepared
    }

    /// The game's outcome in this position.
    pub fn outcome(&self) -> (o: &Outcome)
        requires
            self.wf(),
        ensures
            *o == self.result(),
            *o == outcome_of(
                &self.position_of(),
                legal_moves(&self.position_of()).len() == 0,
                repeats_of(&self.position_of()),
            ),
    {
        &self.outcome
    }

    /// Play the offered move with identifier `id`: refused when no offered
    /// move has it, the state unchanged.
    #[verifier::rlimit(40)]
    pub fn play(&mut self, id: u32) -> (r: Result<(), &'static str>)
        requires
            old(self).wf(),
            room(&old(self).position_of()),
        ensures
            r is Ok <==> exists|k: int| 0 <= k < old(self).moves().len() && #[trigger] old(self).moves()[k].spec_id() == id,
            r matches Ok(_) ==> final(self).wf() && exists|k: int|
                0 <= k < old(self).moves().len() && #[trigger] old(self).moves()[k].spec_id() == id && made(
                    &old(self).position_of(),
                    old(self).moves()[k],
                    &final(self).position_of(),
                ),
            r matches Err(e) ==> e == "move ID is not legal in this position" && *final(self) == *old(self),
    {
        match find_id(self.legal.as_slice(), id) {
            None => Err("move ID is not legal in this position"),
            Some(index) => {
                let ghost p0 = self.pos;
                let ghost m = self.legal@[index as int];
                proof {
                    lemma_offered_makeable(self, index as int);
                }
                self.prepared[index].apply(&mut self.pos);
                proof {
                    lemma_rights_stay_small(&p0, m, &self.pos);
                }
                let ghost p1 = self.pos;
                self.refresh();
                proof {
                    assert(self.pos.board@ == p1.board@);
                    assert(made(&p0, m, &self.pos));
                    assert(old(self).moves()[index as int].spec_id() == id);
                }
                Ok(())
            },
        }
    }
}

/// The counters of a valid FEN, the clock at most 100 and the move number
/// at most 60000, and its castling rights, one of sixteen sets, leave room
/// for a move.
proof fn lemma_read_fen_has_room(fen: &str, p: &Position)
    requires
        fen_fault(fen) is None,
        reads_fen(p, fen@, seq![64u8, 64u8]),
    ensures
        room(p),
{
    let w = words(fen@);
    assert(w.len() == 6);
    lemma_counter_reads(w, 4, 0, 100, 0);
    lemma_counter_reads(w, 5, 1, 60000, 1);
    let castling = field(w, 2, seq!['-']);
    lemma_castle_bits_small(castling, castling.len());
}

proof fn lemma_counter_reads(w: Seq<Seq<char>>, k: int, min: int, max: int, default: u16)
    requires
        0 <= k < w.len(),
        counter_ok(w[k], min, max),
        0 <= min,
        max <= u16::MAX,
    ensures
        fen_counter(w, k, default) <= max,
{
    let s = w[k];
    assert(crate::rules::fen::spec_is_digit(s[0]));
    assert(unsigned_digits(field(w, k, Seq::empty())) == s);
    assert(!(exists|i: int| 0 <= i < s.len() && !crate::rules::fen::spec_is_digit(#[trigger] s[i])));
    let v = decimal_value(s, s.len());
    assert(min <= v <= max);
    assert(crate::rules::fen::spec_parse_u16(s) == Some(v as u16));
}

proof fn lemma_castle_bits_small(s: Seq<char>, n: nat)
    ensures
        castle_bits(s, n) < 16,
    decreases n,
{
    if n > 0 && n <= s.len() {
        lemma_castle_bits_small(s, (n - 1) as nat);
        let a = castle_bits(s, (n - 1) as nat);
        let b = castle_flag(s[n - 1]);
        assert(b < 16);
        assert(a < 16 && b < 16 ==> a | b < 16) by (bit_vector);
    }
}

/// An offered move can be made in the state's position.
proof fn lemma_offered_makeable(st: &State, k: int)
    requires
        st.wf(),
        room(&st.pos),
        0 <= k < st.legal@.len(),
    ensures
        can_make(&st.pos, st.legal@[k]),
        st.prepared@[k].mv == st.legal@[k],
{
    let m = st.legal@[k];
    assert(st.prepared@[k].mv == m);
    assert(legal_moves(&st.pos).contains(m));
    lemma_legal_is_pseudo(&st.pos, m);
    lemma_pseudo_legal_makeable(&st.pos);
    let j = choose|j: int| 0 <= j < pseudo_legal(&st.pos).len() && pseudo_legal(&st.pos)[j] == m;
    assert(makeable(st.pos.board@, pseudo_legal(&st.pos)[j]));
}

/// A made move keeps the castling rights among the four and the clocks
/// within one of where they were.
proof fn lemma_rights_stay_small(p0: &Position, m: Move, p1: &Position)
    requires
        made(p0, m, p1),
        room(p0),
    ensures
        p1.castling_rights < 16,
        p1.halfmove_clock < u16::MAX,
        p1.fullmove_number < u16::MAX,
{
    let changes = move_changes(p0.board@, m, p0.side_to_move);
    lemma_rights_stay(p0.castling_rights, revoked_rights(affected_mask(changes, changes.len())));
}

/// The first position of `id` among `moves`, whose identifiers never
/// decrease; none when no move has it.
fn find_id(moves: &[Move], id: u32) -> (r: Option<usize>)
    requires
        ids_sorted(moves@),
    ensures
        r matches Some(k) ==> k < moves@.len() && moves@[k as int].spec_id() == id,
        r is None ==> forall|k: int| 0 <= k < moves@.len() ==> moves@[k].spec_id() != id,
{
    let n = moves.len();
    let mut lo: usize = 0;
    let mut hi: usize = n;
    while lo < hi
        invariant
            lo <= hi <= n,
            n == moves@.len(),
            ids_sorted(moves@),
            forall|k: int| 0 <= k < lo ==> moves@[k].spec_id() < id,
            forall|k: int| hi <= k < n ==> moves@[k].spec_id() > id,
        decreases hi - lo,
    {
        let mid = lo + (hi - lo) / 2;
        let m = moves[mid].id();
        if m == id {
            return Some(mid);
        } else if m < id {
            lo = mid + 1;
        } else {
            hi = mid;
        }
    }
    None
}

/// The hashes of a history's positions, oldest first.
pub open spec fn keys_of(stack: Seq<UndoInfo>) -> Seq<u64> {
    stack.map_values(|u: UndoInfo| u.zobrist)
}

/// The number of the first `n` keys that are `z`.
pub open spec fn key_count(keys: Seq<u64>, z: u64, n: nat) -> nat
    decreases n,
{
    if n == 0 || n > keys.len() {
        0
    } else {
        key_count(keys, z, (n - 1) as nat) + if keys[n - 1] == z {
            1nat
        } else {
            0nat
        }
    }
}

proof fn lemma_key_count_monotone(keys: Seq<u64>, z: u64, i: nat, n: nat)
    requires
        i <= n <= keys.len(),
    ensures
        key_count(keys, z, i) <= key_count(keys, z, n),
    decreases n - i,
{
    if i < n {
        lemma_key_count_monotone(keys, z, i, (n - 1) as nat);
    }
}

proof fn lemma_key_count_of_history(stack: Seq<UndoInfo>, z: u64, n: nat)
    requires
        n <= stack.len(),
    ensures
        key_count(keys_of(stack), z, n) == hash_count(stack, z, n),
    decreases n,
{
    if n > 0 {
        lemma_key_count_of_history(stack, z, (n - 1) as nat);
    }
}

/// A game's position without its history, the hashes of the positions that
/// led to it, and whatever moves are made on it afterwards.
pub struct Cursor {
    pub pos: Position,
    pub prefix_keys: Vec<u64>,
}

impl Cursor {
    /// The hashes of the game's positions before the cursor was taken.
    pub open spec fn prefix(&self) -> Seq<u64> {
        self.prefix_keys@
    }

    /// The hashes of every earlier position: the game's, then those of the
    /// moves made on the cursor.
    pub open spec fn history(&self) -> Seq<u64> {
        self.prefix() + keys_of(self.pos.undo_stack@)
    }

    /// The state's position with its history moved into the prefix.
    pub fn from_state(state: &State) -> (c: Cursor)
        ensures
            c.prefix() == keys_of(state.position_of().undo_stack@),
            c.pos.board == state.position_of().board,
            c.pos.side_to_move == state.position_of().side_to_move,
            c.pos.castling_rights == state.position_of().castling_rights,
            c.pos.ep_square == state.position_of().ep_square,
            c.pos.halfmove_clock == state.position_of().halfmove_clock,
            c.pos.fullmove_number == state.position_of().fullmove_number,
            c.pos.king_sq == state.position_of().king_sq,
            c.pos.zobrist == state.position_of().zobrist,
            c.pos.undo_stack@.len() == 0,
    {
        let stack = &state.pos.undo_stack;
        let mut keys: Vec<u64> = Vec::new();
        let mut i: usize = 0;
        while i < stack.len()
            invariant
                i <= stack@.len(),
                keys@ == keys_of(stack@).take(i as int),
            decreases stack@.len() - i,
        {
            keys.push(stack[i].zobrist);
            i += 1;
            assert(keys@ =~= keys_of(stack@).take(i as int));
        }
        assert(keys@ =~= keys_of(stack@));
        Cursor { pos: state.pos.without_history(), prefix_keys: keys }
    }

    /// How many earlier positions, the game's and the cursor's, had the
    /// current hash, counted up to two.
    pub fn repetitions(&self) -> (r: usize)
        ensures
            r == if key_count(self.history(), self.pos.zobrist, self.history().len()) > 2 {
                2
            } else {
                key_count(self.history(), self.pos.zobrist, self.history().len())
            },
    {
        let ghost all = self.history();
        let z = self.pos.zobrist;
        let n = self.prefix_keys.len();
        let m = self.pos.undo_stack.len();
        let mut count: usize = 0;
        let mut i: usize = 0;
        while i < n && count < 2
            invariant
                all == self.history(),
                n == self.prefix_keys@.len(),
                all.len() == n + m,
                m == self.pos.undo_stack@.len(),
                z == self.pos.zobrist,
                i <= n,
                count == key_count(all, z, i as nat),
                count <= 2,
            decreases n - i,
        {
            assert(all[i as int] == self.prefix_keys@[i as int]);
            if self.prefix_keys[i] == z {
                count += 1;
            }
            i += 1;
        }
        if count < 2 {
            let mut j: usize = 0;
            while j < m && count < 2
                invariant
                    all == self.history(),
                    n == self.prefix_keys@.len(),
                    all.len() == n + m,
                    m == self.pos.undo_stack@.len(),
                    z == self.pos.zobrist,
                    j <= m,
                    count == key_count(all, z, (n + j) as nat),
                    count <= 2,
                decreases m - j,
            {
                assert(all[n + j] == self.pos.undo_stack@[j as int].zobrist);
                if self.pos.undo_stack[j].zobrist == z {
                    count += 1;
                }
                j += 1;
            }
            proof {
                lemma_key_count_monotone(all, z, (n + j) as nat, all.len());
            }
        } else {
            proof {
                lemma_key_count_monotone(all, z, i as nat, all.len());
            }
        }
        count
    }
}

/// A cursor taken from a state counts the repetitions the state's game
/// counts.
pub proof fn lemma_cursor_counts_as_game(state: &State, c: &Cursor)
    requires
        c.prefix() == keys_of(state.position_of().undo_stack@),
        c.pos.undo_stack@.len() == 0,
        c.pos.zobrist == state.position_of().zobrist,
    ensures
        (if key_count(c.history(), c.pos.zobrist, c.history().len()) > 2 {
            2
        } else {
            key_count(c.history(), c.pos.zobrist, c.history().len())
        }) == repeats_of(&state.position_of()),
{
    let stack = state.position_of().undo_stack@;
    assert(keys_of(c.pos.undo_stack@) =~= Seq::<u64>::empty());
    assert(c.history() =~= keys_of(stack));
    lemma_key_count_of_history(stack, c.pos.zobrist, stack.len());
}

/// How a batch of searches runs: whether moves' effects are reported, and
/// the most nodes one tree may hold, past which a search fails rather than
/// guess a value.
#[derive(Clone, Copy)]
pub struct SearchOptions {
    pub effects: bool,
    pub max_nodes_per_tree: usize,
}

impl Default for SearchOptions {
    fn default() -> (o: SearchOptions)
        ensures
            !o.effects,
            o.max_nodes_per_tree == 16_384,
    {
        SearchOptions { effects: false, max_nodes_per_tree: 16_384 }
    }
}

/// What a batch of searches used: nodes, edges, bytes of node storage and
/// rounds of network evaluation.
#[derive(Clone, Copy, Default)]
pub struct SearchMetrics {
    pub nodes: usize,
    pub edges: usize,
    pub arena_bytes: usize,
    pub neural_rounds: u64,
}

/// The schedule shares its simulations over the base-two logarithm of the
/// candidate count rounded up: the least number of rounds `r` with
/// `2^r >= candidates`.
pub proof fn lemma_rounds_are_log2_rounded_up(c: nat)
    requires
        c >= 1,
    ensures
        pow2(rounds_from(c, 0, 1)) >= c,
        rounds_from(c, 0, 1) == 0 || pow2((rounds_from(c, 0, 1) - 1) as nat) < c,
{
    vstd::arithmetic::power2::lemma2_to64();
    lemma_rounds_step(c, 0, 1);
}

proof fn lemma_rounds_step(c: nat, r: nat, p: nat)
    requires
        c >= 1,
        p == pow2(r),
        r == 0 || pow2((r - 1) as nat) < c,
    ensures
        pow2(rounds_from(c, r, p)) >= c,
        rounds_from(c, r, p) == 0 || pow2((rounds_from(c, r, p) - 1) as nat) < c,
    decreases (if p < c {
        c - p
    } else {
        0
    }),
{
    vstd::arithmetic::power2::lemma_pow2_pos(r);
    if p < c {
        vstd::arithmetic::power2::lemma_pow2_unfold(r + 1);
        lemma_rounds_step(c, r + 1, 2 * p);
    }
}

/// Two round counts that are both the least `r` with `2^r >= c` are equal.
proof fn lemma_log2_unique(c: nat, a: nat, b: nat)
    requires
        pow2(a) >= c,
        a == 0 || pow2((a - 1) as nat) < c,
        pow2(b) >= c,
        b == 0 || pow2((b - 1) as nat) < c,
    ensures
        a == b,
{
    if a < b {
        if a < (b - 1) as nat {
            vstd::arithmetic::power2::lemma_pow2_strictly_increases(a, (b - 1) as nat);
        }
    } else if b < a {
        if b < (a - 1) as nat {
            vstd::arithmetic::power2::lemma_pow2_strictly_increases(b, (a - 1) as nat);
        }
    }
}

/// `k` blocks of `count` from `v`: visit `i` is `v` plus `i / count`.
proof fn lemma_blocks_at(count: nat, v: nat, k: nat, i: int)
    requires
        count > 0,
        0 <= i < count * k,
    ensures
        blocks(count, v, k)[i] == (v + i / (count as int)) as u32,
    decreases k,
{
    lemma_blocks_len(count, v, k);
    if k > 0 {
        lemma_blocks_len(count, v, (k - 1) as nat);
        assert(count * k == count * (k - 1) + count) by (nonlinear_arith)
            requires
                k > 0,
        ;
        if i < count * (k - 1) {
            lemma_blocks_at(count, v, (k - 1) as nat, i);
        } else {
            assert(i / (count as int) == k - 1) by (nonlinear_arith)
                requires
                    count * (k - 1) <= i < count * (k - 1) + count,
                    count > 0,
            ;
        }
    } else {
        assert(count * k == 0) by (nonlinear_arith)
            requires
                k == 0,
        ;
    }
}

/// A schedule keeps what it has already laid out.
proof fn lemma_scheduled_keeps(sims: nat, rounds: nat, count: nat, v: nat, acc: Seq<u32>)
    ensures
        scheduled(sims, rounds, count, v, acc).len() >= acc.len(),
        count >= 1 ==> scheduled(sims, rounds, count, v, acc).len() >= sims,
        forall|i: int| 0 <= i < acc.len() ==> #[trigger] scheduled(sims, rounds, count, v, acc)[i] == acc[i],
    decreases (if acc.len() < sims {
        sims - acc.len()
    } else {
        0
    }),
{
    if !(acc.len() >= sims || count == 0) {
        let k = repeats(sims, rounds, count);
        let next = acc + blocks(count, v, k);
        lemma_blocks_len(count, v, k);
        assert(count * k >= 1) by (nonlinear_arith)
            requires
                count >= 1,
                k >= 1,
        ;
        lemma_scheduled_keeps(sims, rounds, halved(count), v + k, next);
    }
}

/// The schedule in closed form over its first two rounds. With `rounds` the
/// least `r` such that `2^r >= candidates`, the first round gives each of the
/// candidates `k1 = max(1, sims / (rounds * candidates))` visits in turn, so
/// visit `i` is `i / candidates`; the second, over `c2 = max(2,
/// candidates / 2)` candidates, gives each `k2 = max(1, sims / (rounds * c2))`
/// more, so visit `candidates * k1 + j` is `k1 + j / c2`.
pub proof fn lemma_schedule_rounds(candidates: nat, sims: nat, rounds: nat)
    requires
        candidates >= 2,
        pow2(rounds) >= candidates,
        rounds == 0 || pow2((rounds - 1) as nat) < candidates,
    ensures
        ({
            let k1: int = if (sims as int) / ((rounds as int) * (candidates as int)) < 1 {
                1
            } else {
                (sims as int) / ((rounds as int) * (candidates as int))
            };
            &&& forall|i: int|
                0 <= i < sims && i < candidates * k1 ==> #[trigger] visit_schedule(candidates, sims)[i] == (i
                    / (candidates as int)) as u32
            &&& forall|j: int|
                {
                    let c2: int = if (candidates as int) / 2 < 2 {
                        2
                    } else {
                        (candidates as int) / 2
                    };
                    let k2: int = if (sims as int) / ((rounds as int) * c2) < 1 {
                        1
                    } else {
                        (sims as int) / ((rounds as int) * c2)
                    };
                    0 <= j && candidates * k1 + j < sims && j < c2 * k2 ==> #[trigger] visit_schedule(
                        candidates,
                        sims,
                    )[candidates * k1 + j] == (k1 + j / c2) as u32
                }
        }),
{
    lemma_rounds_are_log2_rounded_up(candidates);
    lemma_log2_unique(candidates, rounds, rounds_from(candidates, 0, 1));
    vstd::arithmetic::power2::lemma2_to64();
    let k1 = repeats(sims, rounds, candidates);
    let c2 = halved(candidates);
    let k2 = repeats(sims, rounds, c2);
    let empty = Seq::<u32>::empty();
    let first = empty + blocks(candidates, 0, k1);
    let second = first + blocks(c2, k1, k2);
    lemma_blocks_len(candidates, 0, k1);
    lemma_blocks_len(c2, k1, k2);
    let whole = scheduled(sims, rounds, candidates, 0, empty);
    assert(visit_schedule(candidates, sims) == whole.take(sims as int));
    if sims > 0 {
        assert(whole == scheduled(sims, rounds, c2, k1, first));
        lemma_scheduled_keeps(sims, rounds, c2, k1, first);
        assert forall|i: int| 0 <= i < sims && i < candidates * k1 implies #[trigger] visit_schedule(
            candidates,
            sims,
        )[i] == (i / (candidates as int)) as u32 by {
            assert(visit_schedule(candidates, sims)[i] == whole[i]);
            assert(whole[i] == first[i]);
            assert(first[i] == blocks(candidates, 0, k1)[i]);
            lemma_blocks_at(candidates, 0, k1, i);
        }
        if first.len() < sims {
            assert(scheduled(sims, rounds, c2, k1, first) == scheduled(sims, rounds, halved(c2), k1 + k2, second));
            lemma_scheduled_keeps(sims, rounds, halved(c2), k1 + k2, second);
            assert forall|j: int|
                0 <= j && candidates * k1 + j < sims && j < c2 * k2 implies #[trigger] visit_schedule(
                    candidates,
                    sims,
                )[candidates * k1 + j] == (k1 + j / (c2 as int)) as u32 by {
                let i = candidates * k1 + j;
                assert(visit_schedule(candidates, sims)[i] == whole[i]);
                assert(whole[i] == second[i]);
                assert(second[i] == blocks(c2, k1, k2)[j]);
                lemma_blocks_at(c2, k1, k2, j);
            }
        }
    }
}

} // verus!

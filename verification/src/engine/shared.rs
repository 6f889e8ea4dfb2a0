//! Shared search mechanisms, not shared strategy: the node and time limits,
//! fixed-width table storage and the best-move selection step.
use vstd::prelude::*;
use std::time::{Duration, Instant};
use crate::rules::types::SearchBudget;

verus! {

#[verifier::external_type_specification]
#[verifier::external_body]
pub struct ExInstant(Instant);

/// `Instant::now`: the current time. Nothing is known of its value.
#[verifier::external_body]
pub(crate) fn now() -> (t: Instant) {
    Instant::now()
}

/// `Instant::elapsed`: the time passed since `t`. Nothing is known of its value.
#[verifier::external_body]
pub(crate) fn elapsed(t: &Instant) -> (d: Duration) {
    t.elapsed()
}

/// `Duration::as_micros`: the whole microseconds of `d`. The duration is
/// opaque here, so nothing is stated of the number.
#[verifier::external_body]
pub(crate) fn whole_micros(d: &Duration) -> (us: u128) {
    d.as_micros()
}

pub struct SearchLimits {
    pub started: Instant,
    pub micros: u128,
    pub limit: u64,
    pub nodes: u64,
    pub seldepth: usize,
    pub stopped: bool,
}

impl Default for SearchLimits {
    fn default() -> (l: Self)
        ensures
            l.micros == 0,
            l.limit == 0,
            l.nodes == 0,
            l.seldepth == 0,
            !l.stopped,
    {
        SearchLimits { started: now(), micros: 0, limit: 0, nodes: 0, seldepth: 0, stopped: false }
    }
}

/// The time allowance of a budget: the usable share of its time, at least one
/// microsecond, or none (0) for a budget without a time limit.
pub open spec fn allowance(max_time_us: i64, usable_percent: u128) -> u128 {
    if max_time_us > 0 {
        let share = (max_time_us as int * usable_percent as int) / 100;
        if share < 1 {
            1
        } else {
            share as u128
        }
    } else {
        0
    }
}

/// Whether a search that has counted `nodes` checks the clock now: it has a
/// time allowance, and checks every 128 nodes.
pub open spec fn clock_due(micros: u128, nodes: u64) -> bool {
    micros > 0 && nodes & 127 == 0
}

impl SearchLimits {
    /// Start a search: the clock restarts, the counters clear and the limits
    /// come from the budget.
    pub fn begin(&mut self, budget: &SearchBudget, usable_percent: u128)
        requires
            0 < usable_percent <= 100,
        ensures
            final(self).micros == allowance(budget.max_time_us, usable_percent),
            final(self).limit == if budget.max_nodes > 0 {
                budget.max_nodes as u64
            } else {
                0
            },
            final(self).nodes == 0,
            final(self).seldepth == 0,
            !final(self).stopped,
    {
        self.started = now();
        self.micros = if budget.max_time_us > 0 {
            assert(budget.max_time_us as u128 * usable_percent <= 0x7fff_ffff_ffff_ffff * 100) by (nonlinear_arith)
                requires
                    budget.max_time_us <= 0x7fff_ffff_ffff_ffff,
                    usable_percent <= 100,
                    budget.max_time_us > 0,
            ;
            let share = budget.max_time_us as u128 * usable_percent / 100;
            if share < 1 {
                1
            } else {
                share
            }
        } else {
            0
        };
        self.limit = if budget.max_nodes > 0 {
            budget.max_nodes as u64
        } else {
            0
        };
        self.nodes = 0;
        self.seldepth = 0;
        self.stopped = false;
    }

    /// Count one node at `ply`, given the microseconds elapsed when the clock
    /// was read (none when it was not). A stop is sticky: once the node limit
    /// is reached or, at a clock check, the allowance is used up, every later
    /// call answers `true` and counts nothing.
    pub fn advance(&mut self, ply: usize, elapsed_us: Option<u128>) -> (stop: bool)
        requires
            old(self).nodes < u64::MAX,
        ensures
            ({
                let o = *old(self);
                let f = *final(self);
                let out_of_time = clock_due(o.micros, o.nodes) && (match elapsed_us {
                    Some(e) => e >= o.micros,
                    None => false,
                });
                if o.stopped {
                    stop && f == o
                } else if (o.limit > 0 && o.nodes >= o.limit) || out_of_time {
                    stop && f == (SearchLimits { stopped: true, ..o })
                } else {
                    !stop && f == (SearchLimits {
                        nodes: (o.nodes + 1) as u64,
                        seldepth: if ply > o.seldepth {
                            ply
                        } else {
                            o.seldepth
                        },
                        ..o
                    })
                }
            }),
    {
        if self.stopped {
            return true;
        }
        let out_of_time = match elapsed_us {
            Some(e) => self.micros > 0 && self.nodes & 127 == 0 && e >= self.micros,
            None => false,
        };
        if (self.limit > 0 && self.nodes >= self.limit) || out_of_time {
            self.stopped = true;
            return true;
        }
        self.nodes += 1;
        if ply > self.seldepth {
            self.seldepth = ply;
        }
        false
    }

    /// Count one node at `ply`, reading the clock every 128 nodes when there
    /// is a time allowance. Whether the allowance is used up depends on the
    /// clock; every other outcome is fixed by the counters.
    pub fn tick(&mut self, ply: usize) -> (stop: bool)
        requires
            old(self).nodes < u64::MAX,
        ensures
            ticked(*old(self), ply, stop, *final(self)),
    {
        let due = !self.stopped && !(self.limit > 0 && self.nodes >= self.limit) && self.micros > 0 && self.nodes & 127
            == 0;
        let elapsed_us = if due {
            Some(whole_micros(&elapsed(&self.started)))
        } else {
            None
        };
        self.advance(ply, elapsed_us)
    }
}

/// One tick at `ply` took the limits from `o` to `f`, answering `stop`: a
/// stopped search stays as it was; at the node limit it stops; at a clock
/// check it either stops or counts; otherwise it counts the node and the
/// deepest ply.
pub open spec fn ticked(o: SearchLimits, ply: usize, stop: bool, f: SearchLimits) -> bool {
    let counted = f == (SearchLimits {
        nodes: (o.nodes + 1) as u64,
        seldepth: if ply > o.seldepth {
            ply
        } else {
            o.seldepth
        },
        ..o
    });
    if o.stopped {
        stop && f == o
    } else if o.limit > 0 && o.nodes >= o.limit {
        stop && f == (SearchLimits { stopped: true, ..o })
    } else if clock_due(o.micros, o.nodes) {
        (stop && f == (SearchLimits { stopped: true, ..o })) || (!stop && counted)
    } else {
        !stop && counted
    }
}

/// Over any run of ticks from limits within their node limit: the node count
/// never passes the limit, the limits themselves never change, a tick that
/// answers `false` counts one node and the deepest ply, and once a tick
/// answers `true` every later one does too and changes nothing.
pub proof fn lemma_tick_run(ls: Seq<SearchLimits>, plys: Seq<usize>, stops: Seq<bool>)
    requires
        ls.len() == plys.len() + 1,
        stops.len() == plys.len(),
        ls[0].limit > 0 ==> ls[0].nodes <= ls[0].limit,
        forall|i: int| 0 <= i < plys.len() ==> (#[trigger] ls[i]).nodes < u64::MAX,
        forall|i: int| 0 <= i < plys.len() ==> #[trigger] ticked(ls[i], plys[i], stops[i], ls[i + 1]),
    ensures
        forall|i: int| 0 <= i < ls.len() ==> (#[trigger] ls[i]).limit > 0 ==> ls[i].nodes <= ls[i].limit,
        forall|i: int| 0 <= i < ls.len() ==> (#[trigger] ls[i]).limit == ls[0].limit && ls[i].micros == ls[0].micros,
        forall|i: int|
            0 <= i < plys.len() && !#[trigger] stops[i] ==> ls[i + 1].nodes == ls[i].nodes + 1 && ls[i + 1].seldepth == (
            if plys[i] > ls[i].seldepth {
                plys[i]
            } else {
                ls[i].seldepth
            }),
        forall|i: int, j: int| 0 <= i < j < plys.len() && #[trigger] stops[i] ==> #[trigger] stops[j],
        forall|i: int, j: int| 0 <= i < j < plys.len() && #[trigger] stops[i] ==> #[trigger] ls[j + 1] == ls[j],
    decreases plys.len(),
{
    let n = plys.len() as int;
    if n > 0 {
        let (ls0, plys0, stops0) = (ls.drop_last(), plys.drop_last(), stops.drop_last());
        assert forall|i: int| 0 <= i < plys0.len() implies #[trigger] ticked(ls0[i], plys0[i], stops0[i], ls0[i + 1]) by {
            assert(ticked(ls[i], plys[i], stops[i], ls[i + 1]));
        }
        assert forall|i: int| 0 <= i < plys0.len() implies (#[trigger] ls0[i]).nodes < u64::MAX by {
            assert(ls[i].nodes < u64::MAX);
        }
        lemma_tick_run(ls0, plys0, stops0);
        assert(ticked(ls[n - 1], plys[n - 1], stops[n - 1], ls[n]));
        assert(ls0[n - 1] == ls[n - 1]);
        assert forall|i: int| 0 <= i < ls.len() implies (#[trigger] ls[i]).limit > 0 ==> ls[i].nodes <= ls[i].limit by {
            if i < n {
                assert(ls0[i] == ls[i]);
            }
        }
        assert forall|i: int| 0 <= i < ls.len() implies (#[trigger] ls[i]).limit == ls[0].limit && ls[i].micros
            == ls[0].micros by {
            if i < n {
                assert(ls0[i] == ls[i]);
            }
        }
        assert forall|i: int|
            0 <= i < plys.len() && !#[trigger] stops[i] implies ls[i + 1].nodes == ls[i].nodes + 1 && ls[i + 1].seldepth == (
            if plys[i] > ls[i].seldepth {
                plys[i]
            } else {
                ls[i].seldepth
            }) by {
            assert(ticked(ls[i], plys[i], stops[i], ls[i + 1]));
        }
    }
    lemma_tick_sticky(ls, plys, stops);
}

/// Once a tick of a run answers `true`, every later one does too and
/// changes nothing.
proof fn lemma_tick_sticky(ls: Seq<SearchLimits>, plys: Seq<usize>, stops: Seq<bool>)
    requires
        ls.len() == plys.len() + 1,
        stops.len() == plys.len(),
        forall|i: int| 0 <= i < plys.len() ==> #[trigger] ticked(ls[i], plys[i], stops[i], ls[i + 1]),
    ensures
        forall|i: int, j: int| 0 <= i < j < plys.len() && #[trigger] stops[i] ==> #[trigger] stops[j],
        forall|i: int, j: int| 0 <= i < j < plys.len() && #[trigger] stops[i] ==> #[trigger] ls[j + 1] == ls[j],
{
    assert forall|i: int, j: int| 0 <= i < j < plys.len() && #[trigger] stops[i] implies #[trigger] stops[j] by {
        assert(ticked(ls[i], plys[i], stops[i], ls[i + 1]));
        lemma_stopped_stays(ls, plys, stops, i + 1, j);
    }
    assert forall|i: int, j: int| 0 <= i < j < plys.len() && #[trigger] stops[i] implies #[trigger] ls[j + 1] == ls[j] by {
        assert(ticked(ls[i], plys[i], stops[i], ls[i + 1]));
        lemma_stopped_stays(ls, plys, stops, i + 1, j);
    }
}

/// A stop seen at `k` is still seen at every later tick.
proof fn lemma_stopped_stays(ls: Seq<SearchLimits>, plys: Seq<usize>, stops: Seq<bool>, k: int, j: int)
    requires
        ls.len() == plys.len() + 1,
        stops.len() == plys.len(),
        0 <= k <= j < plys.len(),
        ls[k].stopped,
        forall|i: int| 0 <= i < plys.len() ==> #[trigger] ticked(ls[i], plys[i], stops[i], ls[i + 1]),
    ensures
        ls[j].stopped,
        stops[j],
        ls[j + 1] == ls[j],
    decreases j - k,
{
    assert(ticked(ls[k], plys[k], stops[k], ls[k + 1]));
    if k < j {
        lemma_stopped_stays(ls, plys, stops, k + 1, j);
    }
}

/// Whether `n` is a power of two.
pub open spec fn is_power_of_two(n: usize) -> bool {
    n != 0 && n & (n - 1) as usize == 0
}

/// Contiguous fixed-width buckets. The policy for probing and replacement
/// stays in each engine.
pub struct Buckets<E: Copy, const WAYS: usize>(Vec<[E; WAYS]>);

impl<E: Copy, const WAYS: usize> Buckets<E, WAYS> {
    pub closed spec fn view(&self) -> Seq<[E; WAYS]> {
        self.0@
    }

    pub fn len(&self) -> (n: usize)
        ensures
            n == self@.len(),
    {
        self.0.len()
    }

    pub fn is_empty(&self) -> (b: bool)
        ensures
            b == (self@.len() == 0),
    {
        self.0.len() == 0
    }

    /// Set every bucket to `value`.
    pub fn fill(&mut self, value: [E; WAYS])
        ensures
            final(self)@.len() == old(self)@.len(),
            forall|i: int| 0 <= i < final(self)@.len() ==> #[trigger] final(self)@[i] == value,
    {
        let n = self.0.len();
        let mut i: usize = 0;
        while i < n
            invariant
                n == self@.len(),
                n == old(self)@.len(),
                i <= n,
                forall|k: int| 0 <= k < i ==> #[trigger] self@[k] == value,
            decreases n - i,
        {
            self.0.set(i, value);
            i += 1;
        }
    }

    /// The bucket at `index`.
    pub fn bucket(&self, index: usize) -> (b: &[E; WAYS])
        requires
            index < self@.len(),
        ensures
            *b == self@[index as int],
    {
        &self.0[index]
    }

    /// Replace the bucket at `index`.
    pub fn set_bucket(&mut self, index: usize, value: [E; WAYS])
        requires
            index < old(self)@.len(),
        ensures
            final(self)@ == old(self)@.update(index as int, value),
    {
        self.0.set(index, value);
    }
}

impl<E: Copy + Default, const WAYS: usize> Buckets<E, WAYS> {
    /// `bytes` of storage: a power-of-two number of buckets, each holding
    /// `WAYS` default entries. The byte count must be a whole number of buckets.
    pub fn new(bytes: usize) -> (b: Self)
        requires
            vstd::layout::size_of::<[E; WAYS]>() > 0,
            bytes as nat % vstd::layout::size_of::<[E; WAYS]>() == 0,
            is_power_of_two((bytes as nat / vstd::layout::size_of::<[E; WAYS]>()) as usize),
        ensures
            b@.len() == bytes as nat / vstd::layout::size_of::<[E; WAYS]>(),
            exists|d: E|
                #[trigger] call_ensures(E::default, (), d) && forall|i: int, j: int|
                    0 <= i < b@.len() && 0 <= j < WAYS ==> #[trigger] b@[i][j] == d,
    {
        let width = core::mem::size_of::<[E; WAYS]>();
        let count = bytes / width;
        let d = E::default();
        let fill = [d; WAYS];
        assert(forall|j: int| 0 <= j < WAYS ==> #[trigger] fill[j] == d);
        let mut buckets: Vec<[E; WAYS]> = Vec::new();
        let mut i: usize = 0;
        while i < count
            invariant
                i <= count,
                buckets@.len() == i,
                forall|k: int| 0 <= k < i ==> #[trigger] buckets@[k] == fill,
            decreases count - i,
        {
            buckets.push(fill);
            i += 1;
        }
        Buckets(buckets)
    }
}

/// `<[T]>::swap`: exchanges the items at `a` and `b`; it panics on an index
/// out of bounds, which the precondition rules out.
pub assume_specification<Elem>[ <[Elem]>::swap ](slice: &mut [Elem], a: usize, b: usize)
    requires
        a < old(slice)@.len(),
        b < old(slice)@.len(),
    ensures
        final(slice)@ == old(slice)@.update(a as int, old(slice)@[b as int]).update(b as int, old(slice)@[a as int]),
;

/// Whether `best` is where the selection step lands among `from..scores.len()`:
/// the first maximum, or with `last` the last one.
pub open spec fn is_pick(scores: Seq<i32>, from: int, best: int, last: bool) -> bool {
    &&& from <= best < scores.len()
    &&& forall|i: int| from <= i < scores.len() ==> scores[i] <= scores[best]
    &&& if last {
        forall|i: int| best < i < scores.len() ==> scores[i] < scores[best]
    } else {
        forall|i: int| from <= i < best ==> scores[i] < scores[best]
    }
}

/// Swap the best-scoring item of `items[from..]` to `from`. The tie policy
/// is explicit: with `LAST` the last maximum wins, otherwise the first.
/// `score` must give each item one score.
pub fn pick_best<T, const LAST: bool>(items: &mut [T], from: usize, score: impl Fn(&T) -> i32)
    requires
        from < old(items)@.len(),
        forall|x: &T| #[trigger] score.requires((x,)),
        forall|x: &T, a: i32, b: i32| score.ensures((x,), a) && score.ensures((x,), b) ==> a == b,
    ensures
        exists|scores: Seq<i32>, best: int|
            {
                &&& scores.len() == old(items)@.len()
                &&& forall|i: int| from <= i < scores.len() ==> score.ensures((&old(items)@[i],), #[trigger] scores[i])
                &&& is_pick(scores, from as int, best, LAST)
                &&& final(items)@ == old(items)@.update(from as int, old(items)@[best]).update(best, old(items)@[from as int])
            },
{
    let ghost original = items@;
    let ghost mut scores: Seq<i32> = Seq::new(items@.len(), |i: int| 0i32);
    let mut best = from;
    let mut best_score = score(&items[from]);
    proof {
        scores = scores.update(from as int, best_score);
    }
    let mut i = from + 1;
    while i < items.len()
        invariant
            items@ == original,
            from < i <= items@.len(),
            from <= best < i,
            scores.len() == items@.len(),
            best_score == scores[best as int],
            forall|x: &T| #[trigger] score.requires((x,)),
            forall|k: int| from <= k < i ==> score.ensures((&original[k],), #[trigger] scores[k]),
            forall|k: int| from <= k < i ==> #[trigger] scores[k] <= best_score,
            LAST ==> forall|k: int| best < k < i ==> #[trigger] scores[k] < best_score,
            !LAST ==> forall|k: int| from <= k < best ==> #[trigger] scores[k] < best_score,
        decreases items@.len() - i,
    {
        let s = score(&items[i]);
        proof {
            scores = scores.update(i as int, s);
        }
        if s > best_score || (LAST && s == best_score) {
            best = i;
            best_score = s;
        }
        i += 1;
    }
    assert(is_pick(scores, from as int, best as int, LAST));
    let a = best;
    items.swap(from, a);
    assert(items@ =~= original.update(from as int, original[best as int]).update(best as int, original[from as int]));
}

} // verus!

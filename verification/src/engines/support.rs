//! Move-ordering storage: a move and its score travel together, inline for
//! typical positions with safe spillover for larger ones.
use vstd::prelude::*;
use smallvec::SmallVec;
use crate::engine::shared::{is_pick, pick_best as select_best};
use crate::rules::types::Move;

verus! {

/// A move and its ordering score.
#[derive(Clone, Copy, Debug)]
pub struct ScoredMove {
    pub mv: Move,
    pub score: i32,
}

/// Scored moves, held in a `smallvec::SmallVec` with room for 256 inline.
#[verifier::external_body]
pub struct ScoredMoves {
    moves: SmallVec<[ScoredMove; 256]>,
}

/// The scored moves a list holds, in order.
pub uninterp spec fn scored_items(v: ScoredMoves) -> Seq<ScoredMove>;

impl ScoredMoves {
    pub open spec fn view(&self) -> Seq<ScoredMove> {
        scored_items(*self)
    }

    /// `SmallVec::new`: an empty list.
    #[verifier::external_body]
    pub fn new() -> (v: ScoredMoves)
        ensures
            scored_items(v) == Seq::<ScoredMove>::empty(),
    {
        ScoredMoves { moves: SmallVec::new() }
    }

    /// `SmallVec::push`: append `item`. It panics only when the length would
    /// overflow, which the precondition rules out.
    #[verifier::external_body]
    fn push_item(&mut self, item: ScoredMove)
        requires
            scored_items(*old(self)).len() < usize::MAX,
        ensures
            scored_items(*final(self)) == scored_items(*old(self)).push(item),
    {
        self.moves.push(item);
    }

    /// Append `mv`, not yet scored (score 0).
    pub fn push(&mut self, mv: Move)
        requires
            old(self)@.len() < usize::MAX,
        ensures
            final(self)@ == old(self)@.push(ScoredMove { mv, score: 0 }),
    {
        self.push_item(ScoredMove { mv, score: 0 });
    }

    /// `SmallVec::len`: the number of moves.
    #[verifier::external_body]
    pub fn len(&self) -> (n: usize)
        ensures
            n == scored_items(*self).len(),
    {
        self.moves.len()
    }

    /// Indexing through the list's slice view: the item at `i`.
    #[verifier::external_body]
    pub fn get(&self, i: usize) -> (m: ScoredMove)
        requires
            i < scored_items(*self).len(),
        ensures
            m == scored_items(*self)[i as int],
    {
        self.moves[i]
    }

    /// Writing through the list's mutable slice view: the item at `i`.
    #[verifier::external_body]
    pub fn set(&mut self, i: usize, m: ScoredMove)
        requires
            i < scored_items(*old(self)).len(),
        ensures
            scored_items(*final(self)) == scored_items(*old(self)).update(i as int, m),
    {
        self.moves[i] = m;
    }

    /// `SmallVec::as_mut_slice`: the items, to change in place.
    #[verifier::external_body]
    fn as_mut_slice(&mut self) -> (s: &mut [ScoredMove])
        ensures
            s@ == scored_items(*old(self)),
            scored_items(*final(self)) == final(s)@,
    {
        self.moves.as_mut_slice()
    }

    /// Swap the best-scored move of `from..` to `from`, the first maximum on ties.
    pub fn pick_best(&mut self, from: usize)
        requires
            from < old(self)@.len(),
        ensures
            exists|best: int|
                {
                    &&& is_pick(old(self)@.map_values(|m: ScoredMove| m.score), from as int, best, false)
                    &&& final(self)@ == old(self)@.update(from as int, old(self)@[best]).update(best, old(self)@[from as int])
                },
    {
        let ghost before = self@;
        let key = |m: &ScoredMove| -> (s: i32)
            ensures
                s == m.score,
            { m.score };
        let slice = self.as_mut_slice();
        select_best::<ScoredMove, false>(slice, from, key);
        proof {
            let (scores, best) = choose|scores: Seq<i32>, best: int|
                {
                    &&& scores.len() == before.len()
                    &&& forall|i: int| from <= i < scores.len() ==> key.ensures((&before[i],), #[trigger] scores[i])
                    &&& is_pick(scores, from as int, best, false)
                    &&& self@ == before.update(from as int, before[best]).update(best, before[from as int])
                };
            let keys = before.map_values(|m: ScoredMove| m.score);
            assert forall|i: int| from <= i < before.len() implies #[trigger] keys[i] == scores[i] by {
                assert(key.ensures((&before[i],), scores[i]));
            }
            assert(is_pick(keys, from as int, best, false));
        }
    }

    /// Pick the best of `i..` into `i`, for each `i` in turn: the list ends
    /// sorted by score, highest first, holding the same moves.
    pub fn selection_sort(&mut self)
        ensures
            final(self)@ == selection_sorted(old(self)@, 0),
            final(self)@.len() == old(self)@.len(),
            final(self)@.to_multiset() == old(self)@.to_multiset(),
            forall|a: int, b: int| 0 <= a < b < final(self)@.len() ==> final(self)@[a].score >= final(self)@[b].score,
    {
        let n = self.len();
        let mut i: usize = 0;
        while i < n
            invariant
                i <= n,
                self@.len() == n,
                self@.to_multiset() == old(self)@.to_multiset(),
                forall|a: int, b: int| 0 <= a < b < i ==> self@[a].score >= self@[b].score,
                forall|a: int, b: int| 0 <= a < i <= b < n ==> self@[a].score >= self@[b].score,
                selection_sorted(self@, i as int) == selection_sorted(old(self)@, 0),
            decreases n - i,
        {
            let ghost before = self@;
            self.pick_best(i);
            proof {
                let best = choose|best: int|
                    {
                        &&& is_pick(before.map_values(|m: ScoredMove| m.score), i as int, best, false)
                        &&& self@ == before.update(i as int, before[best]).update(best, before[i as int])
                    };
                lemma_first_pick_unique(scores_of(before), i as int, best, first_best(before, i as int));
                assert(selection_sorted(before, i as int) == selection_sorted(self@, i + 1));
                lemma_swap_multiset(before, i as int, best);
                let keys = before.map_values(|m: ScoredMove| m.score);
                assert forall|a: int, b: int| 0 <= a < b < i + 1 implies self@[a].score >= self@[b].score by {
                    if b == i {
                        assert(keys[best] == before[best].score);
                        assert(self@[b] == before[best]);
                        assert(self@[a] == before[a]);
                    } else {
                        assert(self@[a] == before[a] && self@[b] == before[b]);
                    }
                }
                assert forall|a: int, b: int| 0 <= a < i + 1 <= b < n implies self@[a].score >= self@[b].score by {
                    let c = if b == best {
                        i as int
                    } else {
                        b
                    };
                    assert(self@[b] == before[c]);
                    assert(keys[c] == before[c].score);
                    if a == i {
                        assert(self@[a] == before[best]);
                        assert(keys[best] == before[best].score);
                    } else {
                        assert(self@[a] == before[a]);
                    }
                }
            }
            i += 1;
        }
    }
}

/// The scores of a list of scored moves, in order.
pub open spec fn scores_of(s: Seq<ScoredMove>) -> Seq<i32> {
    s.map_values(|m: ScoredMove| m.score)
}

/// The position of the first highest score among the items from `from` on.
pub open spec fn first_best(s: Seq<ScoredMove>, from: int) -> int {
    choose|b: int| is_pick(scores_of(s), from, b, false)
}

/// `s` after selection from `from` on: for each position in turn, the first
/// highest-scored item of the rest exchanged into it.
pub open spec fn selection_sorted(s: Seq<ScoredMove>, from: int) -> Seq<ScoredMove>
    decreases s.len() - from,
{
    if 0 <= from < s.len() && from <= first_best(s, from) < s.len() {
        let b = first_best(s, from);
        selection_sorted(s.update(from, s[b]).update(b, s[from]), from + 1)
    } else {
        s
    }
}

/// There is one first maximum.
pub proof fn lemma_first_pick_unique(scores: Seq<i32>, from: int, a: int, b: int)
    requires
        is_pick(scores, from, a, false),
    ensures
        is_pick(scores, from, b, false) ==> a == b,
{
    if is_pick(scores, from, b, false) {
        if a < b {
            assert(scores[a] < scores[b]);
        } else if b < a {
            assert(scores[b] < scores[a]);
        }
    }
}

/// Exchanging two items keeps what a sequence holds.
pub proof fn lemma_swap_multiset<A>(s: Seq<A>, i: int, j: int)
    requires
        0 <= i < s.len(),
        0 <= j < s.len(),
    ensures
        s.update(i, s[j]).update(j, s[i]).to_multiset() == s.to_multiset(),
{
    broadcast use vstd::seq_lib::to_multiset_update, vstd::multiset::group_multiset_axioms;
    broadcast use vstd::seq_lib::to_multiset_contains;

    let t = s.update(i, s[j]);
    let m = s.to_multiset();
    assert(s.contains(s[i]));
    assert(m.count(s[i]) > 0);
    assert(t.to_multiset() == m.insert(s[j]).remove(s[i]));
    assert(t[j] == s[j]);
    assert(t.update(j, s[i]).to_multiset() == t.to_multiset().insert(s[i]).remove(s[j]));
    let r = m.insert(s[j]).remove(s[i]).insert(s[i]).remove(s[j]);
    assert forall|x: A| #[trigger] r.count(x) == m.count(x) by {}
    assert(r =~= m);
}

} // verus!

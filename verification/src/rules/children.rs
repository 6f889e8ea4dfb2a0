//! Iteration that lends each item for one call at a time.
use vstd::prelude::*;

verus! {

/// Unlike `Iterator`, each item may borrow the cursor for just one call, so a
/// child position cannot outlive the step that made it.
pub trait LendingIterator {
    type Item<'a> where Self: 'a;

    fn next(&mut self) -> Option<Self::Item<'_>>;
}

} // verus!

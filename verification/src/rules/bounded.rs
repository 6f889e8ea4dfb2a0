//! Fixed-capacity lists of the `arrayvec` crate, as the rules use them: the
//! squares of a push chain, the displacements of a push plan and the squares
//! an undo record restores. Each list's contents are named below; every
//! operation the rules call is a wrapper whose contract speaks of that name.
use vstd::prelude::*;
use arrayvec::ArrayVec;
use super::types::Piece;

verus! {

#[verifier::external_type_specification]
#[verifier::external_body]
#[verifier::reject_recursive_types(T)]
pub struct ExArrayVec<T, const CAP: usize>(ArrayVec<T, CAP>);

/// The squares held by a push chain, in insertion order.
pub uninterp spec fn chain_items(v: ArrayVec<u8, 8>) -> Seq<u8>;

/// The (source, target) pairs held by a push plan, in insertion order.
pub uninterp spec fn route_items(v: ArrayVec<(u8, u8), 16>) -> Seq<(u8, u8)>;

/// The (square, previous piece) pairs held by an undo record, in insertion order.
pub uninterp spec fn changed_items(v: ArrayVec<(u8, Piece), 32>) -> Seq<(u8, Piece)>;

/// `ArrayVec::new`: an empty list.
#[verifier::external_body]
pub fn chain_new() -> (v: ArrayVec<u8, 8>)
    ensures
        chain_items(v) == Seq::<u8>::empty(),
{
    ArrayVec::new()
}

/// `ArrayVec::push`: appends one item; it panics on a full list, which the
/// precondition rules out.
#[verifier::external_body]
pub fn chain_push(v: &mut ArrayVec<u8, 8>, x: u8)
    requires
        chain_items(*old(v)).len() < 8,
    ensures
        chain_items(*final(v)) == chain_items(*old(v)).push(x),
{
    v.push(x)
}

/// `ArrayVec::len`: the number of items, never above the capacity.
#[verifier::external_body]
pub fn chain_len(v: &ArrayVec<u8, 8>) -> (n: usize)
    ensures
        n == chain_items(*v).len(),
        n <= 8,
{
    v.len()
}

/// Indexing through `ArrayVec`'s slice view: the item at `i`.
#[verifier::external_body]
pub fn chain_get(v: &ArrayVec<u8, 8>, i: usize) -> (x: u8)
    requires
        i < chain_items(*v).len(),
    ensures
        x == chain_items(*v)[i as int],
{
    v[i]
}

/// `ArrayVec::new`: an empty list.
#[verifier::external_body]
pub fn route_new() -> (v: ArrayVec<(u8, u8), 16>)
    ensures
        route_items(v) == Seq::<(u8, u8)>::empty(),
{
    ArrayVec::new()
}

/// `ArrayVec::push`: appends one item; it panics on a full list, which the
/// precondition rules out.
#[verifier::external_body]
pub fn route_push(v: &mut ArrayVec<(u8, u8), 16>, x: (u8, u8))
    requires
        route_items(*old(v)).len() < 16,
    ensures
        route_items(*final(v)) == route_items(*old(v)).push(x),
{
    v.push(x)
}

/// `ArrayVec::len`: the number of items, never above the capacity.
#[verifier::external_body]
pub fn route_len(v: &ArrayVec<(u8, u8), 16>) -> (n: usize)
    ensures
        n == route_items(*v).len(),
        n <= 16,
{
    v.len()
}

/// Indexing through `ArrayVec`'s slice view: the item at `i`.
#[verifier::external_body]
pub fn route_get(v: &ArrayVec<(u8, u8), 16>, i: usize) -> (x: (u8, u8))
    requires
        i < route_items(*v).len(),
    ensures
        x == route_items(*v)[i as int],
{
    v[i]
}

/// `ArrayVec::as_slice`: the items, in order.
#[verifier::external_body]
pub fn route_slice(v: &ArrayVec<(u8, u8), 16>) -> (s: &[(u8, u8)])
    ensures
        s@ == route_items(*v),
{
    v.as_slice()
}

/// `Clone::clone` of `ArrayVec`: a list with the same items.
#[verifier::external_body]
pub fn route_clone(v: &ArrayVec<(u8, u8), 16>) -> (c: ArrayVec<(u8, u8), 16>)
    ensures
        route_items(c) == route_items(*v),
{
    v.clone()
}

/// `ArrayVec::new`: an empty list.
#[verifier::external_body]
pub fn changed_new() -> (v: ArrayVec<(u8, Piece), 32>)
    ensures
        changed_items(v) == Seq::<(u8, Piece)>::empty(),
{
    ArrayVec::new()
}

/// `ArrayVec::push`: appends one item; it panics on a full list, which the
/// precondition rules out.
#[verifier::external_body]
pub fn changed_push(v: &mut ArrayVec<(u8, Piece), 32>, x: (u8, Piece))
    requires
        changed_items(*old(v)).len() < 32,
    ensures
        changed_items(*final(v)) == changed_items(*old(v)).push(x),
{
    v.push(x)
}

/// `ArrayVec::len`: the number of items, never above the capacity.
#[verifier::external_body]
pub fn changed_len(v: &ArrayVec<(u8, Piece), 32>) -> (n: usize)
    ensures
        n == changed_items(*v).len(),
        n <= 32,
{
    v.len()
}

/// Indexing through `ArrayVec`'s slice view: the item at `i`.
#[verifier::external_body]
pub fn changed_get(v: &ArrayVec<(u8, Piece), 32>, i: usize) -> (x: (u8, Piece))
    requires
        i < changed_items(*v).len(),
    ensures
        x == changed_items(*v)[i as int],
{
    v[i]
}

/// `Clone::clone` of `ArrayVec`: a list with the same items.
#[verifier::external_body]
pub fn changed_clone(v: &ArrayVec<(u8, Piece), 32>) -> (c: ArrayVec<(u8, Piece), 32>)
    ensures
        changed_items(c) == changed_items(*v),
{
    v.clone()
}

} // verus!

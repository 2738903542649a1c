//! The way of a playout from the root: the edges that it went down, in
//! their order, kept in a vector of fixed capacity.

use arrayvec::ArrayVec;
use vstd::prelude::*;

verus! {

/// One edge of a path: the generation of the arena of its node (0 for the
/// root), the place of the node in the arena, and the place of the edge in
/// the node.
pub type Step = (u64, usize, usize);

#[verifier::external_type_specification]
#[verifier::external_body]
#[verifier::reject_recursive_types(T)]
pub struct ExArrayVec<T, const CAP: usize>(arrayvec::ArrayVec<T, CAP>);

/// The steps that a path holds, first step first.
pub uninterp spec fn path_steps(path: ArrayVec<(u64, usize, usize), 256>) -> Seq<(u64, usize, usize)>;

/// `ArrayVec::new`: an empty path.
#[verifier::external_body]
pub(crate) fn path_new() -> (r: ArrayVec<(u64, usize, usize), 256>)
    ensures
        path_steps(r) == Seq::<(u64, usize, usize)>::empty(),
{
    ArrayVec::new()
}

/// `ArrayVec::len`: the number of steps, which never passes the capacity.
#[verifier::external_body]
pub(crate) fn path_len(path: &ArrayVec<(u64, usize, usize), 256>) -> (r: usize)
    ensures
        r == path_steps(*path).len(),
        r <= 256,
{
    path.len()
}

/// `ArrayVec::push`, which panics on a full vector: the step is added at
/// the end.
#[verifier::external_body]
pub(crate) fn path_push(path: &mut ArrayVec<(u64, usize, usize), 256>, step: (u64, usize, usize))
    requires
        path_steps(*old(path)).len() < 256,
    ensures
        path_steps(*final(path)) == path_steps(*old(path)).push(step),
{
    path.push(step)
}

/// `ArrayVec::as_slice` and its element `i`: step `i` of the path.
#[verifier::external_body]
pub(crate) fn path_get(path: &ArrayVec<(u64, usize, usize), 256>, i: usize) -> (r: (
    u64,
    usize,
    usize,
))
    requires
        i < path_steps(*path).len(),
    ensures
        r == path_steps(*path)[i as int],
{
    path.as_slice()[i]
}

} // verus!

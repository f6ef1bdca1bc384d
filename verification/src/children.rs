//! The inline list of child indices that a node of the revision graph holds.

use tinyvec::ArrayVec;
use vstd::prelude::*;

verus! {

/// How many children a node's inline list can hold.
pub const CHILD_CAPACITY: usize = 4;

/// `tinyvec::ArrayVec`, as a value that is only handed on.
#[verifier::external_type_specification]
#[verifier::external_body]
#[verifier::reject_recursive_types(A)]
pub struct ExArrayVec<A>(ArrayVec<A>);

/// The indices that a child list holds, in the order in which they were
/// recorded.
pub uninterp spec fn child_list(list: ArrayVec<[usize; 4]>) -> Seq<usize>;

/// `ArrayVec::new`: a list that holds nothing.
#[verifier::external_body]
pub(crate) fn children_new() -> (list: ArrayVec<[usize; 4]>)
    ensures
        child_list(list).len() == 0,
{
    ArrayVec::new()
}

/// `ArrayVec::push`: records one more index at the end. The outside function
/// panics on a full list, so a caller has to show that there is room.
#[verifier::external_body]
pub(crate) fn children_push(list: &mut ArrayVec<[usize; 4]>, ix: usize)
    requires
        child_list(*old(list)).len() < CHILD_CAPACITY,
    ensures
        child_list(*final(list)) == child_list(*old(list)).push(ix),
{
    list.push(ix)
}

/// The first element of the slice that an `ArrayVec` dereferences to: the
/// index recorded first, if any.
#[verifier::external_body]
pub(crate) fn children_first(list: &ArrayVec<[usize; 4]>) -> (first: Option<usize>)
    ensures
        first == (if child_list(*list).len() > 0 {
            Some(child_list(*list)[0])
        } else {
            None
        }),
{
    list.first().copied()
}

} // verus!

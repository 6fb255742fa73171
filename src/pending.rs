use vstd::prelude::*;

use arrayvec::ArrayVec;

verus! {

#[verifier::external_type_specification]
#[verifier::external_body]
#[verifier::reject_recursive_types(T)]
pub struct ExArrayVec<T, const CAP: usize>(ArrayVec<T, CAP>);

/// The ids held by a list of at most two requests in flight, oldest first.
pub uninterp spec fn pending_ids(v: ArrayVec<u64, 2>) -> Seq<u64>;

/// Relies on `ArrayVec::new`: a new vector is empty.
#[verifier::external_body]
pub(crate) fn pending_new() -> (r: ArrayVec<u64, 2>)
    ensures
        pending_ids(r) == Seq::<u64>::empty(),
{
    ArrayVec::new()
}

/// Relies on `ArrayVec::len`: the number of elements, never above the capacity.
#[verifier::external_body]
pub(crate) fn pending_len(v: &ArrayVec<u64, 2>) -> (r: usize)
    ensures
        r == pending_ids(*v).len(),
        r <= 2,
{
    v.len()
}

/// Relies on `ArrayVec::push`: appends; it panics when the vector is full.
#[verifier::external_body]
pub(crate) fn pending_push(v: &mut ArrayVec<u64, 2>, id: u64)
    requires
        pending_ids(*old(v)).len() < 2,
    ensures
        pending_ids(*final(v)) == pending_ids(*old(v)).push(id),
{
    v.push(id)
}

/// Relies on `ArrayVec::pop`: removes and returns the last element, if any.
#[verifier::external_body]
pub(crate) fn pending_pop(v: &mut ArrayVec<u64, 2>) -> (r: Option<u64>)
    ensures
        pending_ids(*old(v)).len() == 0 ==> r is None && pending_ids(*final(v)) == pending_ids(
            *old(v),
        ),
        pending_ids(*old(v)).len() > 0 ==> r == Some(pending_ids(*old(v)).last()) && pending_ids(
            *final(v),
        ) == pending_ids(*old(v)).drop_last(),
{
    v.pop()
}

/// Relies on `ArrayVec::remove`: removes the element at `index` and shifts the later
/// ones down; it panics when `index` is out of bounds.
#[verifier::external_body]
pub(crate) fn pending_remove(v: &mut ArrayVec<u64, 2>, index: usize) -> (r: u64)
    requires
        index < pending_ids(*old(v)).len(),
    ensures
        r == pending_ids(*old(v))[index as int],
        pending_ids(*final(v)) == pending_ids(*old(v)).remove(index as int),
{
    v.remove(index)
}

/// Relies on `ArrayVec::clear`: removes every element.
#[verifier::external_body]
pub(crate) fn pending_clear(v: &mut ArrayVec<u64, 2>)
    ensures
        pending_ids(*final(v)) == Seq::<u64>::empty(),
{
    v.clear()
}

/// Relies on `ArrayVec::as_slice`: the elements in order.
#[verifier::external_body]
pub(crate) fn pending_as_vec(v: &ArrayVec<u64, 2>) -> (r: Vec<u64>)
    ensures
        r@ == pending_ids(*v),
{
    v.as_slice().to_vec()
}

} // verus!

//! Fixed-capacity buffers.

use arrayvec::ArrayVec;
use vstd::prelude::*;

verus! {

/// `arrayvec::ArrayVec`, a vector of at most `CAP` items held inline.
/// Verus sees nothing inside a value of it; it is passed through to
/// [`array_vec_into_vec`].
#[verifier::external_type_specification]
#[verifier::external_body]
#[verifier::reject_recursive_types(T)]
pub struct ExArrayVec<T, const CAP: usize>(ArrayVec<T, CAP>);

/// `ArrayVec::into_iter`, collected into a `Vec`: the items of `v`, of
/// which there are at most `CAP`. Which items they are is not stated: a
/// name for the contents of an `ArrayVec` would have to be generic over
/// its item type.
#[verifier::external_body]
pub(crate) fn array_vec_into_vec<T, const CAP: usize>(v: ArrayVec<T, CAP>) -> (r: Vec<T>)
    ensures
        r@.len() <= CAP,
{
    v.into_iter().collect()
}

} // verus!

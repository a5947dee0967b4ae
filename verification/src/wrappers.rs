//! Calls into std whose behaviour the library relies on.

use vstd::prelude::*;
use vstd::std_specs::iter::IteratorSpec;

verus! {

/// `<[T]>::swap`: exchanges the elements at `a` and `b`.
#[verifier::external_body]
pub(crate) fn slice_swap<T>(s: &mut [T], a: usize, b: usize)
    requires
        a < old(s)@.len(),
        b < old(s)@.len(),
    ensures
        final(s)@ == old(s)@.update(a as int, old(s)@[b as int]).update(b as int, old(s)@[a as int]),
{
    s.swap(a, b);
}

/// `Iterator::collect` into a `Vec`: the items that `iter` yields, in
/// order. Where the iterator follows vstd's model of iterators, these are
/// the items that model says it has left; of other iterators nothing is
/// stated.
#[verifier::external_body]
pub(crate) fn collect_vec<T, I: Iterator<Item = T>>(iter: I) -> (v: Vec<T>)
    ensures
        iter.obeys_prophetic_iter_laws() ==> v@ == iter.remaining(),
{
    iter.collect()
}

/// `format!("{:?}", x)`: the `Debug` text of one value. It rests on
/// `T`'s impl of `Debug`, so no clause states it.
#[verifier::external_body]
pub(crate) fn debug_item<T: core::fmt::Debug>(x: &T) -> String {
    format!("{:?}", x)
}

} // verus!

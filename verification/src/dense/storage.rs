//! Backing storage of dense vectors.

use arrayvec::ArrayVec;
use vstd::prelude::*;

use crate::dense::iter::DenseSliceIter;
use crate::bounded::array_vec_into_vec;
use crate::text::{debug_list_text, is_list_of};
use crate::iter::take_items;
use crate::wrappers::collect_vec;
use vstd::std_specs::iter::IteratorSpec;
use crate::{FromIteratorLossy, Index, TryFromIterator};

verus! {

/// Backing storage for dense vectors: one value per component.
pub trait DenseStorage<T>: Sized {
    /// The stored values.
    spec fn spec_values(&self) -> Seq<T>;

    /// Returns the number of elements in the storage.
    fn len(&self) -> (n: usize)
        ensures
            n == self.spec_values().len(),
    ;

    /// Returns true if the storage has a length of 0.
    fn is_empty(&self) -> (b: bool)
        ensures
            b == (self.spec_values().len() == 0),
    ;

    /// Returns a slice containing the entire value storage.
    fn values(&self) -> (s: &[T])
        ensures
            s@ == self.spec_values(),
    ;

    /// Returns a mutable slice containing the entire value storage.
    fn values_mut(&mut self) -> (s: &mut [T])
        ensures
            s@ == old(self).spec_values(),
            final(s)@ == final(self).spec_values(),
    ;

    /// Gives up the storage for its values, in order.
    fn into_values(self) -> (v: Vec<T>)
        ensures
            v@ == self.spec_values(),
    ;

    /// Returns a borrowing iterator over `(index, value)` pairs.
    fn iter<'a, Idx: Index>(&'a self) -> (it: DenseSliceIter<'a, Idx, T>)
        ensures
            it.slice_iter().remaining().unref() == self.spec_values(),
            it.slice_iter().decrease() is Some,
            it.index().rank() == 0,
    ;
}

/// Errors that can arise from a [`DenseVecStorage`].
///
/// No value of it is ever made, because construction from a [`Vec`] is
/// always infallible (unlike fixed-capacity storage). It exists so that
/// [`DenseVecStorage`] satisfies [`TryFromIterator`].
#[derive(Debug)]
pub struct DenseVecStorageError {
    never: (),
}

/// Heap-allocated storage for a dense vector.
///
/// Wraps a [`Vec<T>`] where every element is a component. Construction
/// from an iterator is always infallible.
#[derive(Clone, Eq, PartialEq, Debug)]
pub struct DenseVecStorage<T> {
    values: Vec<T>,
}

impl<T> DenseVecStorage<T> {
    /// The stored values.
    pub closed spec fn value_seq(&self) -> Seq<T> {
        self.values@
    }

    /// Wraps `values`.
    pub fn new(values: Vec<T>) -> (s: Self)
        ensures
            s.value_seq() == values@,
    {
        DenseVecStorage { values }
    }
}

impl<T> From<Vec<T>> for DenseVecStorage<T> {
    fn from(values: Vec<T>) -> (s: Self)
        ensures
            s.value_seq() == values@,
    {
        DenseVecStorage { values }
    }
}

impl<T> vstd::std_specs::convert::FromSpecImpl<Vec<T>> for DenseVecStorage<T> {
    open spec fn obeys_from_spec() -> bool {
        true
    }

    closed spec fn from_spec(values: Vec<T>) -> Self {
        DenseVecStorage { values }
    }
}

impl<T: Copy> DenseStorage<T> for DenseVecStorage<T> {
    open spec fn spec_values(&self) -> Seq<T> {
        self.value_seq()
    }

    fn len(&self) -> (n: usize) {
        self.values.len()
    }

    fn is_empty(&self) -> (b: bool) {
        self.values.len() == 0
    }

    fn values(&self) -> (s: &[T]) {
        self.values.as_slice()
    }

    fn values_mut(&mut self) -> (s: &mut [T]) {
        self.values.as_mut_slice()
    }

    fn into_values(self) -> (v: Vec<T>) {
        self.values
    }

    fn iter<'a, Idx: Index>(&'a self) -> (it: DenseSliceIter<'a, Idx, T>) {
        proof {
            broadcast use vstd::std_specs::slice::axiom_spec_slice_iter;
        }
        let it = DenseSliceIter::new(self.values.as_slice().iter());
        proof {
            assert(it.slice_iter().remaining().unref() =~= self.values@);
        }
        it
    }
}

impl<T> TryFromIterator<T> for DenseVecStorage<T> {
    type Error = DenseVecStorageError;

    /// Always succeeds, with the items.
    open spec fn tried_from(items: Seq<T>, r: Result<Self, Self::Error>) -> bool {
        r matches Ok(s) && s.value_seq() == items
    }

    /// Always succeeds, with the collected items.
    fn try_from_iter<I: Iterator<Item = T>>(iter: I) -> (r: Result<Self, Self::Error>) {
        let values = collect_vec(iter);
        let r = Ok(DenseVecStorage { values });
        proof {
            assert(Self::tried_from(values@, r));
        }
        r
    }
}

impl<T> FromIteratorLossy<T> for DenseVecStorage<T> {
    /// Holds all the items.
    open spec fn lossy_from(items: Seq<T>, s: Self) -> bool {
        s.value_seq() == items
    }

    /// Holds all the collected items.
    fn from_iter_lossy<I: Iterator<Item = T>>(iter: I) -> (s: Self) {
        let values = collect_vec(iter);
        let s = DenseVecStorage { values };
        proof {
            assert(Self::lossy_from(values@, s));
        }
        s
    }
}

/// Errors that can arise from a [`DenseArrayVecStorage`].
#[derive(Debug)]
pub enum DenseArrayVecStorageError {
    /// The iterator yielded more items than the fixed capacity `N`.
    StorageExceeded {
        /// The number of items that could not be stored.
        excess: usize,
    },
}

/// Fixed-capacity storage for a dense vector: at most `N` components.
///
/// Construction from an iterator fails
/// ([`DenseArrayVecStorageError::StorageExceeded`]) when the number of
/// elements exceeds `N`.
#[derive(Clone, Eq, PartialEq, Debug)]
pub struct DenseArrayVecStorage<T, const N: usize> {
    values: Vec<T>,
}

impl<T, const N: usize> DenseArrayVecStorage<T, N> {
    /// The stored values.
    pub closed spec fn value_seq(&self) -> Seq<T> {
        self.values@
    }

    /// The storage holds at most `N` values.
    pub open spec fn wf(&self) -> bool {
        self.value_seq().len() <= N
    }
}

impl<T, const N: usize> From<ArrayVec<T, N>> for DenseArrayVecStorage<T, N> {
    /// Holds the items of `values`, at most `N` of them.
    fn from(values: ArrayVec<T, N>) -> (s: Self)
        ensures
            s.wf(),
    {
        DenseArrayVecStorage { values: array_vec_into_vec(values) }
    }
}

impl<T, const N: usize> vstd::std_specs::convert::FromSpecImpl<ArrayVec<T, N>> for DenseArrayVecStorage<T, N> {
    /// What the conversion holds is not stated beyond its length.
    open spec fn obeys_from_spec() -> bool {
        false
    }

    open spec fn from_spec(values: ArrayVec<T, N>) -> Self {
        arbitrary()
    }
}

impl<T: Copy, const N: usize> DenseStorage<T> for DenseArrayVecStorage<T, N> {
    open spec fn spec_values(&self) -> Seq<T> {
        self.value_seq()
    }

    fn len(&self) -> (n: usize) {
        self.values.len()
    }

    fn is_empty(&self) -> (b: bool) {
        self.values.len() == 0
    }

    fn values(&self) -> (s: &[T]) {
        self.values.as_slice()
    }

    fn values_mut(&mut self) -> (s: &mut [T]) {
        self.values.as_mut_slice()
    }

    fn into_values(self) -> (v: Vec<T>) {
        self.values
    }

    fn iter<'a, Idx: Index>(&'a self) -> (it: DenseSliceIter<'a, Idx, T>) {
        proof {
            broadcast use vstd::std_specs::slice::axiom_spec_slice_iter;
        }
        let it = DenseSliceIter::new(self.values.as_slice().iter());
        proof {
            assert(it.slice_iter().remaining().unref() =~= self.values@);
        }
        it
    }
}

impl<T, const N: usize> TryFromIterator<T> for DenseArrayVecStorage<T, N> {
    type Error = DenseArrayVecStorageError;

    /// The items, where they fit; else the number of items past the
    /// capacity.
    open spec fn tried_from(items: Seq<T>, r: Result<Self, Self::Error>) -> bool {
        if items.len() <= N {
            r matches Ok(s) && s.value_seq() == items
        } else {
            r == Err::<Self, Self::Error>(
                DenseArrayVecStorageError::StorageExceeded { excess: (items.len() - N) as usize },
            )
        }
    }

    /// Takes the items up to the capacity, then consumes the items left
    /// over; fails with their number, if any.
    fn try_from_iter<I: Iterator<Item = T>>(iter: I) -> (r: Result<Self, Self::Error>) {
        let ghost all = iter.remaining();
        let ghost obeys = iter.obeys_prophetic_iter_laws();
        let mut iter = iter;
        let values = take_items(&mut iter, N);
        let excess = collect_vec(iter).len();
        if excess > 0 {
            let r = Err(DenseArrayVecStorageError::StorageExceeded { excess });
            proof {
                if obeys {
                    assert(all.len() > N) by {
                        if all.len() <= N {
                            assert(all.take(all.len() as int) =~= all);
                        }
                    }
                    assert(Self::tried_from(all, r));
                }
            }
            return r;
        }
        let r = Ok(DenseArrayVecStorage { values });
        proof {
            if obeys {
                if all.len() <= N {
                    assert(all.take(all.len() as int) =~= all);
                }
                assert(Self::tried_from(all, r));
            }
        }
        r
    }
}

impl<T, const N: usize> FromIteratorLossy<T> for DenseArrayVecStorage<T, N> {
    /// The first items, as many as fit.
    open spec fn lossy_from(items: Seq<T>, s: Self) -> bool {
        s.value_seq() == items.take(if items.len() <= N { items.len() as int } else { N as int })
    }

    /// Takes the first items, up to the capacity, and leaves the rest.
    fn from_iter_lossy<I: Iterator<Item = T>>(iter: I) -> (s: Self) {
        let ghost all = iter.remaining();
        let mut iter = iter;
        let values = take_items(&mut iter, N);
        let s = DenseArrayVecStorage { values };
        proof {
            let items = if iter.obeys_prophetic_iter_laws() {
                all
            } else {
                values@
            };
            if !iter.obeys_prophetic_iter_laws() {
                assert(values@.take(values@.len() as int) =~= values@);
            }
            assert(Self::lossy_from(items, s));
        }
        s
    }
}

impl<T: core::fmt::Debug> DenseVecStorage<T> {
    /// The values as `Debug` renders a list: `[a, b, c]`.
    pub fn debug_string(&self) -> (r: String)
        ensures
            is_list_of(r@, self.value_seq().len()),
    {
        debug_list_text(self.values.as_slice())
    }
}

impl<T: core::fmt::Debug, const N: usize> DenseArrayVecStorage<T, N> {
    /// The values as `Debug` renders a list: `[a, b, c]`.
    pub fn debug_string(&self) -> (r: String)
        ensures
            is_list_of(r@, self.value_seq().len()),
    {
        debug_list_text(self.values.as_slice())
    }
}

} // verus!

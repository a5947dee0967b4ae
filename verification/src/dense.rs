//! Dense vector representations.
//!
//! Dense vectors store every component from index `0` to `len()-1`.
//! The generic `GenericDenseVec<T, S>` is parameterized by the backing
//! storage `S`.

use std::marker::PhantomData;
use std::ops::Range;

use vstd::prelude::*;
use vstd::std_specs::iter::IteratorSpec;

use crate::{FromIteratorLossy, Index, TryFromIterator, Vector};

pub mod distance;
pub mod dot;
pub mod heap;
pub mod iter;
pub mod ops;
pub mod stack;
pub mod storage;

pub use self::iter::{DenseSliceIter, DenseVecIntoIter, Indexed};
pub use self::storage::{
    DenseArrayVecStorage, DenseArrayVecStorageError, DenseStorage, DenseVecStorage, DenseVecStorageError,
};

verus! {

/// A vector whose components are implicitly indexed `0..len`.
///
/// Every position in `0..len` is stored, making dense vectors suitable
/// when most components are non-zero.
pub trait DenseVector: Vector {
    /// The components, in index order.
    spec fn spec_values(&self) -> Seq<Self::Value>;

    /// Returns the implicit index space as a half-open range `0..len`.
    fn indices<Idx: Index>(&self) -> (r: Range<Idx>)
        requires
            self.spec_values().len() <= Idx::max_rank(),
        ensures
            r.start.rank() == 0,
            r.end.rank() == self.spec_values().len(),
    ;

    /// Returns a slice of all vector components in index order.
    fn values(&self) -> (s: &[Self::Value])
        ensures
            s@ == self.spec_values(),
    ;

    /// A borrowing iterator over `self`.
    fn iter<'a, Idx: Index>(&'a self) -> (it: DenseSliceIter<'a, Idx, Self::Value>)
        ensures
            it.slice_iter().remaining().unref() == self.spec_values(),
            it.slice_iter().decrease() is Some,
            it.index().rank() == 0,
    ;

    /// An owning iterator over `self`.
    fn into_iter<Idx: Index>(self) -> (it: DenseVecIntoIter<Idx, Self::Value>)
        ensures
            it.indexed().index().rank() == 0,
            it.indexed().inner().remaining() == self.spec_values(),
    ;
}

/// A dense vector backed by storage `S`.
#[derive(Eq, PartialEq, Debug)]
pub struct GenericDenseVec<T, S> {
    pub(crate) storage: S,
    _phantom: PhantomData<T>,
}

/// Heap-allocated dense vector.
pub type DenseVec<T> = GenericDenseVec<T, DenseVecStorage<T>>;

/// Dense vector of at most `N` components.
pub type DenseArrayVec<T, const N: usize> = GenericDenseVec<T, DenseArrayVecStorage<T, N>>;

impl<T, S> GenericDenseVec<T, S> {
    /// The backing storage.
    pub closed spec fn storage_view(&self) -> S {
        self.storage
    }

    /// Wraps `storage`.
    pub fn new(storage: S) -> (v: Self)
        ensures
            v.storage_view() == storage,
    {
        GenericDenseVec { storage, _phantom: PhantomData }
    }
}

impl<T, S: DenseStorage<T>> GenericDenseVec<T, S> {
    /// The components.
    pub open spec fn view_values(&self) -> Seq<T> {
        self.storage_view().spec_values()
    }

    /// The number of components in `self`.
    pub fn len(&self) -> (n: usize)
        ensures
            n == self.view_values().len(),
    {
        self.storage.len()
    }

    /// `true` if `self.len() == 0`, otherwise `false`.
    pub fn is_empty(&self) -> (b: bool)
        ensures
            b == (self.view_values().len() == 0),
    {
        self.storage.is_empty()
    }
}

impl<T, S: Clone> Clone for GenericDenseVec<T, S> {
    fn clone(&self) -> (v: Self)
        ensures
            cloned(self.storage_view(), v.storage_view()),
    {
        Self::new(self.storage.clone())
    }
}

impl<T, S> From<S> for GenericDenseVec<T, S> {
    fn from(storage: S) -> (v: Self)
        ensures
            v.storage_view() == storage,
    {
        Self::new(storage)
    }
}

impl<T, S> vstd::std_specs::convert::FromSpecImpl<S> for GenericDenseVec<T, S> {
    open spec fn obeys_from_spec() -> bool {
        true
    }

    closed spec fn from_spec(storage: S) -> Self {
        GenericDenseVec { storage, _phantom: PhantomData }
    }
}

/// The storage of a vector in `r`, or its error.
pub open spec fn dense_storage_result<T, S, E>(r: Result<GenericDenseVec<T, S>, E>) -> Result<S, E> {
    match r {
        Ok(v) => Ok(v.storage_view()),
        Err(e) => Err(e),
    }
}

impl<T, S> TryFromIterator<T> for GenericDenseVec<T, S> where S: DenseStorage<T> + TryFromIterator<T> {
    type Error = <S as TryFromIterator<T>>::Error;

    /// What the storage makes of the items, wrapped.
    open spec fn tried_from(items: Seq<T>, r: Result<Self, Self::Error>) -> bool {
        S::tried_from(items, dense_storage_result(r))
    }

    /// Builds the storage from the items and wraps it.
    fn try_from_iter<I: Iterator<Item = T>>(iter: I) -> (r: Result<Self, Self::Error>) {
        let built = S::try_from_iter(iter);
        let r = match built {
            Ok(storage) => Ok(Self::new(storage)),
            Err(e) => Err(e),
        };
        proof {
            if iter.obeys_prophetic_iter_laws() {
                assert(Self::tried_from(iter.remaining(), r));
            }
        }
        r
    }
}

impl<T, S> FromIteratorLossy<T> for GenericDenseVec<T, S> where
    S: DenseStorage<T> + FromIteratorLossy<T>,
 {
    /// What the storage makes of the items, wrapped.
    open spec fn lossy_from(items: Seq<T>, v: Self) -> bool {
        S::lossy_from(items, v.storage_view())
    }

    /// Builds the storage from the items and wraps it.
    fn from_iter_lossy<I: Iterator<Item = T>>(iter: I) -> (v: Self) {
        let storage = S::from_iter_lossy(iter);
        let v = Self::new(storage);
        proof {
            let items = choose|items: Seq<T>| #[trigger] S::lossy_from(items, storage) && (
                iter.obeys_prophetic_iter_laws() ==> items == iter.remaining());
            assert(Self::lossy_from(items, v));
        }
        v
    }
}

impl<T: Copy, S: DenseStorage<T>> Vector for GenericDenseVec<T, S> {
    type Value = T;

    open spec fn spec_len(&self) -> nat {
        self.view_values().len()
    }

    fn len(&self) -> (n: usize) {
        self.storage.len()
    }

    fn is_empty(&self) -> (b: bool) {
        self.storage.is_empty()
    }
}

impl<T: Copy, S: DenseStorage<T>> DenseVector for GenericDenseVec<T, S> {
    open spec fn spec_values(&self) -> Seq<T> {
        self.view_values()
    }

    fn indices<Idx: Index>(&self) -> (r: Range<Idx>) {
        Idx::zero()..Idx::from_usize(self.storage.len())
    }

    fn values(&self) -> (s: &[T]) {
        self.storage.values()
    }

    fn iter<'a, Idx: Index>(&'a self) -> (it: DenseSliceIter<'a, Idx, T>) {
        self.storage.iter()
    }

    fn into_iter<Idx: Index>(self) -> (it: DenseVecIntoIter<Idx, T>) {
        DenseVecIntoIter::new(self.storage.into_values().into_iter())
    }
}

impl<T: Copy + core::fmt::Debug, S: DenseStorage<T>> GenericDenseVec<T, S> {
    /// The components as `Debug` renders a list: `[a, b, c]`.
    pub fn debug_string(&self) -> (r: String)
        ensures
            crate::text::is_list_of(r@, self.view_values().len()),
    {
        crate::text::debug_list_text(self.storage.values())
    }
}

} // verus!

//! Sparse vector representations.
//!
//! Sparse vectors store only non-zero `(index, value)` pairs and enforce
//! sorted, unique keys. The storage uses a SoA (Struct-of-Arrays) layout:
//! parallel index and value buffers.

use std::marker::PhantomData;

use vstd::prelude::*;
use vstd::std_specs::iter::IteratorSpec;

use crate::sparse::storage::{parallel, vals, keys, validated};
use crate::sparse::util::{canonicalizes, strictly_increasing};
use crate::{FromIteratorLossy, Index, TryFromIterator, Vector};

pub mod common;
pub mod distance;
pub mod dot;
pub mod iter;
pub mod join;
pub mod ops;
pub mod parity;
pub mod storage;
pub mod util;

pub use self::dot::dot_gallop;
pub use self::iter::{IntoIter, Iter, SparseSliceIter};
pub use self::join::{inner_join, outer_join, InnerJoin, Join, OuterJoin};
pub use self::storage::{
    FromCanonicalPairs, SparseArrayVecStorage, SparseArrayVecStorageError, SparseStorage, SparseVecStorage,
    SparseVecStorageError,
};

verus! {

/// A vector whose components are stored as explicit `(index, value)`
/// pairs, sorted by index.
///
/// Unlike dense vectors, sparse vectors only store non-zero entries. The
/// index type is generic, allowing compact representations (e.g. `u32`
/// for low-dimensional spaces).
pub trait SparseVector: Vector {
    /// The unsigned integer type used for component indices.
    type Index: Index;

    /// The stored indices.
    spec fn spec_indices(&self) -> Seq<Self::Index>;

    /// The stored values.
    spec fn spec_values(&self) -> Seq<Self::Value>;

    /// A slice of all stored indices, in increasing order.
    fn indices(&self) -> (s: &[Self::Index])
        ensures
            s@ == self.spec_indices(),
    ;

    /// A slice of all stored values, parallel to [`indices`](SparseVector::indices).
    fn values(&self) -> (s: &[Self::Value])
        ensures
            s@ == self.spec_values(),
    ;

    /// A borrowing iterator over stored `(index, value)` pairs.
    fn iter<'a>(&'a self) -> (it: SparseSliceIter<'a, Self::Index, Self::Value>)
        ensures
            it.indices() == self.spec_indices(),
            it.values() == self.spec_values(),
            it.pos() == 0,
    ;
}

/// A sparse vector backed by storage `S` of parallel index and value
/// buffers.
#[derive(Eq, PartialEq, Debug)]
pub struct GenericSparseVec<Idx, T, S> {
    pub(crate) storage: S,
    _phantom: PhantomData<(Idx, T)>,
}

/// Heap-allocated sparse vector.
pub type SparseVec<Idx, T> = GenericSparseVec<Idx, T, SparseVecStorage<Idx, T>>;

/// Sparse vector of at most `N` entries.
pub type SparseArrayVec<Idx, T, const N: usize> = GenericSparseVec<Idx, T, SparseArrayVecStorage<Idx, T, N>>;

impl<Idx, T, S> GenericSparseVec<Idx, T, S> {
    /// The backing storage.
    pub closed spec fn storage_view(&self) -> S {
        self.storage
    }

    /// Wraps `storage`, which is taken as it is.
    pub fn new(storage: S) -> (v: Self)
        ensures
            v.storage_view() == storage,
    {
        GenericSparseVec { storage, _phantom: PhantomData }
    }
}

impl<Idx: Index, T, S: SparseStorage<Idx, T>> GenericSparseVec<Idx, T, S> {
    /// The stored indices.
    pub open spec fn index_view(&self) -> Seq<Idx> {
        self.storage_view().spec_indices()
    }

    /// The stored values.
    pub open spec fn value_view(&self) -> Seq<T> {
        self.storage_view().spec_values()
    }

    /// As many indices as values, in strictly increasing order.
    pub open spec fn wf(&self) -> bool {
        &&& parallel(&self.storage_view())
        &&& strictly_increasing(self.index_view())
    }

    /// The number of components in `self`.
    pub fn len(&self) -> (n: usize)
        ensures
            n == self.value_view().len(),
    {
        self.storage.len()
    }

    /// `true` if `self.len() == 0`, otherwise `false`.
    pub fn is_empty(&self) -> (b: bool)
        ensures
            b == (self.value_view().len() == 0),
    {
        self.storage.is_empty()
    }
}

impl<Idx, T, S: Clone> Clone for GenericSparseVec<Idx, T, S> {
    fn clone(&self) -> (v: Self)
        ensures
            cloned(self.storage_view(), v.storage_view()),
    {
        Self::new(self.storage.clone())
    }
}

impl<Idx, T, S> From<S> for GenericSparseVec<Idx, T, S> {
    fn from(storage: S) -> (v: Self)
        ensures
            v.storage_view() == storage,
    {
        Self::new(storage)
    }
}

impl<Idx, T, S> vstd::std_specs::convert::FromSpecImpl<S> for GenericSparseVec<Idx, T, S> {
    open spec fn obeys_from_spec() -> bool {
        true
    }

    closed spec fn from_spec(storage: S) -> Self {
        GenericSparseVec { storage, _phantom: PhantomData }
    }
}

impl<Idx: Index, T: Copy, S: SparseStorage<Idx, T>> Vector for GenericSparseVec<Idx, T, S> {
    type Value = T;

    open spec fn spec_len(&self) -> nat {
        self.value_view().len()
    }

    fn len(&self) -> (n: usize) {
        self.storage.len()
    }

    fn is_empty(&self) -> (b: bool) {
        self.storage.is_empty()
    }
}

impl<Idx: Index, T: Copy, S: SparseStorage<Idx, T>> SparseVector for GenericSparseVec<Idx, T, S> {
    type Index = Idx;

    open spec fn spec_indices(&self) -> Seq<Idx> {
        self.index_view()
    }

    open spec fn spec_values(&self) -> Seq<T> {
        self.value_view()
    }

    fn indices(&self) -> (s: &[Idx]) {
        self.storage.indices()
    }

    fn values(&self) -> (s: &[T]) {
        self.storage.values()
    }

    fn iter<'a>(&'a self) -> (it: SparseSliceIter<'a, Idx, T>) {
        self.storage.iter()
    }
}

/// The storage of a vector in `r`, or its error.
pub open spec fn storage_result<Idx, T, S, E>(r: Result<GenericSparseVec<Idx, T, S>, E>) -> Result<S, E> {
    match r {
        Ok(v) => Ok(v.storage_view()),
        Err(e) => Err(e),
    }
}

impl<Idx, T, S> TryFromIterator<(Idx, T)> for GenericSparseVec<Idx, T, S> where
    S: TryFromIterator<(Idx, T)>,
 {
    type Error = <S as TryFromIterator<(Idx, T)>>::Error;

    /// What the storage makes of the pairs, wrapped.
    open spec fn tried_from(items: Seq<(Idx, T)>, r: Result<Self, Self::Error>) -> bool {
        S::tried_from(items, storage_result(r))
    }

    /// Builds the storage from the pairs and wraps it.
    fn try_from_iter<I: Iterator<Item = (Idx, T)>>(iter: I) -> (r: Result<Self, Self::Error>) {
        let built = S::try_from_iter(iter);
        let r = match built {
            Ok(storage) => Ok(Self::new(storage)),
            Err(e) => Err(e),
        };
        proof {
            if iter.obeys_prophetic_iter_laws() {
                assert(Self::tried_from(iter.remaining(), r));
            }
        }
        r
    }
}

impl<Idx, T, S> FromIteratorLossy<(Idx, T)> for GenericSparseVec<Idx, T, S> where
    S: FromIteratorLossy<(Idx, T)>,
 {
    /// What the storage makes of the pairs, wrapped.
    open spec fn lossy_from(items: Seq<(Idx, T)>, v: Self) -> bool {
        S::lossy_from(items, v.storage_view())
    }

    /// Builds the storage from the pairs and wraps it.
    fn from_iter_lossy<I: Iterator<Item = (Idx, T)>>(iter: I) -> (v: Self) {
        let storage = S::from_iter_lossy(iter);
        let v = Self::new(storage);
        proof {
            let items = choose|items: Seq<(Idx, T)>| #[trigger] S::lossy_from(items, storage) && (
                iter.obeys_prophetic_iter_laws() ==> items == iter.remaining());
            assert(Self::lossy_from(items, v));
        }
        v
    }
}

impl<Idx: Index + core::fmt::Debug, T: Copy + core::fmt::Debug, S: SparseStorage<Idx, T>> GenericSparseVec<Idx, T, S> {
    /// The entries as `Debug` renders a list of pairs:
    /// `[(i, a), (j, b)]`.
    pub fn debug_string(&self) -> (r: String)
        requires
            self.wf(),
        ensures
            crate::text::is_pair_list_of(r@, self.index_view().len()),
    {
        let mut pairs: Vec<(Idx, T)> = Vec::new();
        let mut it = self.storage.iter();
        let n = self.storage.len();
        let mut i: usize = 0;
        while i < n
            invariant
                it.indices() == self.index_view(),
                it.values() == self.value_view(),
                n == self.value_view().len(),
                self.index_view().len() == n,
                it.pos() == i,
                i <= n,
                pairs@.len() == i,
            decreases n - i,
        {
            match it.next() {
                Some(pair) => pairs.push(pair),
                None => {},
            }
            i += 1;
        }
        crate::text::debug_pair_list_text(pairs.as_slice())
    }
}

} // verus!

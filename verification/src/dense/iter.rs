//! Iterators over the components of dense vectors, paired with their
//! implicit indices.

use vstd::prelude::*;
use vstd::std_specs::iter::IteratorSpec;

use crate::iter::next_item;
use crate::Index;

verus! {

// MARK: Indexed Iterator

/// An iterator that pairs each element from `inner` with a
/// monotonically increasing index starting at `0`.
///
/// This is the building block for the owning dense iterators.
pub struct Indexed<Idx, I> {
    index: Idx,
    inner: I,
}

impl<Idx: Index, I: Iterator> Indexed<Idx, I> {
    /// The index of the next element.
    pub closed spec fn index(&self) -> Idx {
        self.index
    }

    /// The inner iterator.
    pub closed spec fn inner(&self) -> I {
        self.inner
    }

    /// Pairs the elements of `inner` with indices from `0`.
    pub fn new(inner: I) -> (it: Self)
        ensures
            it.index().rank() == 0,
            it.inner() == inner,
    {
        Indexed { index: Idx::zero(), inner }
    }

    /// Yields the next element of the inner iterator with its index.
    pub fn next(&mut self) -> (item: Option<(Idx, I::Item)>)
        requires
            old(self).inner().obeys_prophetic_iter_laws(),
            old(self).inner().remaining().len() > 0 ==> old(self).index().rank() < Idx::max_rank(),
        ensures
            final(self).inner().obeys_prophetic_iter_laws(),
            old(self).inner().decrease() is Some <==> final(self).inner().decrease() is Some,
            old(self).inner().remaining().len() > 0 && final(self).inner().decrease() is Some
                ==> decreases_to!(old(self).inner().decrease()->0 => final(self).inner().decrease()->0),
            old(self).inner().remaining().len() > 0 ==> {
                &&& item == Some((old(self).index(), old(self).inner().remaining()[0]))
                &&& final(self).inner().remaining() == old(self).inner().remaining().drop_first()
                &&& final(self).index().rank() == old(self).index().rank() + 1
            },
            old(self).inner().remaining().len() == 0 ==> {
                &&& item is None
                &&& final(self).index() == old(self).index()
                &&& final(self).inner().remaining() == old(self).inner().remaining()
            },
    {
        match self.inner.next() {
            Some(value) => {
                let index = self.index;
                self.index = self.index.succ();
                Some((index, value))
            },
            None => None,
        }
    }
}

impl<Idx: Index, I: Iterator> Indexed<Idx, I> {
    /// The remaining elements with their indices, in order.
    pub fn into_vec(self) -> (out: Vec<(Idx, I::Item)>)
        requires
            self.inner().obeys_prophetic_iter_laws(),
            self.inner().decrease() is Some,
            self.index().rank() + self.inner().remaining().len() <= Idx::max_rank(),
        ensures
            out@.len() == self.inner().remaining().len(),
            forall|k: int|
                #![trigger out@[k]]
                0 <= k < out@.len() ==> out@[k].0.rank() == self.index().rank() + k && out@[k].1
                    == self.inner().remaining()[k],
    {
        let ghost start = self.index().rank();
        let ghost all = self.inner().remaining();
        let mut it = self;
        let mut out: Vec<(Idx, I::Item)> = Vec::new();
        loop
            invariant
                it.inner().obeys_prophetic_iter_laws(),
                it.inner().decrease() is Some,
                it.index().rank() == start + out@.len(),
                all == out@.map_values(|e: (Idx, I::Item)| e.1) + it.inner().remaining(),
                start + all.len() <= Idx::max_rank(),
                forall|k: int|
                    #![trigger out@[k]]
                    0 <= k < out@.len() ==> out@[k].0.rank() == start + k,
            ensures
                out@.len() == all.len(),
                forall|k: int|
                    #![trigger out@[k]]
                    0 <= k < out@.len() ==> out@[k].0.rank() == start + k && out@[k].1 == all[k],
            decreases it.inner().decrease()->0,
        {
            let ghost rem = it.inner().remaining();
            let ghost before = out@;
            match it.next() {
                Some(item) => {
                    out.push(item);
                    proof {
                        assert(out@.map_values(|e: (Idx, I::Item)| e.1) =~= before.map_values(
                            |e: (Idx, I::Item)| e.1,
                        ).push(rem[0]));
                        assert(all =~= out@.map_values(|e: (Idx, I::Item)| e.1) + it.inner().remaining());
                    }
                },
                None => {
                    proof {
                        assert(rem.len() == 0);
                        assert(all =~= out@.map_values(|e: (Idx, I::Item)| e.1));
                        assert forall|k: int| 0 <= k < out@.len() implies out@[k].1 == all[k] by {
                            assert(out@.map_values(|e: (Idx, I::Item)| e.1)[k] == out@[k].1);
                        }
                    }
                    break;
                },
            }
        }
        out
    }
}

impl<Idx: Index, I: Iterator> From<I> for Indexed<Idx, I> {
    fn from(inner: I) -> (it: Self)
        ensures
            it.index().rank() == 0,
            it.inner() == inner,
    {
        Indexed { index: Idx::zero(), inner }
    }
}

impl<Idx: Index, I: Iterator> vstd::std_specs::convert::FromSpecImpl<I> for Indexed<Idx, I> {
    open spec fn obeys_from_spec() -> bool {
        false
    }

    closed spec fn from_spec(inner: I) -> Self {
        Indexed { index: arbitrary(), inner }
    }
}

// MARK: Slice Storage

/// A borrowing iterator over a dense vector's components and their
/// implicit indices, backed by a slice.
pub struct DenseSliceIter<'a, Idx, T> {
    inner: core::slice::Iter<'a, T>,
    index: Idx,
}

impl<'a, Idx: Index, T> DenseSliceIter<'a, Idx, T> {
    /// The slice iterator underneath.
    pub closed spec fn slice_iter(&self) -> core::slice::Iter<'a, T> {
        self.inner
    }

    /// The index paired with the next component.
    pub closed spec fn index(&self) -> Idx {
        self.index
    }

    /// Creates a new `DenseSliceIter` from an iterator over slice
    /// references, with the first component at index `0`.
    pub fn new(values: core::slice::Iter<'a, T>) -> (it: Self)
        ensures
            it.slice_iter() == values,
            it.index().rank() == 0,
    {
        DenseSliceIter { inner: values, index: Idx::zero() }
    }

    /// The number of components left.
    pub fn len(&self) -> (n: usize)
        ensures
            n == self.slice_iter().remaining().len(),
    {
        slice_iter_len(&self.inner)
    }
}

/// `ExactSizeIterator::len` on a slice iterator: the number of elements it
/// has left.
#[verifier::external_body]
fn slice_iter_len<'a, T>(it: &core::slice::Iter<'a, T>) -> (n: usize)
    ensures
        n == it.remaining().len(),
{
    it.len()
}

impl<'a, Idx: Index, T: Copy> DenseSliceIter<'a, Idx, T> {
    /// Yields a copy of the next component with its index.
    pub fn next(&mut self) -> (item: Option<(Idx, T)>)
        requires
            old(self).slice_iter().remaining().len() > 0 ==> old(self).index().rank() < Idx::max_rank(),
        ensures
            old(self).slice_iter().decrease() is Some <==> final(self).slice_iter().decrease() is Some,
            old(self).slice_iter().remaining().len() > 0 && final(self).slice_iter().decrease() is Some
                ==> decreases_to!(old(self).slice_iter().decrease()->0 => final(self).slice_iter().decrease()->0),
            old(self).slice_iter().remaining().len() > 0 ==> {
                &&& item == Some((old(self).index(), *old(self).slice_iter().remaining()[0]))
                &&& final(self).slice_iter().remaining() == old(self).slice_iter().remaining().drop_first()
                &&& final(self).index().rank() == old(self).index().rank() + 1
            },
            old(self).slice_iter().remaining().len() == 0 ==> {
                &&& item is None
                &&& final(self).index() == old(self).index()
                &&& final(self).slice_iter().remaining() == old(self).slice_iter().remaining()
            },
    {
        match next_item(&mut self.inner) {
            Some(value) => {
                let index = self.index;
                self.index = self.index.succ();
                Some((index, *value))
            },
            None => None,
        }
    }

    /// The remaining components with their indices, in order.
    pub fn into_vec(self) -> (out: Vec<(Idx, T)>)
        requires
            self.slice_iter().decrease() is Some,
            self.index().rank() + self.slice_iter().remaining().len() <= Idx::max_rank(),
        ensures
            out@.len() == self.slice_iter().remaining().len(),
            forall|k: int|
                #![trigger out@[k]]
                0 <= k < out@.len() ==> out@[k].0.rank() == self.index().rank() + k && out@[k].1
                    == *self.slice_iter().remaining()[k],
    {
        let ghost start = self.index().rank();
        let ghost all = self.slice_iter().remaining();
        let mut it = self;
        let mut out: Vec<(Idx, T)> = Vec::new();
        loop
            invariant
                it.slice_iter().decrease() is Some,
                it.index().rank() == start + out@.len(),
                start + all.len() <= Idx::max_rank(),
                it.slice_iter().remaining() == all.skip(out@.len() as int),
                out@.len() <= all.len(),
                forall|k: int|
                    #![trigger out@[k]]
                    0 <= k < out@.len() ==> out@[k].0.rank() == start + k && out@[k].1 == *all[k],
            ensures
                out@.len() == all.len(),
                forall|k: int|
                    #![trigger out@[k]]
                    0 <= k < out@.len() ==> out@[k].0.rank() == start + k && out@[k].1 == *all[k],
            decreases it.slice_iter().decrease()->0,
        {
            let ghost rem = it.slice_iter().remaining();
            let ghost n = out@.len();
            match it.next() {
                Some(item) => {
                    proof {
                        assert(rem[0] == all[n as int]);
                        assert(all.skip((n + 1) as int) =~= rem.drop_first());
                    }
                    out.push(item);
                },
                None => {
                    break;
                },
            }
        }
        out
    }
}

// MARK: Vec Storage

/// An owning iterator over a dense vector's components and their
/// implicit indices, backed by a [`Vec`].
pub struct DenseVecIntoIter<Idx, T> {
    inner: Indexed<Idx, std::vec::IntoIter<T>>,
}

impl<Idx: Index, T> DenseVecIntoIter<Idx, T> {
    /// The index-pairing iterator underneath.
    pub closed spec fn indexed(&self) -> Indexed<Idx, std::vec::IntoIter<T>> {
        self.inner
    }

    /// Creates a new `DenseVecIntoIter` from a [`Vec`]'s owning iterator.
    pub fn new(inner: std::vec::IntoIter<T>) -> (it: Self)
        ensures
            it.indexed().index().rank() == 0,
            it.indexed().inner() == inner,
    {
        DenseVecIntoIter { inner: Indexed::new(inner) }
    }

    /// Yields the next component with its index.
    pub fn next(&mut self) -> (item: Option<(Idx, T)>)
        requires
            old(self).indexed().inner().remaining().len() > 0 ==> old(self).indexed().index().rank()
                < Idx::max_rank(),
        ensures
            old(self).indexed().inner().remaining().len() > 0 ==> {
                &&& item == Some(
                    (old(self).indexed().index(), old(self).indexed().inner().remaining()[0]),
                )
                &&& final(self).indexed().inner().remaining() == old(
                    self,
                ).indexed().inner().remaining().drop_first()
                &&& final(self).indexed().index().rank() == old(self).indexed().index().rank() + 1
            },
            old(self).indexed().inner().remaining().len() == 0 ==> item is None,
    {
        self.inner.next()
    }

    /// The remaining components with their indices, in order.
    pub fn into_vec(self) -> (out: Vec<(Idx, T)>)
        requires
            self.indexed().inner().decrease() is Some,
            self.indexed().index().rank() + self.indexed().inner().remaining().len()
                <= Idx::max_rank(),
        ensures
            out@.len() == self.indexed().inner().remaining().len(),
            forall|k: int|
                #![trigger out@[k]]
                0 <= k < out@.len() ==> out@[k].0.rank() == self.indexed().index().rank() + k
                    && out@[k].1 == self.indexed().inner().remaining()[k],
    {
        self.inner.into_vec()
    }
}

} // verus!

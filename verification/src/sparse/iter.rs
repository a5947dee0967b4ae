//! Iterators over the entries of sparse vectors.

use vstd::prelude::*;
use vstd::std_specs::iter::IteratorSpec;

use crate::Index;

verus! {

/// A borrowing iterator over the `(index, value)` entries of parallel
/// index and value slices.
pub struct SparseSliceIter<'a, Idx, T> {
    indices: &'a [Idx],
    values: &'a [T],
    pos: usize,
}

impl<'a, Idx, T> SparseSliceIter<'a, Idx, T> {
    /// The indices iterated over.
    pub closed spec fn indices(&self) -> Seq<Idx> {
        self.indices@
    }

    /// The values iterated over.
    pub closed spec fn values(&self) -> Seq<T> {
        self.values@
    }

    /// How many entries the iterator has yielded.
    pub closed spec fn pos(&self) -> int {
        self.pos as int
    }

    /// Creates an iterator over the entries of `indices` and `values`.
    pub fn new(indices: &'a [Idx], values: &'a [T]) -> (it: Self)
        ensures
            it.indices() == indices@,
            it.values() == values@,
            it.pos() == 0,
    {
        SparseSliceIter { indices, values, pos: 0 }
    }
}

impl<'a, Idx: Copy, T: Copy> SparseSliceIter<'a, Idx, T> {
    /// Yields the next entry, `None` once either slice is exhausted.
    pub fn next(&mut self) -> (item: Option<(Idx, T)>)
        ensures
            final(self).indices() == old(self).indices(),
            final(self).values() == old(self).values(),
            ({
                let p = old(self).pos();
                if 0 <= p < old(self).indices().len() && p < old(self).values().len() {
                    item == Some((old(self).indices()[p], old(self).values()[p]))
                        && final(self).pos() == p + 1
                } else {
                    item is None && final(self).pos() == p
                }
            }),
    {
        if self.pos < self.indices.len() && self.pos < self.values.len() {
            let item = (self.indices[self.pos], self.values[self.pos]);
            self.pos += 1;
            Some(item)
        } else {
            None
        }
    }

    /// The remaining entries, in order, up to the end of the shorter
    /// slice.
    pub fn into_vec(self) -> (out: Vec<(Idx, T)>)
        requires
            0 <= self.pos() <= self.indices().len(),
            self.indices().len() == self.values().len(),
        ensures
            out@.len() == self.indices().len() - self.pos(),
            forall|k: int|
                #![trigger out@[k]]
                0 <= k < out@.len() ==> out@[k] == (
                    self.indices()[self.pos() + k],
                    self.values()[self.pos() + k],
                ),
    {
        let ghost start = self.pos();
        let mut it = self;
        let mut out: Vec<(Idx, T)> = Vec::new();
        loop
            invariant
                it.indices() == self.indices(),
                it.values() == self.values(),
                self.indices().len() == self.values().len(),
                it.pos() == start + out@.len(),
                start + out@.len() <= self.indices().len(),
                forall|k: int|
                    #![trigger out@[k]]
                    0 <= k < out@.len() ==> out@[k] == (
                        self.indices()[start + k],
                        self.values()[start + k],
                    ),
            ensures
                out@.len() == self.indices().len() - start,
                forall|k: int|
                    #![trigger out@[k]]
                    0 <= k < out@.len() ==> out@[k] == (
                        self.indices()[start + k],
                        self.values()[start + k],
                    ),
            decreases self.indices().len() - it.pos(),
        {
            match it.next() {
                Some(item) => out.push(item),
                None => break,
            }
        }
        out
    }
}

/// A borrowing iterator over a slice of `(index, value)` pairs.
pub struct Iter<'a, Idx, T> {
    pairs: &'a [(Idx, T)],
    pos: usize,
}

impl<'a, Idx, T> Iter<'a, Idx, T> {
    /// The pairs iterated over.
    pub closed spec fn pairs(&self) -> Seq<(Idx, T)> {
        self.pairs@
    }

    /// How many pairs the iterator has yielded.
    pub closed spec fn pos(&self) -> int {
        self.pos as int
    }

    /// Creates an iterator over `slice`.
    pub fn new(slice: &'a [(Idx, T)]) -> (it: Self)
        ensures
            it.pairs() == slice@,
            it.pos() == 0,
    {
        Iter { pairs: slice, pos: 0 }
    }

    /// The number of pairs left.
    pub fn len(&self) -> (n: usize)
        requires
            self.pos() <= self.pairs().len(),
        ensures
            n == self.pairs().len() - self.pos(),
    {
        self.pairs.len() - self.pos
    }

    /// The exact number of pairs left, as both bounds.
    pub fn size_hint(&self) -> (hint: (usize, Option<usize>))
        requires
            self.pos() <= self.pairs().len(),
        ensures
            hint.0 == self.pairs().len() - self.pos(),
            hint.1 == Some(hint.0),
    {
        let n = self.len();
        (n, Some(n))
    }
}

impl<'a, Idx: Copy, T: Copy> Iter<'a, Idx, T> {
    /// Yields a copy of the next pair.
    pub fn next(&mut self) -> (item: Option<(Idx, T)>)
        ensures
            final(self).pairs() == old(self).pairs(),
            ({
                let p = old(self).pos();
                if 0 <= p < old(self).pairs().len() {
                    item == Some(old(self).pairs()[p]) && final(self).pos() == p + 1
                } else {
                    item is None && final(self).pos() == p
                }
            }),
    {
        if self.pos < self.pairs.len() {
            let item = self.pairs[self.pos];
            self.pos += 1;
            Some(item)
        } else {
            None
        }
    }

    /// The remaining pairs, in order.
    pub fn into_vec(self) -> (out: Vec<(Idx, T)>)
        requires
            0 <= self.pos() <= self.pairs().len(),
        ensures
            out@ == self.pairs().skip(self.pos()),
    {
        let ghost start = self.pos();
        let mut it = self;
        let mut out: Vec<(Idx, T)> = Vec::new();
        loop
            invariant
                it.pairs() == self.pairs(),
                0 <= start,
                it.pos() == start + out@.len(),
                start + out@.len() <= self.pairs().len(),
                out@ == self.pairs().subrange(start, start + out@.len()),
            ensures
                out@ == self.pairs().skip(start),
            decreases self.pairs().len() - it.pos(),
        {
            match it.next() {
                Some(item) => {
                    out.push(item);
                    proof {
                        assert(out@ =~= self.pairs().subrange(start, start + out@.len()));
                    }
                },
                None => {
                    proof {
                        assert(out@ =~= self.pairs().skip(start));
                    }
                    break;
                },
            }
        }
        out
    }
}

/// An owning iterator over `(index, value)` pairs, yielding those of an
/// inner iterator.
pub struct IntoIter<I> {
    inner: I,
}

impl<I: Iterator> IntoIter<I> {
    /// The inner iterator.
    pub closed spec fn inner(&self) -> I {
        self.inner
    }

    /// Creates an iterator that yields the items of `inner`.
    pub fn new(inner: I) -> (it: Self)
        ensures
            it.inner() == inner,
    {
        IntoIter { inner }
    }

    /// Yields the next item of the inner iterator.
    pub fn next(&mut self) -> (item: Option<I::Item>)
        requires
            old(self).inner().obeys_prophetic_iter_laws(),
        ensures
            final(self).inner().obeys_prophetic_iter_laws(),
            old(self).inner().remaining().len() > 0 ==> item == Some(old(self).inner().remaining()[0])
                && final(self).inner().remaining() == old(self).inner().remaining().drop_first(),
            old(self).inner().remaining().len() == 0 ==> item is None,
    {
        self.inner.next()
    }

    /// The remaining items of the inner iterator, in order.
    pub fn into_vec(self) -> (out: Vec<I::Item>)
        requires
            self.inner().obeys_prophetic_iter_laws(),
            self.inner().decrease() is Some,
        ensures
            out@ == self.inner().remaining(),
    {
        let ghost all = self.inner().remaining();
        let mut it = self.inner;
        let mut out: Vec<I::Item> = Vec::new();
        loop
            invariant
                it.obeys_prophetic_iter_laws(),
                it.decrease() is Some,
                all == out@ + it.remaining(),
            ensures
                out@ == all,
            decreases it.decrease()->0,
        {
            match it.next() {
                Some(item) => {
                    out.push(item);
                    proof {
                        assert(all =~= out@ + it.remaining());
                    }
                },
                None => {
                    proof {
                        assert(all =~= out@);
                    }
                    break;
                },
            }
        }
        out
    }
}

} // verus!

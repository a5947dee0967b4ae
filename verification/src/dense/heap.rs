//! A dense vector over a plain `Vec` of components.

use core::ops::{Add, Mul, Sub};

use vstd::prelude::*;
use vstd::std_specs::iter::IteratorSpec;
use vstd::std_specs::ops::{AddSpec, AddSpecImpl};

use crate::dense::distance::{dense_sq_dist, dense_sq_dist_ok, dense_sq_distance_from};
use crate::dense::iter::DenseSliceIter;
use crate::dense::ops::added;
use crate::scalar::{arith_obeyed, arith_total, is_default};
use crate::{Distance, Index};

verus! {

/// A dense vector whose components are held in a [`Vec`].
#[derive(Clone, PartialEq, Debug)]
pub struct DenseVector<T> {
    components: Vec<T>,
}

impl<T> DenseVector<T> {
    /// The components.
    pub closed spec fn view_values(&self) -> Seq<T> {
        self.components@
    }

    /// The number of components.
    pub fn len(&self) -> (n: usize)
        ensures
            n == self.view_values().len(),
    {
        self.components.len()
    }

    /// `true` if the vector has no components.
    pub fn is_empty(&self) -> (b: bool)
        ensures
            b == (self.view_values().len() == 0),
    {
        self.components.len() == 0
    }

    /// The components, in index order.
    pub fn components(&self) -> (s: &[T])
        ensures
            s@ == self.view_values(),
    {
        self.components.as_slice()
    }

    /// A borrowing iterator over `(index, value)` pairs.
    pub fn iter<'a>(&'a self) -> (it: DenseSliceIter<'a, usize, T>)
        ensures
            it.slice_iter().remaining().unref() == self.view_values(),
            it.slice_iter().decrease() is Some,
            it.index().rank() == 0,
    {
        proof {
            broadcast use vstd::std_specs::slice::axiom_spec_slice_iter;
        }
        let it = DenseSliceIter::new(self.components.as_slice().iter());
        proof {
            assert(it.slice_iter().remaining().unref() =~= self.components@);
        }
        it
    }
}

impl<T> From<Vec<T>> for DenseVector<T> {
    fn from(items: Vec<T>) -> (v: Self)
        ensures
            v.view_values() == items@,
    {
        Self { components: items }
    }
}

impl<T> vstd::std_specs::convert::FromSpecImpl<Vec<T>> for DenseVector<T> {
    open spec fn obeys_from_spec() -> bool {
        true
    }

    closed spec fn from_spec(items: Vec<T>) -> Self {
        Self { components: items }
    }
}

impl<T: Copy + Add<Output = T>> DenseVector<T> {
    /// Adds `rhs` to `self`, component by component; the two have the same
    /// length.
    pub fn add_assign(&mut self, rhs: &Self)
        requires
            old(self).view_values().len() == rhs.view_values().len(),
            forall|i: int|
                0 <= i < old(self).view_values().len() ==> #[trigger] old(
                    self,
                ).view_values()[i].add_req(rhs.view_values()[i]),
        ensures
            final(self).view_values().len() == old(self).view_values().len(),
            T::obeys_add_spec() ==> final(self).view_values() == added(
                old(self).view_values(),
                rhs.view_values(),
            ),
    {
        let ghost before = self.components@;
        let n = rhs.components.len();
        let mut i: usize = 0;
        while i < n
            invariant
                n == rhs.components@.len(),
                self.components@.len() == n,
                before.len() == n,
                i <= n,
                forall|j: int| 0 <= j < n ==> #[trigger] before[j].add_req(rhs.components@[j]),
                forall|j: int| i <= j < n ==> #[trigger] self.components@[j] == before[j],
                T::obeys_add_spec() ==> forall|j: int|
                    0 <= j < i ==> #[trigger] self.components@[j] == before[j].add_spec(
                        rhs.components@[j],
                    ),
            decreases n - i,
        {
            let sum = self.components[i] + rhs.components[i];
            self.components.set(i, sum);
            i += 1;
        }
        proof {
            if T::obeys_add_spec() {
                assert(self.components@ =~= added(before, rhs.components@));
            }
        }
    }

    /// `self + rhs`, component by component.
    pub fn add(self, rhs: &Self) -> (r: Self)
        requires
            self.view_values().len() == rhs.view_values().len(),
            forall|i: int|
                0 <= i < self.view_values().len() ==> #[trigger] self.view_values()[i].add_req(
                    rhs.view_values()[i],
                ),
        ensures
            r.view_values().len() == self.view_values().len(),
            T::obeys_add_spec() ==> r.view_values() == added(self.view_values(), rhs.view_values()),
    {
        let mut v = self;
        v.add_assign(rhs);
        v
    }
}

impl<'a, T: Copy + Add<Output = T>> Add<&'a DenseVector<T>> for DenseVector<T> {
    type Output = Self;

    /// As [`DenseVector::add`].
    fn add(self, rhs: &'a DenseVector<T>) -> (r: Self)
        ensures
            r.view_values().len() == self.view_values().len(),
            T::obeys_add_spec() ==> r.view_values() == added(self.view_values(), rhs.view_values()),
    {
        DenseVector::add(self, rhs)
    }
}

impl<'a, T: Copy + Add<Output = T>> AddSpecImpl<&'a DenseVector<T>> for DenseVector<T> {
    open spec fn obeys_add_spec() -> bool {
        false
    }

    /// The operands on which the operation is defined.
    open spec fn add_req(self, rhs: &'a DenseVector<T>) -> bool {
        &&& self.view_values().len() == rhs.view_values().len()
        &&& forall|i: int|
            0 <= i < self.view_values().len() ==> #[trigger] self.view_values()[i].add_req(
                rhs.view_values()[i],
            )
    }

    open spec fn add_spec(self, rhs: &'a DenseVector<T>) -> Self {
        arbitrary()
    }
}

impl<T> Distance for DenseVector<T> where
    T: Copy + Default + Add<Output = T> + Sub<Output = T> + Mul<Output = T>,
 {
    type Output = T;

    /// Equal lengths, and for each zero of `T`, every difference, square
    /// and sum within the domain of `-`, `*` and `+`.
    open spec fn distance_req(&self, rhs: &Self) -> bool {
        &&& self.view_values().len() == rhs.view_values().len()
        &&& forall|d: T|
            #[trigger] is_default(d) ==> arith_obeyed::<T>() && dense_sq_dist_ok(
                d,
                self.view_values(),
                rhs.view_values(),
                self.view_values().len(),
            ) || arith_total::<T>()
    }

    /// The sum, from zero, of the squared differences of the components,
    /// in order.
    fn squared_distance(&self, rhs: &Self) -> (r: T)
        ensures
            exists|d: T|
                #[trigger] is_default(d) && (arith_obeyed::<T>() ==> r == dense_sq_dist(
                    d,
                    self.view_values(),
                    rhs.view_values(),
                    self.view_values().len(),
                )),
    {
        let zero = T::default();
        proof {
            assert(is_default(zero));
        }
        dense_sq_distance_from(zero, self.components.as_slice(), rhs.components.as_slice())
    }
}

impl<T: core::fmt::Debug> DenseVector<T> {
    /// The components as `Debug` renders a list: `[a, b, c]`.
    pub fn debug_string(&self) -> (r: String)
        ensures
            crate::text::is_list_of(r@, self.view_values().len()),
    {
        crate::text::debug_list_text(self.components.as_slice())
    }
}

} // verus!

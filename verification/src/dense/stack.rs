//! A dense vector over a fixed-size array of components.

use core::ops::{Mul, Sub};

use vstd::prelude::*;
use vstd::std_specs::ops::{MulSpec, MulSpecImpl, SubSpec, SubSpecImpl};

use crate::dense::ops::{scaled, subtracted};

verus! {

/// A dense vector of exactly `N` components, held in an array.
#[derive(Clone, Copy, PartialEq, Debug)]
pub struct DenseVector<T, const N: usize> {
    components: [T; N],
}

impl<T, const N: usize> DenseVector<T, N> {
    /// The components.
    pub closed spec fn view_values(&self) -> Seq<T> {
        self.components@
    }

    /// The number of components, `N`.
    pub fn len(&self) -> (n: usize)
        ensures
            n == self.view_values().len(),
    {
        N
    }

    /// `true` if `N` is `0`.
    pub fn is_empty(&self) -> (b: bool)
        ensures
            b == (self.view_values().len() == 0),
    {
        N == 0
    }
}

impl<T: Copy, const N: usize> DenseVector<T, N> {
    /// The components, in index order.
    pub fn components(&self) -> (s: &[T])
        ensures
            s@ == self.view_values(),
    {
        self.components.as_slice()
    }
}

impl<T, const N: usize> From<[T; N]> for DenseVector<T, N> {
    fn from(components: [T; N]) -> (v: Self)
        ensures
            v.view_values() == components@,
    {
        Self { components }
    }
}

impl<T, const N: usize> vstd::std_specs::convert::FromSpecImpl<[T; N]> for DenseVector<T, N> {
    open spec fn obeys_from_spec() -> bool {
        true
    }

    closed spec fn from_spec(components: [T; N]) -> Self {
        Self { components }
    }
}

impl<T: Copy + Sub<Output = T>, const N: usize> DenseVector<T, N> {
    /// Subtracts `rhs` from `self`, component by component.
    pub fn sub_assign(&mut self, rhs: &Self)
        requires
            forall|i: int|
                0 <= i < N ==> #[trigger] old(self).view_values()[i].sub_req(rhs.view_values()[i]),
        ensures
            final(self).view_values().len() == N,
            T::obeys_sub_spec() ==> final(self).view_values() == subtracted(
                old(self).view_values(),
                rhs.view_values(),
            ),
    {
        let ghost before = self.components@;
        proof {
            assert forall|j: int| 0 <= j < N implies #[trigger] before[j].sub_req(rhs.components@[j]) by {
                assert(old(self).view_values()[j].sub_req(rhs.view_values()[j]));
            }
        }
        let mut i: usize = 0;
        while i < N
            invariant
                self.components@.len() == N,
                rhs.components@.len() == N,
                before.len() == N,
                i <= N,
                forall|j: int| 0 <= j < N ==> #[trigger] before[j].sub_req(rhs.components@[j]),
                forall|j: int| i <= j < N ==> #[trigger] self.components@[j] == before[j],
                T::obeys_sub_spec() ==> forall|j: int|
                    0 <= j < i ==> #[trigger] self.components@[j] == before[j].sub_spec(
                        rhs.components@[j],
                    ),
            decreases N - i,
        {
            let difference = self.components[i] - rhs.components[i];
            self.components[i] = difference;
            i += 1;
        }
        proof {
            if T::obeys_sub_spec() {
                assert(self.components@ =~= subtracted(before, rhs.components@));
            }
        }
    }
}

impl<T: Copy + Sub<Output = T>, const N: usize> Sub<DenseVector<T, N>> for DenseVector<T, N> {
    type Output = Self;

    /// `self - rhs`, component by component.
    fn sub(self, rhs: DenseVector<T, N>) -> (r: Self)
        ensures
            r.view_values().len() == N,
            T::obeys_sub_spec() ==> r.view_values() == subtracted(self.view_values(), rhs.view_values()),
    {
        let mut v = self;
        v.sub_assign(&rhs);
        v
    }
}

impl<T: Copy + Sub<Output = T>, const N: usize> SubSpecImpl<DenseVector<T, N>> for DenseVector<T, N> {
    open spec fn obeys_sub_spec() -> bool {
        false
    }

    /// The operands on which the operation is defined.
    open spec fn sub_req(self, rhs: DenseVector<T, N>) -> bool {
        forall|i: int| 0 <= i < N ==> #[trigger] self.view_values()[i].sub_req(rhs.view_values()[i])
    }

    open spec fn sub_spec(self, rhs: DenseVector<T, N>) -> Self {
        arbitrary()
    }
}

impl<T: Copy + Mul<Output = T>, const N: usize> DenseVector<T, N> {
    /// Multiplies each component by `rhs`.
    pub fn mul_assign(&mut self, rhs: T)
        requires
            forall|i: int| 0 <= i < N ==> #[trigger] old(self).view_values()[i].mul_req(rhs),
        ensures
            final(self).view_values().len() == N,
            T::obeys_mul_spec() ==> final(self).view_values() == scaled(old(self).view_values(), rhs),
    {
        let ghost before = self.components@;
        proof {
            assert forall|j: int| 0 <= j < N implies #[trigger] before[j].mul_req(rhs) by {
                assert(old(self).view_values()[j].mul_req(rhs));
            }
        }
        let mut i: usize = 0;
        while i < N
            invariant
                self.components@.len() == N,
                before.len() == N,
                i <= N,
                forall|j: int| 0 <= j < N ==> #[trigger] before[j].mul_req(rhs),
                forall|j: int| i <= j < N ==> #[trigger] self.components@[j] == before[j],
                T::obeys_mul_spec() ==> forall|j: int|
                    0 <= j < i ==> #[trigger] self.components@[j] == before[j].mul_spec(rhs),
            decreases N - i,
        {
            let product = self.components[i] * rhs;
            self.components[i] = product;
            i += 1;
        }
        proof {
            if T::obeys_mul_spec() {
                assert(self.components@ =~= scaled(before, rhs));
            }
        }
    }
}

impl<T: Copy + Mul<Output = T>, const N: usize> Mul<T> for DenseVector<T, N> {
    type Output = DenseVector<T, N>;

    /// Each component multiplied by `rhs`.
    fn mul(self, rhs: T) -> (r: Self)
        ensures
            r.view_values().len() == N,
            T::obeys_mul_spec() ==> r.view_values() == scaled(self.view_values(), rhs),
    {
        let mut v = self;
        v.mul_assign(rhs);
        v
    }
}

impl<T: Copy + Mul<Output = T>, const N: usize> MulSpecImpl<T> for DenseVector<T, N> {
    open spec fn obeys_mul_spec() -> bool {
        false
    }

    /// The operands on which the operation is defined.
    open spec fn mul_req(self, rhs: T) -> bool {
        forall|i: int| 0 <= i < N ==> #[trigger] self.view_values()[i].mul_req(rhs)
    }

    open spec fn mul_spec(self, rhs: T) -> Self {
        arbitrary()
    }
}

} // verus!

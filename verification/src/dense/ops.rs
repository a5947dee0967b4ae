//! Component-wise arithmetic on dense vectors.

use core::ops::{Add, Div, Mul, Sub};

use num_traits::MulAddAssign;
use vstd::prelude::*;
use vstd::std_specs::ops::{
    AddSpec, AddSpecImpl, DivSpec, DivSpecImpl, MulSpec, MulSpecImpl, SubSpec, SubSpecImpl,
};

use crate::dense::storage::DenseStorage;
use crate::dense::GenericDenseVec;

verus! {

/// `(x * a) + b` can be computed: the product and then the sum are defined
/// (on integers, neither overflows).
pub open spec fn mul_add_req<T: Mul<Output = T> + Add<Output = T>>(x: T, a: T, b: T) -> bool {
    x.mul_req(a) && x.mul_spec(a).add_req(b)
}

/// `num_traits::MulAddAssign::mul_add_assign` on a copy of `x`:
/// `(x * a) + b`, fused into one rounding on floats. On integers num-traits
/// computes `(x * a) + b` with `*` and `+`, which panic on overflow: the
/// `requires` leaves such operands out. The result rests on `T`'s impl of
/// the trait, so no clause states it.
#[verifier::external_body]
pub(crate) fn mul_add_value<T: Copy + MulAddAssign<T, T> + Mul<Output = T> + Add<Output = T>>(x: T, a: T, b: T) -> T
    requires
        mul_add_req(x, a, b),
{
    let mut r = x;
    r.mul_add_assign(a, b);
    r
}

/// `r` is what `num_traits::MulAddAssign::mul_add_assign` makes of `x`
/// for `(x * a) + b`.
pub closed spec fn mul_added<T: Copy + MulAddAssign<T, T> + Mul<Output = T> + Add<Output = T>>(x: T, a: T, b: T, r: T) -> bool {
    call_ensures(mul_add_value::<T>, (x, a, b), r)
}

/// `(x * a) + b` as [`mul_add_value`] computes it.
pub(crate) fn mul_add_scalar<T: Copy + MulAddAssign<T, T> + Mul<Output = T> + Add<Output = T>>(x: T, a: T, b: T) -> (r: T)
    requires
        mul_add_req(x, a, b),
    ensures
        mul_added(x, a, b, r),
{
    mul_add_value(x, a, b)
}

/// `a[i] + b[i]` for each component.
pub open spec fn added<T: Add<Output = T>>(a: Seq<T>, b: Seq<T>) -> Seq<T> {
    Seq::new(a.len(), |i: int| a[i].add_spec(b[i]))
}

/// `a[i] - b[i]` for each component.
pub open spec fn subtracted<T: Sub<Output = T>>(a: Seq<T>, b: Seq<T>) -> Seq<T> {
    Seq::new(a.len(), |i: int| a[i].sub_spec(b[i]))
}

/// `a[i] * k` for each component.
pub open spec fn scaled<T: Mul<Output = T>>(a: Seq<T>, k: T) -> Seq<T> {
    Seq::new(a.len(), |i: int| a[i].mul_spec(k))
}

/// `a[i] / k` for each component.
pub open spec fn divided<T: Div<Output = T>>(a: Seq<T>, k: T) -> Seq<T> {
    Seq::new(a.len(), |i: int| a[i].div_spec(k))
}

impl<T: Copy + Add<Output = T>, S: DenseStorage<T>> GenericDenseVec<T, S> {
    /// Adds `rhs` to `self`, component by component; the two have the same length.
    pub fn add_assign(&mut self, rhs: &Self)
        requires
            old(self).view_values().len() == rhs.view_values().len(),
            forall|i: int|
                0 <= i < old(self).view_values().len() ==> #[trigger] old(self).view_values()[i].add_req(
                    rhs.view_values()[i],
                ),
        ensures
            final(self).view_values().len() == old(self).view_values().len(),
            T::obeys_add_spec() ==> final(self).view_values() == added(old(self).view_values(), rhs.view_values()),
    {
        let rhs_slice = rhs.storage.values();
        let ghost before = self.view_values();
        let lhs_slice = self.storage.values_mut();
        let ghost old_lhs = lhs_slice@;
        proof {
            assert forall|j: int| 0 <= j < old_lhs.len() implies #[trigger] old_lhs[j].add_req(rhs_slice@[j]) by {
                assert(old_lhs[j] == before[j]);
            }
        }
        let n = rhs_slice.len();
        let mut i: usize = 0;
        while i < n
            invariant
                n == rhs_slice@.len(),
                lhs_slice@.len() == n,
                old_lhs.len() == n,
                i <= n,
                forall|j: int| 0 <= j < n ==> #[trigger] old_lhs[j].add_req(rhs_slice@[j]),
                forall|j: int| i <= j < n ==> #[trigger] lhs_slice@[j] == old_lhs[j],
                T::obeys_add_spec() ==> forall|j: int|
                    0 <= j < i ==> #[trigger] lhs_slice@[j] == added(old_lhs, rhs_slice@)[j],
            decreases n - i,
        {
            lhs_slice[i] = lhs_slice[i] + rhs_slice[i];
            i += 1;
        }
        proof {
            if T::obeys_add_spec() {
                assert(lhs_slice@ =~= added(old_lhs, rhs_slice@));
            }
        }
    }

    /// Adds `rhs` to `self`, component by component; the two have the same length. Returns the result.
    pub fn add(self, rhs: &Self) -> (r: Self)
        requires
            self.view_values().len() == rhs.view_values().len(),
            forall|i: int|
                0 <= i < self.view_values().len() ==> #[trigger] self.view_values()[i].add_req(
                    rhs.view_values()[i],
                ),
        ensures
            r.view_values().len() == self.view_values().len(),
            T::obeys_add_spec() ==> r.view_values() == added(self.view_values(), rhs.view_values()),
    {
        let mut v = self;
        v.add_assign(rhs);
        v
    }
}

impl<T: Copy + Sub<Output = T>, S: DenseStorage<T>> GenericDenseVec<T, S> {
    /// Subtracts `rhs` from `self`, component by component; the two have the same length.
    pub fn sub_assign(&mut self, rhs: &Self)
        requires
            old(self).view_values().len() == rhs.view_values().len(),
            forall|i: int|
                0 <= i < old(self).view_values().len() ==> #[trigger] old(self).view_values()[i].sub_req(
                    rhs.view_values()[i],
                ),
        ensures
            final(self).view_values().len() == old(self).view_values().len(),
            T::obeys_sub_spec() ==> final(self).view_values() == subtracted(old(self).view_values(), rhs.view_values()),
    {
        let rhs_slice = rhs.storage.values();
        let ghost before = self.view_values();
        let lhs_slice = self.storage.values_mut();
        let ghost old_lhs = lhs_slice@;
        proof {
            assert forall|j: int| 0 <= j < old_lhs.len() implies #[trigger] old_lhs[j].sub_req(rhs_slice@[j]) by {
                assert(old_lhs[j] == before[j]);
            }
        }
        let n = rhs_slice.len();
        let mut i: usize = 0;
        while i < n
            invariant
                n == rhs_slice@.len(),
                lhs_slice@.len() == n,
                old_lhs.len() == n,
                i <= n,
                forall|j: int| 0 <= j < n ==> #[trigger] old_lhs[j].sub_req(rhs_slice@[j]),
                forall|j: int| i <= j < n ==> #[trigger] lhs_slice@[j] == old_lhs[j],
                T::obeys_sub_spec() ==> forall|j: int|
                    0 <= j < i ==> #[trigger] lhs_slice@[j] == subtracted(old_lhs, rhs_slice@)[j],
            decreases n - i,
        {
            lhs_slice[i] = lhs_slice[i] - rhs_slice[i];
            i += 1;
        }
        proof {
            if T::obeys_sub_spec() {
                assert(lhs_slice@ =~= subtracted(old_lhs, rhs_slice@));
            }
        }
    }

    /// Subtracts `rhs` from `self`, component by component; the two have the same length. Returns the result.
    pub fn sub(self, rhs: &Self) -> (r: Self)
        requires
            self.view_values().len() == rhs.view_values().len(),
            forall|i: int|
                0 <= i < self.view_values().len() ==> #[trigger] self.view_values()[i].sub_req(
                    rhs.view_values()[i],
                ),
        ensures
            r.view_values().len() == self.view_values().len(),
            T::obeys_sub_spec() ==> r.view_values() == subtracted(self.view_values(), rhs.view_values()),
    {
        let mut v = self;
        v.sub_assign(rhs);
        v
    }
}

impl<T: Copy + Mul<Output = T>, S: DenseStorage<T>> GenericDenseVec<T, S> {
    /// Multiplies each component of `self` by `rhs`.
    pub fn mul_assign(&mut self, rhs: T)
        requires
            forall|i: int|
                0 <= i < old(self).view_values().len() ==> #[trigger] old(self).view_values()[i].mul_req(rhs),
        ensures
            final(self).view_values().len() == old(self).view_values().len(),
            T::obeys_mul_spec() ==> final(self).view_values() == scaled(old(self).view_values(), rhs),
    {
        let ghost before = self.view_values();
        let lhs_slice = self.storage.values_mut();
        let ghost old_lhs = lhs_slice@;
        proof {
            assert forall|j: int| 0 <= j < old_lhs.len() implies #[trigger] old_lhs[j].mul_req(rhs) by {
                assert(old_lhs[j] == before[j]);
            }
        }
        let n = lhs_slice.len();
        let mut i: usize = 0;
        while i < n
            invariant
                lhs_slice@.len() == n,
                old_lhs.len() == n,
                i <= n,
                forall|j: int| 0 <= j < n ==> #[trigger] old_lhs[j].mul_req(rhs),
                forall|j: int| i <= j < n ==> #[trigger] lhs_slice@[j] == old_lhs[j],
                T::obeys_mul_spec() ==> forall|j: int|
                    0 <= j < i ==> #[trigger] lhs_slice@[j] == scaled(old_lhs, rhs)[j],
            decreases n - i,
        {
            lhs_slice[i] = lhs_slice[i] * rhs;
            i += 1;
        }
        proof {
            if T::obeys_mul_spec() {
                assert(lhs_slice@ =~= scaled(old_lhs, rhs));
            }
        }
    }

    /// Multiplies each component of `self` by `rhs`. Returns the result.
    pub fn mul(self, rhs: T) -> (r: Self)
        requires
            forall|i: int|
                0 <= i < self.view_values().len() ==> #[trigger] self.view_values()[i].mul_req(rhs),
        ensures
            r.view_values().len() == self.view_values().len(),
            T::obeys_mul_spec() ==> r.view_values() == scaled(self.view_values(), rhs),
    {
        let mut v = self;
        v.mul_assign(rhs);
        v
    }
}

impl<T: Copy + Div<Output = T>, S: DenseStorage<T>> GenericDenseVec<T, S> {
    /// Divides each component of `self` by `rhs`.
    pub fn div_assign(&mut self, rhs: T)
        requires
            forall|i: int|
                0 <= i < old(self).view_values().len() ==> #[trigger] old(self).view_values()[i].div_req(rhs),
        ensures
            final(self).view_values().len() == old(self).view_values().len(),
            T::obeys_div_spec() ==> final(self).view_values() == divided(old(self).view_values(), rhs),
    {
        let ghost before = self.view_values();
        let lhs_slice = self.storage.values_mut();
        let ghost old_lhs = lhs_slice@;
        proof {
            assert forall|j: int| 0 <= j < old_lhs.len() implies #[trigger] old_lhs[j].div_req(rhs) by {
                assert(old_lhs[j] == before[j]);
            }
        }
        let n = lhs_slice.len();
        let mut i: usize = 0;
        while i < n
            invariant
                lhs_slice@.len() == n,
                old_lhs.len() == n,
                i <= n,
                forall|j: int| 0 <= j < n ==> #[trigger] old_lhs[j].div_req(rhs),
                forall|j: int| i <= j < n ==> #[trigger] lhs_slice@[j] == old_lhs[j],
                T::obeys_div_spec() ==> forall|j: int|
                    0 <= j < i ==> #[trigger] lhs_slice@[j] == divided(old_lhs, rhs)[j],
            decreases n - i,
        {
            lhs_slice[i] = lhs_slice[i] / rhs;
            i += 1;
        }
        proof {
            if T::obeys_div_spec() {
                assert(lhs_slice@ =~= divided(old_lhs, rhs));
            }
        }
    }

    /// Divides each component of `self` by `rhs`. Returns the result.
    pub fn div(self, rhs: T) -> (r: Self)
        requires
            forall|i: int|
                0 <= i < self.view_values().len() ==> #[trigger] self.view_values()[i].div_req(rhs),
        ensures
            r.view_values().len() == self.view_values().len(),
            T::obeys_div_spec() ==> r.view_values() == divided(self.view_values(), rhs),
    {
        let mut v = self;
        v.div_assign(rhs);
        v
    }
}

impl<T: Copy + MulAddAssign<T, T> + Mul<Output = T> + Add<Output = T>, S: DenseStorage<T>> GenericDenseVec<T, S> {
    /// Replaces each component `x` of `self` by `(x * a) + b[i]`, as
    /// `num_traits::MulAdd` computes it; `self` and `b` have the same
    /// length, and each `(x * a) + b[i]` is defined.
    pub fn mul_add_assign(&mut self, a: T, b: &Self)
        requires
            old(self).view_values().len() == b.view_values().len(),
            forall|i: int|
                0 <= i < old(self).view_values().len() ==> #[trigger] mul_add_req(
                    old(self).view_values()[i],
                    a,
                    b.view_values()[i],
                ),
        ensures
            final(self).view_values().len() == old(self).view_values().len(),
            forall|i: int|
                0 <= i < old(self).view_values().len() ==> mul_added(
                    old(self).view_values()[i],
                    a,
                    b.view_values()[i],
                    #[trigger] final(self).view_values()[i],
                ),
    {
        let rhs_slice = b.storage.values();
        let lhs_slice = self.storage.values_mut();
        let ghost old_lhs = lhs_slice@;
        let n = rhs_slice.len();
        let mut i: usize = 0;
        while i < n
            invariant
                n == rhs_slice@.len(),
                lhs_slice@.len() == n,
                old_lhs.len() == n,
                i <= n,
                forall|j: int| i <= j < n ==> #[trigger] lhs_slice@[j] == old_lhs[j],
                forall|j: int| 0 <= j < n ==> #[trigger] mul_add_req(old_lhs[j], a, rhs_slice@[j]),
                forall|j: int|
                    0 <= j < i ==> mul_added(old_lhs[j], a, rhs_slice@[j], #[trigger] lhs_slice@[j]),
            decreases n - i,
        {
            lhs_slice[i] = mul_add_value(lhs_slice[i], a, rhs_slice[i]);
            i += 1;
        }
    }

    /// `(x * a) + b[i]` for each component `x` of `self`. Returns the
    /// result.
    pub fn mul_add(self, a: T, b: &Self) -> (r: Self)
        requires
            self.view_values().len() == b.view_values().len(),
            forall|i: int|
                0 <= i < self.view_values().len() ==> #[trigger] mul_add_req(
                    self.view_values()[i],
                    a,
                    b.view_values()[i],
                ),
        ensures
            r.view_values().len() == self.view_values().len(),
            forall|i: int|
                0 <= i < self.view_values().len() ==> mul_added(
                    self.view_values()[i],
                    a,
                    b.view_values()[i],
                    #[trigger] r.view_values()[i],
                ),
    {
        let mut v = self;
        v.mul_add_assign(a, b);
        v
    }
}


impl<'b, T: Copy + Add<Output = T>, S: DenseStorage<T>> Add<&'b GenericDenseVec<T, S>> for GenericDenseVec<T, S> {
    type Output = Self;

    /// As [`GenericDenseVec::add`].
    fn add(self, rhs: &'b GenericDenseVec<T, S>) -> (r: Self)
        ensures
            r.view_values().len() == self.view_values().len(),
            T::obeys_add_spec() ==> r.view_values() == added(self.view_values(), rhs.view_values()),
    {
        let mut v = self;
        v.add_assign(rhs);
        v
    }
}

impl<'b, T: Copy + Add<Output = T>, S: DenseStorage<T>> AddSpecImpl<&'b GenericDenseVec<T, S>> for GenericDenseVec<T, S> {
    open spec fn obeys_add_spec() -> bool {
        false
    }

    /// The operands on which the operation is defined.
    open spec fn add_req(self, rhs: &'b GenericDenseVec<T, S>) -> bool {
        &&& self.view_values().len() == rhs.view_values().len()
        &&& forall|i: int|
            0 <= i < self.view_values().len() ==> #[trigger] self.view_values()[i].add_req(
                rhs.view_values()[i],
            )
    }

    open spec fn add_spec(self, rhs: &'b GenericDenseVec<T, S>) -> Self {
        arbitrary()
    }
}

impl<'b, T: Copy + Sub<Output = T>, S: DenseStorage<T>> Sub<&'b GenericDenseVec<T, S>> for GenericDenseVec<T, S> {
    type Output = Self;

    /// As [`GenericDenseVec::sub`].
    fn sub(self, rhs: &'b GenericDenseVec<T, S>) -> (r: Self)
        ensures
            r.view_values().len() == self.view_values().len(),
            T::obeys_sub_spec() ==> r.view_values() == subtracted(self.view_values(), rhs.view_values()),
    {
        let mut v = self;
        v.sub_assign(rhs);
        v
    }
}

impl<'b, T: Copy + Sub<Output = T>, S: DenseStorage<T>> SubSpecImpl<&'b GenericDenseVec<T, S>> for GenericDenseVec<T, S> {
    open spec fn obeys_sub_spec() -> bool {
        false
    }

    /// The operands on which the operation is defined.
    open spec fn sub_req(self, rhs: &'b GenericDenseVec<T, S>) -> bool {
        &&& self.view_values().len() == rhs.view_values().len()
        &&& forall|i: int|
            0 <= i < self.view_values().len() ==> #[trigger] self.view_values()[i].sub_req(
                rhs.view_values()[i],
            )
    }

    open spec fn sub_spec(self, rhs: &'b GenericDenseVec<T, S>) -> Self {
        arbitrary()
    }
}

impl<T: Copy + Mul<Output = T>, S: DenseStorage<T>> Mul<T> for GenericDenseVec<T, S> {
    type Output = Self;

    /// As [`GenericDenseVec::mul`].
    fn mul(self, rhs: T) -> (r: Self)
        ensures
            r.view_values().len() == self.view_values().len(),
            T::obeys_mul_spec() ==> r.view_values() == scaled(self.view_values(), rhs),
    {
        let mut v = self;
        v.mul_assign(rhs);
        v
    }
}

impl<T: Copy + Mul<Output = T>, S: DenseStorage<T>> MulSpecImpl<T> for GenericDenseVec<T, S> {
    open spec fn obeys_mul_spec() -> bool {
        false
    }

    /// The operands on which the operation is defined.
    open spec fn mul_req(self, rhs: T) -> bool {
        forall|i: int|
            0 <= i < self.view_values().len() ==> #[trigger] self.view_values()[i].mul_req(rhs)
    }

    open spec fn mul_spec(self, rhs: T) -> Self {
        arbitrary()
    }
}

impl<T: Copy + Div<Output = T>, S: DenseStorage<T>> Div<T> for GenericDenseVec<T, S> {
    type Output = Self;

    /// As [`GenericDenseVec::div`].
    fn div(self, rhs: T) -> (r: Self)
        ensures
            r.view_values().len() == self.view_values().len(),
            T::obeys_div_spec() ==> r.view_values() == divided(self.view_values(), rhs),
    {
        let mut v = self;
        v.div_assign(rhs);
        v
    }
}

impl<T: Copy + Div<Output = T>, S: DenseStorage<T>> DivSpecImpl<T> for GenericDenseVec<T, S> {
    open spec fn obeys_div_spec() -> bool {
        false
    }

    /// The operands on which the operation is defined.
    open spec fn div_req(self, rhs: T) -> bool {
        forall|i: int|
            0 <= i < self.view_values().len() ==> #[trigger] self.view_values()[i].div_req(rhs)
    }

    open spec fn div_spec(self, rhs: T) -> Self {
        arbitrary()
    }
}

} // verus!

//! Dot products of dense vectors.

use core::ops::{Add, Mul};

use vstd::prelude::*;
use vstd::std_specs::ops::{AddSpec, MulSpec};

use crate::dense::storage::DenseStorage;
use crate::dense::GenericDenseVec;
use crate::scalar::{add_mul_obeyed, add_mul_total, is_default};
use crate::sparse::storage::SparseStorage;
use crate::sparse::{GenericSparseVec, SparseVector};
use crate::{Dot, Index};

verus! {

/// The sum, from `acc`, of `a[i] * b[i]` for `i` in `0..n`, in order.
pub open spec fn dense_dot<T: Add<Output = T> + Mul<Output = T>>(
    acc: T,
    a: Seq<T>,
    b: Seq<T>,
    n: nat,
) -> T
    decreases n,
{
    if n == 0 {
        acc
    } else {
        dense_dot(acc, a, b, (n - 1) as nat).add_spec(a[n - 1].mul_spec(b[n - 1]))
    }
}

/// Every product and partial sum of [`dense_dot`] is defined.
pub open spec fn dense_dot_ok<T: Add<Output = T> + Mul<Output = T>>(
    acc: T,
    a: Seq<T>,
    b: Seq<T>,
    n: nat,
) -> bool
    decreases n,
{
    if n == 0 {
        true
    } else {
        &&& dense_dot_ok(acc, a, b, (n - 1) as nat)
        &&& a[n - 1].mul_req(b[n - 1])
        &&& dense_dot(acc, a, b, (n - 1) as nat).add_req(a[n - 1].mul_spec(b[n - 1]))
    }
}

/// A longer sum is defined only where its prefixes are.
proof fn lemma_dense_dot_ok_prefix<T: Add<Output = T> + Mul<Output = T>>(
    acc: T,
    a: Seq<T>,
    b: Seq<T>,
    i: nat,
    n: nat,
)
    requires
        i <= n,
        dense_dot_ok(acc, a, b, n),
    ensures
        dense_dot_ok(acc, a, b, i),
    decreases n,
{
    if i < n {
        lemma_dense_dot_ok_prefix(acc, a, b, i, (n - 1) as nat);
    }
}

/// The dot product of `a` and `b`, summed in order from `zero`.
pub fn dense_dot_from<T: Copy + Add<Output = T> + Mul<Output = T>>(zero: T, a: &[T], b: &[T]) -> (r: T)
    requires
        a@.len() == b@.len(),
        add_mul_obeyed::<T>() && dense_dot_ok(zero, a@, b@, a@.len()) || add_mul_total::<T>(),
    ensures
        add_mul_obeyed::<T>() ==> r == dense_dot(zero, a@, b@, a@.len()),
{
    let mut sum = zero;
    let mut i: usize = 0;
    while i < a.len()
        invariant
            a@.len() == b@.len(),
            i <= a@.len(),
            add_mul_obeyed::<T>() && dense_dot_ok(zero, a@, b@, a@.len()) || add_mul_total::<T>(),
            add_mul_obeyed::<T>() ==> sum == dense_dot(zero, a@, b@, i as nat),
        decreases a@.len() - i,
    {
        proof {
            if add_mul_obeyed::<T>() && dense_dot_ok(zero, a@, b@, a@.len()) {
                lemma_dense_dot_ok_prefix(zero, a@, b@, (i + 1) as nat, a@.len());
            }
            if add_mul_total::<T>() {
                assert(a@[i as int].mul_req(b@[i as int]));
            }
        }
        let product = a[i] * b[i];
        proof {
            if add_mul_total::<T>() {
                assert(sum.add_req(product));
            }
        }
        sum = sum + product;
        i += 1;
    }
    sum
}

impl<T, S> Dot for GenericDenseVec<T, S> where
    T: Copy + Default + Add<Output = T> + Mul<Output = T>,
    S: DenseStorage<T>,
 {
    type Output = T;

    /// Equal lengths, and for each zero of `T`, sums and products in the
    /// domain of `+` and `*`.
    open spec fn dot_req(&self, rhs: &Self) -> bool {
        &&& self.view_values().len() == rhs.view_values().len()
        &&& forall|d: T|
            #[trigger] is_default(d) ==> add_mul_obeyed::<T>() && dense_dot_ok(
                d,
                self.view_values(),
                rhs.view_values(),
                self.view_values().len(),
            ) || add_mul_total::<T>()
    }

    /// The sum, from zero, of the products of the components, in order.
    fn dot(&self, rhs: &Self) -> (r: T)
        ensures
            exists|d: T|
                #[trigger] is_default(d) && (add_mul_obeyed::<T>() ==> r == dense_dot(
                    d,
                    self.view_values(),
                    rhs.view_values(),
                    self.view_values().len(),
                )),
    {
        let zero = T::default();
        proof {
            assert(is_default(zero));
        }
        dense_dot_from(zero, self.storage.values(), rhs.storage.values())
    }
}

/// The sum, from `acc`, over the first `k` sparse entries in order, of
/// the dense component at the entry's index times the entry's value;
/// entries past the end of `dense` add nothing.
pub open spec fn sparse_fold_dot<Idx: Index, T: Add<Output = T> + Mul<Output = T>>(
    acc: T,
    dense: Seq<T>,
    si: Seq<Idx>,
    sv: Seq<T>,
    k: nat,
) -> T
    decreases k,
{
    if k == 0 {
        acc
    } else {
        let s = sparse_fold_dot(acc, dense, si, sv, (k - 1) as nat);
        if si[k - 1].rank() < dense.len() {
            s.add_spec(dense[si[k - 1].rank()].mul_spec(sv[k - 1]))
        } else {
            s
        }
    }
}

/// Every product and partial sum of [`sparse_fold_dot`] is defined.
pub open spec fn sparse_fold_dot_ok<Idx: Index, T: Add<Output = T> + Mul<Output = T>>(
    acc: T,
    dense: Seq<T>,
    si: Seq<Idx>,
    sv: Seq<T>,
    k: nat,
) -> bool
    decreases k,
{
    if k == 0 {
        true
    } else {
        &&& sparse_fold_dot_ok(acc, dense, si, sv, (k - 1) as nat)
        &&& si[k - 1].rank() < dense.len() ==> {
            &&& dense[si[k - 1].rank()].mul_req(sv[k - 1])
            &&& sparse_fold_dot(acc, dense, si, sv, (k - 1) as nat).add_req(
                dense[si[k - 1].rank()].mul_spec(sv[k - 1]),
            )
        }
    }
}

proof fn lemma_sparse_fold_dot_ok_prefix<Idx: Index, T: Add<Output = T> + Mul<Output = T>>(
    acc: T,
    dense: Seq<T>,
    si: Seq<Idx>,
    sv: Seq<T>,
    i: nat,
    k: nat,
)
    requires
        i <= k,
        sparse_fold_dot_ok(acc, dense, si, sv, k),
    ensures
        sparse_fold_dot_ok(acc, dense, si, sv, i),
    decreases k,
{
    if i < k {
        lemma_sparse_fold_dot_ok_prefix(acc, dense, si, sv, i, (k - 1) as nat);
    }
}

/// The dot product of a dense slice with a sparse vector's index/value
/// slices, summed from `zero` over the sparse entries in order; entries
/// past the end of the dense slice add nothing.
pub fn dense_sparse_dot_from<Idx: Index, T: Copy + Add<Output = T> + Mul<Output = T>>(
    zero: T,
    dense: &[T],
    indices: &[Idx],
    values: &[T],
) -> (r: T)
    requires
        indices@.len() <= values@.len(),
        add_mul_obeyed::<T>() && sparse_fold_dot_ok(zero, dense@, indices@, values@, indices@.len())
            || add_mul_total::<T>(),
    ensures
        add_mul_obeyed::<T>() ==> r == sparse_fold_dot(zero, dense@, indices@, values@, indices@.len()),
{
    let mut sum = zero;
    let mut j: usize = 0;
    while j < indices.len()
        invariant
            indices@.len() <= values@.len(),
            j <= indices@.len(),
            add_mul_obeyed::<T>() && sparse_fold_dot_ok(zero, dense@, indices@, values@, indices@.len())
                || add_mul_total::<T>(),
            add_mul_obeyed::<T>() ==> sum == sparse_fold_dot(zero, dense@, indices@, values@, j as nat),
        decreases indices@.len() - j,
    {
        proof {
            if add_mul_obeyed::<T>() && sparse_fold_dot_ok(
                zero,
                dense@,
                indices@,
                values@,
                indices@.len(),
            ) {
                lemma_sparse_fold_dot_ok_prefix(
                    zero,
                    dense@,
                    indices@,
                    values@,
                    (j + 1) as nat,
                    indices@.len(),
                );
            }
        }
        let idx = indices[j].to_usize();
        if idx < dense.len() {
            proof {
                if add_mul_total::<T>() {
                    assert(dense@[idx as int].mul_req(values@[j as int]));
                }
            }
            let product = dense[idx] * values[j];
            proof {
                if add_mul_total::<T>() {
                    assert(sum.add_req(product));
                }
            }
            sum = sum + product;
        }
        j += 1;
    }
    sum
}

impl<Idx, T, S, S2> Dot<GenericSparseVec<Idx, T, S2>> for GenericDenseVec<T, S> where
    Idx: Index,
    T: Copy + Default + Add<Output = T> + Mul<Output = T>,
    S: DenseStorage<T>,
    S2: SparseStorage<Idx, T>,
 {
    type Output = T;

    /// The sparse storage is parallel, and for each zero of `T` the sums
    /// and products are defined.
    open spec fn dot_req(&self, rhs: &GenericSparseVec<Idx, T, S2>) -> bool {
        &&& rhs.index_view().len() <= rhs.value_view().len()
        &&& forall|d: T|
            #[trigger] is_default(d) ==> add_mul_obeyed::<T>() && sparse_fold_dot_ok(
                d,
                self.view_values(),
                rhs.index_view(),
                rhs.value_view(),
                rhs.index_view().len(),
            ) || add_mul_total::<T>()
    }

    /// The sum, from zero, over the sparse entries in order, of the dense
    /// component at each entry's index times its value.
    fn dot(&self, rhs: &GenericSparseVec<Idx, T, S2>) -> (r: T)
        ensures
            exists|d: T|
                #[trigger] is_default(d) && (add_mul_obeyed::<T>() ==> r == sparse_fold_dot(
                    d,
                    self.view_values(),
                    rhs.index_view(),
                    rhs.value_view(),
                    rhs.index_view().len(),
                )),
    {
        let zero = T::default();
        proof {
            assert(is_default(zero));
        }
        dense_sparse_dot_from(
            zero,
            self.storage.values(),
            SparseVector::indices(rhs),
            SparseVector::values(rhs),
        )
    }
}

} // verus!

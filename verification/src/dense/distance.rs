//! Squared euclidean distances from dense vectors.

use core::ops::{Add, Mul, Sub};

use vstd::prelude::*;
use vstd::std_specs::ops::{AddSpec, MulSpec, SubSpec};

use crate::dense::storage::DenseStorage;
use crate::dense::GenericDenseVec;
use crate::scalar::{add_square, add_square_ok, arith_obeyed, arith_total, is_default};
use crate::sparse::storage::SparseStorage;
use crate::sparse::{GenericSparseVec, SparseVector};
use crate::{Distance, Index};

verus! {

/// The sum, from `acc`, of `(a[i] - b[i])²` for `i` in `0..n`, in order.
pub open spec fn dense_sq_dist<T: Add<Output = T> + Sub<Output = T> + Mul<Output = T>>(
    acc: T,
    a: Seq<T>,
    b: Seq<T>,
    n: nat,
) -> T
    decreases n,
{
    if n == 0 {
        acc
    } else {
        add_square(dense_sq_dist(acc, a, b, (n - 1) as nat), a[n - 1].sub_spec(b[n - 1]))
    }
}

/// Every difference, square and partial sum of [`dense_sq_dist`] is
/// defined.
pub open spec fn dense_sq_dist_ok<T: Add<Output = T> + Sub<Output = T> + Mul<Output = T>>(
    acc: T,
    a: Seq<T>,
    b: Seq<T>,
    n: nat,
) -> bool
    decreases n,
{
    if n == 0 {
        true
    } else {
        &&& dense_sq_dist_ok(acc, a, b, (n - 1) as nat)
        &&& a[n - 1].sub_req(b[n - 1])
        &&& add_square_ok(dense_sq_dist(acc, a, b, (n - 1) as nat), a[n - 1].sub_spec(b[n - 1]))
    }
}

proof fn lemma_dense_sq_dist_ok_prefix<T: Add<Output = T> + Sub<Output = T> + Mul<Output = T>>(
    acc: T,
    a: Seq<T>,
    b: Seq<T>,
    i: nat,
    n: nat,
)
    requires
        i <= n,
        dense_sq_dist_ok(acc, a, b, n),
    ensures
        dense_sq_dist_ok(acc, a, b, i),
    decreases n,
{
    if i < n {
        lemma_dense_sq_dist_ok_prefix(acc, a, b, i, (n - 1) as nat);
    }
}

/// The squared distance of `a` and `b`, summed in order from `zero`.
pub fn dense_sq_distance_from<T: Copy + Add<Output = T> + Sub<Output = T> + Mul<Output = T>>(
    zero: T,
    a: &[T],
    b: &[T],
) -> (r: T)
    requires
        a@.len() == b@.len(),
        arith_obeyed::<T>() && dense_sq_dist_ok(zero, a@, b@, a@.len()) || arith_total::<T>(),
    ensures
        arith_obeyed::<T>() ==> r == dense_sq_dist(zero, a@, b@, a@.len()),
{
    let mut sum = zero;
    let mut i: usize = 0;
    while i < a.len()
        invariant
            a@.len() == b@.len(),
            i <= a@.len(),
            arith_obeyed::<T>() && dense_sq_dist_ok(zero, a@, b@, a@.len()) || arith_total::<T>(),
            arith_obeyed::<T>() ==> sum == dense_sq_dist(zero, a@, b@, i as nat),
        decreases a@.len() - i,
    {
        proof {
            if arith_obeyed::<T>() && dense_sq_dist_ok(zero, a@, b@, a@.len()) {
                lemma_dense_sq_dist_ok_prefix(zero, a@, b@, (i + 1) as nat, a@.len());
            }
            if arith_total::<T>() {
                assert(a@[i as int].sub_req(b@[i as int]));
            }
        }
        let delta = a[i] - b[i];
        proof {
            if arith_total::<T>() {
                assert(delta.mul_req(delta));
            }
        }
        let square = delta * delta;
        proof {
            if arith_total::<T>() {
                assert(sum.add_req(square));
            }
        }
        sum = sum + square;
        i += 1;
    }
    sum
}

impl<T, S> Distance for GenericDenseVec<T, S> where
    T: Copy + Default + Add<Output = T> + Sub<Output = T> + Mul<Output = T>,
    S: DenseStorage<T>,
 {
    type Output = T;

    /// Equal lengths, and for each zero of `T`, every difference, square
    /// and sum within the domain of `-`, `*` and `+`.
    open spec fn distance_req(&self, rhs: &Self) -> bool {
        &&& self.view_values().len() == rhs.view_values().len()
        &&& forall|d: T|
            #[trigger] is_default(d) ==> arith_obeyed::<T>() && dense_sq_dist_ok(
                d,
                self.view_values(),
                rhs.view_values(),
                self.view_values().len(),
            ) || arith_total::<T>()
    }

    /// The sum, from zero, of the squared differences of the components,
    /// in order.
    fn squared_distance(&self, rhs: &Self) -> (r: T)
        ensures
            exists|d: T|
                #[trigger] is_default(d) && (arith_obeyed::<T>() ==> r == dense_sq_dist(
                    d,
                    self.view_values(),
                    rhs.view_values(),
                    self.view_values().len(),
                )),
    {
        let zero = T::default();
        proof {
            assert(is_default(zero));
        }
        dense_sq_distance_from(zero, self.storage.values(), rhs.storage.values())
    }
}

/// The sum, from `acc`, of the squared differences of a dense slice and a
/// sparse vector's entries, walking the dense positions from `dp` and the
/// entries from `sp` in step: a dense component before the next entry
/// adds its square, an entry before the next dense position adds its
/// square, and an entry at the dense position adds the square of their
/// difference.
pub open spec fn dense_sparse_sq<Idx: Index, T: Add<Output = T> + Sub<Output = T> + Mul<Output = T>>(
    acc: T,
    dense: Seq<T>,
    si: Seq<Idx>,
    sv: Seq<T>,
    dp: int,
    sp: int,
) -> T
    decreases (dense.len() - dp) + (si.len() - sp),
{
    if dp < 0 || sp < 0 || dp > dense.len() || sp > si.len() || (dp == dense.len() && sp
        == si.len()) {
        acc
    } else if sp == si.len() || (dp < dense.len() && dp < si[sp].rank()) {
        dense_sparse_sq(add_square(acc, dense[dp]), dense, si, sv, dp + 1, sp)
    } else if dp == dense.len() || dp > si[sp].rank() {
        dense_sparse_sq(add_square(acc, sv[sp]), dense, si, sv, dp, sp + 1)
    } else {
        dense_sparse_sq(add_square(acc, dense[dp].sub_spec(sv[sp])), dense, si, sv, dp + 1, sp + 1)
    }
}

/// Every difference, square and sum of [`dense_sparse_sq`] is defined.
pub open spec fn dense_sparse_sq_ok<Idx: Index, T: Add<Output = T> + Sub<Output = T> + Mul<
    Output = T,
>>(acc: T, dense: Seq<T>, si: Seq<Idx>, sv: Seq<T>, dp: int, sp: int) -> bool
    decreases (dense.len() - dp) + (si.len() - sp),
{
    if dp < 0 || sp < 0 || dp > dense.len() || sp > si.len() || (dp == dense.len() && sp
        == si.len()) {
        true
    } else if sp == si.len() || (dp < dense.len() && dp < si[sp].rank()) {
        &&& add_square_ok(acc, dense[dp])
        &&& dense_sparse_sq_ok(add_square(acc, dense[dp]), dense, si, sv, dp + 1, sp)
    } else if dp == dense.len() || dp > si[sp].rank() {
        &&& add_square_ok(acc, sv[sp])
        &&& dense_sparse_sq_ok(add_square(acc, sv[sp]), dense, si, sv, dp, sp + 1)
    } else {
        &&& dense[dp].sub_req(sv[sp])
        &&& add_square_ok(acc, dense[dp].sub_spec(sv[sp]))
        &&& dense_sparse_sq_ok(
            add_square(acc, dense[dp].sub_spec(sv[sp])),
            dense,
            si,
            sv,
            dp + 1,
            sp + 1,
        )
    }
}

/// The squared distance of a dense slice and a sparse vector's
/// index/value slices, summed from `zero`.
pub fn dense_sparse_sq_distance_from<Idx: Index, T: Copy + Add<Output = T> + Sub<Output = T> + Mul<
    Output = T,
>>(zero: T, dense: &[T], indices: &[Idx], values: &[T]) -> (r: T)
    requires
        indices@.len() <= values@.len(),
        arith_obeyed::<T>() && dense_sparse_sq_ok(zero, dense@, indices@, values@, 0, 0)
            || arith_total::<T>(),
    ensures
        arith_obeyed::<T>() ==> r == dense_sparse_sq(zero, dense@, indices@, values@, 0, 0),
{
    let mut sum = zero;
    let mut dense_idx: usize = 0;
    let mut sparse_pos: usize = 0;
    while dense_idx < dense.len() || sparse_pos < indices.len()
        invariant
            indices@.len() <= values@.len(),
            dense_idx <= dense@.len(),
            sparse_pos <= indices@.len(),
            arith_obeyed::<T>() && dense_sparse_sq_ok(
                sum,
                dense@,
                indices@,
                values@,
                dense_idx as int,
                sparse_pos as int,
            ) || arith_total::<T>(),
            arith_obeyed::<T>() ==> dense_sparse_sq(zero, dense@, indices@, values@, 0, 0)
                == dense_sparse_sq(
                sum,
                dense@,
                indices@,
                values@,
                dense_idx as int,
                sparse_pos as int,
            ),
        decreases dense@.len() + indices@.len() - dense_idx - sparse_pos,
    {
        if sparse_pos >= indices.len() || (dense_idx < dense.len() && dense_idx
            < indices[sparse_pos].to_usize()) {
            let l_val = dense[dense_idx];
            proof {
                if arith_total::<T>() {
                    assert(l_val.mul_req(l_val));
                }
            }
            let square = l_val * l_val;
            proof {
                if arith_total::<T>() {
                    assert(sum.add_req(square));
                }
            }
            sum = sum + square;
            dense_idx += 1;
        } else if dense_idx >= dense.len() || dense_idx > indices[sparse_pos].to_usize() {
            let r_val = values[sparse_pos];
            proof {
                if arith_total::<T>() {
                    assert(r_val.mul_req(r_val));
                }
            }
            let square = r_val * r_val;
            proof {
                if arith_total::<T>() {
                    assert(sum.add_req(square));
                }
            }
            sum = sum + square;
            sparse_pos += 1;
        } else {
            proof {
                if arith_total::<T>() {
                    assert(dense@[dense_idx as int].sub_req(values@[sparse_pos as int]));
                }
            }
            let delta = dense[dense_idx] - values[sparse_pos];
            proof {
                if arith_total::<T>() {
                    assert(delta.mul_req(delta));
                }
            }
            let square = delta * delta;
            proof {
                if arith_total::<T>() {
                    assert(sum.add_req(square));
                }
            }
            sum = sum + square;
            dense_idx += 1;
            sparse_pos += 1;
        }
    }
    sum
}

impl<Idx, T, S, S2> Distance<GenericSparseVec<Idx, T, S2>> for GenericDenseVec<T, S> where
    Idx: Index,
    T: Copy + Default + Add<Output = T> + Sub<Output = T> + Mul<Output = T>,
    S: DenseStorage<T>,
    S2: SparseStorage<Idx, T>,
 {
    type Output = T;

    /// Parallel sparse storage, and for each zero of `T`, every difference,
    /// square and sum within the domain of `-`, `*` and `+`.
    open spec fn distance_req(&self, rhs: &GenericSparseVec<Idx, T, S2>) -> bool {
        &&& rhs.index_view().len() <= rhs.value_view().len()
        &&& forall|d: T|
            #[trigger] is_default(d) ==> arith_obeyed::<T>() && dense_sparse_sq_ok(
                d,
                self.view_values(),
                rhs.index_view(),
                rhs.value_view(),
                0,
                0,
            ) || arith_total::<T>()
    }

    /// The sum, from zero, of the squared differences over the union of
    /// the dense positions and the sparse indices, in index order.
    fn squared_distance(&self, rhs: &GenericSparseVec<Idx, T, S2>) -> (r: T)
        ensures
            exists|d: T|
                #[trigger] is_default(d) && (arith_obeyed::<T>() ==> r == dense_sparse_sq(
                    d,
                    self.view_values(),
                    rhs.index_view(),
                    rhs.value_view(),
                    0,
                    0,
                )),
    {
        let zero = T::default();
        proof {
            assert(is_default(zero));
        }
        dense_sparse_sq_distance_from(
            zero,
            self.storage.values(),
            SparseVector::indices(rhs),
            SparseVector::values(rhs),
        )
    }
}

} // verus!

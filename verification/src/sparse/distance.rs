//! Squared euclidean distances from sparse vectors.

use core::ops::{Add, Mul, Sub};

use vstd::prelude::*;
use vstd::std_specs::ops::{AddSpec, MulSpec, SubSpec};

use crate::dense::storage::DenseStorage;
use crate::dense::{DenseVector, GenericDenseVec};
use crate::scalar::{add_square, add_square_ok, arith_obeyed, arith_total, is_default};
use crate::sparse::storage::{parallel, SparseStorage};
use crate::sparse::GenericSparseVec;
use crate::{Distance, Index};

verus! {

/// The sum, from `acc`, of the squared differences over the union of the
/// indices of `(li, lv)` from `lp` and of `(ri, rv)` from `rp`, in index
/// order, as an outer join yields them: an index on one side only adds
/// the square of its value, a shared index the square of the difference.
pub open spec fn merge_sq<Idx: Index, T: Add<Output = T> + Sub<Output = T> + Mul<Output = T>>(
    acc: T,
    li: Seq<Idx>,
    lv: Seq<T>,
    ri: Seq<Idx>,
    rv: Seq<T>,
    lp: int,
    rp: int,
) -> T
    decreases (li.len() - lp) + (ri.len() - rp),
{
    if lp < 0 || rp < 0 || lp > li.len() || rp > ri.len() || (lp == li.len() && rp == ri.len()) {
        acc
    } else if rp == ri.len() || (lp < li.len() && li[lp].rank() < ri[rp].rank()) {
        merge_sq(add_square(acc, lv[lp]), li, lv, ri, rv, lp + 1, rp)
    } else if lp == li.len() || ri[rp].rank() < li[lp].rank() {
        merge_sq(add_square(acc, rv[rp]), li, lv, ri, rv, lp, rp + 1)
    } else {
        merge_sq(add_square(acc, lv[lp].sub_spec(rv[rp])), li, lv, ri, rv, lp + 1, rp + 1)
    }
}

/// Every difference, square and sum of [`merge_sq`] is defined.
pub open spec fn merge_sq_ok<Idx: Index, T: Add<Output = T> + Sub<Output = T> + Mul<Output = T>>(
    acc: T,
    li: Seq<Idx>,
    lv: Seq<T>,
    ri: Seq<Idx>,
    rv: Seq<T>,
    lp: int,
    rp: int,
) -> bool
    decreases (li.len() - lp) + (ri.len() - rp),
{
    if lp < 0 || rp < 0 || lp > li.len() || rp > ri.len() || (lp == li.len() && rp == ri.len()) {
        true
    } else if rp == ri.len() || (lp < li.len() && li[lp].rank() < ri[rp].rank()) {
        &&& add_square_ok(acc, lv[lp])
        &&& merge_sq_ok(add_square(acc, lv[lp]), li, lv, ri, rv, lp + 1, rp)
    } else if lp == li.len() || ri[rp].rank() < li[lp].rank() {
        &&& add_square_ok(acc, rv[rp])
        &&& merge_sq_ok(add_square(acc, rv[rp]), li, lv, ri, rv, lp, rp + 1)
    } else {
        &&& lv[lp].sub_req(rv[rp])
        &&& add_square_ok(acc, lv[lp].sub_spec(rv[rp]))
        &&& merge_sq_ok(add_square(acc, lv[lp].sub_spec(rv[rp])), li, lv, ri, rv, lp + 1, rp + 1)
    }
}

/// The squared distance of the entries `(li, lv)` and `(ri, rv)`, summed
/// from `zero` over their outer join.
pub fn merge_sq_distance_from<Idx: Index, T: Copy + Add<Output = T> + Sub<Output = T> + Mul<
    Output = T,
>>(zero: T, li: &[Idx], lv: &[T], ri: &[Idx], rv: &[T]) -> (r: T)
    requires
        li@.len() <= lv@.len(),
        ri@.len() <= rv@.len(),
        arith_obeyed::<T>() && merge_sq_ok(zero, li@, lv@, ri@, rv@, 0, 0) || arith_total::<T>(),
    ensures
        arith_obeyed::<T>() ==> r == merge_sq(zero, li@, lv@, ri@, rv@, 0, 0),
{
    let mut sum = zero;
    let mut lp: usize = 0;
    let mut rp: usize = 0;
    while lp < li.len() || rp < ri.len()
        invariant
            li@.len() <= lv@.len(),
            ri@.len() <= rv@.len(),
            lp <= li@.len(),
            rp <= ri@.len(),
            arith_obeyed::<T>() && merge_sq_ok(sum, li@, lv@, ri@, rv@, lp as int, rp as int)
                || arith_total::<T>(),
            arith_obeyed::<T>() ==> merge_sq(zero, li@, lv@, ri@, rv@, 0, 0) == merge_sq(
                sum,
                li@,
                lv@,
                ri@,
                rv@,
                lp as int,
                rp as int,
            ),
        decreases li@.len() + ri@.len() - lp - rp,
    {
        let term;
        if rp >= ri.len() || (lp < li.len() && li[lp].less(&ri[rp])) {
            term = lv[lp];
            lp += 1;
        } else if lp >= li.len() || ri[rp].less(&li[lp]) {
            term = rv[rp];
            rp += 1;
        } else {
            proof {
                if arith_total::<T>() {
                    assert(lv@[lp as int].sub_req(rv@[rp as int]));
                }
            }
            term = lv[lp] - rv[rp];
            lp += 1;
            rp += 1;
        }
        proof {
            if arith_total::<T>() {
                assert(term.mul_req(term));
            }
        }
        let square = term * term;
        proof {
            if arith_total::<T>() {
                assert(sum.add_req(square));
            }
        }
        sum = sum + square;
    }
    sum
}

impl<Idx, T, S> Distance for GenericSparseVec<Idx, T, S> where
    Idx: Index,
    T: Copy + Default + Add<Output = T> + Sub<Output = T> + Mul<Output = T>,
    S: SparseStorage<Idx, T>,
 {
    type Output = T;

    /// Parallel storages, and for each zero of `T`, every difference,
    /// square and sum within the domain of `-`, `*` and `+`.
    open spec fn distance_req(&self, rhs: &Self) -> bool {
        &&& parallel(&self.storage_view())
        &&& parallel(&rhs.storage_view())
        &&& forall|d: T|
            #[trigger] is_default(d) ==> arith_obeyed::<T>() && merge_sq_ok(
                d,
                self.index_view(),
                self.value_view(),
                rhs.index_view(),
                rhs.value_view(),
                0,
                0,
            ) || arith_total::<T>()
    }

    /// The sum, from zero, of the squared differences over the outer join
    /// of the two vectors' entries, in index order.
    fn squared_distance(&self, rhs: &Self) -> (r: T)
        ensures
            exists|d: T|
                #[trigger] is_default(d) && (arith_obeyed::<T>() ==> r == merge_sq(
                    d,
                    self.index_view(),
                    self.value_view(),
                    rhs.index_view(),
                    rhs.value_view(),
                    0,
                    0,
                )),
    {
        let zero = T::default();
        proof {
            assert(is_default(zero));
        }
        merge_sq_distance_from(
            zero,
            self.storage.indices(),
            self.storage.values(),
            rhs.storage.indices(),
            rhs.storage.values(),
        )
    }
}

/// The largest rank among `si`, or `0` where it is empty.
pub open spec fn max_rank_of<Idx: Index>(si: Seq<Idx>) -> int
    decreases si.len(),
{
    if si.len() == 0 {
        0
    } else {
        let m = max_rank_of(si.drop_last());
        if m < si.last().rank() {
            si.last().rank()
        } else {
            m
        }
    }
}

/// The number of positions that the sparse-dense distance walks: the
/// dense length, or one past the largest sparse index where that is more.
pub open spec fn sparse_dense_span<Idx: Index, T>(si: Seq<Idx>, dense: Seq<T>) -> int {
    if dense.len() < max_rank_of(si) + 1 {
        max_rank_of(si) + 1
    } else {
        dense.len() as int
    }
}

/// The value of the first entry, from position `p` on, whose index has
/// rank `k`, or `zero` where there is none.
pub open spec fn find_value<Idx: Index, T>(si: Seq<Idx>, sv: Seq<T>, p: int, k: int, zero: T) -> T
    decreases si.len() - p,
{
    if p < 0 || p >= si.len() {
        zero
    } else if si[p].rank() == k {
        sv[p]
    } else {
        find_value(si, sv, p + 1, k, zero)
    }
}

/// The dense component at `k`, or `zero` past the end.
pub open spec fn dense_or<T>(dense: Seq<T>, k: int, zero: T) -> T {
    if 0 <= k < dense.len() {
        dense[k]
    } else {
        zero
    }
}

/// The difference of the sparse and the dense component at position `k`.
pub open spec fn sparse_dense_delta<Idx: Index, T: Sub<Output = T>>(
    si: Seq<Idx>,
    sv: Seq<T>,
    dense: Seq<T>,
    zero: T,
    k: int,
) -> T {
    find_value(si, sv, 0, k, zero).sub_spec(dense_or(dense, k, zero))
}

/// The sum, from `zero`, of the squared differences at positions `0..n`,
/// in order.
pub open spec fn sparse_dense_sq<Idx: Index, T: Add<Output = T> + Sub<Output = T> + Mul<Output = T>>(
    si: Seq<Idx>,
    sv: Seq<T>,
    dense: Seq<T>,
    zero: T,
    n: nat,
) -> T
    decreases n,
{
    if n == 0 {
        zero
    } else {
        add_square(
            sparse_dense_sq(si, sv, dense, zero, (n - 1) as nat),
            sparse_dense_delta(si, sv, dense, zero, n - 1),
        )
    }
}

/// Every difference, square and sum of [`sparse_dense_sq`] is defined.
pub open spec fn sparse_dense_sq_ok<Idx: Index, T: Add<Output = T> + Sub<Output = T> + Mul<
    Output = T,
>>(si: Seq<Idx>, sv: Seq<T>, dense: Seq<T>, zero: T, n: nat) -> bool
    decreases n,
{
    if n == 0 {
        true
    } else {
        &&& sparse_dense_sq_ok(si, sv, dense, zero, (n - 1) as nat)
        &&& find_value(si, sv, 0, n - 1, zero).sub_req(dense_or(dense, n - 1, zero))
        &&& add_square_ok(
            sparse_dense_sq(si, sv, dense, zero, (n - 1) as nat),
            sparse_dense_delta(si, sv, dense, zero, n - 1),
        )
    }
}

proof fn lemma_sparse_dense_sq_ok_prefix<Idx: Index, T: Add<Output = T> + Sub<Output = T> + Mul<
    Output = T,
>>(si: Seq<Idx>, sv: Seq<T>, dense: Seq<T>, zero: T, i: nat, n: nat)
    requires
        i <= n,
        sparse_dense_sq_ok(si, sv, dense, zero, n),
    ensures
        sparse_dense_sq_ok(si, sv, dense, zero, i),
    decreases n,
{
    if i < n {
        lemma_sparse_dense_sq_ok_prefix(si, sv, dense, zero, i, (n - 1) as nat);
    }
}

/// The largest index in `indices` as a `usize`, or `0` where there is none.
fn max_index<Idx: Index>(indices: &[Idx]) -> (m: usize)
    ensures
        m == max_rank_of(indices@),
{
    let mut m: usize = 0;
    let mut i: usize = 0;
    while i < indices.len()
        invariant
            i <= indices@.len(),
            m == max_rank_of(indices@.take(i as int)),
        decreases indices@.len() - i,
    {
        let k = indices[i].to_usize();
        proof {
            assert(indices@.take(i + 1).drop_last() =~= indices@.take(i as int));
        }
        if m < k {
            m = k;
        }
        i += 1;
    }
    proof {
        assert(indices@.take(i as int) =~= indices@);
    }
    m
}

/// The value of the first entry whose index is `k`, or `zero`.
fn find_value_at<Idx: Index, T: Copy>(indices: &[Idx], values: &[T], k: usize, zero: T) -> (v: T)
    requires
        indices@.len() <= values@.len(),
    ensures
        v == find_value(indices@, values@, 0, k as int, zero),
{
    let mut p: usize = 0;
    while p < indices.len() && indices[p].to_usize() != k
        invariant
            indices@.len() <= values@.len(),
            p <= indices@.len(),
            find_value(indices@, values@, 0, k as int, zero) == find_value(
                indices@,
                values@,
                p as int,
                k as int,
                zero,
            ),
        decreases indices@.len() - p,
    {
        p += 1;
    }
    if p < indices.len() {
        values[p]
    } else {
        zero
    }
}

/// The squared distance of a sparse vector's entries and a dense slice:
/// the sum, from `zero`, over every position up to the dense length or
/// past the largest sparse index, of the squared difference of the
/// sparse value there (first match, or `zero`) and the dense component
/// there (or `zero`).
pub fn sparse_dense_sq_distance_from<Idx: Index, T: Copy + Add<Output = T> + Sub<Output = T> + Mul<
    Output = T,
>>(zero: T, indices: &[Idx], values: &[T], dense: &[T]) -> (r: T)
    requires
        indices@.len() <= values@.len(),
        max_rank_of(indices@) < usize::MAX,
        arith_obeyed::<T>() && sparse_dense_sq_ok(
            indices@,
            values@,
            dense@,
            zero,
            sparse_dense_span(indices@, dense@) as nat,
        ) || arith_total::<T>(),
    ensures
        arith_obeyed::<T>() ==> r == sparse_dense_sq(
            indices@,
            values@,
            dense@,
            zero,
            sparse_dense_span(indices@, dense@) as nat,
        ),
{
    let max_self_idx = max_index(indices);
    let capacity = if dense.len() < max_self_idx + 1 {
        max_self_idx + 1
    } else {
        dense.len()
    };
    let mut sum = zero;
    let mut idx: usize = 0;
    while idx < capacity
        invariant
            indices@.len() <= values@.len(),
            capacity == sparse_dense_span(indices@, dense@),
            idx <= capacity,
            arith_obeyed::<T>() && sparse_dense_sq_ok(
                indices@,
                values@,
                dense@,
                zero,
                capacity as nat,
            ) || arith_total::<T>(),
            arith_obeyed::<T>() ==> sum == sparse_dense_sq(
                indices@,
                values@,
                dense@,
                zero,
                idx as nat,
            ),
        decreases capacity - idx,
    {
        proof {
            if arith_obeyed::<T>() && sparse_dense_sq_ok(
                indices@,
                values@,
                dense@,
                zero,
                capacity as nat,
            ) {
                lemma_sparse_dense_sq_ok_prefix(
                    indices@,
                    values@,
                    dense@,
                    zero,
                    (idx + 1) as nat,
                    capacity as nat,
                );
            }
        }
        let l_val = find_value_at(indices, values, idx, zero);
        let r_val = if idx < dense.len() {
            dense[idx]
        } else {
            zero
        };
        proof {
            if arith_total::<T>() {
                assert(l_val.sub_req(r_val));
            }
        }
        let delta = l_val - r_val;
        proof {
            if arith_total::<T>() {
                assert(delta.mul_req(delta));
            }
        }
        let square = delta * delta;
        proof {
            if arith_total::<T>() {
                assert(sum.add_req(square));
            }
        }
        sum = sum + square;
        idx += 1;
    }
    sum
}

impl<Idx, T, S, S2> Distance<GenericDenseVec<T, S2>> for GenericSparseVec<Idx, T, S> where
    Idx: Index,
    T: Copy + Default + Add<Output = T> + Sub<Output = T> + Mul<Output = T>,
    S: SparseStorage<Idx, T>,
    S2: DenseStorage<T>,
 {
    type Output = T;

    /// Parallel storage, a largest index below `usize::MAX`, and for each
    /// zero of `T`, every difference, square and sum within the domain of
    /// `-`, `*` and `+`.
    open spec fn distance_req(&self, rhs: &GenericDenseVec<T, S2>) -> bool {
        &&& parallel(&self.storage_view())
        &&& max_rank_of(self.index_view()) < usize::MAX
        &&& forall|d: T|
            #[trigger] is_default(d) ==> arith_obeyed::<T>() && sparse_dense_sq_ok(
                self.index_view(),
                self.value_view(),
                rhs.view_values(),
                d,
                sparse_dense_span(self.index_view(), rhs.view_values()) as nat,
            ) || arith_total::<T>()
    }

    /// The sum, from zero, of the squared differences at every position
    /// of the dense vector and up to the largest sparse index.
    fn squared_distance(&self, rhs: &GenericDenseVec<T, S2>) -> (r: T)
        ensures
            exists|d: T|
                #[trigger] is_default(d) && (arith_obeyed::<T>() ==> r == sparse_dense_sq(
                    self.index_view(),
                    self.value_view(),
                    rhs.view_values(),
                    d,
                    sparse_dense_span(self.index_view(), rhs.view_values()) as nat,
                )),
    {
        let zero = T::default();
        proof {
            assert(is_default(zero));
        }
        sparse_dense_sq_distance_from(
            zero,
            self.storage.indices(),
            self.storage.values(),
            DenseVector::values(rhs),
        )
    }
}

} // verus!

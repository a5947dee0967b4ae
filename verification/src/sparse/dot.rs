//! Dot products of sparse vectors.

use core::ops::{Add, Mul};

use vstd::prelude::*;
use vstd::std_specs::ops::{AddSpec, MulSpec};

use crate::scalar::{add_mul_obeyed, add_mul_total, is_default};
use crate::sparse::common::{galloping_seek, lower_bound, sorted};
use crate::sparse::storage::{parallel, SparseStorage};
use crate::sparse::GenericSparseVec;
use crate::common::{dot_mixed, mixed_dot, mixed_dot_domain};
use crate::dense::storage::DenseStorage;
use crate::dense::{DenseVector, GenericDenseVec};
use crate::{Dot, Index};

verus! {

/// The sum, from `acc`, of the products of the values that share an index,
/// walking `(li, lv)` from `lp` and `(ri, rv)` from `rp` in step: the side
/// with the smaller index moves on, and equal indices contribute
/// `lv * rv` and both move on.
pub open spec fn merge_dot<Idx: Index, T: Add<Output = T> + Mul<Output = T>>(
    acc: T,
    li: Seq<Idx>,
    lv: Seq<T>,
    ri: Seq<Idx>,
    rv: Seq<T>,
    lp: int,
    rp: int,
) -> T
    decreases (li.len() - lp) + (ri.len() - rp),
{
    if lp < 0 || rp < 0 || lp >= li.len() || rp >= ri.len() {
        acc
    } else if li[lp].rank() < ri[rp].rank() {
        merge_dot(acc, li, lv, ri, rv, lp + 1, rp)
    } else if ri[rp].rank() < li[lp].rank() {
        merge_dot(acc, li, lv, ri, rv, lp, rp + 1)
    } else {
        merge_dot(acc.add_spec(lv[lp].mul_spec(rv[rp])), li, lv, ri, rv, lp + 1, rp + 1)
    }
}

/// Every product and partial sum of [`merge_dot`] is within the domain of
/// `*` and `+` (for integers: does not overflow).
pub open spec fn merge_dot_ok<Idx: Index, T: Add<Output = T> + Mul<Output = T>>(
    acc: T,
    li: Seq<Idx>,
    lv: Seq<T>,
    ri: Seq<Idx>,
    rv: Seq<T>,
    lp: int,
    rp: int,
) -> bool
    decreases (li.len() - lp) + (ri.len() - rp),
{
    if lp < 0 || rp < 0 || lp >= li.len() || rp >= ri.len() {
        true
    } else if li[lp].rank() < ri[rp].rank() {
        merge_dot_ok(acc, li, lv, ri, rv, lp + 1, rp)
    } else if ri[rp].rank() < li[lp].rank() {
        merge_dot_ok(acc, li, lv, ri, rv, lp, rp + 1)
    } else {
        &&& lv[lp].mul_req(rv[rp])
        &&& acc.add_req(lv[lp].mul_spec(rv[rp]))
        &&& merge_dot_ok(acc.add_spec(lv[lp].mul_spec(rv[rp])), li, lv, ri, rv, lp + 1, rp + 1)
    }
}

/// The dot product of the entries `(li, lv)` and `(ri, rv)`, summed from
/// `zero` by a merge of the two sorted index lists.
pub fn merge_dot_from<Idx: Index, T: Copy + Add<Output = T> + Mul<Output = T>>(
    zero: T,
    li: &[Idx],
    lv: &[T],
    ri: &[Idx],
    rv: &[T],
) -> (r: T)
    requires
        li@.len() <= lv@.len(),
        ri@.len() <= rv@.len(),
        add_mul_obeyed::<T>() && merge_dot_ok(zero, li@, lv@, ri@, rv@, 0, 0)
            || add_mul_total::<T>(),
    ensures
        add_mul_obeyed::<T>() ==> r == merge_dot(zero, li@, lv@, ri@, rv@, 0, 0),
{
    let mut result = zero;
    let mut left_pos: usize = 0;
    let mut right_pos: usize = 0;
    while left_pos < li.len() && right_pos < ri.len()
        invariant
            li@.len() <= lv@.len(),
            ri@.len() <= rv@.len(),
            left_pos <= li@.len(),
            right_pos <= ri@.len(),
            add_mul_obeyed::<T>() && merge_dot_ok(
                result,
                li@,
                lv@,
                ri@,
                rv@,
                left_pos as int,
                right_pos as int,
            ) || add_mul_total::<T>(),
            add_mul_obeyed::<T>() ==> merge_dot(zero, li@, lv@, ri@, rv@, 0, 0) == merge_dot(
                result,
                li@,
                lv@,
                ri@,
                rv@,
                left_pos as int,
                right_pos as int,
            ),
        decreases li@.len() + ri@.len() - left_pos - right_pos,
    {
        if li[left_pos].less(&ri[right_pos]) {
            left_pos += 1;
        } else if ri[right_pos].less(&li[left_pos]) {
            right_pos += 1;
        } else {
            proof {
                if add_mul_total::<T>() {
                    assert(lv@[left_pos as int].mul_req(rv@[right_pos as int]));
                }
            }
            let product = lv[left_pos] * rv[right_pos];
            proof {
                if add_mul_total::<T>() {
                    assert(result.add_req(product) && result.mul_req(product));
                }
            }
            result = result + product;
            left_pos += 1;
            right_pos += 1;
        }
    }
    result
}

/// The lower bound lies between `from` and the end of `s`.
proof fn lemma_lower_bound_range<Idx: Index>(s: Seq<Idx>, from: int, target: Idx)
    requires
        0 <= from <= s.len(),
    ensures
        from <= lower_bound(s, from, target) <= s.len(),
    decreases s.len() - from,
{
    if from < s.len() && s[from].rank() < target.rank() {
        lemma_lower_bound_range(s, from + 1, target);
    }
}

/// From `(lp, rp)`, the merge skips the right entries below `li[lp]`: it
/// goes on from just past the lower bound of `li[lp]` among the right
/// indices, having added `lv[lp]` times the value there if the index
/// matches, and from the lower bound itself otherwise.
proof fn lemma_merge_dot_seek_left<Idx: Index, T: Add<Output = T> + Mul<Output = T>>(
    acc: T,
    li: Seq<Idx>,
    lv: Seq<T>,
    ri: Seq<Idx>,
    rv: Seq<T>,
    lp: int,
    rp: int,
)
    requires
        0 <= lp < li.len(),
        0 <= rp <= ri.len(),
    ensures
        ({
            let p = lower_bound(ri, rp, li[lp]);
            if p < ri.len() && ri[p].rank() == li[lp].rank() {
                let next = acc.add_spec(lv[lp].mul_spec(rv[p]));
                &&& merge_dot(acc, li, lv, ri, rv, lp, rp) == merge_dot(next, li, lv, ri, rv, lp + 1, p + 1)
                &&& merge_dot_ok(acc, li, lv, ri, rv, lp, rp) == (lv[lp].mul_req(rv[p]) && acc.add_req(
                    lv[lp].mul_spec(rv[p]),
                ) && merge_dot_ok(next, li, lv, ri, rv, lp + 1, p + 1))
            } else {
                &&& merge_dot(acc, li, lv, ri, rv, lp, rp) == merge_dot(acc, li, lv, ri, rv, lp + 1, p)
                &&& merge_dot_ok(acc, li, lv, ri, rv, lp, rp) == merge_dot_ok(acc, li, lv, ri, rv, lp + 1, p)
            }
        }),
    decreases ri.len() - rp,
{
    if rp < ri.len() && ri[rp].rank() < li[lp].rank() {
        lemma_merge_dot_seek_left(acc, li, lv, ri, rv, lp, rp + 1);
    }
}

/// The mirror of [`lemma_merge_dot_seek_left`]: from `(lp, rp)`, the merge
/// skips the left entries below `ri[rp]`.
proof fn lemma_merge_dot_seek_right<Idx: Index, T: Add<Output = T> + Mul<Output = T>>(
    acc: T,
    li: Seq<Idx>,
    lv: Seq<T>,
    ri: Seq<Idx>,
    rv: Seq<T>,
    lp: int,
    rp: int,
)
    requires
        0 <= lp <= li.len(),
        0 <= rp < ri.len(),
    ensures
        ({
            let p = lower_bound(li, lp, ri[rp]);
            if p < li.len() && li[p].rank() == ri[rp].rank() {
                let next = acc.add_spec(lv[p].mul_spec(rv[rp]));
                &&& merge_dot(acc, li, lv, ri, rv, lp, rp) == merge_dot(next, li, lv, ri, rv, p + 1, rp + 1)
                &&& merge_dot_ok(acc, li, lv, ri, rv, lp, rp) == (lv[p].mul_req(rv[rp]) && acc.add_req(
                    lv[p].mul_spec(rv[rp]),
                ) && merge_dot_ok(next, li, lv, ri, rv, p + 1, rp + 1))
            } else {
                &&& merge_dot(acc, li, lv, ri, rv, lp, rp) == merge_dot(acc, li, lv, ri, rv, p, rp + 1)
                &&& merge_dot_ok(acc, li, lv, ri, rv, lp, rp) == merge_dot_ok(acc, li, lv, ri, rv, p, rp + 1)
            }
        }),
    decreases li.len() - lp,
{
    if lp < li.len() && li[lp].rank() < ri[rp].rank() {
        lemma_merge_dot_seek_right(acc, li, lv, ri, rv, lp + 1, rp);
    }
}

/// The dot product of the entries `(a_i, a_v)` and `(b_i, b_v)`, summed
/// from `zero`: the shorter side is walked in order and each of its
/// indices is sought in the longer side by galloping. The sum is the one
/// the merge of the two sides gives.
pub fn dot_gallop_from<Idx: Index, T: Copy + Add<Output = T> + Mul<Output = T>>(
    zero: T,
    a_i: &[Idx],
    a_v: &[T],
    b_i: &[Idx],
    b_v: &[T],
) -> (r: T)
    requires
        a_i@.len() <= a_v@.len(),
        b_i@.len() <= b_v@.len(),
        sorted(a_i@),
        sorted(b_i@),
        add_mul_obeyed::<T>() && merge_dot_ok(zero, a_i@, a_v@, b_i@, b_v@, 0, 0)
            || add_mul_total::<T>(),
    ensures
        add_mul_obeyed::<T>() ==> r == merge_dot(zero, a_i@, a_v@, b_i@, b_v@, 0, 0),
{
    let mut sum = zero;
    let mut cursor: usize = 0;
    let mut i: usize = 0;
    if a_i.len() <= b_i.len() {
        while i < a_i.len()
            invariant
                a_i@.len() <= a_v@.len(),
                b_i@.len() <= b_v@.len(),
                sorted(b_i@),
                i <= a_i@.len(),
                cursor <= b_i@.len(),
                add_mul_obeyed::<T>() && merge_dot_ok(sum, a_i@, a_v@, b_i@, b_v@, i as int, cursor as int)
                    || add_mul_total::<T>(),
                add_mul_obeyed::<T>() ==> merge_dot(zero, a_i@, a_v@, b_i@, b_v@, 0, 0) == merge_dot(
                    sum,
                    a_i@,
                    a_v@,
                    b_i@,
                    b_v@,
                    i as int,
                    cursor as int,
                ),
            decreases a_i@.len() - i,
        {
            proof {
                lemma_merge_dot_seek_left(sum, a_i@, a_v@, b_i@, b_v@, i as int, cursor as int);
                lemma_lower_bound_range(b_i@, cursor as int, a_i@[i as int]);
            }
            match galloping_seek(b_i, &mut cursor, a_i[i]) {
                Some(j) => {
                    proof {
                        if add_mul_total::<T>() {
                            assert(a_v@[i as int].mul_req(b_v@[j as int]));
                        }
                    }
                    let product = a_v[i] * b_v[j];
                    proof {
                        if add_mul_total::<T>() {
                            assert(sum.add_req(product));
                        }
                    }
                    sum = sum + product;
                },
                None => {},
            }
            i += 1;
        }
    } else {
        while i < b_i.len()
            invariant
                a_i@.len() <= a_v@.len(),
                b_i@.len() <= b_v@.len(),
                sorted(a_i@),
                i <= b_i@.len(),
                cursor <= a_i@.len(),
                add_mul_obeyed::<T>() && merge_dot_ok(sum, a_i@, a_v@, b_i@, b_v@, cursor as int, i as int)
                    || add_mul_total::<T>(),
                add_mul_obeyed::<T>() ==> merge_dot(zero, a_i@, a_v@, b_i@, b_v@, 0, 0) == merge_dot(
                    sum,
                    a_i@,
                    a_v@,
                    b_i@,
                    b_v@,
                    cursor as int,
                    i as int,
                ),
            decreases b_i@.len() - i,
        {
            proof {
                lemma_merge_dot_seek_right(sum, a_i@, a_v@, b_i@, b_v@, cursor as int, i as int);
                lemma_lower_bound_range(a_i@, cursor as int, b_i@[i as int]);
            }
            match galloping_seek(a_i, &mut cursor, b_i[i]) {
                Some(j) => {
                    proof {
                        if add_mul_total::<T>() {
                            assert(a_v@[j as int].mul_req(b_v@[i as int]));
                        }
                    }
                    let product = a_v[j] * b_v[i];
                    proof {
                        if add_mul_total::<T>() {
                            assert(sum.add_req(product));
                        }
                    }
                    sum = sum + product;
                },
                None => {},
            }
            i += 1;
        }
    }
    sum
}

/// The dot product of two sparse vectors given as index/value slices,
/// computed by galloping: the sum, from zero, of the products of the
/// values that share an index, in order of index, as the merge of the
/// two sides gives it.
pub fn dot_gallop<Idx: Index, T: Copy + Default + Add<Output = T> + Mul<Output = T>>(
    a_i: &[Idx],
    a_v: &[T],
    b_i: &[Idx],
    b_v: &[T],
) -> (r: T)
    requires
        a_i@.len() <= a_v@.len(),
        b_i@.len() <= b_v@.len(),
        sorted(a_i@),
        sorted(b_i@),
        forall|d: T|
            #[trigger] is_default(d) ==> add_mul_obeyed::<T>() && merge_dot_ok(d, a_i@, a_v@, b_i@, b_v@, 0, 0)
                || add_mul_total::<T>(),
    ensures
        exists|d: T|
            #[trigger] is_default(d) && (add_mul_obeyed::<T>() ==> r == merge_dot(d, a_i@, a_v@, b_i@, b_v@, 0, 0)),
{
    let zero = T::default();
    proof {
        assert(is_default(zero));
    }
    dot_gallop_from(zero, a_i, a_v, b_i, b_v)
}

impl<Idx, T, S> Dot for GenericSparseVec<Idx, T, S> where
    Idx: Index,
    T: Copy + Default + Add<Output = T> + Mul<Output = T>,
    S: SparseStorage<Idx, T>,
 {
    type Output = T;

    /// Parallel storages, and for each zero of `T`, sums and products in
    /// the domain of `+` and `*`.
    open spec fn dot_req(&self, rhs: &Self) -> bool {
        &&& parallel(&self.storage_view())
        &&& parallel(&rhs.storage_view())
        &&& forall|d: T|
            #[trigger] is_default(d) ==> add_mul_obeyed::<T>() && merge_dot_ok(
                d,
                self.index_view(),
                self.value_view(),
                rhs.index_view(),
                rhs.value_view(),
                0,
                0,
            ) || add_mul_total::<T>()
    }

    /// The sum, from zero, of the products of the values that share an
    /// index, in order of index.
    fn dot(&self, rhs: &Self) -> (r: T)
        ensures
            exists|d: T|
                #[trigger] is_default(d) && (add_mul_obeyed::<T>() ==> r
                    == merge_dot(
                    d,
                    self.index_view(),
                    self.value_view(),
                    rhs.index_view(),
                    rhs.value_view(),
                    0,
                    0,
                )),
    {
        let zero = T::default();
        proof {
            assert(is_default(zero));
        }
        merge_dot_from(
            zero,
            self.storage.indices(),
            self.storage.values(),
            rhs.storage.indices(),
            rhs.storage.values(),
        )
    }
}

impl<Idx, T, S, S2> Dot<GenericDenseVec<T, S2>> for GenericSparseVec<Idx, T, S> where
    Idx: Index,
    T: Copy + Default + Add<Output = T> + Mul<Output = T>,
    S: SparseStorage<Idx, T>,
    S2: DenseStorage<T>,
 {
    type Output = T;

    /// The storage is parallel, the dense vector no longer than the
    /// largest index, and for each zero of `T` the sums and products are
    /// defined.
    open spec fn dot_req(&self, rhs: &GenericDenseVec<T, S2>) -> bool {
        forall|d: T|
            #[trigger] is_default(d) ==> mixed_dot_domain(
                d,
                rhs.view_values(),
                self.index_view(),
                self.value_view(),
            )
    }

    /// The sum, from zero, of the products of the sparse values with the
    /// dense components at their indices, in order.
    fn dot(&self, rhs: &GenericDenseVec<T, S2>) -> (r: T)
        ensures
            exists|d: T|
                #[trigger] is_default(d) && (add_mul_obeyed::<T>() ==> r == mixed_dot(
                    d,
                    rhs.view_values(),
                    self.index_view(),
                    self.value_view(),
                    0,
                    0,
                )),
    {
        let zero = T::default();
        proof {
            assert(is_default(zero));
        }
        dot_mixed(zero, DenseVector::values(rhs), self.storage.indices(), self.storage.values())
    }
}

} // verus!

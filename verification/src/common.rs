//! The dot product of a dense slice with a sparse vector's entries.

use core::ops::{Add, Mul};

use vstd::prelude::*;
use vstd::std_specs::ops::{AddSpec, MulSpec};

use crate::scalar::{add_mul_obeyed, add_mul_total};
use crate::Index;

verus! {

/// The sum, from `acc`, of `sv[sp] * dense[dp]` over the positions `dp` of
/// `dense` from `dp` on at which the next sparse entry, from `sp` on, has
/// index `dp`; that entry is then consumed.
pub open spec fn mixed_dot<Idx: Index, T: Add<Output = T> + Mul<Output = T>>(
    acc: T,
    dense: Seq<T>,
    si: Seq<Idx>,
    sv: Seq<T>,
    dp: int,
    sp: int,
) -> T
    decreases dense.len() - dp,
{
    if dp < 0 || sp < 0 || dp >= dense.len() {
        acc
    } else if sp < si.len() && si[sp].rank() == dp {
        mixed_dot(acc.add_spec(sv[sp].mul_spec(dense[dp])), dense, si, sv, dp + 1, sp + 1)
    } else {
        mixed_dot(acc, dense, si, sv, dp + 1, sp)
    }
}

/// Every product and sum of [`mixed_dot`] is defined.
pub open spec fn mixed_dot_ok<Idx: Index, T: Add<Output = T> + Mul<Output = T>>(
    acc: T,
    dense: Seq<T>,
    si: Seq<Idx>,
    sv: Seq<T>,
    dp: int,
    sp: int,
) -> bool
    decreases dense.len() - dp,
{
    if dp < 0 || sp < 0 || dp >= dense.len() {
        true
    } else if sp < si.len() && si[sp].rank() == dp {
        &&& sv[sp].mul_req(dense[dp])
        &&& acc.add_req(sv[sp].mul_spec(dense[dp]))
        &&& mixed_dot_ok(acc.add_spec(sv[sp].mul_spec(dense[dp])), dense, si, sv, dp + 1, sp + 1)
    } else {
        mixed_dot_ok(acc, dense, si, sv, dp + 1, sp)
    }
}

/// The inputs on which [`dot_mixed`] sums from `zero`.
pub open spec fn mixed_dot_domain<Idx: Index, T: Add<Output = T> + Mul<Output = T>>(
    zero: T,
    dense: Seq<T>,
    si: Seq<Idx>,
    sv: Seq<T>,
) -> bool {
    &&& si.len() <= sv.len()
    &&& dense.len() <= Idx::max_rank()
    &&& add_mul_obeyed::<T>() && mixed_dot_ok(zero, dense, si, sv, 0, 0) || add_mul_total::<T>()
}

/// Compute the dot product of a dense slice with a sparse vector's
/// index/value slices, summed from `zero`.
pub fn dot_mixed<T, Idx>(zero: T, dense: &[T], sparse_i: &[Idx], sparse_v: &[T]) -> (r: T)
    where
        T: Copy + Add<Output = T> + Mul<Output = T>,
        Idx: Index,
    requires
        mixed_dot_domain(zero, dense@, sparse_i@, sparse_v@),
    ensures
        add_mul_obeyed::<T>() ==> r == mixed_dot(zero, dense@, sparse_i@, sparse_v@, 0, 0),
{
    let mut sum = zero;
    let mut sparse_pos: usize = 0;
    let mut dense_pos = Idx::zero();
    let mut i: usize = 0;
    while i < dense.len()
        invariant
            sparse_i@.len() <= sparse_v@.len(),
            dense@.len() <= Idx::max_rank(),
            i <= dense@.len(),
            dense_pos.rank() == i,
            sparse_pos <= sparse_i@.len(),
            add_mul_obeyed::<T>() && mixed_dot_ok(
                sum,
                dense@,
                sparse_i@,
                sparse_v@,
                i as int,
                sparse_pos as int,
            ) || add_mul_total::<T>(),
            add_mul_obeyed::<T>() ==> mixed_dot(zero, dense@, sparse_i@, sparse_v@, 0, 0)
                == mixed_dot(sum, dense@, sparse_i@, sparse_v@, i as int, sparse_pos as int),
        decreases dense@.len() - i,
    {
        let dense_val = dense[i];
        if sparse_pos < sparse_i.len() && sparse_i[sparse_pos].same(&dense_pos) {
            proof {
                if add_mul_total::<T>() {
                    assert(sparse_v@[sparse_pos as int].mul_req(dense_val));
                }
            }
            let product = sparse_v[sparse_pos] * dense_val;
            proof {
                if add_mul_total::<T>() {
                    assert(sum.add_req(product));
                }
            }
            sum = sum + product;
            sparse_pos += 1;
        }
        dense_pos = dense_pos.succ();
        i += 1;
    }
    sum
}

} // verus!

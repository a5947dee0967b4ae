//! Sparse vectors compute what their dense counterparts compute.
//!
//! A sparse vector stands for the dense vector that holds each stored
//! value at its index and zero elsewhere. These laws state that dot
//! products and squared distances come out the same either way.

use core::ops::{Add, Mul, Sub};

use vstd::prelude::*;
use vstd::std_specs::cmp::PartialEqSpec;
use vstd::std_specs::ops::{AddSpec, MulSpec, SubSpec};

use crate::common::mixed_dot;
use crate::dense::distance::{dense_sparse_sq, dense_sq_dist};
use crate::dense::dot::{dense_dot, sparse_fold_dot};
use crate::scalar::add_square;
use crate::sparse::distance::{
    dense_or, find_value, max_rank_of, merge_sq, sparse_dense_delta, sparse_dense_span, sparse_dense_sq,
};
use crate::sparse::dot::merge_dot;
use crate::scalar::{is_default, zero_answer};
use crate::sparse::join::{
    entry_keys, lemma_outer_entries_sorted, lemma_outer_join_sorted_union, outer_entries, takes_left,
    takes_right,
};
use crate::dense::ops::{added, subtracted};
use crate::sparse::ops::{lemma_nonzero_prefix_sorted, merged, AddEntries, EntryMerge, SubEntries};
use crate::sparse::storage::{keys, nonzero_pairs, nonzero_prefix, vals, zero_answers};
use crate::sparse::util::strictly_increasing;
use crate::Index;

verus! {

/// The dense form of the entries `(si, sv)` over positions `0..n`: the
/// value of the entry at each position, `zero` where there is none.
pub open spec fn densify<Idx: Index, T>(si: Seq<Idx>, sv: Seq<T>, n: nat, zero: T) -> Seq<T> {
    Seq::new(n, |p: int| find_value(si, sv, 0, p, zero))
}

/// `dense` padded with `zero` up to length `n`.
pub open spec fn padded<T>(dense: Seq<T>, n: nat, zero: T) -> Seq<T> {
    Seq::new(n, |p: int| dense_or(dense, p, zero))
}

/// Every index of `si` is below `n`.
pub open spec fn indices_below<Idx: Index>(si: Seq<Idx>, n: int) -> bool {
    forall|q: int| 0 <= q < si.len() ==> #[trigger] si[q].rank() < n
}

/// The entries of `si` before `lp` have indices below `p`, the others
/// not.
pub open spec fn splits_at<Idx: Index>(si: Seq<Idx>, lp: int, p: int) -> bool {
    &&& 0 <= lp <= si.len()
    &&& forall|q: int| 0 <= q < lp ==> #[trigger] si[q].rank() < p
    &&& forall|q: int| lp <= q < si.len() ==> #[trigger] si[q].rank() >= p
}

/// Where `si` splits at `lp` for position `p`, the dense value at `p` is
/// the value at `lp` if that entry has index `p`, else `zero`.
proof fn lemma_find_value_at_split<Idx: Index, T>(
    si: Seq<Idx>,
    sv: Seq<T>,
    lp: int,
    p: int,
    zero: T,
)
    requires
        strictly_increasing(si),
        splits_at(si, lp, p),
    ensures
        find_value(si, sv, 0, p, zero) == if lp < si.len() && si[lp].rank() == p {
            sv[lp]
        } else {
            zero
        },
{
    lemma_find_value_skip(si, sv, 0, lp, p, zero);
    if !(lp < si.len() && si[lp].rank() == p) {
        lemma_find_value_none(si, sv, lp, p, zero);
    }
}

/// Entries whose index is not `p` are passed over.
proof fn lemma_find_value_skip<Idx: Index, T>(
    si: Seq<Idx>,
    sv: Seq<T>,
    from: int,
    to: int,
    p: int,
    zero: T,
)
    requires
        0 <= from <= to <= si.len(),
        forall|q: int| from <= q < to ==> #[trigger] si[q].rank() != p,
    ensures
        find_value(si, sv, from, p, zero) == find_value(si, sv, to, p, zero),
    decreases to - from,
{
    if from < to {
        lemma_find_value_skip(si, sv, from + 1, to, p, zero);
    }
}

/// Past the last entry that could have index `p`, nothing is found.
proof fn lemma_find_value_none<Idx: Index, T>(si: Seq<Idx>, sv: Seq<T>, from: int, p: int, zero: T)
    requires
        0 <= from <= si.len(),
        forall|q: int| from <= q < si.len() ==> #[trigger] si[q].rank() != p,
    ensures
        find_value(si, sv, from, p, zero) == zero,
    decreases si.len() - from,
{
    if from < si.len() {
        lemma_find_value_none(si, sv, from + 1, p, zero);
    }
}

/// The split for position `p` moves past the entry at `lp` exactly where
/// that entry has index `p`.
proof fn lemma_split_advances<Idx: Index>(si: Seq<Idx>, lp: int, p: int)
    requires
        strictly_increasing(si),
        splits_at(si, lp, p),
    ensures
        lp < si.len() && si[lp].rank() == p ==> splits_at(si, lp + 1, p + 1),
        !(lp < si.len() && si[lp].rank() == p) ==> splits_at(si, lp, p + 1),
{
    if lp < si.len() && si[lp].rank() == p {
        assert forall|q: int| lp + 1 <= q < si.len() implies #[trigger] si[q].rank() >= p + 1 by {
            assert(si[lp].rank() < si[q].rank());
        }
    }
}

/// The sum, from `acc`, of `a[i] * b[i]` for `i` in `p..n`, in order.
pub open spec fn dense_dot_from_pos(acc: i64, a: Seq<i64>, b: Seq<i64>, p: int, n: int) -> i64
    decreases n - p,
{
    if p < 0 || p >= n {
        acc
    } else {
        dense_dot_from_pos((acc + (a[p] * b[p]) as i64) as i64, a, b, p + 1, n)
    }
}

/// Summing the first `k` products and then the rest is summing them all.
proof fn lemma_dense_dot_split(acc: i64, a: Seq<i64>, b: Seq<i64>, k: nat, n: nat)
    requires
        k <= n,
    ensures
        dense_dot_from_pos(dense_dot(acc, a, b, k), a, b, k as int, n as int) == dense_dot(
            acc,
            a,
            b,
            n,
        ),
    decreases n - k,
{
    if k < n {
        lemma_dense_dot_split(acc, a, b, k + 1, n);
    }
}

/// From a position `p` and the splits of both sides at `p`, merging the
/// rest of the sparse entries gives what summing the rest of their dense
/// forms gives.
proof fn lemma_merge_dot_walk<Idx: Index>(
    acc: i64,
    li: Seq<Idx>,
    lv: Seq<i64>,
    ri: Seq<Idx>,
    rv: Seq<i64>,
    lp: int,
    rp: int,
    p: int,
    n: nat,
)
    requires
        strictly_increasing(li),
        strictly_increasing(ri),
        indices_below(li, n as int),
        indices_below(ri, n as int),
        0 <= p <= n,
        splits_at(li, lp, p),
        splits_at(ri, rp, p),
    ensures
        merge_dot(acc, li, lv, ri, rv, lp, rp) == dense_dot_from_pos(
            acc,
            densify(li, lv, n, 0),
            densify(ri, rv, n, 0),
            p,
            n as int,
        ),
    decreases n - p,
{
    let a = densify(li, lv, n, 0);
    let b = densify(ri, rv, n, 0);
    if p == n {
        if lp < li.len() {
            assert(li[lp].rank() < n);
        }
        if rp < ri.len() {
            assert(ri[rp].rank() < n);
        }
    } else {
        lemma_find_value_at_split(li, lv, lp, p, 0);
        lemma_find_value_at_split(ri, rv, rp, p, 0);
        lemma_split_advances(li, lp, p);
        lemma_split_advances(ri, rp, p);
        let l_here = lp < li.len() && li[lp].rank() == p;
        let r_here = rp < ri.len() && ri[rp].rank() == p;
        let nlp = if l_here { lp + 1 } else { lp };
        let nrp = if r_here { rp + 1 } else { rp };
        let next = (acc + (a[p] * b[p]) as i64) as i64;
        lemma_merge_dot_walk(next, li, lv, ri, rv, nlp, nrp, p + 1, n);
        if l_here && r_here {
            Idx::lemma_rank(li[lp], ri[rp]);
        } else {
            assert(a[p] == 0 || b[p] == 0);
            assert(a[p] * b[p] == 0) by (nonlinear_arith)
                requires
                    a[p] == 0 || b[p] == 0,
            ;
            assert(next == acc);
            if l_here && rp < ri.len() {
                assert(ri[rp].rank() > p);
            }
            if r_here && lp < li.len() {
                assert(li[lp].rank() > p);
            }
        }
    }
}

/// The dot product of two sparse vectors of `i64` values is that of their
/// dense forms over any length that covers their indices.
pub proof fn lemma_sparse_dot_parity<Idx: Index>(
    li: Seq<Idx>,
    lv: Seq<i64>,
    ri: Seq<Idx>,
    rv: Seq<i64>,
    n: nat,
)
    requires
        strictly_increasing(li),
        strictly_increasing(ri),
        indices_below(li, n as int),
        indices_below(ri, n as int),
    ensures
        merge_dot(0i64, li, lv, ri, rv, 0, 0) == dense_dot(
            0i64,
            densify(li, lv, n, 0),
            densify(ri, rv, n, 0),
            n,
        ),
{
    assert forall|q: int| 0 <= q < li.len() implies #[trigger] li[q].rank() >= 0 by {
        Idx::lemma_rank(li[q], li[q]);
    }
    assert forall|q: int| 0 <= q < ri.len() implies #[trigger] ri[q].rank() >= 0 by {
        Idx::lemma_rank(ri[q], ri[q]);
    }
    lemma_merge_dot_walk(0i64, li, lv, ri, rv, 0, 0, 0, n);
    lemma_dense_dot_split(0i64, densify(li, lv, n, 0), densify(ri, rv, n, 0), 0, n);
}

/// The sum, from `acc`, of `(a[i] - b[i])²` for `i` in `p..n`, in order.
pub open spec fn dense_sq_from_pos<T: Add<Output = T> + Sub<Output = T> + Mul<Output = T>>(
    acc: T,
    a: Seq<T>,
    b: Seq<T>,
    p: int,
    n: int,
) -> T
    decreases n - p,
{
    if p < 0 || p >= n {
        acc
    } else {
        dense_sq_from_pos(add_square(acc, a[p].sub_spec(b[p])), a, b, p + 1, n)
    }
}

/// Summing the first `k` squared differences and then the rest is
/// summing them all.
proof fn lemma_dense_sq_split<T: Add<Output = T> + Sub<Output = T> + Mul<Output = T>>(
    acc: T,
    a: Seq<T>,
    b: Seq<T>,
    k: nat,
    n: nat,
)
    requires
        k <= n,
    ensures
        dense_sq_from_pos(dense_sq_dist(acc, a, b, k), a, b, k as int, n as int) == dense_sq_dist(
            acc,
            a,
            b,
            n,
        ),
    decreases n - k,
{
    if k < n {
        lemma_dense_sq_split(acc, a, b, k + 1, n);
    }
}

/// In `i64`, squaring `x - 0` squares `x`, squaring `0 - x` squares `x`,
/// and adding the square of `0 - 0` adds nothing.
proof fn lemma_i64_zero_sides(acc: i64, x: i64)
    ensures
        add_square(acc, x.sub_spec(0i64)) == add_square(acc, x),
        add_square(acc, 0i64.sub_spec(x)) == add_square(acc, x),
        add_square(acc, 0i64.sub_spec(0i64)) == acc,
{
    let y = (0 - x) as i64;
    assert((y * y) as i64 == (x * x) as i64) by (bit_vector)
        requires
            y == (0 - x) as i64,
    ;
    assert(((acc + ((0i64 * 0i64) as i64)) as i64) == acc) by (bit_vector);
    assert(((0i64 - 0i64) as i64) == 0i64) by (bit_vector);
}

/// The indices of `si` have non-negative ranks, so `si` splits at `0`
/// for position `0`.
proof fn lemma_splits_at_start<Idx: Index>(si: Seq<Idx>)
    ensures
        splits_at(si, 0, 0),
{
    assert forall|q: int| 0 <= q < si.len() implies #[trigger] si[q].rank() >= 0 by {
        Idx::lemma_rank(si[q], si[q]);
    }
}

/// From a position `p` and the splits of both sides at `p`, the squared
/// distance over the outer join of the rest is the one over the rest of
/// their dense forms.
proof fn lemma_merge_sq_walk<Idx: Index>(
    acc: i64,
    li: Seq<Idx>,
    lv: Seq<i64>,
    ri: Seq<Idx>,
    rv: Seq<i64>,
    lp: int,
    rp: int,
    p: int,
    n: nat,
)
    requires
        strictly_increasing(li),
        strictly_increasing(ri),
        indices_below(li, n as int),
        indices_below(ri, n as int),
        0 <= p <= n,
        splits_at(li, lp, p),
        splits_at(ri, rp, p),
    ensures
        merge_sq(acc, li, lv, ri, rv, lp, rp) == dense_sq_from_pos(
            acc,
            densify(li, lv, n, 0),
            densify(ri, rv, n, 0),
            p,
            n as int,
        ),
    decreases n - p,
{
    let a = densify(li, lv, n, 0);
    let b = densify(ri, rv, n, 0);
    if p == n {
        if lp < li.len() {
            assert(li[lp].rank() < n);
        }
        if rp < ri.len() {
            assert(ri[rp].rank() < n);
        }
    } else {
        lemma_find_value_at_split(li, lv, lp, p, 0);
        lemma_find_value_at_split(ri, rv, rp, p, 0);
        lemma_split_advances(li, lp, p);
        lemma_split_advances(ri, rp, p);
        let l_here = lp < li.len() && li[lp].rank() == p;
        let r_here = rp < ri.len() && ri[rp].rank() == p;
        let nlp = if l_here { lp + 1 } else { lp };
        let nrp = if r_here { rp + 1 } else { rp };
        let next = add_square(acc, a[p].sub_spec(b[p]));
        lemma_merge_sq_walk(next, li, lv, ri, rv, nlp, nrp, p + 1, n);
        if l_here && r_here {
            Idx::lemma_rank(li[lp], ri[rp]);
        } else if l_here {
            lemma_i64_zero_sides(acc, lv[lp]);
            if rp < ri.len() {
                assert(ri[rp].rank() > p);
            }
        } else if r_here {
            lemma_i64_zero_sides(acc, rv[rp]);
            if lp < li.len() {
                assert(li[lp].rank() > p);
            }
        } else {
            lemma_i64_zero_sides(acc, 0i64);
        }
    }
}

/// The squared distance of two sparse vectors of `i64` values is that of
/// their dense forms over any length that covers their indices.
pub proof fn lemma_sparse_distance_parity<Idx: Index>(
    li: Seq<Idx>,
    lv: Seq<i64>,
    ri: Seq<Idx>,
    rv: Seq<i64>,
    n: nat,
)
    requires
        strictly_increasing(li),
        strictly_increasing(ri),
        indices_below(li, n as int),
        indices_below(ri, n as int),
    ensures
        merge_sq(0i64, li, lv, ri, rv, 0, 0) == dense_sq_dist(
            0i64,
            densify(li, lv, n, 0),
            densify(ri, rv, n, 0),
            n,
        ),
{
    lemma_splits_at_start(li);
    lemma_splits_at_start(ri);
    lemma_merge_sq_walk(0i64, li, lv, ri, rv, 0, 0, 0, n);
    lemma_dense_sq_split(0i64, densify(li, lv, n, 0), densify(ri, rv, n, 0), 0, n);
}

/// In `i64`, squaring `a - b` and squaring `b - a` add the same.
proof fn lemma_i64_square_diff_symmetric(acc: i64, a: i64, b: i64)
    ensures
        add_square(acc, a.sub_spec(b)) == add_square(acc, b.sub_spec(a)),
{
    let x = (a - b) as i64;
    let y = (b - a) as i64;
    assert((x * x) as i64 == (y * y) as i64) by (bit_vector)
        requires
            x == (a - b) as i64,
            y == (b - a) as i64,
    ;
}

/// From positions `lp` and `rp`, the squared distance summed over the
/// rest of the outer join is the same with the two sides exchanged.
proof fn lemma_merge_sq_swap<Idx: Index>(
    acc: i64,
    li: Seq<Idx>,
    lv: Seq<i64>,
    ri: Seq<Idx>,
    rv: Seq<i64>,
    lp: int,
    rp: int,
)
    ensures
        merge_sq(acc, li, lv, ri, rv, lp, rp) == merge_sq(acc, ri, rv, li, lv, rp, lp),
    decreases (li.len() - lp) + (ri.len() - rp),
{
    if lp < 0 || rp < 0 || lp > li.len() || rp > ri.len() || (lp == li.len() && rp == ri.len()) {
    } else if rp == ri.len() || (lp < li.len() && li[lp].rank() < ri[rp].rank()) {
        lemma_merge_sq_swap(add_square(acc, lv[lp]), li, lv, ri, rv, lp + 1, rp);
    } else if lp == li.len() || ri[rp].rank() < li[lp].rank() {
        lemma_merge_sq_swap(add_square(acc, rv[rp]), li, lv, ri, rv, lp, rp + 1);
    } else {
        lemma_i64_square_diff_symmetric(acc, lv[lp], rv[rp]);
        lemma_merge_sq_swap(add_square(acc, lv[lp].sub_spec(rv[rp])), li, lv, ri, rv, lp + 1, rp + 1);
    }
}

/// The squared distance of two sparse vectors of `i64` values is
/// symmetric: exchanging the vectors gives the same sum.
pub proof fn lemma_sparse_distance_symmetric<Idx: Index>(
    li: Seq<Idx>,
    lv: Seq<i64>,
    ri: Seq<Idx>,
    rv: Seq<i64>,
)
    ensures
        merge_sq(0i64, li, lv, ri, rv, 0, 0) == merge_sq(0i64, ri, rv, li, lv, 0, 0),
{
    lemma_merge_sq_swap(0i64, li, lv, ri, rv, 0, 0);
}

/// From a position `p`, with the dense side at `p` or at its end and the
/// sparse side split at `p`, the dense-sparse squared distance of the
/// rest is the one over the rest of the padded dense side and the dense
/// form of the sparse side.
proof fn lemma_dense_sparse_sq_walk<Idx: Index>(
    acc: i64,
    dense: Seq<i64>,
    si: Seq<Idx>,
    sv: Seq<i64>,
    sp: int,
    p: int,
    n: nat,
)
    requires
        strictly_increasing(si),
        indices_below(si, n as int),
        dense.len() <= n,
        0 <= p <= n,
        splits_at(si, sp, p),
    ensures
        dense_sparse_sq(
            acc,
            dense,
            si,
            sv,
            if p < dense.len() { p } else { dense.len() as int },
            sp,
        ) == dense_sq_from_pos(acc, padded(dense, n, 0), densify(si, sv, n, 0), p, n as int),
    decreases n - p,
{
    let a = padded(dense, n, 0);
    let b = densify(si, sv, n, 0);
    let dp = if p < dense.len() { p } else { dense.len() as int };
    if p == n {
        if sp < si.len() {
            assert(si[sp].rank() < n);
        }
    } else {
        lemma_find_value_at_split(si, sv, sp, p, 0);
        lemma_split_advances(si, sp, p);
        let s_here = sp < si.len() && si[sp].rank() == p;
        let nsp = if s_here { sp + 1 } else { sp };
        let next = add_square(acc, a[p].sub_spec(b[p]));
        lemma_dense_sparse_sq_walk(next, dense, si, sv, nsp, p + 1, n);
        if p < dense.len() {
            if s_here {
            } else {
                lemma_i64_zero_sides(acc, dense[p]);
                if sp < si.len() {
                    assert(si[sp].rank() > p);
                }
            }
        } else {
            if s_here {
                lemma_i64_zero_sides(acc, sv[sp]);
            } else {
                lemma_i64_zero_sides(acc, 0i64);
                if sp < si.len() {
                    assert(si[sp].rank() > p);
                }
            }
        }
    }
}

/// The squared distance of a dense and a sparse vector of `i64` values
/// is that of the dense vector, padded with zeros, and the dense form of
/// the sparse one, over any length that covers both.
pub proof fn lemma_dense_sparse_distance_parity<Idx: Index>(
    dense: Seq<i64>,
    si: Seq<Idx>,
    sv: Seq<i64>,
    n: nat,
)
    requires
        strictly_increasing(si),
        indices_below(si, n as int),
        dense.len() <= n,
    ensures
        dense_sparse_sq(0i64, dense, si, sv, 0, 0) == dense_sq_dist(
            0i64,
            padded(dense, n, 0),
            densify(si, sv, n, 0),
            n,
        ),
{
    lemma_splits_at_start(si);
    lemma_dense_sparse_sq_walk(0i64, dense, si, sv, 0, 0, n);
    lemma_dense_sq_split(0i64, padded(dense, n, 0), densify(si, sv, n, 0), 0, n);
}

/// The sparse-dense squared distance is, for any value type, the dense
/// squared distance of the dense form of the sparse vector and the dense
/// vector padded with zeros, over the positions it walks.
pub proof fn lemma_sparse_dense_distance_parity<
    Idx: Index,
    T: Add<Output = T> + Sub<Output = T> + Mul<Output = T>,
>(si: Seq<Idx>, sv: Seq<T>, dense: Seq<T>, zero: T, n: nat)
    ensures
        sparse_dense_sq(si, sv, dense, zero, n) == dense_sq_dist(
            zero,
            densify(si, sv, n, zero),
            padded(dense, n, zero),
            n,
        ),
{
    lemma_sparse_dense_prefix(si, sv, dense, zero, n, n);
}

/// The first `k` terms agree for every length `n` of the dense forms.
proof fn lemma_sparse_dense_prefix<
    Idx: Index,
    T: Add<Output = T> + Sub<Output = T> + Mul<Output = T>,
>(si: Seq<Idx>, sv: Seq<T>, dense: Seq<T>, zero: T, k: nat, n: nat)
    requires
        k <= n,
    ensures
        sparse_dense_sq(si, sv, dense, zero, k) == dense_sq_dist(
            zero,
            densify(si, sv, n, zero),
            padded(dense, n, zero),
            k,
        ),
    decreases k,
{
    if k > 0 {
        lemma_sparse_dense_prefix(si, sv, dense, zero, (k - 1) as nat, n);
        assert(densify(si, sv, n, zero)[k - 1] == find_value(si, sv, 0, k - 1, zero));
        assert(padded(dense, n, zero)[k - 1] == dense_or(dense, k - 1, zero));
    }
}

/// The value on a side of an outer-join entry, `zero` where the side
/// holds none.
pub open spec fn side_or<T>(side: Option<T>, zero: T) -> T {
    match side {
        Some(v) => v,
        None => zero,
    }
}

/// Where the indices strictly increase, the dense value at the index of
/// entry `q` is the value of entry `q`.
proof fn lemma_find_value_at<Idx: Index, T>(si: Seq<Idx>, sv: Seq<T>, q: int, zero: T)
    requires
        strictly_increasing(si),
        0 <= q < si.len(),
    ensures
        find_value(si, sv, 0, si[q].rank(), zero) == sv[q],
{
    assert forall|i: int| 0 <= i < q implies #[trigger] si[i].rank() != si[q].rank() by {
        assert(si[i].rank() < si[q].rank());
    }
    lemma_find_value_skip(si, sv, 0, q, si[q].rank(), zero);
}

/// Where no index has rank `p`, the dense value at `p` is `zero`.
proof fn lemma_find_value_absent<Idx: Index, T>(si: Seq<Idx>, sv: Seq<T>, p: int, zero: T)
    requires
        forall|q: int| 0 <= q < si.len() ==> #[trigger] si[q].rank() != p,
    ensures
        find_value(si, sv, 0, p, zero) == zero,
{
    lemma_find_value_none(si, sv, 0, p, zero);
}

/// The entries already passed on each side come before every entry left
/// on the other side.
pub open spec fn consumed_before<Idx: Index>(li: Seq<Idx>, ri: Seq<Idx>, lp: int, rp: int) -> bool {
    &&& forall|a: int, b: int|
        0 <= a < lp && rp <= b < ri.len() ==> #[trigger] li[a].rank() < #[trigger] ri[b].rank()
    &&& forall|a: int, b: int|
        0 <= a < rp && lp <= b < li.len() ==> #[trigger] ri[a].rank() < #[trigger] li[b].rank()
}

/// Each entry of the outer join carries, on each side, the dense value
/// of that side at its index: the side's value, or `zero` where the side
/// holds none.
proof fn lemma_outer_entries_sides<Idx: Index, T>(
    li: Seq<Idx>,
    lv: Seq<T>,
    ri: Seq<Idx>,
    rv: Seq<T>,
    lp: int,
    rp: int,
    zero: T,
)
    requires
        strictly_increasing(li),
        strictly_increasing(ri),
        0 <= lp <= li.len(),
        0 <= rp <= ri.len(),
        consumed_before(li, ri, lp, rp),
    ensures
        forall|k: int|
            0 <= k < outer_entries(li, lv, ri, rv, lp, rp).len() ==> {
                let e = #[trigger] outer_entries(li, lv, ri, rv, lp, rp)[k];
                &&& side_or(e.1, zero) == find_value(li, lv, 0, e.0.rank(), zero)
                &&& side_or(e.2, zero) == find_value(ri, rv, 0, e.0.rank(), zero)
            },
    decreases (li.len() - lp) + (ri.len() - rp),
{
    let all = outer_entries(li, lv, ri, rv, lp, rp);
    if lp == li.len() && rp == ri.len() {
        return;
    }
    let left = takes_left(li, ri, lp, rp);
    let right = !left && takes_right(li, ri, lp, rp);
    let (nlp, nrp) = if left {
        (lp + 1, rp)
    } else if right {
        (lp, rp + 1)
    } else {
        Idx::lemma_rank(li[lp], ri[rp]);
        (lp + 1, rp + 1)
    };
    assert(consumed_before(li, ri, nlp, nrp)) by {
        assert forall|a: int, b: int|
            0 <= a < nlp && nrp <= b < ri.len() implies #[trigger] li[a].rank() < #[trigger] ri[b].rank() by {
            if a == lp && nlp == lp + 1 {
                assert(ri[rp].rank() <= ri[b].rank());
                if b == rp {
                    assert(left);
                }
            }
        }
        assert forall|a: int, b: int|
            0 <= a < nrp && nlp <= b < li.len() implies #[trigger] ri[a].rank() < #[trigger] li[b].rank() by {
            if a == rp && nrp == rp + 1 {
                assert(li[lp].rank() <= li[b].rank());
                if b == lp {
                    assert(right);
                }
            }
        }
    }
    lemma_outer_entries_sides(li, lv, ri, rv, nlp, nrp, zero);
    let rest = outer_entries(li, lv, ri, rv, nlp, nrp);
    assert(all == seq![all[0]] + rest);
    let x = all[0].0;
    if left || !right {
        assert forall|q: int| 0 <= q < lp implies #[trigger] li[q].rank() != x.rank() by {
            assert(li[q].rank() < li[lp].rank());
        }
        lemma_find_value_skip(li, lv, 0, lp, x.rank(), zero);
    }
    if right || !left {
        assert forall|q: int| 0 <= q < rp implies #[trigger] ri[q].rank() != x.rank() by {
            assert(ri[q].rank() < ri[rp].rank());
        }
        lemma_find_value_skip(ri, rv, 0, rp, x.rank(), zero);
    }
    if left {
        assert forall|q: int| 0 <= q < ri.len() implies #[trigger] ri[q].rank() != x.rank() by {
            if q >= rp {
                assert(ri[rp].rank() <= ri[q].rank());
            }
        }
        lemma_find_value_absent(ri, rv, x.rank(), zero);
    }
    if right {
        assert forall|q: int| 0 <= q < li.len() implies #[trigger] li[q].rank() != x.rank() by {
            if q >= lp {
                assert(li[lp].rank() <= li[q].rank());
            }
        }
        lemma_find_value_absent(li, lv, x.rank(), zero);
    }
    assert forall|k: int| 0 <= k < all.len() implies {
        let e = #[trigger] all[k];
        &&& side_or(e.1, zero) == find_value(li, lv, 0, e.0.rank(), zero)
        &&& side_or(e.2, zero) == find_value(ri, rv, 0, e.0.rank(), zero)
    } by {
        if k > 0 {
            assert(all[k] == rest[k - 1]);
        }
    }
}

/// In `i64`, a zero answer tells whether the value is `0`.
proof fn lemma_i64_zero_answer(v: i64, z: bool)
    requires
        zero_answer(v, z),
    ensures
        z == (v == 0),
{
    let d = choose|d: i64| #[trigger] is_default(d) && (i64::obeys_eq_spec() ==> z == v.eq_spec(&d));
    assert(d == 0);
}

/// Each kept entry is an entry whose zero answer is `false`, and each such
/// entry is kept.
proof fn lemma_nonzero_prefix_members<Idx, T>(pairs: Seq<(Idx, T)>, zero: Seq<bool>, n: nat)
    requires
        n <= pairs.len(),
        n <= zero.len(),
    ensures
        forall|j: int|
            0 <= j < nonzero_prefix(pairs, zero, n).len() ==> exists|k: int|
                #![trigger pairs[k]]
                0 <= k < n && !zero[k] && (#[trigger] nonzero_prefix(pairs, zero, n)[j]) == pairs[k],
        forall|k: int|
            0 <= k < n && !zero[k] ==> exists|j: int|
                #![trigger nonzero_prefix(pairs, zero, n)[j]]
                0 <= j < nonzero_prefix(pairs, zero, n).len() && nonzero_prefix(pairs, zero, n)[j]
                    == #[trigger] pairs[k],
    decreases n,
{
    if n > 0 {
        lemma_nonzero_prefix_members(pairs, zero, (n - 1) as nat);
        let r = nonzero_prefix(pairs, zero, (n - 1) as nat);
        let c = nonzero_prefix(pairs, zero, n);
        assert forall|j: int| 0 <= j < c.len() implies exists|k: int|
            #![trigger pairs[k]]
            0 <= k < n && !zero[k] && (#[trigger] c[j]) == pairs[k] by {
            if j < r.len() {
                assert(c[j] == r[j]);
                let k = choose|k: int| #![trigger pairs[k]] 0 <= k < n - 1 && !zero[k] && r[j] == pairs[k];
                assert(pairs[k] == c[j]);
            } else {
                assert(c[j] == pairs[n - 1]);
            }
        }
        assert forall|k: int| 0 <= k < n && !zero[k] implies exists|j: int|
            #![trigger c[j]]
            0 <= j < c.len() && c[j] == #[trigger] pairs[k] by {
            if k < n - 1 {
                let j = choose|j: int| #![trigger r[j]] 0 <= j < r.len() && r[j] == pairs[k];
                assert(c[j] == r[j]);
            } else {
                assert(c[c.len() - 1] == pairs[k]);
            }
        }
    }
}

/// Merging the outer join of two sparse vectors of `i64` values with a
/// rule that combines the values on the two sides (a missing side
/// counting as zero), then dropping zero results, gives the dense
/// combination of their dense forms, where combining two zeros gives
/// zero.
proof fn lemma_merge_parity<Idx: Index>(
    li: Seq<Idx>,
    lv: Seq<i64>,
    ri: Seq<Idx>,
    rv: Seq<i64>,
    pairs: Seq<(Idx, i64)>,
    zero: Seq<bool>,
    combine: spec_fn(i64, i64) -> i64,
    n: nat,
)
    requires
        strictly_increasing(li),
        strictly_increasing(ri),
        indices_below(li, n as int),
        indices_below(ri, n as int),
        pairs.len() == outer_entries(li, lv, ri, rv, 0, 0).len(),
        forall|k: int|
            #![trigger pairs[k]]
            0 <= k < pairs.len() ==> pairs[k].0 == outer_entries(li, lv, ri, rv, 0, 0)[k].0
                && pairs[k].1 == combine(
                side_or(outer_entries(li, lv, ri, rv, 0, 0)[k].1, 0i64),
                side_or(outer_entries(li, lv, ri, rv, 0, 0)[k].2, 0i64),
            ),
        combine(0i64, 0i64) == 0i64,
        zero.len() == pairs.len(),
        zero_answers(pairs, zero),
    ensures
        densify(keys(nonzero_pairs(pairs, zero)), vals(nonzero_pairs(pairs, zero)), n, 0i64)
            == Seq::new(
            n,
            |p: int| combine(densify(li, lv, n, 0i64)[p], densify(ri, rv, n, 0i64)[p]),
        ),
{
    let joined = outer_entries(li, lv, ri, rv, 0, 0);
    let kept = nonzero_pairs(pairs, zero);
    lemma_outer_entries_sorted(li, lv, ri, rv, 0, 0);
    assert(keys(pairs) =~= entry_keys(joined));
    lemma_nonzero_prefix_sorted(pairs, zero, pairs.len());
    lemma_outer_entries_sides(li, lv, ri, rv, 0, 0, 0i64);
    lemma_nonzero_prefix_members(pairs, zero, pairs.len());
    lemma_outer_join_sorted_union(li, lv, ri, rv);
    let lhs = densify(keys(kept), vals(kept), n, 0i64);
    let rhs = Seq::new(
        n,
        |p: int| combine(densify(li, lv, n, 0i64)[p], densify(ri, rv, n, 0i64)[p]),
    );
    assert forall|p: int| 0 <= p < n implies lhs[p] == rhs[p] by {
        let da = find_value(li, lv, 0, p, 0i64);
        let db = find_value(ri, rv, 0, p, 0i64);
        assert(densify(li, lv, n, 0i64)[p] == da);
        assert(densify(ri, rv, n, 0i64)[p] == db);
        if exists|k: int| 0 <= k < joined.len() && (#[trigger] joined[k]).0.rank() == p {
            let k = choose|k: int| 0 <= k < joined.len() && (#[trigger] joined[k]).0.rank() == p;
            assert(pairs[k].1 == combine(da, db));
            assert(zero_answer(pairs[k].1, zero[k]));
            lemma_i64_zero_answer(pairs[k].1, zero[k]);
            if zero[k] {
                assert forall|j: int| 0 <= j < keys(kept).len() implies #[trigger] keys(kept)[j].rank()
                    != p by {
                    let k2 = choose|k2: int| #![trigger pairs[k2]] 0 <= k2 < pairs.len() && !zero[k2] && kept[j] == pairs[k2];
                    assert(keys(kept)[j] == pairs[k2].0);
                    if pairs[k2].0.rank() == p {
                        assert(keys(pairs)[k2] == pairs[k2].0);
                        assert(keys(pairs)[k] == pairs[k].0);
                        assert(k2 == k);
                    }
                }
                lemma_find_value_absent(keys(kept), vals(kept), p, 0i64);
            } else {
                let j = choose|j: int| #![trigger kept[j]] 0 <= j < kept.len() && kept[j] == pairs[k];
                assert(keys(kept)[j] == pairs[k].0);
                assert(vals(kept)[j] == pairs[k].1);
                lemma_find_value_at(keys(kept), vals(kept), j, 0i64);
            }
        } else {
            assert forall|q: int| 0 <= q < li.len() implies #[trigger] li[q].rank() != p by {
                if li[q].rank() == p {
                    assert(li.contains(li[q]));
                    assert(entry_keys(joined).contains(li[q]));
                    let k = choose|k: int| 0 <= k < entry_keys(joined).len() && entry_keys(joined)[k] == li[q];
                    assert(joined[k].0 == li[q]);
                }
            }
            assert forall|q: int| 0 <= q < ri.len() implies #[trigger] ri[q].rank() != p by {
                if ri[q].rank() == p {
                    assert(ri.contains(ri[q]));
                    assert(entry_keys(joined).contains(ri[q]));
                    let k = choose|k: int| 0 <= k < entry_keys(joined).len() && entry_keys(joined)[k] == ri[q];
                    assert(joined[k].0 == ri[q]);
                }
            }
            lemma_find_value_absent(li, lv, p, 0i64);
            lemma_find_value_absent(ri, rv, p, 0i64);
            assert forall|j: int| 0 <= j < keys(kept).len() implies #[trigger] keys(kept)[j].rank() != p by {
                let k2 = choose|k2: int| #![trigger pairs[k2]] 0 <= k2 < pairs.len() && !zero[k2] && kept[j] == pairs[k2];
                assert(keys(kept)[j] == pairs[k2].0);
                assert(pairs[k2].0 == joined[k2].0);
            }
            lemma_find_value_absent(keys(kept), vals(kept), p, 0i64);
        }
    }
    assert(lhs =~= rhs);
}

/// Every entry of an outer join holds a value on at least one side.
proof fn lemma_outer_entries_sided<Idx: Index, T>(
    li: Seq<Idx>,
    lv: Seq<T>,
    ri: Seq<Idx>,
    rv: Seq<T>,
    lp: int,
    rp: int,
)
    ensures
        forall|k: int|
            0 <= k < outer_entries(li, lv, ri, rv, lp, rp).len() ==> (#[trigger] outer_entries(
                li,
                lv,
                ri,
                rv,
                lp,
                rp,
            )[k]).1 is Some || outer_entries(li, lv, ri, rv, lp, rp)[k].2 is Some,
    decreases (li.len() - lp) + (ri.len() - rp),
{
    let all = outer_entries(li, lv, ri, rv, lp, rp);
    if lp < 0 || rp < 0 || lp > li.len() || rp > ri.len() || (lp == li.len() && rp == ri.len()) {
        return;
    }
    let (nlp, nrp) = if takes_left(li, ri, lp, rp) {
        (lp + 1, rp)
    } else if takes_right(li, ri, lp, rp) {
        (lp, rp + 1)
    } else {
        (lp + 1, rp + 1)
    };
    lemma_outer_entries_sided(li, lv, ri, rv, nlp, nrp);
    let rest = outer_entries(li, lv, ri, rv, nlp, nrp);
    assert(all == seq![all[0]] + rest);
    assert forall|k: int| 0 <= k < all.len() implies (#[trigger] all[k]).1 is Some || all[k].2 is Some by {
        if k > 0 {
            assert(all[k] == rest[k - 1]);
        }
    }
}

/// Adding two well-formed sparse vectors of `i64` values (the sum that
/// [`GenericSparseVec::add_assign`](crate::sparse::GenericSparseVec::add_assign)
/// keeps) gives the dense form of the sum of their dense forms, over any
/// length that covers their indices.
pub proof fn lemma_sparse_add_parity<Idx: Index>(
    li: Seq<Idx>,
    lv: Seq<i64>,
    ri: Seq<Idx>,
    rv: Seq<i64>,
    pairs: Seq<(Idx, i64)>,
    zero: Seq<bool>,
    n: nat,
)
    requires
        strictly_increasing(li),
        strictly_increasing(ri),
        indices_below(li, n as int),
        indices_below(ri, n as int),
        merged(AddEntries, outer_entries(li, lv, ri, rv, 0, 0), pairs),
        zero.len() == pairs.len(),
        zero_answers(pairs, zero),
    ensures
        densify(keys(nonzero_pairs(pairs, zero)), vals(nonzero_pairs(pairs, zero)), n, 0i64)
            == added(densify(li, lv, n, 0i64), densify(ri, rv, n, 0i64)),
{
    let joined = outer_entries(li, lv, ri, rv, 0, 0);
    let combine = |a: i64, b: i64| a.add_spec(b);
    lemma_outer_entries_sided(li, lv, ri, rv, 0, 0);
    assert forall|k: int| #![trigger pairs[k]] 0 <= k < pairs.len() implies pairs[k].0 == joined[k].0
        && pairs[k].1 == combine(side_or(joined[k].1, 0i64), side_or(joined[k].2, 0i64)) by {
        assert(AddEntries.merges(joined[k].1, joined[k].2, pairs[k].1));
    }
    lemma_merge_parity(li, lv, ri, rv, pairs, zero, combine, n);
    assert(Seq::new(
        n,
        |p: int| combine(densify(li, lv, n, 0i64)[p], densify(ri, rv, n, 0i64)[p]),
    ) =~= added(densify(li, lv, n, 0i64), densify(ri, rv, n, 0i64)));
}

/// Subtracting one well-formed sparse vector of `i64` values from another
/// (the difference that
/// [`GenericSparseVec::sub_assign`](crate::sparse::GenericSparseVec::sub_assign)
/// keeps) gives the dense form of the difference of their dense forms,
/// over any length that covers their indices.
pub proof fn lemma_sparse_sub_parity<Idx: Index>(
    li: Seq<Idx>,
    lv: Seq<i64>,
    ri: Seq<Idx>,
    rv: Seq<i64>,
    d: i64,
    pairs: Seq<(Idx, i64)>,
    zero: Seq<bool>,
    n: nat,
)
    requires
        strictly_increasing(li),
        strictly_increasing(ri),
        indices_below(li, n as int),
        indices_below(ri, n as int),
        is_default(d),
        merged(SubEntries { zero: d }, outer_entries(li, lv, ri, rv, 0, 0), pairs),
        zero.len() == pairs.len(),
        zero_answers(pairs, zero),
    ensures
        densify(keys(nonzero_pairs(pairs, zero)), vals(nonzero_pairs(pairs, zero)), n, 0i64)
            == subtracted(densify(li, lv, n, 0i64), densify(ri, rv, n, 0i64)),
{
    let joined = outer_entries(li, lv, ri, rv, 0, 0);
    let combine = |a: i64, b: i64| a.sub_spec(b);
    assert(d == 0);
    lemma_outer_entries_sided(li, lv, ri, rv, 0, 0);
    assert forall|k: int| #![trigger pairs[k]] 0 <= k < pairs.len() implies pairs[k].0 == joined[k].0
        && pairs[k].1 == combine(side_or(joined[k].1, 0i64), side_or(joined[k].2, 0i64)) by {
        assert(SubEntries { zero: d }.merges(joined[k].1, joined[k].2, pairs[k].1));
    }
    lemma_merge_parity(li, lv, ri, rv, pairs, zero, combine, n);
    assert(Seq::new(
        n,
        |p: int| combine(densify(li, lv, n, 0i64)[p], densify(ri, rv, n, 0i64)[p]),
    ) =~= subtracted(densify(li, lv, n, 0i64), densify(ri, rv, n, 0i64)));
}

// MARK: Mixed dot products and the sparse-dense distance span

/// In `i64`, adding the product of anything with zero adds nothing, on
/// either side of the product.
proof fn lemma_i64_add_zero_product(acc: i64, x: i64)
    ensures
        acc.add_spec(x.mul_spec(0i64)) == acc,
        acc.add_spec(0i64.mul_spec(x)) == acc,
{
    assert(((acc + ((x * 0i64) as i64)) as i64) == acc) by (bit_vector);
    assert(((acc + ((0i64 * x) as i64)) as i64) == acc) by (bit_vector);
}

/// From dense position `p`, with the sparse entries split at `p`, the
/// sparse-with-dense walk sums the rest of the dense products of the
/// sparse vector's dense form with the dense vector.
proof fn lemma_mixed_dot_walk<Idx: Index>(
    acc: i64,
    dense: Seq<i64>,
    si: Seq<Idx>,
    sv: Seq<i64>,
    sp: int,
    p: int,
)
    requires
        strictly_increasing(si),
        0 <= p <= dense.len(),
        splits_at(si, sp, p),
    ensures
        mixed_dot(acc, dense, si, sv, p, sp) == dense_dot_from_pos(
            acc,
            densify(si, sv, dense.len(), 0),
            dense,
            p,
            dense.len() as int,
        ),
    decreases dense.len() - p,
{
    let a = densify(si, sv, dense.len(), 0);
    if p < dense.len() {
        lemma_find_value_at_split(si, sv, sp, p, 0);
        lemma_split_advances(si, sp, p);
        let here = sp < si.len() && si[sp].rank() == p;
        let nsp = if here { sp + 1 } else { sp };
        let next = (acc + (a[p] * dense[p]) as i64) as i64;
        lemma_mixed_dot_walk(next, dense, si, sv, nsp, p + 1);
        if !here {
            lemma_i64_add_zero_product(acc, dense[p]);
        }
    }
}

/// The dot product of a sparse vector of `i64` values with a dense vector
/// is the dense dot product of the sparse vector's dense form, cut to the
/// dense length, with the dense vector: each stored entry `(i, v)` with
/// `i` below that length adds `v * dense[i]`, and no other term counts.
pub proof fn lemma_sparse_dense_dot_parity<Idx: Index>(si: Seq<Idx>, sv: Seq<i64>, dense: Seq<i64>)
    requires
        strictly_increasing(si),
    ensures
        mixed_dot(0i64, dense, si, sv, 0, 0) == dense_dot(
            0i64,
            densify(si, sv, dense.len(), 0),
            dense,
            dense.len(),
        ),
{
    lemma_splits_at_start(si);
    lemma_mixed_dot_walk(0i64, dense, si, sv, 0, 0);
    lemma_dense_dot_split(0i64, densify(si, sv, dense.len(), 0), dense, 0, dense.len());
}

/// The dense position that the sum over the first `k` sparse entries
/// reaches: the index of entry `k`, or the dense length where that index
/// is past it or there is no entry `k`.
pub open spec fn fold_reach<Idx: Index>(si: Seq<Idx>, k: int, n: nat) -> nat {
    if k < si.len() && si[k].rank() < n {
        si[k].rank() as nat
    } else {
        n
    }
}

/// A dense dot product does not change over positions where the second
/// vector is zero.
proof fn lemma_dense_dot_zero_range(acc: i64, a: Seq<i64>, b: Seq<i64>, lo: nat, hi: nat)
    requires
        lo <= hi,
        forall|j: int| lo <= j < hi ==> #[trigger] b[j] == 0,
    ensures
        dense_dot(acc, a, b, hi) == dense_dot(acc, a, b, lo),
    decreases hi - lo,
{
    if lo < hi {
        lemma_dense_dot_zero_range(acc, a, b, lo, (hi - 1) as nat);
        lemma_i64_add_zero_product(dense_dot(acc, a, b, (hi - 1) as nat), a[hi - 1]);
    }
}

/// Where no index of `si` is in `lo..hi`, the dense form is zero there.
proof fn lemma_densify_gap<Idx: Index>(si: Seq<Idx>, sv: Seq<i64>, n: nat, lo: int, hi: int)
    requires
        0 <= lo,
        hi <= n,
        forall|q: int| 0 <= q < si.len() ==> #[trigger] si[q].rank() < lo || si[q].rank() >= hi,
    ensures
        forall|j: int| lo <= j < hi ==> #[trigger] densify(si, sv, n, 0)[j] == 0,
{
    assert forall|j: int| lo <= j < hi implies #[trigger] densify(si, sv, n, 0)[j] == 0 by {
        assert forall|q: int| 0 <= q < si.len() implies #[trigger] si[q].rank() != j by {
            assert(si[q].rank() < lo || si[q].rank() >= hi);
        }
        lemma_find_value_absent(si, sv, j, 0);
    }
}

/// Summing over the first `k` sparse entries, in order, gives the dense dot
/// product up to the position that sum reaches.
proof fn lemma_sparse_fold_dot_reach<Idx: Index>(dense: Seq<i64>, si: Seq<Idx>, sv: Seq<i64>, k: int)
    requires
        strictly_increasing(si),
        0 <= k <= si.len(),
    ensures
        sparse_fold_dot(0i64, dense, si, sv, k as nat) == dense_dot(
            0i64,
            dense,
            densify(si, sv, dense.len(), 0),
            fold_reach(si, k, dense.len()),
        ),
    decreases k,
{
    let n = dense.len();
    let b = densify(si, sv, n, 0);
    assert forall|q: int| 0 <= q < si.len() implies #[trigger] si[q].rank() >= 0 by {
        Idx::lemma_rank(si[q], si[q]);
    }
    if k == 0 {
        let r = fold_reach(si, 0, n);
        assert forall|q: int| 0 <= q < si.len() implies #[trigger] si[q].rank() < 0 || si[q].rank()
            >= r by {
            if q > 0 {
                assert(si[0].rank() < si[q].rank());
            }
        }
        lemma_densify_gap(si, sv, n, 0, r as int);
        lemma_dense_dot_zero_range(0i64, dense, b, 0, r);
    } else {
        lemma_sparse_fold_dot_reach(dense, si, sv, k - 1);
        let r0 = fold_reach(si, k - 1, n);
        let r1 = fold_reach(si, k, n);
        if si[k - 1].rank() < n {
            let r = si[k - 1].rank();
            lemma_find_value_at(si, sv, k - 1, 0);
            assert(b[r] == sv[k - 1]);
            assert forall|q: int| 0 <= q < si.len() implies #[trigger] si[q].rank() < r + 1
                || si[q].rank() >= r1 by {
                if q < k - 1 {
                    assert(si[q].rank() < si[k - 1].rank());
                } else if q > k - 1 {
                    if q > k {
                        assert(si[k].rank() < si[q].rank());
                    }
                }
            }
            lemma_densify_gap(si, sv, n, r + 1, r1 as int);
            lemma_dense_dot_zero_range(0i64, dense, b, (r + 1) as nat, r1);
        } else {
            if k < si.len() {
                assert(si[k - 1].rank() < si[k].rank());
            }
        }
    }
}

/// The dot product of a dense vector of `i64` values with a sparse one is
/// the dense dot product of the dense vector with the sparse vector's dense
/// form cut to the dense length: each stored entry `(i, v)` with `i` below
/// that length adds `dense[i] * v`, and no other term counts.
pub proof fn lemma_dense_sparse_dot_parity<Idx: Index>(dense: Seq<i64>, si: Seq<Idx>, sv: Seq<i64>)
    requires
        strictly_increasing(si),
    ensures
        sparse_fold_dot(0i64, dense, si, sv, si.len()) == dense_dot(
            0i64,
            dense,
            densify(si, sv, dense.len(), 0),
            dense.len(),
        ),
{
    lemma_sparse_fold_dot_reach(dense, si, sv, si.len() as int);
}

/// No index of `si` exceeds the largest.
proof fn lemma_max_rank_bounds<Idx: Index>(si: Seq<Idx>)
    ensures
        forall|q: int| 0 <= q < si.len() ==> #[trigger] si[q].rank() <= max_rank_of(si),
    decreases si.len(),
{
    if si.len() > 0 {
        let init = si.drop_last();
        lemma_max_rank_bounds(init);
        assert forall|q: int| 0 <= q < si.len() implies #[trigger] si[q].rank() <= max_rank_of(si) by {
            if q < si.len() - 1 {
                assert(si[q] == init[q]);
            }
        }
    }
}

/// Past the dense length and every sparse index, the sparse-dense squared
/// distance adds nothing.
proof fn lemma_sparse_dense_sq_tail<Idx: Index>(
    si: Seq<Idx>,
    sv: Seq<i64>,
    dense: Seq<i64>,
    lo: nat,
    hi: nat,
)
    requires
        lo <= hi,
        dense.len() <= lo,
        indices_below(si, lo as int),
    ensures
        sparse_dense_sq(si, sv, dense, 0i64, hi) == sparse_dense_sq(si, sv, dense, 0i64, lo),
    decreases hi - lo,
{
    if lo < hi {
        lemma_sparse_dense_sq_tail(si, sv, dense, lo, (hi - 1) as nat);
        let p = hi - 1;
        assert forall|q: int| 0 <= q < si.len() implies #[trigger] si[q].rank() != p by {
            assert(si[q].rank() < lo);
        }
        lemma_find_value_absent(si, sv, p, 0i64);
        lemma_i64_zero_sides(sparse_dense_sq(si, sv, dense, 0i64, (hi - 1) as nat), 0i64);
    }
}

/// The squared distance of a sparse vector of `i64` values from a dense
/// one covers every stored entry and every dense component: it is the dense
/// squared distance of the sparse vector's dense form and the dense vector
/// padded with zeros, over any length at least the dense length with every
/// stored index below it.
pub proof fn lemma_sparse_dense_distance_covers<Idx: Index>(
    si: Seq<Idx>,
    sv: Seq<i64>,
    dense: Seq<i64>,
    n: nat,
)
    requires
        dense.len() <= n,
        indices_below(si, n as int),
    ensures
        sparse_dense_sq(si, sv, dense, 0i64, sparse_dense_span(si, dense) as nat) == dense_sq_dist(
            0i64,
            densify(si, sv, n, 0i64),
            padded(dense, n, 0i64),
            n,
        ),
{
    let m = sparse_dense_span(si, dense);
    lemma_max_rank_bounds(si);
    assert(m >= 0) by {
        if si.len() > 0 {
            Idx::lemma_rank(si[0], si[0]);
            assert(si[0].rank() <= max_rank_of(si));
        }
    }
    let m = m as nat;
    assert(indices_below(si, m as int));
    if m <= n {
        lemma_sparse_dense_sq_tail(si, sv, dense, m, n);
    } else {
        lemma_sparse_dense_sq_tail(si, sv, dense, n, m);
    }
    lemma_sparse_dense_distance_parity(si, sv, dense, 0i64, n);
}

} // verus!

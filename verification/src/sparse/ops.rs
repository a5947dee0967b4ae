//! Entry-wise arithmetic on sparse vectors.
//!
//! Binary operations walk the outer join of the two vectors' entries and
//! merge the values found on either side; unary operations map each
//! value. Either way, entries whose value comes out zero are dropped.

use core::ops::{Add, Div, Mul, Sub};

use num_traits::MulAddAssign;
use vstd::prelude::*;
use vstd::std_specs::ops::{
    AddSpec, AddSpecImpl, DivSpec, DivSpecImpl, MulSpec, MulSpecImpl, SubSpec, SubSpecImpl,
};

use crate::dense::ops::{mul_add_req, mul_add_scalar, mul_added};
use crate::scalar::{is_default, is_zero, zero_answer};
use crate::sparse::join::{entry_keys, lemma_outer_entries_sorted, outer_entries};
use crate::sparse::storage::{keys, nonzero_pairs, nonzero_prefix, parallel, vals, zero_answers, FromCanonicalPairs};
use crate::sparse::util::strictly_increasing;
use crate::sparse::{GenericSparseVec, SparseVector};
use crate::Index;

verus! {

/// A rule that gives the value of an outer-join entry from the values
/// found on its two sides.
pub trait EntryMerge<T> {
    /// The side values on which the rule is defined.
    spec fn merge_req(&self, l: Option<T>, r: Option<T>) -> bool;

    /// `v` is a value the rule gives for the side values `l` and `r`.
    spec fn merges(&self, l: Option<T>, r: Option<T>, v: T) -> bool;

    /// The value for the side values `l` and `r`.
    fn merge(&self, l: Option<T>, r: Option<T>) -> (v: T)
        requires
            self.merge_req(l, r),
        ensures
            self.merges(l, r, v),
    ;
}

/// `pairs` holds, for each entry of `joined`, its index and a value that
/// `m` gives for its sides.
pub open spec fn merged<Idx, T, M: EntryMerge<T>>(
    m: M,
    joined: Seq<(Idx, Option<T>, Option<T>)>,
    pairs: Seq<(Idx, T)>,
) -> bool {
    &&& pairs.len() == joined.len()
    &&& forall|k: int| #![trigger pairs[k]] 0 <= k < joined.len() ==> pairs[k].0 == joined[k].0
    &&& forall|k: int|
        0 <= k < joined.len() ==> #[trigger] m.merges(joined[k].1, joined[k].2, pairs[k].1)
}

/// `m` is defined on the sides of every entry of `joined`.
pub open spec fn merge_defined<Idx, T, M: EntryMerge<T>>(
    m: M,
    joined: Seq<(Idx, Option<T>, Option<T>)>,
) -> bool {
    forall|k: int| 0 <= k < joined.len() ==> #[trigger] m.merge_req(joined[k].1, joined[k].2)
}

/// `(oi, ov)` are the entries of `pairs` whose value is not zero, where
/// `zero` answers for each value whether it is zero.
pub open spec fn keeps_nonzero<Idx, T: Default + PartialEq>(
    pairs: Seq<(Idx, T)>,
    zero: Seq<bool>,
    oi: Seq<Idx>,
    ov: Seq<T>,
) -> bool {
    &&& zero.len() == pairs.len()
    &&& zero_answers(pairs, zero)
    &&& oi == keys(nonzero_pairs(pairs, zero))
    &&& ov == vals(nonzero_pairs(pairs, zero))
}

/// Storage `s` holds the first entries of `(oi, ov)`: all of them, or as
/// many as it can hold.
pub open spec fn stores_prefix<Idx, T, S: FromCanonicalPairs<Idx, T>>(
    s: S,
    oi: Seq<Idx>,
    ov: Seq<T>,
) -> bool {
    &&& parallel(&s)
    &&& s.spec_indices().len() <= oi.len()
    &&& s.spec_indices() == oi.take(s.spec_indices().len() as int)
    &&& s.spec_values() == ov.take(s.spec_indices().len() as int)
    &&& s.spec_indices().len() == S::kept_count(oi.len())
}

/// Merges the outer join of `(li, lv)` and `(ri, rv)` with `m`, keeping
/// the entries whose merged value is not zero.
pub fn merge_entries<Idx: Index, T: Copy + Default + PartialEq, M: EntryMerge<T>>(
    m: &M,
    li: &[Idx],
    lv: &[T],
    ri: &[Idx],
    rv: &[T],
) -> (out: (Vec<Idx>, Vec<T>))
    requires
        li@.len() <= lv@.len(),
        ri@.len() <= rv@.len(),
        merge_defined(*m, outer_entries(li@, lv@, ri@, rv@, 0, 0)),
    ensures
        exists|pairs: Seq<(Idx, T)>, zero: Seq<bool>|
            #![trigger merged(*m, outer_entries(li@, lv@, ri@, rv@, 0, 0), pairs), keeps_nonzero(pairs, zero, out.0@, out.1@)]
            merged(*m, outer_entries(li@, lv@, ri@, rv@, 0, 0), pairs) && keeps_nonzero(
                pairs,
                zero,
                out.0@,
                out.1@,
            ),
{
    let ghost all = outer_entries(li@, lv@, ri@, rv@, 0, 0);
    let ghost mut done: Seq<(Idx, Option<T>, Option<T>)> = Seq::empty();
    let ghost mut pairs: Seq<(Idx, T)> = Seq::empty();
    let ghost mut zero: Seq<bool> = Seq::empty();
    let mut out_i: Vec<Idx> = Vec::new();
    let mut out_v: Vec<T> = Vec::new();
    let mut lp: usize = 0;
    let mut rp: usize = 0;
    proof {
        assert(done + outer_entries(li@, lv@, ri@, rv@, 0, 0) =~= all);
    }
    while lp < li.len() || rp < ri.len()
        invariant
            li@.len() <= lv@.len(),
            ri@.len() <= rv@.len(),
            lp <= li@.len(),
            rp <= ri@.len(),
            all == outer_entries(li@, lv@, ri@, rv@, 0, 0),
            merge_defined(*m, all),
            done + outer_entries(li@, lv@, ri@, rv@, lp as int, rp as int) == all,
            merged(*m, done, pairs),
            zero.len() == pairs.len(),
            zero_answers(pairs, zero),
            out_i@ == keys(nonzero_prefix(pairs, zero, pairs.len())),
            out_v@ == vals(nonzero_prefix(pairs, zero, pairs.len())),
        decreases li@.len() + ri@.len() - lp - rp,
    {
        let ghost rest = outer_entries(li@, lv@, ri@, rv@, lp as int, rp as int);
        let ghost n: int = done.len() as int;
        let index;
        let l;
        let r;
        if rp >= ri.len() || (lp < li.len() && li[lp].less(&ri[rp])) {
            index = li[lp];
            l = Some(lv[lp]);
            r = None;
            lp += 1;
        } else if lp >= li.len() || ri[rp].less(&li[lp]) {
            index = ri[rp];
            l = None;
            r = Some(rv[rp]);
            rp += 1;
        } else {
            index = li[lp];
            l = Some(lv[lp]);
            r = Some(rv[rp]);
            lp += 1;
            rp += 1;
        }
        proof {
            let e = (index, l, r);
            assert(rest == seq![e] + outer_entries(li@, lv@, ri@, rv@, lp as int, rp as int));
            assert(all[n] == e);
            assert(done.push(e) + outer_entries(li@, lv@, ri@, rv@, lp as int, rp as int) =~= all);
            assert((*m).merge_req(all[n].1, all[n].2));
        }
        let value = m.merge(l, r);
        let z = is_zero(&value);
        proof {
            let e = (index, l, r);
            let d0 = done;
            let p0 = pairs;
            let z0 = zero;
            done = done.push(e);
            pairs = pairs.push((index, value));
            zero = zero.push(z);
            lemma_nonzero_prefix_push(p0, z0, (index, value), z, p0.len());
            assert(merged(*m, done, pairs)) by {
                assert forall|k: int| #![trigger pairs[k]] 0 <= k < done.len() implies pairs[k].0
                    == done[k].0 by {
                    if k < n {
                        assert(pairs[k] == p0[k]);
                        assert(done[k] == d0[k]);
                    }
                }
                assert forall|k: int| 0 <= k < done.len() implies #[trigger] (*m).merges(
                    done[k].1,
                    done[k].2,
                    pairs[k].1,
                ) by {
                    if k < n {
                        assert(pairs[k] == p0[k]);
                        assert(done[k] == d0[k]);
                        assert((*m).merges(d0[k].1, d0[k].2, p0[k].1));
                    } else {
                        assert(pairs[k] == (index, value));
                        assert(done[k] == e);
                    }
                }
            }
            assert(zero_answers(pairs, zero)) by {
                assert forall|k: int| 0 <= k < zero.len() implies #[trigger] zero_answer(
                    pairs[k].1,
                    zero[k],
                ) by {
                    if k < n {
                        assert(pairs[k] == p0[k] && zero[k] == z0[k]);
                    }
                }
            }
        }
        if !z {
            out_i.push(index);
            out_v.push(value);
        }
        proof {
            let np = nonzero_prefix(pairs, zero, pairs.len());
            assert(out_i@ =~= keys(np));
            assert(out_v@ =~= vals(np));
        }
    }
    let out = (out_i, out_v);
    proof {
        assert(done =~= all);
        assert(merged(*m, outer_entries(li@, lv@, ri@, rv@, 0, 0), pairs));
        assert(keeps_nonzero(pairs, zero, out.0@, out.1@));
    }
    out
}

/// `v` is `l * a + r` as `num_traits::MulAdd` computes it, taking a
/// missing side as `zero`.
pub open spec fn mul_add_merges<T: Copy + MulAddAssign<T, T> + Mul<Output = T> + Add<Output = T>>(
    a: T,
    zero: T,
    l: Option<T>,
    r: Option<T>,
    v: T,
) -> bool {
    match (l, r) {
        (Some(x), Some(b)) => mul_added(x, a, b, v),
        (Some(x), None) => mul_added(x, a, zero, v),
        (None, Some(b)) => mul_added(zero, a, b, v),
        (None, None) => true,
    }
}

/// `l * a + r` can be computed, taking a missing side as `zero`.
pub open spec fn mul_add_merge_req<T: Mul<Output = T> + Add<Output = T>>(
    a: T,
    zero: T,
    l: Option<T>,
    r: Option<T>,
) -> bool {
    match (l, r) {
        (Some(x), Some(b)) => mul_add_req(x, a, b),
        (Some(x), None) => mul_add_req(x, a, zero),
        (None, Some(b)) => mul_add_req(zero, a, b),
        (None, None) => true,
    }
}

/// `l * a + r` can be computed for every entry of `joined`.
pub open spec fn mul_add_merges_req<Idx, T: Mul<Output = T> + Add<Output = T>>(
    a: T,
    zero: T,
    joined: Seq<(Idx, Option<T>, Option<T>)>,
) -> bool {
    forall|k: int| 0 <= k < joined.len() ==> #[trigger] mul_add_merge_req(a, zero, joined[k].1, joined[k].2)
}

/// `pairs` holds, for each entry of `joined`, its index and its value
/// `l * a + r`.
pub open spec fn mul_add_merged<Idx, T: Copy + MulAddAssign<T, T> + Mul<Output = T> + Add<Output = T>>(
    a: T,
    zero: T,
    joined: Seq<(Idx, Option<T>, Option<T>)>,
    pairs: Seq<(Idx, T)>,
) -> bool {
    &&& pairs.len() == joined.len()
    &&& forall|k: int| #![trigger pairs[k]] 0 <= k < joined.len() ==> pairs[k].0 == joined[k].0
    &&& forall|k: int|
        0 <= k < joined.len() ==> #[trigger] mul_add_merges(a, zero, joined[k].1, joined[k].2, pairs[k].1)
}

/// Merges the outer join of `(li, lv)` and `(ri, rv)` into `l * a + r`,
/// taking a missing side as `zero`, and keeps the entries whose merged
/// value is not zero.
pub fn merge_mul_add_entries<Idx: Index, T: Default + PartialEq + Copy + MulAddAssign<T, T> + Mul<Output = T> + Add<Output = T>>(
    a: T,
    zero_value: T,
    li: &[Idx],
    lv: &[T],
    ri: &[Idx],
    rv: &[T],
) -> (out: (Vec<Idx>, Vec<T>))
    requires
        li@.len() <= lv@.len(),
        ri@.len() <= rv@.len(),
        mul_add_merges_req(a, zero_value, outer_entries(li@, lv@, ri@, rv@, 0, 0)),
    ensures
        exists|pairs: Seq<(Idx, T)>, zero: Seq<bool>|
            #![trigger mul_add_merged(a, zero_value, outer_entries(li@, lv@, ri@, rv@, 0, 0), pairs), keeps_nonzero(pairs, zero, out.0@, out.1@)]
            mul_add_merged(a, zero_value, outer_entries(li@, lv@, ri@, rv@, 0, 0), pairs) && keeps_nonzero(
                pairs,
                zero,
                out.0@,
                out.1@,
            ),
{
    let ghost all = outer_entries(li@, lv@, ri@, rv@, 0, 0);
    let ghost mut done: Seq<(Idx, Option<T>, Option<T>)> = Seq::empty();
    let ghost mut pairs: Seq<(Idx, T)> = Seq::empty();
    let ghost mut zero: Seq<bool> = Seq::empty();
    let mut out_i: Vec<Idx> = Vec::new();
    let mut out_v: Vec<T> = Vec::new();
    let mut lp: usize = 0;
    let mut rp: usize = 0;
    proof {
        assert(done + outer_entries(li@, lv@, ri@, rv@, 0, 0) =~= all);
    }
    while lp < li.len() || rp < ri.len()
        invariant
            li@.len() <= lv@.len(),
            ri@.len() <= rv@.len(),
            lp <= li@.len(),
            rp <= ri@.len(),
            all == outer_entries(li@, lv@, ri@, rv@, 0, 0),
            mul_add_merges_req(a, zero_value, all),
            done + outer_entries(li@, lv@, ri@, rv@, lp as int, rp as int) == all,
            mul_add_merged(a, zero_value, done, pairs),
            zero.len() == pairs.len(),
            zero_answers(pairs, zero),
            out_i@ == keys(nonzero_prefix(pairs, zero, pairs.len())),
            out_v@ == vals(nonzero_prefix(pairs, zero, pairs.len())),
        decreases li@.len() + ri@.len() - lp - rp,
    {
        let ghost rest = outer_entries(li@, lv@, ri@, rv@, lp as int, rp as int);
        let ghost n: int = done.len() as int;
        let index;
        let l;
        let r;
        if rp >= ri.len() || (lp < li.len() && li[lp].less(&ri[rp])) {
            index = li[lp];
            l = Some(lv[lp]);
            r = None;
            lp += 1;
        } else if lp >= li.len() || ri[rp].less(&li[lp]) {
            index = ri[rp];
            l = None;
            r = Some(rv[rp]);
            rp += 1;
        } else {
            index = li[lp];
            l = Some(lv[lp]);
            r = Some(rv[rp]);
            lp += 1;
            rp += 1;
        }
        proof {
            let e = (index, l, r);
            assert(rest == seq![e] + outer_entries(li@, lv@, ri@, rv@, lp as int, rp as int));
            assert(all[n] == e);
            assert(done.push(e) + outer_entries(li@, lv@, ri@, rv@, lp as int, rp as int) =~= all);
            assert(mul_add_merge_req(a, zero_value, all[n].1, all[n].2));
        }
        let value = match (l, r) {
            (Some(x), Some(b)) => mul_add_scalar(x, a, b),
            (Some(x), None) => mul_add_scalar(x, a, zero_value),
            (None, Some(b)) => mul_add_scalar(zero_value, a, b),
            (None, None) => zero_value,
        };
        assert(mul_add_merges(a, zero_value, l, r, value));
        let z = is_zero(&value);
        proof {
            let e = (index, l, r);
            let d0 = done;
            let p0 = pairs;
            let z0 = zero;
            done = done.push(e);
            pairs = pairs.push((index, value));
            zero = zero.push(z);
            lemma_nonzero_prefix_push(p0, z0, (index, value), z, p0.len());
            assert(mul_add_merged(a, zero_value, done, pairs)) by {
                assert forall|k: int| #![trigger pairs[k]] 0 <= k < done.len() implies pairs[k].0
                    == done[k].0 by {
                    if k < n {
                        assert(pairs[k] == p0[k]);
                        assert(done[k] == d0[k]);
                    }
                }
                assert forall|k: int| 0 <= k < done.len() implies #[trigger] mul_add_merges(
                    a,
                    zero_value,
                    done[k].1,
                    done[k].2,
                    pairs[k].1,
                ) by {
                    if k < n {
                        assert(pairs[k] == p0[k]);
                        assert(done[k] == d0[k]);
                        assert(mul_add_merges(a, zero_value, d0[k].1, d0[k].2, p0[k].1));
                    } else {
                        assert(pairs[k] == (index, value));
                        assert(done[k] == e);
                    }
                }
            }
            assert(zero_answers(pairs, zero)) by {
                assert forall|k: int| 0 <= k < zero.len() implies #[trigger] zero_answer(
                    pairs[k].1,
                    zero[k],
                ) by {
                    if k < n {
                        assert(pairs[k] == p0[k] && zero[k] == z0[k]);
                    }
                }
            }
        }
        if !z {
            out_i.push(index);
            out_v.push(value);
        }
        proof {
            let np = nonzero_prefix(pairs, zero, pairs.len());
            assert(out_i@ =~= keys(np));
            assert(out_v@ =~= vals(np));
        }
    }
    let out = (out_i, out_v);
    proof {
        assert(done =~= all);
        assert(mul_add_merged(a, zero_value, outer_entries(li@, lv@, ri@, rv@, 0, 0), pairs));
        assert(keeps_nonzero(pairs, zero, out.0@, out.1@));
    }
    out
}

/// A rule that gives the new value of an entry from its old value.
pub trait EntryMap<T> {
    /// The values on which the rule is defined.
    spec fn map_req(&self, x: T) -> bool;

    /// `v` is a value the rule gives for `x`.
    spec fn maps(&self, x: T, v: T) -> bool;

    /// The new value for `x`.
    fn map(&self, x: T) -> (v: T)
        requires
            self.map_req(x),
        ensures
            self.maps(x, v),
    ;
}

/// `pairs` holds, for each entry of `(li, lv)`, its index and a value
/// that `m` gives for its value.
pub open spec fn mapped<Idx, T, M: EntryMap<T>>(
    m: M,
    li: Seq<Idx>,
    lv: Seq<T>,
    pairs: Seq<(Idx, T)>,
) -> bool {
    &&& pairs.len() == li.len()
    &&& forall|k: int| #![trigger pairs[k]] 0 <= k < li.len() ==> pairs[k].0 == li[k]
    &&& forall|k: int| 0 <= k < li.len() ==> #[trigger] m.maps(lv[k], pairs[k].1)
}

/// Maps each value of `(li, lv)` with `m`, keeping the entries whose new
/// value is not zero.
pub fn map_entries<Idx: Index, T: Copy + Default + PartialEq, M: EntryMap<T>>(
    m: &M,
    li: &[Idx],
    lv: &[T],
) -> (out: (Vec<Idx>, Vec<T>))
    requires
        li@.len() <= lv@.len(),
        forall|k: int| 0 <= k < li@.len() ==> #[trigger] m.map_req(lv@[k]),
    ensures
        exists|pairs: Seq<(Idx, T)>, zero: Seq<bool>|
            #![trigger mapped(*m, li@, lv@, pairs), keeps_nonzero(pairs, zero, out.0@, out.1@)]
            mapped(*m, li@, lv@, pairs) && keeps_nonzero(pairs, zero, out.0@, out.1@),
{
    let ghost mut pairs: Seq<(Idx, T)> = Seq::empty();
    let ghost mut zero: Seq<bool> = Seq::empty();
    let mut out_i: Vec<Idx> = Vec::new();
    let mut out_v: Vec<T> = Vec::new();
    let mut i: usize = 0;
    while i < li.len()
        invariant
            li@.len() <= lv@.len(),
            forall|k: int| 0 <= k < li@.len() ==> #[trigger] m.map_req(lv@[k]),
            i <= li@.len(),
            mapped(*m, li@.take(i as int), lv@, pairs),
            zero.len() == pairs.len(),
            zero_answers(pairs, zero),
            out_i@ == keys(nonzero_prefix(pairs, zero, pairs.len())),
            out_v@ == vals(nonzero_prefix(pairs, zero, pairs.len())),
        decreases li@.len() - i,
    {
        let index = li[i];
        let value = m.map(lv[i]);
        let z = is_zero(&value);
        proof {
            let p0 = pairs;
            let z0 = zero;
            let n = i as int;
            pairs = pairs.push((index, value));
            zero = zero.push(z);
            lemma_nonzero_prefix_push(p0, z0, (index, value), z, p0.len());
            assert forall|k: int| #![trigger pairs[k]] 0 <= k < n + 1 implies pairs[k].0
                == li@.take(n + 1)[k] by {
                if k < n {
                    assert(pairs[k] == p0[k]);
                    assert(p0[k].0 == li@.take(n)[k]);
                }
            }
            assert forall|k: int| 0 <= k < n + 1 implies #[trigger] (*m).maps(lv@[k], pairs[k].1) by {
                if k < n {
                    assert(pairs[k] == p0[k]);
                    assert((*m).maps(lv@[k], p0[k].1));
                }
            }
            assert(mapped(*m, li@.take(n + 1), lv@, pairs));
            assert forall|k: int| 0 <= k < zero.len() implies #[trigger] zero_answer(
                pairs[k].1,
                zero[k],
            ) by {
                if k < n {
                    assert(pairs[k] == p0[k] && zero[k] == z0[k]);
                }
            }
        }
        if !z {
            out_i.push(index);
            out_v.push(value);
        }
        proof {
            let np = nonzero_prefix(pairs, zero, pairs.len());
            assert(out_i@ =~= keys(np));
            assert(out_v@ =~= vals(np));
        }
        i += 1;
    }
    let out = (out_i, out_v);
    proof {
        assert(li@.take(i as int) =~= li@);
        assert(mapped(*m, li@, lv@, pairs));
        assert(keeps_nonzero(pairs, zero, out.0@, out.1@));
    }
    out
}

/// Adds the values on the two sides; an entry on one side keeps its value.
pub struct AddEntries;

impl<T: Copy + Default + Add<Output = T>> EntryMerge<T> for AddEntries {
    open spec fn merge_req(&self, l: Option<T>, r: Option<T>) -> bool {
        match (l, r) {
            (Some(a), Some(b)) => a.add_req(b),
            _ => true,
        }
    }

    open spec fn merges(&self, l: Option<T>, r: Option<T>, v: T) -> bool {
        match (l, r) {
            (Some(a), Some(b)) => T::obeys_add_spec() ==> v == a.add_spec(b),
            (Some(a), None) => v == a,
            (None, Some(b)) => v == b,
            (None, None) => true,
        }
    }

    fn merge(&self, l: Option<T>, r: Option<T>) -> (v: T) {
        match (l, r) {
            (Some(a), Some(b)) => a + b,
            (Some(a), None) => a,
            (None, Some(b)) => b,
            (None, None) => T::default(),
        }
    }
}

/// Subtracts the right value from the left one, taking a missing side as
/// `zero`.
pub struct SubEntries<T> {
    /// The value of a missing left side.
    pub zero: T,
}

impl<T: Copy + Default + Sub<Output = T>> EntryMerge<T> for SubEntries<T> {
    open spec fn merge_req(&self, l: Option<T>, r: Option<T>) -> bool {
        match (l, r) {
            (Some(a), Some(b)) => a.sub_req(b),
            (None, Some(b)) => self.zero.sub_req(b),
            _ => true,
        }
    }

    open spec fn merges(&self, l: Option<T>, r: Option<T>, v: T) -> bool {
        match (l, r) {
            (Some(a), Some(b)) => T::obeys_sub_spec() ==> v == a.sub_spec(b),
            (Some(a), None) => v == a,
            (None, Some(b)) => T::obeys_sub_spec() ==> v == self.zero.sub_spec(b),
            (None, None) => true,
        }
    }

    fn merge(&self, l: Option<T>, r: Option<T>) -> (v: T) {
        match (l, r) {
            (Some(a), Some(b)) => a - b,
            (Some(a), None) => a,
            (None, Some(b)) => self.zero - b,
            (None, None) => T::default(),
        }
    }
}

/// Multiplies each value by `k`.
pub struct MulBy<T> {
    /// The factor.
    pub k: T,
}

impl<T: Copy + Mul<Output = T>> EntryMap<T> for MulBy<T> {
    open spec fn map_req(&self, x: T) -> bool {
        x.mul_req(self.k)
    }

    open spec fn maps(&self, x: T, v: T) -> bool {
        T::obeys_mul_spec() ==> v == x.mul_spec(self.k)
    }

    fn map(&self, x: T) -> (v: T) {
        x * self.k
    }
}

/// Divides each value by `k`.
pub struct DivBy<T> {
    /// The divisor.
    pub k: T,
}

impl<T: Copy + Div<Output = T>> EntryMap<T> for DivBy<T> {
    open spec fn map_req(&self, x: T) -> bool {
        x.div_req(self.k)
    }

    open spec fn maps(&self, x: T, v: T) -> bool {
        T::obeys_div_spec() ==> v == x.div_spec(self.k)
    }

    fn map(&self, x: T) -> (v: T) {
        x / self.k
    }
}

/// `s` stores the entries of `pairs` whose value is not zero, where
/// `zero` answers for each value: all of them where it can hold that
/// many, else as many as it holds.
pub open spec fn stores_kept<Idx, T: Default + PartialEq, S: FromCanonicalPairs<Idx, T>>(
    pairs: Seq<(Idx, T)>,
    zero: Seq<bool>,
    s: S,
) -> bool {
    &&& zero.len() == pairs.len()
    &&& zero_answers(pairs, zero)
    &&& stores_prefix(s, keys(nonzero_pairs(pairs, zero)), vals(nonzero_pairs(pairs, zero)))
}

/// The entries of the outer join of `a` and `b`.
pub open spec fn joined_entries<Idx: Index, T, S: FromCanonicalPairs<Idx, T>>(
    a: &GenericSparseVec<Idx, T, S>,
    b: &GenericSparseVec<Idx, T, S>,
) -> Seq<(Idx, Option<T>, Option<T>)> {
    outer_entries(a.index_view(), a.value_view(), b.index_view(), b.value_view(), 0, 0)
}

impl<Idx: Index, T: Copy + Default + PartialEq, S: FromCanonicalPairs<Idx, T>> GenericSparseVec<
    Idx,
    T,
    S,
> {
    /// Replaces the storage by the kept entries `(oi, ov)`.
    fn store_entries(&mut self, oi: Vec<Idx>, ov: Vec<T>)
        requires
            oi@.len() == ov@.len(),
        ensures
            stores_prefix(final(self).storage_view(), oi@, ov@),
    {
        self.storage = S::from_canonical_parts(oi, ov);
    }
}

impl<Idx: Index, T: Copy + Default + PartialEq + Add<Output = T>, S: FromCanonicalPairs<Idx, T>> GenericSparseVec<
    Idx,
    T,
    S,
> {
    /// Adds `rhs` to `self`: each index of either vector gets the sum of
    /// its values on the two sides (a missing side counting as nothing),
    /// and entries whose sum is zero are dropped.
    pub fn add_assign(&mut self, rhs: &Self)
        requires
            parallel(&old(self).storage_view()),
            parallel(&rhs.storage_view()),
            merge_defined(AddEntries, joined_entries(old(self), rhs)),
        ensures
            exists|pairs: Seq<(Idx, T)>, zero: Seq<bool>|
                #![trigger merged(AddEntries, joined_entries(old(self), rhs), pairs), stores_kept(pairs, zero, final(self).storage_view())]
                merged(AddEntries, joined_entries(old(self), rhs), pairs) && stores_kept(
                    pairs,
                    zero,
                    final(self).storage_view(),
                ),
            old(self).wf() && rhs.wf() ==> final(self).wf() && nonzero_values(final(self).value_view()),
    {
        let (oi, ov) = merge_entries(
            &AddEntries,
            SparseVector::indices(self),
            SparseVector::values(self),
            SparseVector::indices(rhs),
            SparseVector::values(rhs),
        );
        let ghost joined = joined_entries(old(self), rhs);
        let ghost (pairs, zero) = choose|pairs: Seq<(Idx, T)>, zero: Seq<bool>|
            merged(AddEntries, joined, pairs) && keeps_nonzero(pairs, zero, oi@, ov@);
        self.store_entries(oi, ov);
        proof {
            assert(merged(AddEntries, joined, pairs) && stores_kept(pairs, zero, self.storage_view()));
            if old(self).wf() && rhs.wf() {
                lemma_outer_entries_sorted(
                    old(self).index_view(),
                    old(self).value_view(),
                    rhs.index_view(),
                    rhs.value_view(),
                    0,
                    0,
                );
                lemma_merged_keys(AddEntries, joined, pairs);
                lemma_stores_kept_canonical(pairs, zero, self.storage_view());
            }
        }
    }

    /// `self + rhs`, as [`GenericSparseVec::add_assign`] computes it.
    pub fn add(self, rhs: &Self) -> (r: Self)
        requires
            parallel(&self.storage_view()),
            parallel(&rhs.storage_view()),
            merge_defined(AddEntries, joined_entries(&self, rhs)),
        ensures
            exists|pairs: Seq<(Idx, T)>, zero: Seq<bool>|
                #![trigger merged(AddEntries, joined_entries(&self, rhs), pairs), stores_kept(pairs, zero, r.storage_view())]
                merged(AddEntries, joined_entries(&self, rhs), pairs) && stores_kept(
                    pairs,
                    zero,
                    r.storage_view(),
                ),
            self.wf() && rhs.wf() ==> r.wf() && nonzero_values(r.value_view()),
    {
        let mut v = self;
        v.add_assign(rhs);
        v
    }
}

impl<Idx: Index, T: Copy + Default + PartialEq + Sub<Output = T>, S: FromCanonicalPairs<Idx, T>> GenericSparseVec<
    Idx,
    T,
    S,
> {
    /// Subtracts `rhs` from `self`: each index of either vector gets the
    /// difference of its values on the two sides (a missing side counting
    /// as zero), and entries whose difference is zero are dropped.
    pub fn sub_assign(&mut self, rhs: &Self)
        requires
            parallel(&old(self).storage_view()),
            parallel(&rhs.storage_view()),
            forall|d: T|
                #[trigger] is_default(d) ==> merge_defined(
                    SubEntries { zero: d },
                    joined_entries(old(self), rhs),
                ),
        ensures
            exists|d: T, pairs: Seq<(Idx, T)>, zero: Seq<bool>|
                #![trigger merged(SubEntries { zero: d }, joined_entries(old(self), rhs), pairs), stores_kept(pairs, zero, final(self).storage_view())]
                is_default(d) && merged(SubEntries { zero: d }, joined_entries(old(self), rhs), pairs)
                    && stores_kept(pairs, zero, final(self).storage_view()),
            old(self).wf() && rhs.wf() ==> final(self).wf() && nonzero_values(final(self).value_view()),
    {
        let rule = SubEntries { zero: T::default() };
        proof {
            assert(is_default(rule.zero));
        }
        let (oi, ov) = merge_entries(
            &rule,
            SparseVector::indices(self),
            SparseVector::values(self),
            SparseVector::indices(rhs),
            SparseVector::values(rhs),
        );
        let ghost joined = joined_entries(old(self), rhs);
        let ghost (pairs, zero) = choose|pairs: Seq<(Idx, T)>, zero: Seq<bool>|
            merged(rule, joined, pairs) && keeps_nonzero(pairs, zero, oi@, ov@);
        self.store_entries(oi, ov);
        proof {
            assert(is_default(rule.zero) && merged(SubEntries { zero: rule.zero }, joined, pairs)
                && stores_kept(pairs, zero, self.storage_view()));
            if old(self).wf() && rhs.wf() {
                lemma_outer_entries_sorted(
                    old(self).index_view(),
                    old(self).value_view(),
                    rhs.index_view(),
                    rhs.value_view(),
                    0,
                    0,
                );
                lemma_merged_keys(rule, joined, pairs);
                lemma_stores_kept_canonical(pairs, zero, self.storage_view());
            }
        }
    }

    /// `self - rhs`, as [`GenericSparseVec::sub_assign`] computes it.
    pub fn sub(self, rhs: &Self) -> (r: Self)
        requires
            parallel(&self.storage_view()),
            parallel(&rhs.storage_view()),
            forall|d: T|
                #[trigger] is_default(d) ==> merge_defined(
                    SubEntries { zero: d },
                    joined_entries(&self, rhs),
                ),
        ensures
            exists|d: T, pairs: Seq<(Idx, T)>, zero: Seq<bool>|
                #![trigger merged(SubEntries { zero: d }, joined_entries(&self, rhs), pairs), stores_kept(pairs, zero, r.storage_view())]
                is_default(d) && merged(SubEntries { zero: d }, joined_entries(&self, rhs), pairs)
                    && stores_kept(pairs, zero, r.storage_view()),
            self.wf() && rhs.wf() ==> r.wf() && nonzero_values(r.value_view()),
    {
        let mut v = self;
        v.sub_assign(rhs);
        v
    }
}

impl<Idx: Index, T: Copy + Default + PartialEq + Mul<Output = T>, S: FromCanonicalPairs<Idx, T>> GenericSparseVec<
    Idx,
    T,
    S,
> {
    /// Multiplies each value of `self` by `rhs`, dropping the entries whose
    /// product is zero.
    pub fn mul_assign(&mut self, rhs: T)
        requires
            parallel(&old(self).storage_view()),
            forall|k: int|
                0 <= k < old(self).value_view().len() ==> #[trigger] old(self).value_view()[k].mul_req(rhs),
        ensures
            exists|pairs: Seq<(Idx, T)>, zero: Seq<bool>|
                #![trigger mapped(MulBy { k: rhs }, old(self).index_view(), old(self).value_view(), pairs), stores_kept(pairs, zero, final(self).storage_view())]
                mapped(MulBy { k: rhs }, old(self).index_view(), old(self).value_view(), pairs)
                    && stores_kept(pairs, zero, final(self).storage_view()),
            old(self).wf() ==> final(self).wf() && nonzero_values(final(self).value_view()),
    {
        let rule = MulBy { k: rhs };
        let li = SparseVector::indices(self);
        let lv = SparseVector::values(self);
        proof {
            assert forall|k: int| 0 <= k < li@.len() implies #[trigger] rule.map_req(lv@[k]) by {
                assert(old(self).value_view()[k].mul_req(rhs));
            }
        }
        let (oi, ov) = map_entries(&rule, li, lv);
        let ghost (pairs, zero) = choose|pairs: Seq<(Idx, T)>, zero: Seq<bool>|
            mapped(rule, li@, lv@, pairs) && keeps_nonzero(pairs, zero, oi@, ov@);
        self.store_entries(oi, ov);
        proof {
            assert(mapped(rule, old(self).index_view(), old(self).value_view(), pairs)
                && stores_kept(pairs, zero, self.storage_view()));
            if old(self).wf() {
                assert(keys(pairs) =~= old(self).index_view());
                lemma_stores_kept_canonical(pairs, zero, self.storage_view());
            }
        }
    }

    /// `self * rhs`, as [`GenericSparseVec::mul_assign`] computes it.
    pub fn mul(self, rhs: T) -> (r: Self)
        requires
            parallel(&self.storage_view()),
            forall|k: int|
                0 <= k < self.value_view().len() ==> #[trigger] self.value_view()[k].mul_req(rhs),
        ensures
            exists|pairs: Seq<(Idx, T)>, zero: Seq<bool>|
                #![trigger mapped(MulBy { k: rhs }, self.index_view(), self.value_view(), pairs), stores_kept(pairs, zero, r.storage_view())]
                mapped(MulBy { k: rhs }, self.index_view(), self.value_view(), pairs)
                    && stores_kept(pairs, zero, r.storage_view()),
            self.wf() ==> r.wf() && nonzero_values(r.value_view()),
    {
        let mut v = self;
        v.mul_assign(rhs);
        v
    }
}

impl<Idx: Index, T: Copy + Default + PartialEq + Div<Output = T>, S: FromCanonicalPairs<Idx, T>> GenericSparseVec<
    Idx,
    T,
    S,
> {
    /// Divides each value of `self` by `rhs`, dropping the entries whose
    /// quotient is zero.
    pub fn div_assign(&mut self, rhs: T)
        requires
            parallel(&old(self).storage_view()),
            forall|k: int|
                0 <= k < old(self).value_view().len() ==> #[trigger] old(self).value_view()[k].div_req(rhs),
        ensures
            exists|pairs: Seq<(Idx, T)>, zero: Seq<bool>|
                #![trigger mapped(DivBy { k: rhs }, old(self).index_view(), old(self).value_view(), pairs), stores_kept(pairs, zero, final(self).storage_view())]
                mapped(DivBy { k: rhs }, old(self).index_view(), old(self).value_view(), pairs)
                    && stores_kept(pairs, zero, final(self).storage_view()),
            old(self).wf() ==> final(self).wf() && nonzero_values(final(self).value_view()),
    {
        let rule = DivBy { k: rhs };
        let li = SparseVector::indices(self);
        let lv = SparseVector::values(self);
        proof {
            assert forall|k: int| 0 <= k < li@.len() implies #[trigger] rule.map_req(lv@[k]) by {
                assert(old(self).value_view()[k].div_req(rhs));
            }
        }
        let (oi, ov) = map_entries(&rule, li, lv);
        let ghost (pairs, zero) = choose|pairs: Seq<(Idx, T)>, zero: Seq<bool>|
            mapped(rule, li@, lv@, pairs) && keeps_nonzero(pairs, zero, oi@, ov@);
        self.store_entries(oi, ov);
        proof {
            assert(mapped(rule, old(self).index_view(), old(self).value_view(), pairs)
                && stores_kept(pairs, zero, self.storage_view()));
            if old(self).wf() {
                assert(keys(pairs) =~= old(self).index_view());
                lemma_stores_kept_canonical(pairs, zero, self.storage_view());
            }
        }
    }

    /// `self / rhs`, as [`GenericSparseVec::div_assign`] computes it.
    pub fn div(self, rhs: T) -> (r: Self)
        requires
            parallel(&self.storage_view()),
            forall|k: int|
                0 <= k < self.value_view().len() ==> #[trigger] self.value_view()[k].div_req(rhs),
        ensures
            exists|pairs: Seq<(Idx, T)>, zero: Seq<bool>|
                #![trigger mapped(DivBy { k: rhs }, self.index_view(), self.value_view(), pairs), stores_kept(pairs, zero, r.storage_view())]
                mapped(DivBy { k: rhs }, self.index_view(), self.value_view(), pairs)
                    && stores_kept(pairs, zero, r.storage_view()),
            self.wf() ==> r.wf() && nonzero_values(r.value_view()),
    {
        let mut v = self;
        v.div_assign(rhs);
        v
    }
}

impl<Idx: Index, T: Default + PartialEq + Copy + MulAddAssign<T, T> + Mul<Output = T> + Add<Output = T>, S: FromCanonicalPairs<
    Idx,
    T,
>> GenericSparseVec<Idx, T, S> {
    /// Replaces `self` by `self * a + b`: each index of either vector gets
    /// `l * a + r` from its values on the two sides (a missing side
    /// counting as zero), as `num_traits::MulAdd` computes it, and entries
    /// whose result is zero are dropped. Each `l * a + r` must be defined.
    pub fn mul_add_assign(&mut self, a: T, b: &Self)
        requires
            parallel(&old(self).storage_view()),
            parallel(&b.storage_view()),
            forall|d: T| is_default(d) ==> #[trigger] mul_add_merges_req(a, d, joined_entries(old(self), b)),
        ensures
            exists|d: T, pairs: Seq<(Idx, T)>, zero: Seq<bool>|
                #![trigger mul_add_merged(a, d, joined_entries(old(self), b), pairs), stores_kept(pairs, zero, final(self).storage_view())]
                is_default(d) && mul_add_merged(a, d, joined_entries(old(self), b), pairs)
                    && stores_kept(pairs, zero, final(self).storage_view()),
            old(self).wf() && b.wf() ==> final(self).wf() && nonzero_values(final(self).value_view()),
    {
        let zero_value = T::default();
        proof {
            assert(is_default(zero_value));
            assert(mul_add_merges_req(a, zero_value, joined_entries(old(self), b)));
        }
        let (oi, ov) = merge_mul_add_entries(
            a,
            zero_value,
            SparseVector::indices(self),
            SparseVector::values(self),
            SparseVector::indices(b),
            SparseVector::values(b),
        );
        let ghost joined = joined_entries(old(self), b);
        let ghost (pairs, zero) = choose|pairs: Seq<(Idx, T)>, zero: Seq<bool>|
            mul_add_merged(a, zero_value, joined, pairs) && keeps_nonzero(pairs, zero, oi@, ov@);
        self.store_entries(oi, ov);
        proof {
            assert(is_default(zero_value) && mul_add_merged(a, zero_value, joined, pairs)
                && stores_kept(pairs, zero, self.storage_view()));
            if old(self).wf() && b.wf() {
                lemma_outer_entries_sorted(
                    old(self).index_view(),
                    old(self).value_view(),
                    b.index_view(),
                    b.value_view(),
                    0,
                    0,
                );
                assert(keys(pairs) =~= entry_keys(joined));
                lemma_stores_kept_canonical(pairs, zero, self.storage_view());
            }
        }
    }

    /// `self * a + b`, as [`GenericSparseVec::mul_add_assign`] computes it.
    pub fn mul_add(self, a: T, b: &Self) -> (r: Self)
        requires
            parallel(&self.storage_view()),
            parallel(&b.storage_view()),
            forall|d: T| is_default(d) ==> #[trigger] mul_add_merges_req(a, d, joined_entries(&self, b)),
        ensures
            exists|d: T, pairs: Seq<(Idx, T)>, zero: Seq<bool>|
                #![trigger mul_add_merged(a, d, joined_entries(&self, b), pairs), stores_kept(pairs, zero, r.storage_view())]
                is_default(d) && mul_add_merged(a, d, joined_entries(&self, b), pairs)
                    && stores_kept(pairs, zero, r.storage_view()),
            self.wf() && b.wf() ==> r.wf() && nonzero_values(r.value_view()),
    {
        let mut v = self;
        v.mul_add_assign(a, b);
        v
    }
}

impl<'b, Idx: Index, T: Copy + Default + PartialEq + Add<Output = T>, S: FromCanonicalPairs<Idx, T>> Add<&'b GenericSparseVec<Idx, T, S>> for GenericSparseVec<Idx, T, S> {
    type Output = Self;

    /// As [`GenericSparseVec::add`].
    fn add(self, rhs: &'b GenericSparseVec<Idx, T, S>) -> (r: Self)
        ensures
            exists|pairs: Seq<(Idx, T)>, zero: Seq<bool>|
                #![trigger merged(AddEntries, joined_entries(&self, rhs), pairs), stores_kept(pairs, zero, r.storage_view())]
                merged(AddEntries, joined_entries(&self, rhs), pairs) && stores_kept(
                    pairs,
                    zero,
                    r.storage_view(),
                ),
            self.wf() && rhs.wf() ==> r.wf() && nonzero_values(r.value_view()),
    {
        GenericSparseVec::add(self, rhs)
    }
}

impl<'b, Idx: Index, T: Copy + Default + PartialEq + Add<Output = T>, S: FromCanonicalPairs<Idx, T>> AddSpecImpl<&'b GenericSparseVec<Idx, T, S>> for GenericSparseVec<Idx, T, S> {
    open spec fn obeys_add_spec() -> bool {
        false
    }

    /// The operands on which the operation is defined.
    open spec fn add_req(self, rhs: &'b GenericSparseVec<Idx, T, S>) -> bool {
        &&& parallel(&self.storage_view())
        &&& parallel(&rhs.storage_view())
        &&& merge_defined(AddEntries, joined_entries(&self, rhs))
    }

    open spec fn add_spec(self, rhs: &'b GenericSparseVec<Idx, T, S>) -> Self {
        arbitrary()
    }
}

impl<'b, Idx: Index, T: Copy + Default + PartialEq + Sub<Output = T>, S: FromCanonicalPairs<Idx, T>> Sub<&'b GenericSparseVec<Idx, T, S>> for GenericSparseVec<Idx, T, S> {
    type Output = Self;

    /// As [`GenericSparseVec::sub`].
    fn sub(self, rhs: &'b GenericSparseVec<Idx, T, S>) -> (r: Self)
        ensures
            exists|d: T, pairs: Seq<(Idx, T)>, zero: Seq<bool>|
                #![trigger merged(SubEntries { zero: d }, joined_entries(&self, rhs), pairs), stores_kept(pairs, zero, r.storage_view())]
                is_default(d) && merged(SubEntries { zero: d }, joined_entries(&self, rhs), pairs)
                    && stores_kept(pairs, zero, r.storage_view()),
            self.wf() && rhs.wf() ==> r.wf() && nonzero_values(r.value_view()),
    {
        GenericSparseVec::sub(self, rhs)
    }
}

impl<'b, Idx: Index, T: Copy + Default + PartialEq + Sub<Output = T>, S: FromCanonicalPairs<Idx, T>> SubSpecImpl<&'b GenericSparseVec<Idx, T, S>> for GenericSparseVec<Idx, T, S> {
    open spec fn obeys_sub_spec() -> bool {
        false
    }

    /// The operands on which the operation is defined.
    open spec fn sub_req(self, rhs: &'b GenericSparseVec<Idx, T, S>) -> bool {
        &&& parallel(&self.storage_view())
        &&& parallel(&rhs.storage_view())
        &&& forall|d: T|
            #[trigger] is_default(d) ==> merge_defined(SubEntries { zero: d }, joined_entries(&self, rhs))
    }

    open spec fn sub_spec(self, rhs: &'b GenericSparseVec<Idx, T, S>) -> Self {
        arbitrary()
    }
}

impl<Idx: Index, T: Copy + Default + PartialEq + Mul<Output = T>, S: FromCanonicalPairs<Idx, T>> Mul<T> for GenericSparseVec<Idx, T, S> {
    type Output = Self;

    /// As [`GenericSparseVec::mul`].
    fn mul(self, rhs: T) -> (r: Self)
        ensures
            exists|pairs: Seq<(Idx, T)>, zero: Seq<bool>|
                #![trigger mapped(MulBy { k: rhs }, self.index_view(), self.value_view(), pairs), stores_kept(pairs, zero, r.storage_view())]
                mapped(MulBy { k: rhs }, self.index_view(), self.value_view(), pairs)
                    && stores_kept(pairs, zero, r.storage_view()),
            self.wf() ==> r.wf() && nonzero_values(r.value_view()),
    {
        GenericSparseVec::mul(self, rhs)
    }
}

impl<Idx: Index, T: Copy + Default + PartialEq + Mul<Output = T>, S: FromCanonicalPairs<Idx, T>> MulSpecImpl<T> for GenericSparseVec<Idx, T, S> {
    open spec fn obeys_mul_spec() -> bool {
        false
    }

    /// The operands on which the operation is defined.
    open spec fn mul_req(self, rhs: T) -> bool {
        &&& parallel(&self.storage_view())
        &&& forall|k: int|
            0 <= k < self.value_view().len() ==> #[trigger] self.value_view()[k].mul_req(rhs)
    }

    open spec fn mul_spec(self, rhs: T) -> Self {
        arbitrary()
    }
}

impl<Idx: Index, T: Copy + Default + PartialEq + Div<Output = T>, S: FromCanonicalPairs<Idx, T>> Div<T> for GenericSparseVec<Idx, T, S> {
    type Output = Self;

    /// As [`GenericSparseVec::div`].
    fn div(self, rhs: T) -> (r: Self)
        ensures
            exists|pairs: Seq<(Idx, T)>, zero: Seq<bool>|
                #![trigger mapped(DivBy { k: rhs }, self.index_view(), self.value_view(), pairs), stores_kept(pairs, zero, r.storage_view())]
                mapped(DivBy { k: rhs }, self.index_view(), self.value_view(), pairs)
                    && stores_kept(pairs, zero, r.storage_view()),
            self.wf() ==> r.wf() && nonzero_values(r.value_view()),
    {
        GenericSparseVec::div(self, rhs)
    }
}

impl<Idx: Index, T: Copy + Default + PartialEq + Div<Output = T>, S: FromCanonicalPairs<Idx, T>> DivSpecImpl<T> for GenericSparseVec<Idx, T, S> {
    open spec fn obeys_div_spec() -> bool {
        false
    }

    /// The operands on which the operation is defined.
    open spec fn div_req(self, rhs: T) -> bool {
        &&& parallel(&self.storage_view())
        &&& forall|k: int|
            0 <= k < self.value_view().len() ==> #[trigger] self.value_view()[k].div_req(rhs)
    }

    open spec fn div_spec(self, rhs: T) -> Self {
        arbitrary()
    }
}

/// No value of `s` is zero, as far as `T`'s `==` tells.
pub open spec fn nonzero_values<T: Default + PartialEq>(s: Seq<T>) -> bool {
    forall|k: int| 0 <= k < s.len() ==> #[trigger] zero_answer(s[k], false)
}

/// The kept entries of a strictly increasing list strictly increase, and
/// precede every entry from `n` on.
pub(crate) proof fn lemma_nonzero_prefix_sorted<Idx: Index, T>(pairs: Seq<(Idx, T)>, zero: Seq<bool>, n: nat)
    requires
        n <= pairs.len(),
        n <= zero.len(),
        strictly_increasing(keys(pairs)),
    ensures
        strictly_increasing(keys(nonzero_prefix(pairs, zero, n))),
        forall|j: int, m: int|
            0 <= j < nonzero_prefix(pairs, zero, n).len() && n <= m < pairs.len() ==> (
            #[trigger] nonzero_prefix(pairs, zero, n)[j]).0.rank() < (#[trigger] pairs[m]).0.rank(),
    decreases n,
{
    if n > 0 {
        lemma_nonzero_prefix_sorted(pairs, zero, (n - 1) as nat);
        let r = nonzero_prefix(pairs, zero, (n - 1) as nat);
        let c = nonzero_prefix(pairs, zero, n);
        assert forall|m: int| n <= m < pairs.len() implies pairs[n - 1].0.rank() < (
        #[trigger] pairs[m]).0.rank() by {
            assert(keys(pairs)[n - 1] == pairs[n - 1].0);
            assert(keys(pairs)[m] == pairs[m].0);
        }
        if !zero[n - 1] {
            assert forall|a: int, b: int| 0 <= a < b < keys(c).len() implies keys(c)[a].rank()
                < keys(c)[b].rank() by {
                assert(keys(c)[a] == c[a].0);
                assert(keys(c)[b] == c[b].0);
                assert(c[a] == r[a]);
                if b < r.len() {
                    assert(c[b] == r[b]);
                    assert(keys(r)[a] == r[a].0);
                    assert(keys(r)[b] == r[b].0);
                } else {
                    assert(c[b] == pairs[n - 1]);
                    assert(r[a].0.rank() < pairs[n - 1].0.rank());
                }
            }
            assert forall|j: int, m: int|
                0 <= j < c.len() && n <= m < pairs.len() implies (#[trigger] c[j]).0.rank() < (
            #[trigger] pairs[m]).0.rank() by {
                if j < r.len() {
                    assert(c[j] == r[j]);
                    assert(r[j].0.rank() < pairs[m].0.rank());
                }
            }
        } else {
            assert forall|j: int, m: int|
                0 <= j < c.len() && n <= m < pairs.len() implies (#[trigger] c[j]).0.rank() < (
            #[trigger] pairs[m]).0.rank() by {
                assert(r[j].0.rank() < pairs[m].0.rank());
            }
        }
    }
}

/// The kept entries are those whose zero answer is `false`.
proof fn lemma_nonzero_prefix_values<Idx, T: Default + PartialEq>(
    pairs: Seq<(Idx, T)>,
    zero: Seq<bool>,
    n: nat,
)
    requires
        n <= pairs.len(),
        n <= zero.len(),
        zero_answers(pairs, zero),
    ensures
        nonzero_values(vals(nonzero_prefix(pairs, zero, n))),
    decreases n,
{
    if n > 0 {
        lemma_nonzero_prefix_values(pairs, zero, (n - 1) as nat);
        let r = nonzero_prefix(pairs, zero, (n - 1) as nat);
        let c = nonzero_prefix(pairs, zero, n);
        assert forall|k: int| 0 <= k < vals(c).len() implies #[trigger] zero_answer(
            vals(c)[k],
            false,
        ) by {
            if k < r.len() {
                assert(vals(c)[k] == vals(r)[k]);
            } else {
                assert(vals(c)[k] == pairs[n - 1].1);
                assert(zero_answer(pairs[n - 1].1, zero[n - 1]));
            }
        }
    }
}

/// Storage that keeps the non-zero entries of `pairs`, whose indices
/// strictly increase, is well formed and holds no zero.
pub proof fn lemma_stores_kept_canonical<Idx: Index, T: Default + PartialEq, S: FromCanonicalPairs<Idx, T>>(
    pairs: Seq<(Idx, T)>,
    zero: Seq<bool>,
    s: S,
)
    requires
        strictly_increasing(keys(pairs)),
        stores_kept(pairs, zero, s),
    ensures
        parallel(&s),
        strictly_increasing(s.spec_indices()),
        nonzero_values(s.spec_values()),
{
    lemma_nonzero_prefix_sorted(pairs, zero, pairs.len());
    lemma_nonzero_prefix_values(pairs, zero, pairs.len());
    let kept = nonzero_pairs(pairs, zero);
    let n = s.spec_indices().len() as int;
    assert forall|a: int, b: int| 0 <= a < b < s.spec_indices().len() implies s.spec_indices()[a].rank()
        < s.spec_indices()[b].rank() by {
        assert(s.spec_indices()[a] == keys(kept)[a]);
        assert(s.spec_indices()[b] == keys(kept)[b]);
    }
    assert forall|k: int| 0 <= k < s.spec_values().len() implies #[trigger] zero_answer(
        s.spec_values()[k],
        false,
    ) by {
        assert(s.spec_values()[k] == vals(kept)[k]);
    }
}

/// The entries merged from an outer join carry its indices.
proof fn lemma_merged_keys<Idx, T, M: EntryMerge<T>>(
    m: M,
    joined: Seq<(Idx, Option<T>, Option<T>)>,
    pairs: Seq<(Idx, T)>,
)
    requires
        merged(m, joined, pairs),
    ensures
        keys(pairs) == entry_keys(joined),
{
    assert(keys(pairs) =~= entry_keys(joined));
}

/// Pushing an entry and its zero answer leaves the entries kept among the
/// first `n` as they were.
proof fn lemma_nonzero_prefix_push<Idx, T>(
    p0: Seq<(Idx, T)>,
    z0: Seq<bool>,
    e: (Idx, T),
    b: bool,
    n: nat,
)
    requires
        n <= p0.len(),
        n <= z0.len(),
    ensures
        nonzero_prefix(p0.push(e), z0.push(b), n) == nonzero_prefix(p0, z0, n),
    decreases n,
{
    if n > 0 {
        lemma_nonzero_prefix_push(p0, z0, e, b, (n - 1) as nat);
        assert(p0.push(e)[n - 1] == p0[n - 1]);
        assert(z0.push(b)[n - 1] == z0[n - 1]);
    }
}

} // verus!

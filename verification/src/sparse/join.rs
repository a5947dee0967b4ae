//! Outer and inner joins of two sorted sparse-vector entry slices.

use vstd::prelude::*;

use crate::sparse::util::strictly_increasing;
use crate::Index;

verus! {

/// The result of a join between entries at matching positions.
#[derive(Clone, PartialEq, Debug)]
pub enum Join<'a, T> {
    /// An entry that is only present in the left vector.
    Left(&'a T),
    /// An entry only present in the right vector.
    Right(&'a T),
    /// An entry present in both vectors.
    Both(&'a T, &'a T),
}

/// The outer join takes the left head next: the right side is done, or the
/// left head has the smaller index.
pub open spec fn takes_left<Idx: Index>(li: Seq<Idx>, ri: Seq<Idx>, lp: int, rp: int) -> bool {
    lp < li.len() && (rp >= ri.len() || li[lp].rank() < ri[rp].rank())
}

/// The outer join takes the right head next.
pub open spec fn takes_right<Idx: Index>(li: Seq<Idx>, ri: Seq<Idx>, lp: int, rp: int) -> bool {
    rp < ri.len() && (lp >= li.len() || ri[rp].rank() < li[lp].rank())
}

/// Both heads carry the same index.
pub open spec fn takes_both<Idx: Index>(li: Seq<Idx>, ri: Seq<Idx>, lp: int, rp: int) -> bool {
    lp < li.len() && rp < ri.len() && li[lp].rank() == ri[rp].rank()
}

/// `k` is an index of `s[from..]`.
pub open spec fn occurs_from<Idx>(s: Seq<Idx>, from: int, k: Idx) -> bool {
    exists|i: int| #![trigger s[i]] from <= i < s.len() && s[i] == k
}

/// `merge` accepts every index and join.
pub open spec fn outer_merge_total<'a, T: 'a, Idx, F: Fn(Idx, Join<'a, T>) -> T>(merge: F) -> bool {
    forall|k: Idx, j: Join<'a, T>| call_requires(merge, (k, j))
}

/// The entries of the outer join of `(li, lv)` from `lp` on and
/// `(ri, rv)` from `rp` on, in the order the join yields them: each with
/// its index and the value on each side that holds the index.
pub open spec fn outer_entries<Idx: Index, T>(
    li: Seq<Idx>,
    lv: Seq<T>,
    ri: Seq<Idx>,
    rv: Seq<T>,
    lp: int,
    rp: int,
) -> Seq<(Idx, Option<T>, Option<T>)>
    decreases (li.len() - lp) + (ri.len() - rp),
{
    if lp < 0 || rp < 0 || lp > li.len() || rp > ri.len() || (lp == li.len() && rp == ri.len()) {
        Seq::empty()
    } else if takes_left(li, ri, lp, rp) {
        seq![(li[lp], Some(lv[lp]), None)] + outer_entries(li, lv, ri, rv, lp + 1, rp)
    } else if takes_right(li, ri, lp, rp) {
        seq![(ri[rp], None, Some(rv[rp]))] + outer_entries(li, lv, ri, rv, lp, rp + 1)
    } else {
        seq![(li[lp], Some(lv[lp]), Some(rv[rp]))] + outer_entries(li, lv, ri, rv, lp + 1, rp + 1)
    }
}

/// The indices of the entries of an outer join.
pub open spec fn entry_keys<Idx, T>(joined: Seq<(Idx, Option<T>, Option<T>)>) -> Seq<Idx> {
    joined.map_values(|e: (Idx, Option<T>, Option<T>)| e.0)
}

/// The outer join of two strictly increasing index lists yields strictly
/// increasing indices, each at least the smaller of the two heads.
pub(crate) proof fn lemma_outer_entries_sorted<Idx: Index, T>(
    li: Seq<Idx>,
    lv: Seq<T>,
    ri: Seq<Idx>,
    rv: Seq<T>,
    lp: int,
    rp: int,
)
    requires
        strictly_increasing(li),
        strictly_increasing(ri),
        0 <= lp <= li.len(),
        0 <= rp <= ri.len(),
    ensures
        strictly_increasing(entry_keys(outer_entries(li, lv, ri, rv, lp, rp))),
        forall|k: int|
            0 <= k < outer_entries(li, lv, ri, rv, lp, rp).len() ==> {
                let key = #[trigger] outer_entries(li, lv, ri, rv, lp, rp)[k].0;
                ||| lp < li.len() && key.rank() >= li[lp].rank()
                ||| rp < ri.len() && key.rank() >= ri[rp].rank()
            },
    decreases (li.len() - lp) + (ri.len() - rp),
{
    let all = outer_entries(li, lv, ri, rv, lp, rp);
    if lp == li.len() && rp == ri.len() {
        return;
    }
    let (nlp, nrp) = if takes_left(li, ri, lp, rp) {
        (lp + 1, rp)
    } else if takes_right(li, ri, lp, rp) {
        (lp, rp + 1)
    } else {
        (lp + 1, rp + 1)
    };
    lemma_outer_entries_sorted(li, lv, ri, rv, nlp, nrp);
    let rest = outer_entries(li, lv, ri, rv, nlp, nrp);
    assert(all == seq![all[0]] + rest);
    let h = all[0].0;
    assert forall|k: int| 0 <= k < rest.len() implies h.rank() < (#[trigger] rest[k]).0.rank() by {
        let key = rest[k].0;
        if nlp < li.len() && key.rank() >= li[nlp].rank() {
            assert(li[nlp - 1].rank() < li[nlp].rank() || nlp == lp);
        }
        if nrp < ri.len() && key.rank() >= ri[nrp].rank() {
            assert(ri[nrp - 1].rank() < ri[nrp].rank() || nrp == rp);
        }
    }
    let keys_all = entry_keys(all);
    assert forall|a: int, b: int| 0 <= a < b < keys_all.len() implies keys_all[a].rank()
        < keys_all[b].rank() by {
        assert(keys_all[b] == rest[b - 1].0);
        if a > 0 {
            assert(keys_all[a] == rest[a - 1].0);
            assert(entry_keys(rest)[a - 1] == rest[a - 1].0);
            assert(entry_keys(rest)[b - 1] == rest[b - 1].0);
        }
    }
    assert forall|k: int| 0 <= k < all.len() implies {
        let key = #[trigger] all[k].0;
        ||| lp < li.len() && key.rank() >= li[lp].rank()
        ||| rp < ri.len() && key.rank() >= ri[rp].rank()
    } by {
        if k > 0 {
            assert(all[k] == rest[k - 1]);
            assert(h.rank() < rest[k - 1].0.rank());
        }
    }
}

/// An index occurs in the outer join from `(lp, rp)` on exactly where it
/// occurs on either side from there on.
proof fn lemma_outer_entries_members<Idx: Index, T>(
    li: Seq<Idx>,
    lv: Seq<T>,
    ri: Seq<Idx>,
    rv: Seq<T>,
    lp: int,
    rp: int,
    x: Idx,
)
    requires
        0 <= lp <= li.len(),
        0 <= rp <= ri.len(),
    ensures
        entry_keys(outer_entries(li, lv, ri, rv, lp, rp)).contains(x) <==> (occurs_from(li, lp, x)
            || occurs_from(ri, rp, x)),
    decreases (li.len() - lp) + (ri.len() - rp),
{
    let all = outer_entries(li, lv, ri, rv, lp, rp);
    let keys_all = entry_keys(all);
    if lp == li.len() && rp == ri.len() {
        return;
    }
    let (nlp, nrp) = if takes_left(li, ri, lp, rp) {
        (lp + 1, rp)
    } else if takes_right(li, ri, lp, rp) {
        (lp, rp + 1)
    } else {
        Idx::lemma_rank(li[lp], ri[rp]);
        (lp + 1, rp + 1)
    };
    lemma_outer_entries_members(li, lv, ri, rv, nlp, nrp, x);
    let rest = outer_entries(li, lv, ri, rv, nlp, nrp);
    assert(all == seq![all[0]] + rest);
    assert(keys_all =~= seq![all[0].0] + entry_keys(rest));
    if keys_all.contains(x) {
        let p = choose|p: int| 0 <= p < keys_all.len() && keys_all[p] == x;
        if p > 0 {
            assert(entry_keys(rest)[p - 1] == x);
            assert(entry_keys(rest).contains(x));
            if occurs_from(li, nlp, x) {
                let i = choose|i: int| nlp <= i < li.len() && li[i] == x;
                assert(li[i] == x);
            } else {
                let i = choose|i: int| nrp <= i < ri.len() && ri[i] == x;
                assert(ri[i] == x);
            }
        } else if takes_right(li, ri, lp, rp) {
            assert(ri[rp] == x);
        } else {
            assert(li[lp] == x);
        }
    }
    if occurs_from(li, lp, x) || occurs_from(ri, rp, x) {
        if x == all[0].0 {
            assert(keys_all[0] == x);
        } else {
            if occurs_from(li, lp, x) {
                let i = choose|i: int| lp <= i < li.len() && li[i] == x;
                assert(li[i] == x);
                assert(i >= nlp);
                assert(occurs_from(li, nlp, x));
            } else {
                let i = choose|i: int| rp <= i < ri.len() && ri[i] == x;
                assert(ri[i] == x);
                assert(i >= nrp);
                assert(occurs_from(ri, nrp, x));
            }
            let q = choose|q: int| 0 <= q < entry_keys(rest).len() && entry_keys(rest)[q] == x;
            assert(keys_all[q + 1] == x);
        }
    }
}

/// The outer join of two sides whose indices strictly increase yields
/// every index of either side once, in increasing order.
pub proof fn lemma_outer_join_sorted_union<Idx: Index, T>(
    li: Seq<Idx>,
    lv: Seq<T>,
    ri: Seq<Idx>,
    rv: Seq<T>,
)
    requires
        strictly_increasing(li),
        strictly_increasing(ri),
    ensures
        strictly_increasing(entry_keys(outer_entries(li, lv, ri, rv, 0, 0))),
        forall|x: Idx|
            #[trigger] entry_keys(outer_entries(li, lv, ri, rv, 0, 0)).contains(x) <==> (li.contains(x)
                || ri.contains(x)),
{
    lemma_outer_entries_sorted(li, lv, ri, rv, 0, 0);
    assert forall|x: Idx|
        #[trigger] entry_keys(outer_entries(li, lv, ri, rv, 0, 0)).contains(x) <==> (li.contains(x)
            || ri.contains(x)) by {
        lemma_outer_entries_members(li, lv, ri, rv, 0, 0, x);
        if li.contains(x) {
            let i = choose|i: int| 0 <= i < li.len() && li[i] == x;
            assert(occurs_from(li, 0, x));
        }
        if ri.contains(x) {
            let i = choose|i: int| 0 <= i < ri.len() && ri[i] == x;
            assert(occurs_from(ri, 0, x));
        }
        if occurs_from(li, 0, x) {
            let i = choose|i: int| 0 <= i < li.len() && li[i] == x;
            assert(li.contains(x));
        }
        if occurs_from(ri, 0, x) {
            let i = choose|i: int| 0 <= i < ri.len() && ri[i] == x;
            assert(ri.contains(x));
        }
    }
}

/// `v` is a value that `merge` gives for the outer-join entry `e`.
pub open spec fn outer_merged<'a, T: 'a, Idx, F: Fn(Idx, Join<'a, T>) -> T>(
    merge: F,
    e: (Idx, Option<T>, Option<T>),
    v: T,
) -> bool {
    match e {
        (k, Some(l), None) => call_ensures(merge, (k, Join::Left(&l)), v),
        (k, None, Some(r)) => call_ensures(merge, (k, Join::Right(&r)), v),
        (k, Some(l), Some(r)) => call_ensures(merge, (k, Join::Both(&l, &r)), v),
        (k, None, None) => false,
    }
}

/// Iterator returned by [`outer_join`].
pub struct OuterJoin<'a, T, Idx, F> {
    left_i: &'a [Idx],
    left_v: &'a [T],
    right_i: &'a [Idx],
    right_v: &'a [T],
    left_pos: usize,
    right_pos: usize,
    merge: F,
}

impl<'a, T: 'a, Idx: Index, F: Fn(Idx, Join<'a, T>) -> T> OuterJoin<'a, T, Idx, F> {
    /// The left indices.
    pub closed spec fn left_indices(&self) -> Seq<Idx> {
        self.left_i@
    }

    /// The left values.
    pub closed spec fn left_values(&self) -> Seq<T> {
        self.left_v@
    }

    /// The right indices.
    pub closed spec fn right_indices(&self) -> Seq<Idx> {
        self.right_i@
    }

    /// The right values.
    pub closed spec fn right_values(&self) -> Seq<T> {
        self.right_v@
    }

    /// How many left entries the join has consumed.
    pub closed spec fn left_pos(&self) -> int {
        self.left_pos as int
    }

    /// How many right entries the join has consumed.
    pub closed spec fn right_pos(&self) -> int {
        self.right_pos as int
    }

    /// The merge function.
    pub closed spec fn merge_fn(&self) -> F {
        self.merge
    }

    /// Index slices no longer than their value slices, positions within them, and a
    /// merge function that accepts every argument.
    pub open spec fn wf(&self) -> bool {
        &&& self.left_indices().len() <= self.left_values().len()
        &&& self.right_indices().len() <= self.right_values().len()
        &&& self.left_indices().len() + self.right_indices().len() <= usize::MAX
        &&& 0 <= self.left_pos() <= self.left_indices().len()
        &&& 0 <= self.right_pos() <= self.right_indices().len()
        &&& outer_merge_total(self.merge_fn())
    }

    /// The slices and the merge function are those of `other`.
    pub open spec fn same_inputs(&self, other: &Self) -> bool {
        &&& self.left_indices() == other.left_indices()
        &&& self.left_values() == other.left_values()
        &&& self.right_indices() == other.right_indices()
        &&& self.right_values() == other.right_values()
        &&& self.merge_fn() == other.merge_fn()
    }

    /// Yields the entry with the smallest index among the two heads,
    /// merged from the left, the right, or both sides.
    pub fn next(&mut self) -> (item: Option<(Idx, T)>)
        requires
            old(self).wf(),
        ensures
            final(self).wf(),
            final(self).same_inputs(old(self)),
            ({
                let li = old(self).left_indices();
                let ri = old(self).right_indices();
                let lv = old(self).left_values();
                let rv = old(self).right_values();
                let lp = old(self).left_pos();
                let rp = old(self).right_pos();
                let m = old(self).merge_fn();
                &&& (lp >= li.len() && rp >= ri.len()) ==> item is None && final(self).left_pos()
                    == lp && final(self).right_pos() == rp
                &&& takes_left(li, ri, lp, rp) ==> (item matches Some((k, v)) && k == li[lp]
                    && call_ensures(m, (k, Join::Left(&lv[lp])), v) && final(self).left_pos()
                    == lp + 1 && final(self).right_pos() == rp)
                &&& takes_right(li, ri, lp, rp) ==> (item matches Some((k, v)) && k == ri[rp]
                    && call_ensures(m, (k, Join::Right(&rv[rp])), v) && final(self).left_pos()
                    == lp && final(self).right_pos() == rp + 1)
                &&& takes_both(li, ri, lp, rp) ==> (item matches Some((k, v)) && k == li[lp]
                    && call_ensures(m, (k, Join::Both(&lv[lp], &rv[rp])), v)
                    && final(self).left_pos() == lp + 1 && final(self).right_pos() == rp + 1)
            }),
    {
        let left_done = self.left_pos >= self.left_i.len();
        let right_done = self.right_pos >= self.right_i.len();

        if left_done && right_done {
            return None;
        }
        let left_i: &'a [Idx] = self.left_i;
        let left_v: &'a [T] = self.left_v;
        let right_i: &'a [Idx] = self.right_i;
        let right_v: &'a [T] = self.right_v;
        if right_done || (!left_done && left_i[self.left_pos].less(&right_i[self.right_pos])) {
            let key = left_i[self.left_pos];
            let join = Join::Left(&left_v[self.left_pos]);
            assert(call_requires(self.merge_fn(), (key, join)));
            let item = (key, (self.merge)(key, join));
            self.left_pos += 1;
            Some(item)
        } else if left_done || right_i[self.right_pos].less(&left_i[self.left_pos]) {
            let key = right_i[self.right_pos];
            let join = Join::Right(&right_v[self.right_pos]);
            assert(call_requires(self.merge_fn(), (key, join)));
            let item = (key, (self.merge)(key, join));
            self.right_pos += 1;
            Some(item)
        } else {
            let key = left_i[self.left_pos];
            let join = Join::Both(&left_v[self.left_pos], &right_v[self.right_pos]);
            assert(call_requires(self.merge_fn(), (key, join)));
            let item = (key, (self.merge)(key, join));
            self.left_pos += 1;
            self.right_pos += 1;
            Some(item)
        }
    }

    /// Bounds on the number of remaining entries: at least the larger of
    /// the two remaining counts, at most their sum.
    pub fn size_hint(&self) -> (hint: (usize, Option<usize>))
        requires
            self.wf(),
        ensures
            ({
                let left_remaining = self.left_indices().len() - self.left_pos();
                let right_remaining = self.right_indices().len() - self.right_pos();
                &&& hint.1 == Some((left_remaining + right_remaining) as usize)
                &&& hint.0 == if left_remaining >= right_remaining {
                    left_remaining
                } else {
                    right_remaining
                }
            }),
    {
        let left_remaining = self.left_i.len() - self.left_pos;
        let right_remaining = self.right_i.len() - self.right_pos;
        let max = left_remaining + right_remaining;
        let min = if left_remaining >= right_remaining {
            left_remaining
        } else {
            right_remaining
        };
        (min, Some(max))
    }

    /// The remaining entries, in the order [`OuterJoin::next`] yields them:
    /// one per index of the outer join, with the value the merge function
    /// gives for it.
    pub fn into_vec(self) -> (out: Vec<(Idx, T)>)
        requires
            self.wf(),
        ensures
            ({
                let all = outer_entries(
                    self.left_indices(),
                    self.left_values(),
                    self.right_indices(),
                    self.right_values(),
                    self.left_pos(),
                    self.right_pos(),
                );
                &&& out@.len() == all.len()
                &&& forall|k: int| #![trigger out@[k]] 0 <= k < all.len() ==> out@[k].0 == all[k].0
                    && outer_merged(self.merge_fn(), all[k], out@[k].1)
            }),
    {
        let ghost all = outer_entries(
            self.left_indices(),
            self.left_values(),
            self.right_indices(),
            self.right_values(),
            self.left_pos(),
            self.right_pos(),
        );
        let ghost start = self;
        let ghost mut done: Seq<(Idx, Option<T>, Option<T>)> = Seq::empty();
        let mut it = self;
        let mut out: Vec<(Idx, T)> = Vec::new();
        proof {
            assert(done + all =~= all);
        }
        loop
            invariant
                it.wf(),
                it.same_inputs(&start),
                all == outer_entries(
                    start.left_indices(),
                    start.left_values(),
                    start.right_indices(),
                    start.right_values(),
                    start.left_pos(),
                    start.right_pos(),
                ),
                done + outer_entries(
                    it.left_indices(),
                    it.left_values(),
                    it.right_indices(),
                    it.right_values(),
                    it.left_pos(),
                    it.right_pos(),
                ) == all,
                out@.len() == done.len(),
                forall|k: int| #![trigger out@[k]] 0 <= k < done.len() ==> out@[k].0 == done[k].0
                    && outer_merged(start.merge_fn(), done[k], out@[k].1),
            ensures
                out@.len() == all.len(),
                forall|k: int| #![trigger out@[k]] 0 <= k < all.len() ==> out@[k].0 == all[k].0
                    && outer_merged(start.merge_fn(), all[k], out@[k].1),
            decreases it.left_indices().len() + it.right_indices().len() - it.left_pos() - it.right_pos(),
        {
            let ghost li = it.left_indices();
            let ghost lv = it.left_values();
            let ghost ri = it.right_indices();
            let ghost rv = it.right_values();
            let ghost lp = it.left_pos();
            let ghost rp = it.right_pos();
            let ghost rest = outer_entries(li, lv, ri, rv, lp, rp);
            match it.next() {
                None => {
                    proof {
                        assert(rest.len() == 0);
                        assert(done =~= all);
                    }
                    break;
                },
                Some(item) => {
                    let ghost e = if takes_left(li, ri, lp, rp) {
                        (li[lp], Some(lv[lp]), None)
                    } else if takes_right(li, ri, lp, rp) {
                        (ri[rp], None, Some(rv[rp]))
                    } else {
                        (li[lp], Some(lv[lp]), Some(rv[rp]))
                    };
                    proof {
                        assert(rest == seq![e] + outer_entries(
                            li,
                            lv,
                            ri,
                            rv,
                            it.left_pos(),
                            it.right_pos(),
                        ));
                        assert(outer_merged(start.merge_fn(), e, item.1));
                        done = done.push(e);
                        assert(done + outer_entries(
                            li,
                            lv,
                            ri,
                            rv,
                            it.left_pos(),
                            it.right_pos(),
                        ) =~= all);
                    }
                    out.push(item);
                },
            }
        }
        out
    }
}

/// Apply a merge function to an outer join of two sorted sparse-vector entries.
///
/// Returns an iterator yielding `(index, merged-value)` pairs in ascending
/// index order. Indices present in only one side are merged via [`Join::Left`]
/// or [`Join::Right`]; indices present in both yield [`Join::Both`].
pub fn outer_join<'a, T, Idx, F>(
    left_i: &'a [Idx],
    left_v: &'a [T],
    right_i: &'a [Idx],
    right_v: &'a [T],
    merge: F,
) -> (join: OuterJoin<'a, T, Idx, F>)
    where
        Idx: Index + 'a,
        F: Fn(Idx, Join<'a, T>) -> T,
    requires
        left_i@.len() <= left_v@.len(),
        right_i@.len() <= right_v@.len(),
        left_i@.len() + right_i@.len() <= usize::MAX,
        outer_merge_total(merge),
    ensures
        join.wf(),
        join.left_indices() == left_i@,
        join.left_values() == left_v@,
        join.right_indices() == right_i@,
        join.right_values() == right_v@,
        join.left_pos() == 0,
        join.right_pos() == 0,
        join.merge_fn() == merge,
{
    OuterJoin { left_i, left_v, right_i, right_v, left_pos: 0, right_pos: 0, merge }
}

/// `merge` accepts every index and pair of values.
pub open spec fn inner_merge_total<'a, T: 'a, Idx, F: Fn(Idx, &'a T, &'a T) -> T>(merge: F) -> bool {
    forall|k: Idx, l: &'a T, r: &'a T| call_requires(merge, (k, l, r))
}

/// Positions `i` of `li` and `j` of `ri`, from `lp` and `rp` on, hold the
/// same index.
pub open spec fn common<Idx>(li: Seq<Idx>, ri: Seq<Idx>, lp: int, rp: int, i: int, j: int) -> bool {
    lp <= i < li.len() && rp <= j < ri.len() && li[i] == ri[j]
}

/// The entries that `(li, lv)` from `lp` on and `(ri, rv)` from `rp` on
/// share, in increasing order of index: each index with its value on
/// either side.
pub open spec fn inner_entries<Idx: Index, T>(
    li: Seq<Idx>,
    lv: Seq<T>,
    ri: Seq<Idx>,
    rv: Seq<T>,
    lp: int,
    rp: int,
) -> Seq<(Idx, T, T)>
    decreases (li.len() - lp) + (ri.len() - rp),
{
    if lp < 0 || rp < 0 || lp >= li.len() || rp >= ri.len() {
        Seq::empty()
    } else if li[lp].rank() < ri[rp].rank() {
        inner_entries(li, lv, ri, rv, lp + 1, rp)
    } else if ri[rp].rank() < li[lp].rank() {
        inner_entries(li, lv, ri, rv, lp, rp + 1)
    } else {
        seq![(li[lp], lv[lp], rv[rp])] + inner_entries(li, lv, ri, rv, lp + 1, rp + 1)
    }
}

/// Where the two sides share no index from `(lp, rp)` on, the inner join
/// from there is empty.
proof fn lemma_inner_entries_none<Idx: Index, T>(
    li: Seq<Idx>,
    lv: Seq<T>,
    ri: Seq<Idx>,
    rv: Seq<T>,
    lp: int,
    rp: int,
)
    requires
        0 <= lp,
        0 <= rp,
        forall|a: int, b: int| !common(li, ri, lp, rp, a, b),
    ensures
        inner_entries(li, lv, ri, rv, lp, rp).len() == 0,
    decreases (li.len() - lp) + (ri.len() - rp),
{
    if lp < li.len() && rp < ri.len() {
        if li[lp].rank() < ri[rp].rank() {
            assert forall|a: int, b: int| #![trigger common(li, ri, lp + 1, rp, a, b)] !common(li, ri, lp + 1, rp, a, b) by {
                assert(!common(li, ri, lp, rp, a, b));
            }
            lemma_inner_entries_none(li, lv, ri, rv, lp + 1, rp);
        } else if ri[rp].rank() < li[lp].rank() {
            assert forall|a: int, b: int| #![trigger common(li, ri, lp, rp + 1, a, b)] !common(li, ri, lp, rp + 1, a, b) by {
                assert(!common(li, ri, lp, rp, a, b));
            }
            lemma_inner_entries_none(li, lv, ri, rv, lp, rp + 1);
        } else {
            Idx::lemma_rank(li[lp], ri[rp]);
            assert(common(li, ri, lp, rp, lp, rp));
        }
    }
}

/// Where `(i, j)` is the first pair of positions from `(lp, rp)` on that
/// share an index, the inner join from there starts with that entry and
/// goes on from just past it.
proof fn lemma_inner_entries_first<Idx: Index, T>(
    li: Seq<Idx>,
    lv: Seq<T>,
    ri: Seq<Idx>,
    rv: Seq<T>,
    lp: int,
    rp: int,
    i: int,
    j: int,
)
    requires
        strictly_increasing(li),
        strictly_increasing(ri),
        0 <= lp,
        0 <= rp,
        common(li, ri, lp, rp, i, j),
        forall|a: int, b: int| common(li, ri, lp, rp, a, b) ==> i <= a && j <= b,
    ensures
        inner_entries(li, lv, ri, rv, lp, rp) == seq![(li[i], lv[i], rv[j])] + inner_entries(
            li,
            lv,
            ri,
            rv,
            i + 1,
            j + 1,
        ),
    decreases (li.len() - lp) + (ri.len() - rp),
{
    if lp == i && rp == j {
    } else if li[lp].rank() < ri[rp].rank() {
        assert(lp < i) by {
            if lp == i {
                assert(ri[rp].rank() <= ri[j].rank());
            }
        }
        assert forall|a: int, b: int| #![trigger common(li, ri, lp + 1, rp, a, b)] common(li, ri, lp + 1, rp, a, b) implies i <= a && j <= b by {
            assert(common(li, ri, lp, rp, a, b));
        }
        lemma_inner_entries_first(li, lv, ri, rv, lp + 1, rp, i, j);
    } else if ri[rp].rank() < li[lp].rank() {
        assert(rp < j) by {
            if rp == j {
                assert(li[lp].rank() <= li[i].rank());
            }
        }
        assert forall|a: int, b: int| #![trigger common(li, ri, lp, rp + 1, a, b)] common(li, ri, lp, rp + 1, a, b) implies i <= a && j <= b by {
            assert(common(li, ri, lp, rp, a, b));
        }
        lemma_inner_entries_first(li, lv, ri, rv, lp, rp + 1, i, j);
    } else {
        Idx::lemma_rank(li[lp], ri[rp]);
        assert(common(li, ri, lp, rp, lp, rp));
    }
}

/// The indices of the entries of an inner join.
pub open spec fn inner_keys<Idx, T>(entries: Seq<(Idx, T, T)>) -> Seq<Idx> {
    entries.map_values(|e: (Idx, T, T)| e.0)
}

/// From `(lp, rp)` on, the inner join of two strictly increasing sides
/// yields strictly increasing indices, none below the left head, and
/// exactly those that occur on both sides from there on.
proof fn lemma_inner_entries_sorted<Idx: Index, T>(
    li: Seq<Idx>,
    lv: Seq<T>,
    ri: Seq<Idx>,
    rv: Seq<T>,
    lp: int,
    rp: int,
)
    requires
        strictly_increasing(li),
        strictly_increasing(ri),
        0 <= lp <= li.len(),
        0 <= rp <= ri.len(),
    ensures
        strictly_increasing(inner_keys(inner_entries(li, lv, ri, rv, lp, rp))),
        forall|k: int|
            0 <= k < inner_entries(li, lv, ri, rv, lp, rp).len() ==> lp < li.len() && (
            #[trigger] inner_entries(li, lv, ri, rv, lp, rp)[k]).0.rank() >= li[lp].rank(),
        forall|x: Idx|
            #[trigger] inner_keys(inner_entries(li, lv, ri, rv, lp, rp)).contains(x) <==> (
            occurs_from(li, lp, x) && occurs_from(ri, rp, x)),
    decreases (li.len() - lp) + (ri.len() - rp),
{
    let all = inner_entries(li, lv, ri, rv, lp, rp);
    if lp == li.len() || rp == ri.len() {
        assert forall|x: Idx|
            #[trigger] inner_keys(all).contains(x) <==> (occurs_from(li, lp, x) && occurs_from(
                ri,
                rp,
                x,
            )) by {
            if occurs_from(li, lp, x) && occurs_from(ri, rp, x) {
                let i = choose|i: int| lp <= i < li.len() && li[i] == x;
                let j = choose|j: int| rp <= j < ri.len() && ri[j] == x;
            }
        }
        return;
    }
    if li[lp].rank() < ri[rp].rank() {
        lemma_inner_entries_sorted(li, lv, ri, rv, lp + 1, rp);
        assert forall|k: int| 0 <= k < all.len() implies lp < li.len() && (#[trigger] all[k]).0.rank()
            >= li[lp].rank() by {
            assert(li[lp].rank() < li[lp + 1].rank());
        }
        assert forall|x: Idx|
            #[trigger] inner_keys(all).contains(x) <==> (occurs_from(li, lp, x) && occurs_from(
                ri,
                rp,
                x,
            )) by {
            if occurs_from(li, lp, x) && occurs_from(ri, rp, x) {
                let i = choose|i: int| lp <= i < li.len() && li[i] == x;
                let j = choose|j: int| rp <= j < ri.len() && ri[j] == x;
                if i == lp {
                    assert(ri[rp].rank() <= ri[j].rank());
                }
                assert(li[i] == x);
                assert(occurs_from(li, lp + 1, x));
            }
            if occurs_from(li, lp + 1, x) {
                let i = choose|i: int| lp + 1 <= i < li.len() && li[i] == x;
                assert(li[i] == x);
            }
        }
    } else if ri[rp].rank() < li[lp].rank() {
        lemma_inner_entries_sorted(li, lv, ri, rv, lp, rp + 1);
        assert forall|x: Idx|
            #[trigger] inner_keys(all).contains(x) <==> (occurs_from(li, lp, x) && occurs_from(
                ri,
                rp,
                x,
            )) by {
            if occurs_from(li, lp, x) && occurs_from(ri, rp, x) {
                let i = choose|i: int| lp <= i < li.len() && li[i] == x;
                let j = choose|j: int| rp <= j < ri.len() && ri[j] == x;
                if j == rp {
                    assert(li[lp].rank() <= li[i].rank());
                }
                assert(ri[j] == x);
                assert(occurs_from(ri, rp + 1, x));
            }
            if occurs_from(ri, rp + 1, x) {
                let j = choose|j: int| rp + 1 <= j < ri.len() && ri[j] == x;
                assert(ri[j] == x);
            }
        }
    } else {
        Idx::lemma_rank(li[lp], ri[rp]);
        lemma_inner_entries_sorted(li, lv, ri, rv, lp + 1, rp + 1);
        let rest = inner_entries(li, lv, ri, rv, lp + 1, rp + 1);
        assert(all == seq![all[0]] + rest);
        assert(inner_keys(all) =~= seq![li[lp]] + inner_keys(rest));
        assert forall|k: int| 0 <= k < rest.len() implies li[lp].rank() < (#[trigger] rest[k]).0.rank() by {
            assert(li[lp].rank() < li[lp + 1].rank());
        }
        assert forall|k: int| 0 <= k < all.len() implies lp < li.len() && (#[trigger] all[k]).0.rank()
            >= li[lp].rank() by {
            if k > 0 {
                assert(all[k] == rest[k - 1]);
            }
        }
        let ka = inner_keys(all);
        assert forall|a: int, b: int| 0 <= a < b < ka.len() implies ka[a].rank() < ka[b].rank() by {
            assert(ka[b] == rest[b - 1].0);
            if a > 0 {
                assert(ka[a] == rest[a - 1].0);
                assert(inner_keys(rest)[a - 1] == rest[a - 1].0);
                assert(inner_keys(rest)[b - 1] == rest[b - 1].0);
            }
        }
        assert forall|x: Idx|
            #[trigger] inner_keys(all).contains(x) <==> (occurs_from(li, lp, x) && occurs_from(
                ri,
                rp,
                x,
            )) by {
            if occurs_from(li, lp, x) && occurs_from(ri, rp, x) {
                let i = choose|i: int| lp <= i < li.len() && li[i] == x;
                let j = choose|j: int| rp <= j < ri.len() && ri[j] == x;
                if i == lp {
                    assert(ka[0] == x);
                } else {
                    if j == rp {
                        assert(li[lp].rank() < li[i].rank());
                    }
                    assert(li[i] == x && ri[j] == x);
                    assert(occurs_from(li, lp + 1, x) && occurs_from(ri, rp + 1, x));
                    assert(inner_keys(rest).contains(x));
                    let q = choose|q: int| 0 <= q < inner_keys(rest).len() && inner_keys(rest)[q] == x;
                    assert(ka[q + 1] == x);
                }
            }
            if ka.contains(x) {
                let p = choose|p: int| 0 <= p < ka.len() && ka[p] == x;
                if p == 0 {
                    assert(li[lp] == x && ri[rp] == x);
                } else {
                    assert(inner_keys(rest)[p - 1] == x);
                    assert(inner_keys(rest).contains(x));
                    let i = choose|i: int| lp + 1 <= i < li.len() && li[i] == x;
                    let j = choose|j: int| rp + 1 <= j < ri.len() && ri[j] == x;
                    assert(li[i] == x && ri[j] == x);
                }
            }
        }
    }
}

/// The inner join of two sides whose indices strictly increase yields
/// the indices that occur on both sides, once each, in increasing order.
pub proof fn lemma_inner_join_sorted_intersection<Idx: Index, T>(
    li: Seq<Idx>,
    lv: Seq<T>,
    ri: Seq<Idx>,
    rv: Seq<T>,
)
    requires
        strictly_increasing(li),
        strictly_increasing(ri),
    ensures
        strictly_increasing(inner_keys(inner_entries(li, lv, ri, rv, 0, 0))),
        forall|x: Idx|
            #[trigger] inner_keys(inner_entries(li, lv, ri, rv, 0, 0)).contains(x) <==> (li.contains(x)
                && ri.contains(x)),
{
    lemma_inner_entries_sorted(li, lv, ri, rv, 0, 0);
    assert forall|x: Idx|
        #[trigger] inner_keys(inner_entries(li, lv, ri, rv, 0, 0)).contains(x) <==> (li.contains(x)
            && ri.contains(x)) by {
        if li.contains(x) {
            let i = choose|i: int| 0 <= i < li.len() && li[i] == x;
            assert(occurs_from(li, 0, x));
        }
        if ri.contains(x) {
            let i = choose|i: int| 0 <= i < ri.len() && ri[i] == x;
            assert(occurs_from(ri, 0, x));
        }
        if occurs_from(li, 0, x) {
            let i = choose|i: int| 0 <= i < li.len() && li[i] == x;
            assert(li.contains(x));
        }
        if occurs_from(ri, 0, x) {
            let i = choose|i: int| 0 <= i < ri.len() && ri[i] == x;
            assert(ri.contains(x));
        }
    }
}

/// Iterator returned by [`inner_join`].
pub struct InnerJoin<'a, T, Idx, F> {
    left_i: &'a [Idx],
    left_v: &'a [T],
    right_i: &'a [Idx],
    right_v: &'a [T],
    left_pos: usize,
    right_pos: usize,
    merge: F,
}

impl<'a, T: 'a, Idx: Index, F: Fn(Idx, &'a T, &'a T) -> T> InnerJoin<'a, T, Idx, F> {
    /// The left indices.
    pub closed spec fn left_indices(&self) -> Seq<Idx> {
        self.left_i@
    }

    /// The left values.
    pub closed spec fn left_values(&self) -> Seq<T> {
        self.left_v@
    }

    /// The right indices.
    pub closed spec fn right_indices(&self) -> Seq<Idx> {
        self.right_i@
    }

    /// The right values.
    pub closed spec fn right_values(&self) -> Seq<T> {
        self.right_v@
    }

    /// How many left entries the join has consumed.
    pub closed spec fn left_pos(&self) -> int {
        self.left_pos as int
    }

    /// How many right entries the join has consumed.
    pub closed spec fn right_pos(&self) -> int {
        self.right_pos as int
    }

    /// The merge function.
    pub closed spec fn merge_fn(&self) -> F {
        self.merge
    }

    /// Sorted index slices no longer than their value slices, positions within them,
    /// and a merge function that accepts every argument.
    pub open spec fn wf(&self) -> bool {
        &&& self.left_indices().len() <= self.left_values().len()
        &&& self.right_indices().len() <= self.right_values().len()
        &&& strictly_increasing(self.left_indices())
        &&& strictly_increasing(self.right_indices())
        &&& 0 <= self.left_pos() <= self.left_indices().len()
        &&& 0 <= self.right_pos() <= self.right_indices().len()
        &&& inner_merge_total(self.merge_fn())
    }

    /// The slices and the merge function are those of `other`.
    pub open spec fn same_inputs(&self, other: &Self) -> bool {
        &&& self.left_indices() == other.left_indices()
        &&& self.left_values() == other.left_values()
        &&& self.right_indices() == other.right_indices()
        &&& self.right_values() == other.right_values()
        &&& self.merge_fn() == other.merge_fn()
    }

    /// Yields the entry of the smallest index that both remaining sides
    /// share, merged from both values, and moves past it; `None` when the
    /// sides share no more index.
    pub fn next(&mut self) -> (item: Option<(Idx, T)>)
        requires
            old(self).wf(),
        ensures
            final(self).wf(),
            final(self).same_inputs(old(self)),
            ({
                let li = old(self).left_indices();
                let ri = old(self).right_indices();
                let lv = old(self).left_values();
                let rv = old(self).right_values();
                let lp = old(self).left_pos();
                let rp = old(self).right_pos();
                let i = final(self).left_pos() - 1;
                let j = final(self).right_pos() - 1;
                &&& item is None <==> forall|a: int, b: int| !common(li, ri, lp, rp, a, b)
                &&& item is None ==> (final(self).left_pos() == li.len()
                    || final(self).right_pos() == ri.len())
                &&& lp <= final(self).left_pos()
                &&& rp <= final(self).right_pos()
                &&& item matches Some((k, v)) ==> {
                    &&& common(li, ri, lp, rp, i, j)
                    &&& k == li[i]
                    &&& call_ensures(old(self).merge_fn(), (k, &lv[i], &rv[j]), v)
                    &&& forall|a: int, b: int| common(li, ri, lp, rp, a, b) ==> i <= a && j <= b
                }
            }),
    {
        let ghost lp0 = self.left_pos as int;
        let ghost rp0 = self.right_pos as int;
        let left_i: &'a [Idx] = self.left_i;
        let left_v: &'a [T] = self.left_v;
        let right_i: &'a [Idx] = self.right_i;
        let right_v: &'a [T] = self.right_v;
        while self.left_pos < left_i.len() && self.right_pos < right_i.len()
            invariant
                self.wf(),
                left_i@ == self.left_indices(),
                right_i@ == self.right_indices(),
                left_v@ == self.left_values(),
                right_v@ == self.right_values(),
                self.same_inputs(old(self)),
                lp0 == old(self).left_pos(),
                rp0 == old(self).right_pos(),
                lp0 <= self.left_pos,
                rp0 <= self.right_pos,
                forall|a: int, b: int|
                    common(left_i@, right_i@, lp0, rp0, a, b) ==> self.left_pos <= a
                        && self.right_pos <= b,
            decreases left_i@.len() + right_i@.len() - self.left_pos - self.right_pos,
        {
            let lp = self.left_pos;
            let rp = self.right_pos;
            if left_i[lp].less(&right_i[rp]) {
                proof {
                    assert forall|a: int, b: int|
                        common(left_i@, right_i@, lp0, rp0, a, b) implies lp + 1 <= a && rp <= b by {
                        if a == lp {
                            assert(right_i@[rp as int].rank() <= right_i@[b].rank());
                        }
                    }
                }
                self.left_pos += 1;
            } else if right_i[rp].less(&left_i[lp]) {
                proof {
                    assert forall|a: int, b: int|
                        common(left_i@, right_i@, lp0, rp0, a, b) implies lp <= a && rp + 1 <= b by {
                        if b == rp {
                            assert(left_i@[lp as int].rank() <= left_i@[a].rank());
                        }
                    }
                }
                self.right_pos += 1;
            } else {
                let key = left_i[lp];
                proof {
                    Idx::lemma_rank(left_i@[lp as int], right_i@[rp as int]);
                    assert(common(left_i@, right_i@, lp0, rp0, lp as int, rp as int));
                }
                let l: &'a T = &left_v[lp];
                let r: &'a T = &right_v[rp];
                assert(call_requires(self.merge_fn(), (key, l, r)));
                let value = (self.merge)(key, l, r);
                self.left_pos += 1;
                self.right_pos += 1;
                return Some((key, value));
            }
        }
        None
    }

    /// Bounds on the number of remaining entries: at least none, at most
    /// the smaller of the two remaining counts.
    pub fn size_hint(&self) -> (hint: (usize, Option<usize>))
        requires
            self.wf(),
        ensures
            ({
                let left_remaining = self.left_indices().len() - self.left_pos();
                let right_remaining = self.right_indices().len() - self.right_pos();
                &&& hint.0 == 0
                &&& hint.1 == Some(
                    if left_remaining <= right_remaining {
                        left_remaining
                    } else {
                        right_remaining
                    } as usize,
                )
            }),
    {
        let left_remaining = self.left_i.len() - self.left_pos;
        let right_remaining = self.right_i.len() - self.right_pos;
        let min = if left_remaining <= right_remaining {
            left_remaining
        } else {
            right_remaining
        };
        (0, Some(min))
    }

    /// The remaining entries, in the order [`InnerJoin::next`] yields them:
    /// one per index that both sides share, with the value the merge
    /// function gives for its two values.
    pub fn into_vec(self) -> (out: Vec<(Idx, T)>)
        requires
            self.wf(),
        ensures
            ({
                let all = inner_entries(
                    self.left_indices(),
                    self.left_values(),
                    self.right_indices(),
                    self.right_values(),
                    self.left_pos(),
                    self.right_pos(),
                );
                &&& out@.len() == all.len()
                &&& forall|k: int| #![trigger out@[k]] 0 <= k < all.len() ==> out@[k].0 == all[k].0
                    && call_ensures(self.merge_fn(), (all[k].0, &all[k].1, &all[k].2), out@[k].1)
            }),
    {
        let ghost all = inner_entries(
            self.left_indices(),
            self.left_values(),
            self.right_indices(),
            self.right_values(),
            self.left_pos(),
            self.right_pos(),
        );
        let ghost start = self;
        let ghost mut done: Seq<(Idx, T, T)> = Seq::empty();
        let mut it = self;
        let mut out: Vec<(Idx, T)> = Vec::new();
        proof {
            assert(done + all =~= all);
        }
        loop
            invariant
                it.wf(),
                it.same_inputs(&start),
                all == inner_entries(
                    start.left_indices(),
                    start.left_values(),
                    start.right_indices(),
                    start.right_values(),
                    start.left_pos(),
                    start.right_pos(),
                ),
                done + inner_entries(
                    it.left_indices(),
                    it.left_values(),
                    it.right_indices(),
                    it.right_values(),
                    it.left_pos(),
                    it.right_pos(),
                ) == all,
                out@.len() == done.len(),
                forall|k: int| #![trigger out@[k]] 0 <= k < done.len() ==> out@[k].0 == done[k].0
                    && call_ensures(start.merge_fn(), (done[k].0, &done[k].1, &done[k].2), out@[k].1),
            ensures
                out@.len() == all.len(),
                forall|k: int| #![trigger out@[k]] 0 <= k < all.len() ==> out@[k].0 == all[k].0
                    && call_ensures(start.merge_fn(), (all[k].0, &all[k].1, &all[k].2), out@[k].1),
            decreases it.left_indices().len() + it.right_indices().len() - it.left_pos() - it.right_pos(),
        {
            let ghost li = it.left_indices();
            let ghost lv = it.left_values();
            let ghost ri = it.right_indices();
            let ghost rv = it.right_values();
            let ghost lp = it.left_pos();
            let ghost rp = it.right_pos();
            match it.next() {
                None => {
                    proof {
                        lemma_inner_entries_none(li, lv, ri, rv, lp, rp);
                        assert(done =~= all);
                    }
                    break;
                },
                Some(item) => {
                    let ghost i = it.left_pos() - 1;
                    let ghost j = it.right_pos() - 1;
                    let ghost e = (li[i], lv[i], rv[j]);
                    proof {
                        lemma_inner_entries_first(li, lv, ri, rv, lp, rp, i, j);
                        done = done.push(e);
                        assert(done + inner_entries(li, lv, ri, rv, i + 1, j + 1) =~= all);
                    }
                    out.push(item);
                },
            }
        }
        out
    }
}

/// Inner join: yields only entries where both sides share an index.
///
/// Returns an iterator yielding `(index, merged-value)` pairs for indices
/// present in both inputs, in ascending index order.
pub fn inner_join<'a, T, Idx, F>(
    left_i: &'a [Idx],
    left_v: &'a [T],
    right_i: &'a [Idx],
    right_v: &'a [T],
    merge: F,
) -> (join: InnerJoin<'a, T, Idx, F>)
    where
        Idx: Index + 'a,
        F: Fn(Idx, &'a T, &'a T) -> T,
    requires
        left_i@.len() <= left_v@.len(),
        right_i@.len() <= right_v@.len(),
        strictly_increasing(left_i@),
        strictly_increasing(right_i@),
        inner_merge_total(merge),
    ensures
        join.wf(),
        join.left_indices() == left_i@,
        join.left_values() == left_v@,
        join.right_indices() == right_i@,
        join.right_values() == right_v@,
        join.left_pos() == 0,
        join.right_pos() == 0,
        join.merge_fn() == merge,
{
    InnerJoin { left_i, left_v, right_i, right_v, left_pos: 0, right_pos: 0, merge }
}

} // verus!

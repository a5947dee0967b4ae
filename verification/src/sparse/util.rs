//! Sorting, deduplicating and zero-filtering of parallel index/value slices.

use vstd::prelude::*;

use crate::scalar::{is_zero, zero_answer};
use crate::wrappers::slice_swap;
use crate::Index;

verus! {

/// The ranks of `s` strictly increase.
pub open spec fn strictly_increasing<Idx: Index>(s: Seq<Idx>) -> bool {
    forall|i: int, j: int| 0 <= i < j < s.len() ==> s[i].rank() < s[j].rank()
}

/// Input entry `k` is kept by the zero filter: it is not dropped as a zero.
pub open spec fn survives(zero: Seq<bool>, drop_zeros: bool, k: int) -> bool {
    !(drop_zeros && zero[k])
}

/// Output entry `p` is input entry `k`, which survives the zero filter.
pub open spec fn taken_from<Idx, T>(
    old_i: Seq<Idx>,
    old_v: Seq<T>,
    new_i: Seq<Idx>,
    new_v: Seq<T>,
    zero: Seq<bool>,
    drop_zeros: bool,
    p: int,
    k: int,
) -> bool {
    0 <= k < old_i.len() && survives(zero, drop_zeros, k) && old_i[k] == new_i[p] && old_v[k]
        == new_v[p]
}

/// Output entry `p` is an input entry that survives the zero filter.
pub open spec fn from_input<Idx, T>(
    old_i: Seq<Idx>,
    old_v: Seq<T>,
    new_i: Seq<Idx>,
    new_v: Seq<T>,
    zero: Seq<bool>,
    drop_zeros: bool,
    p: int,
) -> bool {
    exists|k: int| #[trigger] taken_from(old_i, old_v, new_i, new_v, zero, drop_zeros, p, k)
}

/// The index of input entry `k` occurs among the first `len` output indices.
pub open spec fn kept_index<Idx>(old_i: Seq<Idx>, new_i: Seq<Idx>, len: int, k: int) -> bool {
    exists|p: int| #![trigger new_i[p]] 0 <= p < len && new_i[p] == old_i[k]
}

/// Where zeros are dropped, `zero[k]` answers whether input value `k` is
/// zero.
pub open spec fn zero_flags<T: Default + PartialEq>(old_v: Seq<T>, zero: Seq<bool>, drop_zeros: bool) -> bool {
    drop_zeros ==> forall|k: int| 0 <= k < old_v.len() ==> #[trigger] zero_answer(old_v[k], zero[k])
}

/// `(out_i, out_v)` is the canonical form of `(old_i, old_v)`, where
/// `zero[k]` answers whether input value `k` is zero: sorted by index, one
/// entry per index, each taken from the input and none dropped as a zero,
/// and every index of a surviving input entry present.
pub open spec fn canonicalizes<Idx: Index, T: Default + PartialEq>(
    old_i: Seq<Idx>,
    old_v: Seq<T>,
    out_i: Seq<Idx>,
    out_v: Seq<T>,
    zero: Seq<bool>,
    drop_zeros: bool,
) -> bool {
    &&& old_v.len() == old_i.len()
    &&& zero.len() == old_i.len()
    &&& zero_flags(old_v, zero, drop_zeros)
    &&& out_v.len() == out_i.len()
    &&& out_i.len() <= old_i.len()
    &&& strictly_increasing(out_i)
    &&& forall|p: int|
        0 <= p < out_i.len() ==> #[trigger] from_input(
            old_i,
            old_v,
            out_i,
            out_v,
            zero,
            drop_zeros,
            p,
        )
    &&& forall|k: int|
        0 <= k < old_i.len() && survives(zero, drop_zeros, k) ==> #[trigger] kept_index(
            old_i,
            out_i,
            out_i.len() as int,
            k,
        )
}

/// `(new_i, new_v)[..len]` is the canonical form of `(old_i, old_v)`, and
/// the slices kept their lengths.
pub open spec fn canonical_form<Idx: Index, T: Default + PartialEq>(
    old_i: Seq<Idx>,
    old_v: Seq<T>,
    new_i: Seq<Idx>,
    new_v: Seq<T>,
    len: int,
    zero: Seq<bool>,
    drop_zeros: bool,
) -> bool {
    &&& new_i.len() == old_i.len()
    &&& new_v.len() == old_v.len()
    &&& 0 <= len <= old_i.len()
    &&& canonicalizes(old_i, old_v, new_i.take(len), new_v.take(len), zero, drop_zeros)
}

/// The child at `c` is no greater than its parent.
pub open spec fn le_parent<Idx: Index>(s: Seq<Idx>, c: int) -> bool {
    s[c].rank() <= s[(c - 1) / 2].rank()
}

/// The children of node `r` within `s[..end]` are no greater than `s[b]`.
pub open spec fn children_at_most<Idx: Index>(s: Seq<Idx>, r: int, end: int, b: int) -> bool {
    &&& 2 * r + 1 < end ==> s[2 * r + 1].rank() <= s[b].rank()
    &&& 2 * r + 2 < end ==> s[2 * r + 2].rank() <= s[b].rank()
}

/// `s[..end]` is a max-heap for every node from `start` on.
pub open spec fn heap_from<Idx: Index>(s: Seq<Idx>, start: int, end: int) -> bool {
    forall|c: int| 2 * start + 1 <= c < end ==> #[trigger] le_parent(s, c)
}

/// `(c_i, c_v)` is a permutation of `(o_i, o_v)`: position `p` holds input
/// entry `origin[p]`, and input entry `k` sits at `pos[k]`.
pub open spec fn tracks<Idx, T>(
    o_i: Seq<Idx>,
    o_v: Seq<T>,
    c_i: Seq<Idx>,
    c_v: Seq<T>,
    origin: Seq<int>,
    pos: Seq<int>,
) -> bool {
    let n = o_i.len();
    &&& o_v.len() == n
    &&& c_i.len() == n
    &&& c_v.len() == n
    &&& origin.len() == n
    &&& pos.len() == n
    &&& forall|p: int|
        0 <= p < n ==> 0 <= #[trigger] origin[p] < n && pos[origin[p]] == p && c_i[p]
            == o_i[origin[p]] && c_v[p] == o_v[origin[p]]
    &&& forall|k: int| 0 <= k < n ==> 0 <= #[trigger] pos[k] < n && origin[pos[k]] == k
}

/// `(c_i, c_v)` holds the entries `(o_i[k], o_v[k])` rearranged by one
/// permutation: each index moved together with its value, none lost or
/// repeated.
pub open spec fn rearranges<Idx, T>(o_i: Seq<Idx>, o_v: Seq<T>, c_i: Seq<Idx>, c_v: Seq<T>) -> bool {
    exists|origin: Seq<int>, pos: Seq<int>| #[trigger] tracks(o_i, o_v, c_i, c_v, origin, pos)
}

/// `s` with the elements at `a` and `b` exchanged.
pub open spec fn swapped<A>(s: Seq<A>, a: int, b: int) -> Seq<A> {
    s.update(a, s[b]).update(b, s[a])
}

/// Exchanging two positions keeps the permutation tracked.
proof fn lemma_swap_tracks<Idx, T>(
    o_i: Seq<Idx>,
    o_v: Seq<T>,
    c_i: Seq<Idx>,
    c_v: Seq<T>,
    origin: Seq<int>,
    pos: Seq<int>,
    a: int,
    b: int,
)
    requires
        tracks(o_i, o_v, c_i, c_v, origin, pos),
        0 <= a < o_i.len(),
        0 <= b < o_i.len(),
    ensures
        tracks(
            o_i,
            o_v,
            swapped(c_i, a, b),
            swapped(c_v, a, b),
            swapped(origin, a, b),
            pos.update(origin[a], b).update(origin[b], a),
        ),
{
    let n = o_i.len();
    let origin2 = swapped(origin, a, b);
    let pos2 = pos.update(origin[a], b).update(origin[b], a);
    assert forall|p: int| 0 <= p < n implies 0 <= #[trigger] origin2[p] < n && pos2[origin2[p]]
        == p && swapped(c_i, a, b)[p] == o_i[origin2[p]] && swapped(c_v, a, b)[p]
        == o_v[origin2[p]] by {
        if p == a {
        } else if p == b {
        } else {
            assert(origin[p] != origin[a]);
            assert(origin[p] != origin[b]);
        }
    }
    assert forall|k: int| 0 <= k < n implies 0 <= #[trigger] pos2[k] < n && origin2[pos2[k]]
        == k by {
        if k == origin[a] {
        } else if k == origin[b] {
        } else {
            assert(pos[k] != a);
            assert(pos[k] != b);
        }
    }
}

/// Exchanges positions `a` and `b` of both slices, and tracks the move.
fn swap_entries<Idx, T>(
    indices: &mut [Idx],
    values: &mut [T],
    a: usize,
    b: usize,
    Ghost(o_i): Ghost<Seq<Idx>>,
    Ghost(o_v): Ghost<Seq<T>>,
    Ghost(origin): Ghost<Seq<int>>,
    Ghost(pos): Ghost<Seq<int>>,
) -> (res: Ghost<(Seq<int>, Seq<int>)>)
    requires
        tracks(o_i, o_v, old(indices)@, old(values)@, origin, pos),
        a < old(indices)@.len(),
        b < old(indices)@.len(),
    ensures
        final(indices)@ == swapped(old(indices)@, a as int, b as int),
        final(values)@ == swapped(old(values)@, a as int, b as int),
        res@.0 == swapped(origin, a as int, b as int),
        tracks(o_i, o_v, final(indices)@, final(values)@, res@.0, res@.1),
{
    proof {
        lemma_swap_tracks(o_i, o_v, indices@, values@, origin, pos, a as int, b as int);
    }
    slice_swap(indices, a, b);
    slice_swap(values, a, b);
    Ghost((swapped(origin, a as int, b as int), pos.update(origin[a as int], b as int).update(origin[b as int], a as int)))
}

/// In a max-heap, no node exceeds the root.
proof fn lemma_root_is_max<Idx: Index>(s: Seq<Idx>, end: int, i: int)
    requires
        heap_from(s, 0, end),
        0 <= i < end,
        end <= s.len(),
    ensures
        s[i].rank() <= s[0].rank(),
    decreases i,
{
    if i > 0 {
        assert(le_parent(s, i));
        lemma_root_is_max(s, end, (i - 1) / 2);
    }
}

/// Position `p` lies in the subtree of the heap node `r`: it is `r` or a
/// descendant of `r` through children `2i + 1` and `2i + 2`.
pub open spec fn in_subtree(r: int, p: int) -> bool
    decreases p,
{
    if r < 0 || p < r {
        false
    } else if p == r {
        true
    } else {
        in_subtree(r, (p - 1) / 2)
    }
}

/// Within the subtree of `r` in `s[..end]`, every node below `r` whose
/// parent is not `skip` is at most its parent.
pub open spec fn subtree_heap_except<Idx: Index>(s: Seq<Idx>, r: int, end: int, skip: int) -> bool {
    forall|c: int| r < c < end && in_subtree(r, c) && (c - 1) / 2 != skip ==> #[trigger] le_parent(s, c)
}

/// The subtree of `r` in `s[..end]` is a max-heap.
pub open spec fn subtree_heap<Idx: Index>(s: Seq<Idx>, r: int, end: int) -> bool {
    forall|c: int| r < c < end && in_subtree(r, c) ==> #[trigger] le_parent(s, c)
}

/// A node below `r` in its subtree has its parent in the subtree too.
proof fn lemma_subtree_parent(r: int, c: int)
    requires
        r < c,
        in_subtree(r, c),
    ensures
        r <= (c - 1) / 2,
        in_subtree(r, (c - 1) / 2),
{
    assert(in_subtree(r, (c - 1) / 2));
    if (c - 1) / 2 < r {
        assert(!in_subtree(r, (c - 1) / 2));
    }
}

/// The children of a node of the subtree of `r` are in it too.
proof fn lemma_subtree_child(r: int, p: int, c: int)
    requires
        in_subtree(r, p),
        c == 2 * p + 1 || c == 2 * p + 2,
    ensures
        in_subtree(r, c),
{
    assert((c - 1) / 2 == p);
}

/// Every position is in the subtree of the root `0`.
proof fn lemma_subtree_of_root(c: int)
    requires
        0 <= c,
    ensures
        in_subtree(0, c),
    decreases c,
{
    if c > 0 {
        lemma_subtree_of_root((c - 1) / 2);
    }
}

/// One step of the sift: exchanging node `r` with its largest child `l`
/// moves the heap defect within the subtree of `start` from `r` to `l`.
proof fn lemma_sift_step<Idx: Index>(b: Seq<Idx>, start: int, r: int, l: int, end: int)
    requires
        0 <= start <= r < l < end <= b.len(),
        l == 2 * r + 1 || l == 2 * r + 2,
        in_subtree(start, r),
        b[r].rank() < b[l].rank(),
        2 * r + 1 < end ==> b[2 * r + 1].rank() <= b[l].rank(),
        2 * r + 2 < end ==> b[2 * r + 2].rank() <= b[l].rank(),
        subtree_heap_except(b, start, end, r),
        r != start ==> children_at_most(b, r, end, (r - 1) / 2),
    ensures
        in_subtree(start, l),
        subtree_heap_except(swapped(b, r, l), start, end, l),
        children_at_most(swapped(b, r, l), l, end, (l - 1) / 2),
{
    let a = swapped(b, r, l);
    assert((l - 1) / 2 == r);
    lemma_subtree_child(start, r, l);
    assert forall|c: int| start < c < end && in_subtree(start, c) && (c - 1) / 2 != l implies #[trigger] le_parent(
        a,
        c,
    ) by {
        let pc = (c - 1) / 2;
        if c == l {
        } else if c == r {
            assert(r != start);
            assert(pc < r);
        } else if pc == r {
            assert(c == 2 * r + 1 || c == 2 * r + 2);
        } else {
            assert(le_parent(b, c));
            assert(pc != l);
        }
    }
    if 2 * l + 1 < end {
        lemma_subtree_child(start, l, 2 * l + 1);
        assert((2 * l + 1 - 1) / 2 == l);
        assert(le_parent(b, 2 * l + 1));
    }
    if 2 * l + 2 < end {
        lemma_subtree_child(start, l, 2 * l + 2);
        assert((2 * l + 2 - 1) / 2 == l);
        assert(le_parent(b, 2 * l + 2));
    }
}

/// Sifting the node `start` into a heap from `start + 1` on, which leaves
/// every position outside its subtree alone, gives a heap from `start` on.
proof fn lemma_heap_extended<Idx: Index>(s: Seq<Idx>, s2: Seq<Idx>, start: int, end: int)
    requires
        0 <= start,
        end <= s.len(),
        s2.len() == s.len(),
        heap_from(s, start + 1, end),
        subtree_heap(s2, start, end),
        forall|p: int| 0 <= p < s.len() && !in_subtree(start, p) ==> #[trigger] s2[p] == s[p],
    ensures
        heap_from(s2, start, end),
{
    assert forall|c: int| 2 * start + 1 <= c < end implies #[trigger] le_parent(s2, c) by {
        let pc = (c - 1) / 2;
        if !in_subtree(start, c) {
            if in_subtree(start, pc) {
                lemma_subtree_child(start, pc, c);
            }
            assert(pc != start);
            assert(s2[c] == s[c] && s2[pc] == s[pc]);
            assert(le_parent(s, c));
        }
    }
}

/// Moves the entry at `root` down until the subtree of `root` in
/// `indices[..end]` is a max-heap, given that it is one everywhere but at
/// `root` itself. The values move with their indices; every position
/// outside the subtree keeps its entry. Where `root >= end`, nothing
/// moves.
fn sift_down<T, Idx: Index>(
    indices: &mut [Idx],
    values: &mut [T],
    root: usize,
    end: usize,
    Ghost(o_i): Ghost<Seq<Idx>>,
    Ghost(o_v): Ghost<Seq<T>>,
    Ghost(origin): Ghost<Seq<int>>,
    Ghost(pos): Ghost<Seq<int>>,
) -> (res: Ghost<(Seq<int>, Seq<int>)>)
    requires
        tracks(o_i, o_v, old(indices)@, old(values)@, origin, pos),
        end <= old(indices)@.len(),
        subtree_heap_except(old(indices)@, root as int, end as int, root as int),
    ensures
        tracks(o_i, o_v, final(indices)@, final(values)@, res@.0, res@.1),
        subtree_heap(final(indices)@, root as int, end as int),
        forall|p: int|
            0 <= p < old(indices)@.len() && !(root <= p < end) ==> #[trigger] final(indices)@[p]
                == old(indices)@[p] && res@.0[p] == origin[p],
        forall|p: int|
            0 <= p < old(indices)@.len() && !in_subtree(root as int, p) ==> #[trigger] final(indices)@[p]
                == old(indices)@[p] && final(values)@[p] == old(values)@[p] && res@.0[p] == origin[p],
        forall|p: int|
            root <= p < end ==> root <= #[trigger] pos[res@.0[p]] < end,
{
    if root >= end {
        return Ghost((origin, pos));
    }
    let ghost start = root as int;
    let ghost n = indices@.len();
    let ghost mut cur_origin = origin;
    let ghost mut cur_pos = pos;
    let ghost s0 = indices@;
    let ghost v0 = values@;
    let mut root = root;
    loop
        invariant
            tracks(o_i, o_v, indices@, values@, cur_origin, cur_pos),
            tracks(o_i, o_v, s0, v0, origin, pos),
            in_subtree(start, root as int),
            forall|p: int|
                0 <= p < n && !in_subtree(start, p) ==> #[trigger] indices@[p] == s0[p]
                    && values@[p] == v0[p] && cur_origin[p] == origin[p],
            0 <= start <= root < end <= n,
            indices@.len() == n,
            subtree_heap_except(indices@, start, end as int, root as int),
            root != start ==> children_at_most(indices@, root as int, end as int, (root - 1) / 2),
            forall|p: int|
                0 <= p < n && !(start <= p < end) ==> #[trigger] indices@[p] == s0[p]
                    && cur_origin[p] == origin[p],
            forall|p: int| start <= p < end ==> start <= #[trigger] pos[cur_origin[p]] < end,
        ensures
            tracks(o_i, o_v, indices@, values@, cur_origin, cur_pos),
            subtree_heap(indices@, start, end as int),
            forall|p: int|
                0 <= p < n && !in_subtree(start, p) ==> #[trigger] indices@[p] == s0[p]
                    && cur_origin[p] == origin[p],
            forall|p: int|
                0 <= p < n && !(start <= p < end) ==> #[trigger] indices@[p] == s0[p]
                    && cur_origin[p] == origin[p],
            forall|p: int| start <= p < end ==> start <= #[trigger] pos[cur_origin[p]] < end,
        decreases end - root,
    {
        if root >= end / 2 {
            // A leaf: no child lies within `..end`.
            break;
        }
        let left = 2 * root + 1;
        let right = 2 * root + 2;
        let mut largest = root;
        if left < end && indices[largest].less(&indices[left]) {
            largest = left;
        }
        if right < end && indices[largest].less(&indices[right]) {
            largest = right;
        }
        if largest == root {
            break;
        }
        proof {
            lemma_sift_step(indices@, start, root as int, largest as int, end as int);
        }
        let ghost prev_i = indices@;
        let ghost prev_v = values@;
        let Ghost(moved) = swap_entries(
            indices,
            values,
            root,
            largest,
            Ghost(o_i),
            Ghost(o_v),
            Ghost(cur_origin),
            Ghost(cur_pos),
        );
        proof {
            let prev = cur_origin;
            cur_origin = moved.0;
            cur_pos = moved.1;
            assert forall|p: int| start <= p < end implies start <= #[trigger] pos[cur_origin[p]]
                < end by {
                if p == root {
                    assert(cur_origin[p] == prev[largest as int]);
                } else if p == largest {
                    assert(cur_origin[p] == prev[root as int]);
                } else {
                    assert(cur_origin[p] == prev[p]);
                }
            }
            assert forall|p: int| 0 <= p < n && !in_subtree(start, p) implies #[trigger] indices@[p]
                == s0[p] && values@[p] == v0[p] && cur_origin[p] == origin[p] by {
                assert(p != root && p != largest);
                assert(indices@[p] == prev_i[p]);
                assert(values@[p] == prev_v[p]);
                assert(cur_origin[p] == prev[p]);
            }
        }
        root = largest;
    }
    proof {
        assert forall|p: int|
            0 <= p < n && !in_subtree(start, p) implies #[trigger] indices@[p] == s0[p]
                && values@[p] == v0[p] && cur_origin[p] == origin[p] by {
            assert(values@[p] == o_v[cur_origin[p]]);
            assert(v0[p] == o_v[origin[p]]);
        }
    }
    Ghost((cur_origin, cur_pos))
}

/// Input entry `k`, now at position `p` of `s`, was discarded: either as a
/// zero, or as a repeat of an index kept in `s[from..len]`.
pub open spec fn discarded<Idx>(
    s: Seq<Idx>,
    zero: Seq<bool>,
    drop_zeros: bool,
    k: int,
    p: int,
    from: int,
    len: int,
) -> bool {
    (drop_zeros && zero[k]) || exists|q: int| #![trigger s[q]] from <= q < len && s[q] == s[p]
}

/// The state of the extraction phase: `s[..end]` is a heap whose entries
/// are at most the smallest kept index, `s[len - kept..]` holds the kept
/// entries in increasing order, and `s[end..len - kept]` the discarded ones.
pub open spec fn extraction_state<Idx: Index>(
    s: Seq<Idx>,
    origin: Seq<int>,
    zero: Seq<bool>,
    drop_zeros: bool,
    end: int,
    kept: int,
) -> bool {
    let len = s.len() as int;
    &&& 0 <= kept <= len - end
    &&& 0 <= end
    &&& zero.len() == len
    &&& heap_from(s, 0, end)
    &&& forall|h: int| 0 <= h < end ==> !zero[#[trigger] origin[h]]
    &&& strictly_increasing(s.subrange(len - kept, len))
    &&& kept > 0 ==> (forall|h: int| 0 <= h < end ==> #[trigger] s[h].rank() <= s[len - kept].rank())
    &&& forall|p: int| len - kept <= p < len ==> survives(zero, drop_zeros, #[trigger] origin[p])
    &&& forall|p: int|
        end <= p < len - kept ==> #[trigger] discarded(
            s,
            zero,
            drop_zeros,
            origin[p],
            p,
            len - kept,
            len,
        )
}

/// Input entry `k` has had its value tested: `zero[k]` answers whether it
/// is zero.
pub open spec fn answered<T: Default + PartialEq>(o_v: Seq<T>, zero: Seq<bool>, k: int) -> bool {
    zero_answer(o_v[k], zero[k])
}

/// The entries from `e` on had their values tested, the one at `e` now
/// too, with the positions after `e` unchanged.
proof fn lemma_answered_extended<T: Default + PartialEq>(
    o_v: Seq<T>,
    zero: Seq<bool>,
    b_origin: Seq<int>,
    c_origin: Seq<int>,
    e: int,
    len: int,
)
    requires
        forall|p: int| e + 1 <= p < len ==> #[trigger] answered(o_v, zero, b_origin[p]),
        forall|p: int| e < p < len ==> #[trigger] c_origin[p] == b_origin[p],
        answered(o_v, zero, c_origin[e]),
    ensures
        forall|p: int| e <= p < len ==> #[trigger] answered(o_v, zero, c_origin[p]),
{
    assert forall|p: int| e <= p < len implies #[trigger] answered(o_v, zero, c_origin[p]) by {
        if p > e {
            assert(c_origin[p] == b_origin[p]);
        }
    }
}

/// Marking the entry at `e` as a zero, where its value is one, keeps the
/// entries after `e` answered.
proof fn lemma_answered_zero<T: Default + PartialEq>(
    o_v: Seq<T>,
    zero: Seq<bool>,
    b_origin: Seq<int>,
    c_origin: Seq<int>,
    e: int,
    len: int,
)
    requires
        0 <= e < len,
        c_origin.len() == len,
        injective(c_origin),
        forall|p: int| e + 1 <= p < len ==> #[trigger] answered(o_v, zero, b_origin[p]),
        forall|p: int| e < p < len ==> #[trigger] c_origin[p] == b_origin[p],
        zero_answer(o_v[c_origin[e]], true),
        forall|p: int| 0 <= p < len ==> 0 <= #[trigger] c_origin[p] < zero.len(),
    ensures
        forall|p: int|
            e <= p < len ==> #[trigger] answered(o_v, zero.update(c_origin[e], true), c_origin[p]),
{
    let z = zero.update(c_origin[e], true);
    assert forall|p: int| e <= p < len implies #[trigger] answered(o_v, z, c_origin[p]) by {
        if p > e {
            assert(c_origin[p] == b_origin[p]);
            assert(c_origin[p] != c_origin[e]);
            assert(answered(o_v, zero, b_origin[p]));
            assert(z[c_origin[p]] == zero[c_origin[p]]);
        } else {
            assert(z[c_origin[e]]);
        }
    }
}

/// Exchanging two positions from `e` on keeps them answered.
proof fn lemma_answered_swap<T: Default + PartialEq>(
    o_v: Seq<T>,
    zero: Seq<bool>,
    c_origin: Seq<int>,
    e: int,
    dest: int,
    len: int,
)
    requires
        0 <= e <= dest < len,
        c_origin.len() == len,
        forall|p: int| e <= p < len ==> #[trigger] answered(o_v, zero, c_origin[p]),
    ensures
        forall|p: int| e <= p < len ==> #[trigger] answered(o_v, zero, swapped(c_origin, dest, e)[p]),
{
    assert forall|p: int| e <= p < len implies #[trigger] answered(
        o_v,
        zero,
        swapped(c_origin, dest, e)[p],
    ) by {
        if p == dest {
            assert(answered(o_v, zero, c_origin[e]));
        } else if p == e {
            assert(answered(o_v, zero, c_origin[dest]));
        } else {
            assert(answered(o_v, zero, c_origin[p]));
        }
    }
}

/// `origin` maps no two positions to the same entry.
pub open spec fn injective(origin: Seq<int>) -> bool {
    forall|p: int, q: int|
        0 <= p < origin.len() && 0 <= q < origin.len() && p != q ==> #[trigger] origin[p]
            != #[trigger] origin[q]
}

/// `c` is `b` after the extraction of its maximum `b[0]` to position `e`
/// and the restoring of the heap on `c[..e]`.
pub open spec fn after_extraction<Idx: Index>(
    b: Seq<Idx>,
    b_origin: Seq<int>,
    c: Seq<Idx>,
    c_origin: Seq<int>,
    zero: Seq<bool>,
    drop_zeros: bool,
    e: int,
    kept: int,
) -> bool {
    let len = b.len() as int;
    &&& 0 <= e < len
    &&& extraction_state(b, b_origin, zero, drop_zeros, e + 1, kept)
    &&& b_origin.len() == len
    &&& c.len() == len
    &&& c_origin.len() == len
    &&& injective(c_origin)
    &&& c[e] == b[0]
    &&& c_origin[e] == b_origin[0]
    &&& forall|p: int| 0 <= p < len ==> 0 <= #[trigger] c_origin[p] < len
    &&& forall|p: int| 0 <= p < len ==> 0 <= #[trigger] b_origin[p] < len
    &&& forall|p: int|
        #![trigger c[p]]
        #![trigger c_origin[p]]
        e < p < len ==> c[p] == b[p] && c_origin[p] == b_origin[p]
    &&& heap_from(c, 0, e)
    &&& forall|h: int| 0 <= h < e ==> !zero[#[trigger] c_origin[h]]
    &&& forall|h: int| 0 <= h < e ==> #[trigger] c[h].rank() <= c[e].rank()
}

/// Extracting the maximum of the heap and sifting establishes
/// `after_extraction`.
proof fn lemma_extraction_step<Idx: Index, T>(
    o_i: Seq<Idx>,
    o_v: Seq<T>,
    c_v: Seq<T>,
    b: Seq<Idx>,
    b_origin: Seq<int>,
    a: Seq<Idx>,
    a_origin: Seq<int>,
    a_pos: Seq<int>,
    c: Seq<Idx>,
    c_origin: Seq<int>,
    c_pos: Seq<int>,
    zero: Seq<bool>,
    drop_zeros: bool,
    e: int,
    kept: int,
)
    requires
        0 < e < b.len(),
        o_i.len() == b.len(),
        extraction_state(b, b_origin, zero, drop_zeros, e + 1, kept),
        forall|p: int| 0 <= p < b.len() ==> 0 <= #[trigger] b_origin[p] < b.len(),
        b_origin.len() == b.len(),
        a == swapped(b, 0, e),
        a_origin == swapped(b_origin, 0, e),
        forall|k: int| 0 <= k < b.len() ==> a_origin[#[trigger] a_pos[k]] == k,
        forall|k: int| 0 <= k < b.len() ==> 0 <= #[trigger] a_pos[k] < b.len(),
        forall|k: int| 0 <= k < b.len() ==> a[#[trigger] a_pos[k]] == o_i[k],
        tracks(o_i, o_v, c, c_v, c_origin, c_pos),
        heap_from(c, 0, e),
        forall|p: int|
            0 <= p < b.len() && !(0 <= p < e) ==> #[trigger] c[p] == a[p] && c_origin[p]
                == a_origin[p],
        forall|p: int| 0 <= p < e ==> 0 <= #[trigger] a_pos[c_origin[p]] < e,
    ensures
        after_extraction(b, b_origin, c, c_origin, zero, drop_zeros, e, kept),
{
    let len = b.len() as int;
    assert forall|h: int| 0 <= h <= e implies #[trigger] b[h].rank() <= b[0].rank() by {
        lemma_root_is_max(b, e + 1, h);
    }
    assert forall|p: int, q: int|
        0 <= p < len && 0 <= q < len && p != q implies #[trigger] c_origin[p]
        != #[trigger] c_origin[q] by {
        assert(c_pos[c_origin[p]] == p);
        assert(c_pos[c_origin[q]] == q);
    }
    assert forall|h: int| 0 <= h < e implies !zero[#[trigger] c_origin[h]] by {
        let q = a_pos[c_origin[h]];
        assert(a_origin[q] == c_origin[h]);
        if q == 0 {
            assert(c_origin[h] == b_origin[e]);
        } else {
            assert(c_origin[h] == b_origin[q]);
        }
    }
    assert forall|h: int| 0 <= h < e implies #[trigger] c[h].rank() <= c[e].rank() by {
        let q = a_pos[c_origin[h]];
        assert(a[q] == o_i[c_origin[h]]);
        assert(c[h] == o_i[c_origin[h]]);
    }
}

/// Discarding the extracted entry as a zero.
proof fn lemma_discard_zero<Idx: Index>(
    b: Seq<Idx>,
    b_origin: Seq<int>,
    c: Seq<Idx>,
    c_origin: Seq<int>,
    zero: Seq<bool>,
    drop_zeros: bool,
    e: int,
    kept: int,
)
    requires
        after_extraction(b, b_origin, c, c_origin, zero, drop_zeros, e, kept),
        drop_zeros,
    ensures
        extraction_state(c, c_origin, zero.update(c_origin[e], true), drop_zeros, e, kept),
{
    let len = b.len() as int;
    let z = zero.update(c_origin[e], true);
    assert forall|h: int| 0 <= h < e implies !z[#[trigger] c_origin[h]] by {
        assert(c_origin[h] != c_origin[e]);
    }
    assert(c.subrange(len - kept, len) =~= b.subrange(len - kept, len));
    if kept > 0 {
        assert(b[0].rank() <= b[len - kept].rank());
    }
    assert forall|p: int| len - kept <= p < len implies survives(
        z,
        drop_zeros,
        #[trigger] c_origin[p],
    ) by {
        assert(c_origin[p] != c_origin[e]);
        assert(survives(zero, drop_zeros, b_origin[p]));
    }
    assert forall|p: int| e <= p < len - kept implies #[trigger] discarded(
        c,
        z,
        drop_zeros,
        c_origin[p],
        p,
        len - kept,
        len,
    ) by {
        if p > e {
            assert(c_origin[p] != c_origin[e]);
            assert(discarded(b, zero, drop_zeros, b_origin[p], p, len - kept, len));
            if !(drop_zeros && zero[b_origin[p]]) {
                let q = choose|q: int| #![trigger b[q]] len - kept <= q < len && b[q] == b[p];
                assert(c[q] == c[p]);
            }
        }
    }
}

/// Discarding the extracted entry as a repeat of the smallest kept index.
proof fn lemma_discard_repeat<Idx: Index>(
    b: Seq<Idx>,
    b_origin: Seq<int>,
    c: Seq<Idx>,
    c_origin: Seq<int>,
    zero: Seq<bool>,
    drop_zeros: bool,
    e: int,
    kept: int,
)
    requires
        after_extraction(b, b_origin, c, c_origin, zero, drop_zeros, e, kept),
        kept > 0,
        c[e] == c[b.len() - kept],
    ensures
        extraction_state(c, c_origin, zero, drop_zeros, e, kept),
{
    let len = b.len() as int;
    assert(c.subrange(len - kept, len) =~= b.subrange(len - kept, len));
    assert(b[0].rank() <= b[len - kept].rank());
    assert forall|p: int| len - kept <= p < len implies survives(
        zero,
        drop_zeros,
        #[trigger] c_origin[p],
    ) by {
        assert(survives(zero, drop_zeros, b_origin[p]));
    }
    assert forall|p: int| e <= p < len - kept implies #[trigger] discarded(
        c,
        zero,
        drop_zeros,
        c_origin[p],
        p,
        len - kept,
        len,
    ) by {
        if p > e {
            assert(discarded(b, zero, drop_zeros, b_origin[p], p, len - kept, len));
            if !(drop_zeros && zero[b_origin[p]]) {
                let q = choose|q: int| #![trigger b[q]] len - kept <= q < len && b[q] == b[p];
                assert(c[q] == c[p]);
            }
        } else {
            assert(c[len - kept] == c[p]);
        }
    }
}

/// Keeping the extracted entry, moved to `len - kept - 1`.
proof fn lemma_keep<Idx: Index>(
    b: Seq<Idx>,
    b_origin: Seq<int>,
    c: Seq<Idx>,
    c_origin: Seq<int>,
    d: Seq<Idx>,
    d_origin: Seq<int>,
    zero: Seq<bool>,
    drop_zeros: bool,
    e: int,
    kept: int,
)
    requires
        after_extraction(b, b_origin, c, c_origin, zero, drop_zeros, e, kept),
        kept == 0 || c[e].rank() != c[b.len() - kept].rank(),
        b.len() - kept - 1 == e ==> d == c && d_origin == c_origin,
        b.len() - kept - 1 != e ==> d == swapped(c, b.len() - kept - 1, e) && d_origin == swapped(
            c_origin,
            b.len() - kept - 1,
            e,
        ),
    ensures
        extraction_state(d, d_origin, zero, drop_zeros, e, kept + 1),
{
    let len = b.len() as int;
    let dest = len - kept - 1;
    assert(d[dest] == c[e]);
    assert(d_origin[dest] == c_origin[e]);
    assert(!zero[b_origin[0]]);
    assert forall|q: int| dest < q < len implies #[trigger] d[q] == c[q] && d_origin[q]
        == c_origin[q] by {}
    assert forall|h: int| 0 <= h < e implies #[trigger] d[h] == c[h] && d_origin[h]
        == c_origin[h] by {}
    assert forall|cc: int| 1 <= cc < e implies #[trigger] le_parent(d, cc) by {
        assert(le_parent(c, cc));
    }
    if kept > 0 {
        assert(b[0].rank() <= b[len - kept].rank());
    }
    assert forall|i: int, j: int| 0 <= i < j < kept + 1 implies #[trigger] d.subrange(
        dest,
        len,
    )[i].rank() < #[trigger] d.subrange(dest, len)[j].rank() by {
        if i == 0 {
            assert(b.subrange(len - kept, len)[0] == b[len - kept]);
            assert(b.subrange(len - kept, len)[j - 1] == b[dest + j]);
        } else {
            assert(b.subrange(len - kept, len)[i - 1] == b[dest + i]);
            assert(b.subrange(len - kept, len)[j - 1] == b[dest + j]);
        }
    }
    assert forall|p: int| dest <= p < len implies survives(
        zero,
        drop_zeros,
        #[trigger] d_origin[p],
    ) by {
        if p > dest {
            assert(survives(zero, drop_zeros, b_origin[p]));
        }
    }
    assert forall|p: int| e <= p < dest implies #[trigger] discarded(
        d,
        zero,
        drop_zeros,
        d_origin[p],
        p,
        dest,
        len,
    ) by {
        let src = if p == e {
            dest
        } else {
            p
        };
        assert(d[p] == b[src] && d_origin[p] == b_origin[src]);
        assert(discarded(b, zero, drop_zeros, b_origin[src], src, len - kept, len));
        if !(drop_zeros && zero[b_origin[src]]) {
            let q = choose|q: int| #![trigger b[q]] len - kept <= q < len && b[q] == b[src];
            assert(d[q] == d[p]);
        }
    }
}

/// A tracked permutation is injective and stays in range.
proof fn lemma_tracks_injective<Idx, T>(
    o_i: Seq<Idx>,
    o_v: Seq<T>,
    c_i: Seq<Idx>,
    c_v: Seq<T>,
    origin: Seq<int>,
    pos: Seq<int>,
)
    requires
        tracks(o_i, o_v, c_i, c_v, origin, pos),
    ensures
        injective(origin),
{
    assert forall|p: int, q: int|
        0 <= p < origin.len() && 0 <= q < origin.len() && p != q implies #[trigger] origin[p]
        != #[trigger] origin[q] by {
        assert(pos[origin[p]] == p);
        assert(pos[origin[q]] == q);
    }
}

/// Once the kept entries, in `s_i[len - kept..]`, are moved to the front,
/// the slices are in canonical form.
proof fn lemma_compacted<Idx: Index, T: Default + PartialEq>(
    o_i: Seq<Idx>,
    o_v: Seq<T>,
    s_i: Seq<Idx>,
    s_v: Seq<T>,
    origin: Seq<int>,
    pos: Seq<int>,
    f_i: Seq<Idx>,
    f_v: Seq<T>,
    zero: Seq<bool>,
    drop_zeros: bool,
    kept: int,
    ks: int,
)
    requires
        tracks(o_i, o_v, s_i, s_v, origin, pos),
        extraction_state(s_i, origin, zero, drop_zeros, 0, kept),
        zero_flags(o_v, zero, drop_zeros),
        f_i.len() == s_i.len(),
        f_v.len() == s_i.len(),
        ks == s_i.len() - kept,
        f_i.take(kept) == s_i.subrange(ks, s_i.len() as int),
        f_v.take(kept) == s_v.subrange(ks, s_i.len() as int),
    ensures
        canonical_form(o_i, o_v, f_i, f_v, kept, zero, drop_zeros),
{
    let len = s_i.len() as int;
    let out_i = f_i.take(kept);
    let out_v = f_v.take(kept);
    assert forall|p: int| 0 <= p < kept implies #[trigger] f_i[p] == s_i[ks + p] && f_v[p]
        == s_v[ks + p] by {
        assert(out_i[p] == f_i[p]);
        assert(out_v[p] == f_v[p]);
    }
    assert forall|p: int| 0 <= p < kept implies #[trigger] from_input(
        o_i,
        o_v,
        out_i,
        out_v,
        zero,
        drop_zeros,
        p,
    ) by {
        let k = origin[ks + p];
        assert(survives(zero, drop_zeros, origin[ks + p]));
        assert(0 <= k < len);
        assert(f_i[p] == s_i[ks + p]);
        assert(s_i[ks + p] == o_i[k]);
        assert(s_v[ks + p] == o_v[k]);
        assert(taken_from(o_i, o_v, out_i, out_v, zero, drop_zeros, p, k));
    }
    assert forall|k: int| 0 <= k < len && survives(zero, drop_zeros, k) implies #[trigger] kept_index(
        o_i,
        out_i,
        kept,
        k,
    ) by {
        let q = pos[k];
        assert(origin[q] == k);
        assert(s_i[q] == o_i[k]);
        if q >= ks {
            assert(out_i[q - ks] == o_i[k]);
        } else {
            assert(discarded(s_i, zero, drop_zeros, origin[q], q, ks, len));
            let q2 = choose|q2: int| #![trigger s_i[q2]] ks <= q2 < len && s_i[q2] == s_i[q];
            assert(out_i[q2 - ks] == o_i[k]);
        }
    }
}

/// Sorts entries by index, deduplicates (keeping an arbitrary value for
/// each index) and, if `drop_zeros`, drops the entries whose value is zero.
/// Returns the number of kept entries, which stand in `indices[..ret]` and
/// `values[..ret]`. The entries are the pairs `(indices[k], values[k])`
/// for `k < indices.len()`; values past those are left alone.
pub fn canonicalize_entries<T: Default + PartialEq, Idx: Index>(
    indices: &mut [Idx],
    values: &mut [T],
    drop_zeros: bool,
) -> (kept: usize)
    requires
        old(indices)@.len() <= old(values)@.len(),
    ensures
        exists|zero: Seq<bool>|
            canonical_form(
                old(indices)@,
                old(values)@.take(old(indices)@.len() as int),
                final(indices)@,
                final(values)@.take(old(indices)@.len() as int),
                kept as int,
                zero,
                drop_zeros,
            ),
        rearranges(
            old(indices)@,
            old(values)@.take(old(indices)@.len() as int),
            final(indices)@,
            final(values)@.take(old(indices)@.len() as int),
        ),
        final(values)@.len() == old(values)@.len(),
        final(values)@.skip(old(indices)@.len() as int) == old(values)@.skip(
            old(indices)@.len() as int,
        ),
{
    let n = indices.len();
    let ghost o_v = values@;
    let (head, tail) = values.split_at_mut(n);
    let ghost t0 = tail@;
    let kept = canonicalize_paired(indices, head, drop_zeros);
    let ghost h = head@;
    proof {
        assert(o_v.take(n as int) =~= o_v.subrange(0, n as int));
        assert(o_v.skip(n as int) =~= o_v.subrange(n as int, o_v.len() as int));
        assert(values@ == h + t0);
        assert(values@.take(n as int) =~= h);
        assert(values@.skip(n as int) =~= t0);
    }
    kept
}

/// [`canonicalize_entries`] on slices of equal length.
///
/// A heapsort builds a max-heap, then extracts the entries in descending
/// order of index and filters them on the way: the first of each index
/// that is not a dropped zero is kept, at the right end; at last the kept
/// entries move to the front.
#[verifier::spinoff_prover]
fn canonicalize_paired<T: Default + PartialEq, Idx: Index>(
    indices: &mut [Idx],
    values: &mut [T],
    drop_zeros: bool,
) -> (kept: usize)
    requires
        old(indices)@.len() == old(values)@.len(),
    ensures
        exists|zero: Seq<bool>|
            canonical_form(
                old(indices)@,
                old(values)@,
                final(indices)@,
                final(values)@,
                kept as int,
                zero,
                drop_zeros,
            ),
        rearranges(old(indices)@, old(values)@, final(indices)@, final(values)@),
{
    let len = indices.len();
    let ghost o_i = indices@;
    let ghost o_v = values@;
    let ghost mut zero: Seq<bool> = Seq::new(len as nat, |k: int| false);
    let ghost mut origin: Seq<int> = Seq::new(len as nat, |i: int| i);
    let ghost mut pos: Seq<int> = Seq::new(len as nat, |i: int| i);
    proof {
        assert(tracks(o_i, o_v, indices@, values@, origin, pos));
    }
    if len <= 1 {
        if len == 0 {
            proof {
                assert(canonical_form(o_i, o_v, indices@, values@, 0, zero, drop_zeros));
            }
            return 0;
        }
        if drop_zeros && is_zero(&values[0]) {
            proof {
                zero = zero.update(0, true);
                assert(canonical_form(o_i, o_v, indices@, values@, 0, zero, drop_zeros));
            }
            return 0;
        }
        proof {
            assert(o_i[0] == indices@[0] && o_v[0] == values@[0]);
            assert(survives(zero, drop_zeros, 0));
            assert(indices@.take(1) =~= indices@);
            assert(values@.take(1) =~= values@);
            assert(taken_from(o_i, o_v, indices@, values@, zero, drop_zeros, 0, 0));
            assert(from_input(o_i, o_v, indices@, values@, zero, drop_zeros, 0));
            assert(kept_index(o_i, indices@, 1, 0));
            assert(canonical_form(o_i, o_v, indices@, values@, 1, zero, drop_zeros));
        }
        return 1;
    }
    // Phase 1: build the max-heap.
    let mut start = len / 2;
    while start > 0
        invariant
            tracks(o_i, o_v, indices@, values@, origin, pos),
            2 <= len,
            indices@.len() == len,
            start <= len / 2,
            heap_from(indices@, start as int, len as int),
        decreases start,
    {
        start -= 1;
        let ghost before = indices@;
        proof {
            assert forall|c: int| start < c < len && in_subtree(start as int, c) && (c - 1) / 2
                != start implies #[trigger] le_parent(indices@, c) by {
                lemma_subtree_parent(start as int, c);
            }
        }
        let Ghost(moved) = sift_down(
            indices,
            values,
            start,
            len,
            Ghost(o_i),
            Ghost(o_v),
            Ghost(origin),
            Ghost(pos),
        );
        proof {
            origin = moved.0;
            pos = moved.1;
            lemma_heap_extended(before, indices@, start as int, len as int);
        }
    }
    // Phase 2: extract in descending order, filtering on the way.
    let mut kept: usize = 0;
    let mut end = len;
    while end > 1
        invariant
            tracks(o_i, o_v, indices@, values@, origin, pos),
            2 <= len,
            indices@.len() == len,
            1 <= end <= len,
            extraction_state(indices@, origin, zero, drop_zeros, end as int, kept as int),
            drop_zeros ==> forall|p: int| end <= p < len ==> #[trigger] answered(o_v, zero, origin[p]),
        decreases end,
    {
        end -= 1;
        let ghost b = indices@;
        let ghost b_origin = origin;
        // Move the maximum to `end`, and restore the heap on `..end`.
        let Ghost(moved) = swap_entries(
            indices,
            values,
            0,
            end,
            Ghost(o_i),
            Ghost(o_v),
            Ghost(origin),
            Ghost(pos),
        );
        proof {
            origin = moved.0;
            pos = moved.1;
            assert forall|c: int| 0 < c < end && in_subtree(0, c) && (c - 1) / 2 != 0 implies #[trigger] le_parent(
                indices@,
                c,
            ) by {
                assert(le_parent(b, c));
            }
        }
        let ghost a = indices@;
        let ghost a_origin = origin;
        let ghost a_pos = pos;
        let Ghost(moved) = sift_down(
            indices,
            values,
            0,
            end,
            Ghost(o_i),
            Ghost(o_v),
            Ghost(origin),
            Ghost(pos),
        );
        proof {
            origin = moved.0;
            pos = moved.1;
            assert forall|c: int| 1 <= c < end implies #[trigger] le_parent(indices@, c) by {
                lemma_subtree_of_root(c);
            }
            lemma_extraction_step(
                o_i,
                o_v,
                values@,
                b,
                b_origin,
                a,
                a_origin,
                a_pos,
                indices@,
                origin,
                pos,
                zero,
                drop_zeros,
                end as int,
                kept as int,
            );
        }
        let ghost c = indices@;
        let ghost c_origin = origin;
        if drop_zeros {
            let z = is_zero(&values[end]);
            proof {
                assert(values@[end as int] == o_v[origin[end as int]]);
            }
            if z {
                proof {
                    lemma_discard_zero(b, b_origin, c, c_origin, zero, drop_zeros, end as int, kept as int);
                    lemma_answered_zero(o_v, zero, b_origin, c_origin, end as int, len as int);
                    zero = zero.update(origin[end as int], true);
                }
                continue;
            }
            proof {
                assert(!zero[b_origin[0]]);
                lemma_answered_extended(o_v, zero, b_origin, c_origin, end as int, len as int);
            }
        }
        let keep_pos = len - kept;
        if kept == 0 || !indices[end].same(&indices[keep_pos]) {
            // A new index: keep it, left of the kept ones.
            let dest = keep_pos - 1;
            if dest != end {
                let Ghost(moved) = swap_entries(
                    indices,
                    values,
                    dest,
                    end,
                    Ghost(o_i),
                    Ghost(o_v),
                    Ghost(origin),
                    Ghost(pos),
                );
                proof {
                    origin = moved.0;
                    pos = moved.1;
                }
            }
            proof {
                lemma_keep(b, b_origin, c, c_origin, indices@, origin, zero, drop_zeros, end as int, kept as int);
            }
            kept += 1;
        } else {
            // A repeat of the smallest kept index: discard it.
            proof {
                Idx::lemma_rank(c[end as int], c[len - kept]);
                lemma_discard_repeat(b, b_origin, c, c_origin, zero, drop_zeros, end as int, kept as int);
            }
        }
    }
    // The entry left at position 0 is the smallest: filter it the same way.
    let ghost b = indices@;
    let ghost b_origin = origin;
    proof {
        lemma_tracks_injective(o_i, o_v, indices@, values@, origin, pos);
        assert(after_extraction(b, b_origin, b, b_origin, zero, drop_zeros, 0, kept as int));
    }
    let dropped = if drop_zeros {
        let z = is_zero(&values[0]);
        proof {
            assert(values@[0] == o_v[origin[0]]);
        }
        z
    } else {
        false
    };
    proof {
        if drop_zeros && !dropped {
            assert(!zero[b_origin[0]]);
            lemma_answered_extended(o_v, zero, b_origin, b_origin, 0, len as int);
        }
    }
    if !dropped {
        let keep_pos = len - kept;
        if kept == 0 || !indices[0].same(&indices[keep_pos]) {
            let dest = keep_pos - 1;
            if dest != 0 {
                proof {
                    if drop_zeros {
                        lemma_answered_swap(o_v, zero, origin, 0, dest as int, len as int);
                    }
                }
                let Ghost(moved) = swap_entries(
                    indices,
                    values,
                    dest,
                    0,
                    Ghost(o_i),
                    Ghost(o_v),
                    Ghost(origin),
                    Ghost(pos),
                );
                proof {
                    origin = moved.0;
                    pos = moved.1;
                }
            }
            proof {
                lemma_keep(b, b_origin, b, b_origin, indices@, origin, zero, drop_zeros, 0, kept as int);
            }
            kept += 1;
        } else {
            proof {
                Idx::lemma_rank(b[0], b[len - kept]);
                lemma_discard_repeat(b, b_origin, b, b_origin, zero, drop_zeros, 0, kept as int);
            }
        }
    } else {
        proof {
            lemma_discard_zero(b, b_origin, b, b_origin, zero, drop_zeros, 0, kept as int);
            lemma_answered_zero(o_v, zero, b_origin, b_origin, 0, len as int);
            zero = zero.update(origin[0], true);
        }
    }
    proof {
        if drop_zeros {
            assert forall|k: int| 0 <= k < o_v.len() implies #[trigger] zero_answer(o_v[k], zero[k]) by {
                assert(origin[pos[k]] == k);
                assert(answered(o_v, zero, origin[pos[k]]));
            }
        }
    }
    // Phase 3: move the kept entries from the right end to the front.
    let kept_start = len - kept;
    let ghost s_i = indices@;
    let ghost s_v = values@;
    let ghost s_origin = origin;
    let ghost s_pos = pos;
    let mut i: usize = 0;
    while i < kept
        invariant
            tracks(o_i, o_v, indices@, values@, origin, pos),
            kept_start + kept == len,
            i <= kept,
            indices@.len() == len,
            values@.len() == len,
            s_i.len() == len,
            s_v.len() == len,
            forall|p: int|
                0 <= p < i ==> #[trigger] indices@[p] == s_i[kept_start + p] && values@[p]
                    == s_v[kept_start + p],
            forall|j: int|
                i <= j < kept ==> #[trigger] indices@[kept_start + j] == s_i[kept_start + j]
                    && values@[kept_start + j] == s_v[kept_start + j],
        decreases kept - i,
    {
        let ghost pre_i = indices@;
        let ghost pre_v = values@;
        let Ghost(moved) = swap_entries(
            indices,
            values,
            i,
            kept_start + i,
            Ghost(o_i),
            Ghost(o_v),
            Ghost(origin),
            Ghost(pos),
        );
        proof {
            origin = moved.0;
            pos = moved.1;
            assert forall|j: int| i < j < kept implies #[trigger] indices@[kept_start + j]
                == s_i[kept_start + j] && values@[kept_start + j] == s_v[kept_start + j] by {
                assert(pre_i[kept_start + j] == s_i[kept_start + j]);
                assert(pre_v[kept_start + j] == s_v[kept_start + j]);
            }
            assert(pre_i[kept_start + i] == s_i[kept_start + i]);
            assert(pre_v[kept_start + i] == s_v[kept_start + i]);
            assert forall|p: int| 0 <= p < i + 1 implies #[trigger] indices@[p] == s_i[kept_start + p]
                && values@[p] == s_v[kept_start + p] by {
                if p < i {
                    assert(indices@[p] == pre_i[p]);
                    assert(values@[p] == pre_v[p]);
                    assert(pre_i[p] == s_i[kept_start + p]);
                }
            }
        }
        i += 1;
    }
    proof {
        assert(i == kept);
        assert(indices@.take(kept as int) =~= s_i.subrange(kept_start as int, len as int));
        assert(values@.take(kept as int) =~= s_v.subrange(kept_start as int, len as int)) by {
            assert forall|p: int| 0 <= p < kept implies values@[p] == s_v[kept_start + p] by {
                assert(indices@[p] == s_i[kept_start + p]);
            }
        }
        assert(rearranges(o_i, o_v, indices@, values@));
        lemma_compacted(
            o_i,
            o_v,
            s_i,
            s_v,
            s_origin,
            s_pos,
            indices@,
            values@,
            zero,
            drop_zeros,
            kept as int,
            kept_start as int,
        );
    }
    kept
}

} // verus!

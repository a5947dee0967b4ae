//! Searching sorted index slices.

use vstd::prelude::*;

use crate::Index;

verus! {

/// The ranks of `s` never decrease.
pub open spec fn sorted<Idx: Index>(s: Seq<Idx>) -> bool {
    forall|i: int, j: int| 0 <= i <= j < s.len() ==> s[i].rank() <= s[j].rank()
}

/// The first position of `s`, from `from` on, whose index is not below
/// `target`; `s.len()` where there is none, and `from` itself where
/// `from` is already past the end.
pub open spec fn lower_bound<Idx: Index>(s: Seq<Idx>, from: int, target: Idx) -> int
    decreases s.len() - from,
{
    if from < 0 || from >= s.len() {
        from
    } else if s[from].rank() >= target.rank() {
        from
    } else {
        lower_bound(s, from + 1, target)
    }
}

/// Where every index in `from..lo` is below `target` and the one at `lo`
/// (if any) is not, `lo` is the lower bound.
proof fn lemma_lower_bound_at<Idx: Index>(s: Seq<Idx>, from: int, lo: int, target: Idx)
    requires
        0 <= from <= lo <= s.len(),
        forall|q: int| from <= q < lo ==> #[trigger] s[q].rank() < target.rank(),
        lo < s.len() ==> s[lo].rank() >= target.rank(),
    ensures
        lower_bound(s, from, target) == lo,
    decreases lo - from,
{
    if from < lo {
        lemma_lower_bound_at(s, from + 1, lo, target);
    }
}

/// Search `large[cursor..]` for `target` using exponential probes then
/// halving. Updates `cursor` to the insertion point, just past `target`
/// where it is found. Returns `Some(pos)` if found, `None` otherwise.
pub fn galloping_seek<Idx: Index>(large: &[Idx], cursor: &mut usize, target: Idx) -> (r: Option<usize>)
    requires
        sorted(large@),
    ensures
        ({
            let p = lower_bound(large@, *old(cursor) as int, target);
            let found = p < large@.len() && large@[p].rank() == target.rank();
            &&& found ==> r == Some(p as usize) && *final(cursor) == p + 1
            &&& !found ==> r is None && *final(cursor) == p
        }),
{
    let n = large.len();
    let start = *cursor;
    if start >= n {
        return None;
    }
    // Exponential phase: probe `start`, `start + 1`, `start + 3`, ...
    // until an index is not below `target` or the slice ends.
    let mut lo: usize = start;
    let mut hi: usize = n;
    let mut probe: usize = start;
    let mut step: usize = 1;
    loop
        invariant_except_break
            start <= lo <= probe < n,
            1 <= step,
            hi == n,
        invariant
            n == large@.len(),
            sorted(large@),
            forall|q: int| start <= q < lo ==> #[trigger] large@[q].rank() < target.rank(),
        ensures
            start <= lo <= hi <= n,
            forall|q: int| start <= q < lo ==> #[trigger] large@[q].rank() < target.rank(),
            hi < n ==> large@[hi as int].rank() >= target.rank(),
        decreases n - probe,
    {
        if !large[probe].less(&target) {
            hi = probe;
            break;
        }
        proof {
            assert forall|q: int| start <= q < probe + 1 implies #[trigger] large@[q].rank()
                < target.rank() by {
                assert(large@[q].rank() <= large@[probe as int].rank());
            }
        }
        lo = probe + 1;
        if step > n - 1 - probe {
            break;
        }
        probe = probe + step;
        if step <= usize::MAX / 2 {
            step = step * 2;
        }
    }
    // Halving phase: the lower bound lies in `lo..=hi`.
    while lo < hi
        invariant
            n == large@.len(),
            sorted(large@),
            start <= lo <= hi <= n,
            forall|q: int| start <= q < lo ==> #[trigger] large@[q].rank() < target.rank(),
            hi < n ==> large@[hi as int].rank() >= target.rank(),
        decreases hi - lo,
    {
        let mid = lo + (hi - lo) / 2;
        if large[mid].less(&target) {
            proof {
                assert forall|q: int| start <= q < mid + 1 implies #[trigger] large@[q].rank()
                    < target.rank() by {
                    assert(large@[q].rank() <= large@[mid as int].rank());
                }
            }
            lo = mid + 1;
        } else {
            hi = mid;
        }
    }
    proof {
        lemma_lower_bound_at(large@, start as int, lo as int, target);
    }
    if lo < n && large[lo].same(&target) {
        *cursor = lo + 1;
        Some(lo)
    } else {
        *cursor = lo;
        None
    }
}

} // verus!

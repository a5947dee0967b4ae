//! Backing storage of sparse vectors: parallel index and value buffers.

use vstd::prelude::*;
use vstd::std_specs::iter::IteratorSpec;

use crate::scalar::{is_zero, zero_answer};
use crate::sparse::iter::SparseSliceIter;
use crate::sparse::util::{canonical_form, canonicalize_entries, canonicalizes, strictly_increasing};
use crate::text::{debug_pair_list_text, is_pair_list_of};
use crate::wrappers::collect_vec;
use crate::iter::{first_at_most, take_items};
use crate::{FromIteratorLossy, Index, TryFromIterator};

verus! {

/// The indices of a sequence of entries.
pub open spec fn keys<Idx, T>(entries: Seq<(Idx, T)>) -> Seq<Idx> {
    entries.map_values(|e: (Idx, T)| e.0)
}

/// The values of a sequence of entries.
pub open spec fn vals<Idx, T>(entries: Seq<(Idx, T)>) -> Seq<T> {
    entries.map_values(|e: (Idx, T)| e.1)
}

/// The entries among the first `n` of `pairs` whose value is not zero,
/// where `zero[k]` tells whether value `k` is zero.
pub open spec fn nonzero_prefix<Idx, T>(pairs: Seq<(Idx, T)>, zero: Seq<bool>, n: nat) -> Seq<
    (Idx, T),
>
    decreases n,
{
    if n == 0 {
        Seq::empty()
    } else {
        let rest = nonzero_prefix(pairs, zero, (n - 1) as nat);
        if zero[n - 1] {
            rest
        } else {
            rest.push(pairs[n - 1])
        }
    }
}

/// The entries of `pairs` whose value is not zero.
pub open spec fn nonzero_pairs<Idx, T>(pairs: Seq<(Idx, T)>, zero: Seq<bool>) -> Seq<(Idx, T)> {
    nonzero_prefix(pairs, zero, pairs.len())
}

/// Zero flags that agree on the first `m` entries keep the same entries.
proof fn lemma_nonzero_agree<Idx, T>(pairs: Seq<(Idx, T)>, z1: Seq<bool>, z2: Seq<bool>, m: nat)
    requires
        m <= z1.len(),
        m <= z2.len(),
        forall|k: int| 0 <= k < m ==> z1[k] == z2[k],
    ensures
        nonzero_prefix(pairs, z1, m) == nonzero_prefix(pairs, z2, m),
    decreases m,
{
    if m > 0 {
        lemma_nonzero_agree(pairs, z1, z2, (m - 1) as nat);
    }
}

/// Zero flags and pairs that agree on the first `m` entries keep the same
/// entries.
proof fn lemma_nonzero_agree_on<Idx, T>(
    p1: Seq<(Idx, T)>,
    z1: Seq<bool>,
    p2: Seq<(Idx, T)>,
    z2: Seq<bool>,
    m: nat,
)
    requires
        m <= z1.len(),
        m <= z2.len(),
        m <= p1.len(),
        m <= p2.len(),
        forall|k: int| #![trigger p1[k]] 0 <= k < m ==> p1[k] == p2[k] && z1[k] == z2[k],
    ensures
        nonzero_prefix(p1, z1, m) == nonzero_prefix(p2, z2, m),
    decreases m,
{
    if m > 0 {
        assert(p1[m - 1] == p2[m - 1]);
        lemma_nonzero_agree_on(p1, z1, p2, z2, (m - 1) as nat);
    }
}

/// Where every flag is set, no entry is kept.
proof fn lemma_nonzero_none<Idx, T>(pairs: Seq<(Idx, T)>, zero: Seq<bool>, m: nat)
    requires
        m <= zero.len(),
        forall|k: int| 0 <= k < m ==> zero[k],
    ensures
        nonzero_prefix(pairs, zero, m) == Seq::<(Idx, T)>::empty(),
    decreases m,
{
    if m > 0 {
        lemma_nonzero_none(pairs, zero, (m - 1) as nat);
    }
}

/// The entries kept of `a + b` are those kept of `a`, then those of `b`.
proof fn lemma_nonzero_concat<Idx, T>(a: Seq<(Idx, T)>, za: Seq<bool>, b: Seq<(Idx, T)>, zb: Seq<bool>)
    requires
        za.len() == a.len(),
        zb.len() == b.len(),
    ensures
        nonzero_prefix(a + b, za + zb, a.len() + b.len()) == nonzero_prefix(a, za, a.len())
            + nonzero_prefix(b, zb, b.len()),
    decreases b.len(),
{
    if b.len() == 0 {
        assert(a + b =~= a);
        assert(za + zb =~= za);
        assert(nonzero_prefix(a, za, a.len()) + nonzero_prefix(b, zb, b.len()) =~= nonzero_prefix(
            a,
            za,
            a.len(),
        ));
    } else {
        let b1 = b.drop_last();
        let zb1 = zb.drop_last();
        let n = a.len() + b.len();
        lemma_nonzero_concat(a, za, b1, zb1);
        lemma_nonzero_agree_on(a + b, za + zb, a + b1, za + zb1, (n - 1) as nat);
        lemma_nonzero_agree_on(b, zb, b1, zb1, (b.len() - 1) as nat);
        assert((a + b)[n - 1] == b[b.len() - 1]);
        assert((za + zb)[n - 1] == zb[zb.len() - 1]);
        let x = nonzero_prefix(a, za, a.len());
        let y = nonzero_prefix(b1, zb1, b1.len());
        assert((x + y).push(b[b.len() - 1]) =~= x + y.push(b[b.len() - 1]));
    }
}

/// `k` set flags: `k` entries taken as zero.
pub open spec fn skip_flags(k: nat) -> Seq<bool> {
    Seq::new(k, |j: int| true)
}

/// Skipping `rem` as zeros keeps the same entries.
proof fn lemma_nonzero_skipped<Idx, T>(seen: Seq<(Idx, T)>, zero: Seq<bool>, rem: Seq<(Idx, T)>)
    requires
        zero.len() == seen.len(),
    ensures
        nonzero_prefix(seen + rem, zero + skip_flags(rem.len()), seen.len() + rem.len())
            == nonzero_prefix(seen, zero, seen.len()),
{
    lemma_nonzero_concat(seen, zero, rem, skip_flags(rem.len()));
    lemma_nonzero_none(rem, skip_flags(rem.len()), rem.len());
    assert(nonzero_prefix(seen, zero, seen.len()) + Seq::<(Idx, T)>::empty() =~= nonzero_prefix(
        seen,
        zero,
        seen.len(),
    ));
}

/// Skipping the first `k` of `rem` as zeros and then taking entry `k` keeps
/// one entry more: entry `k`.
proof fn lemma_nonzero_found<Idx, T>(seen: Seq<(Idx, T)>, zero: Seq<bool>, rem: Seq<(Idx, T)>, k: int)
    requires
        zero.len() == seen.len(),
        0 <= k < rem.len(),
    ensures
        nonzero_prefix(
            seen + rem.take(k + 1),
            zero + skip_flags(k as nat).push(false),
            (seen.len() + k + 1) as nat,
        ) == nonzero_prefix(seen, zero, seen.len()).push(rem[k]),
{
    let t = rem.take(k + 1);
    let f = skip_flags(k as nat).push(false);
    lemma_nonzero_concat(seen, zero, t, f);
    lemma_nonzero_none(t, f, k as nat);
    assert(t[k] == rem[k]);
    assert(nonzero_prefix(t, f, (k + 1) as nat) =~= seq![rem[k]]);
    assert(nonzero_prefix(seen, zero, seen.len()) + seq![rem[k]] =~= nonzero_prefix(
        seen,
        zero,
        seen.len(),
    ).push(rem[k]));
}

/// The first `k` of `pairs` have zero values.
pub open spec fn zeros_first<Idx, T: Default + PartialEq>(pairs: Seq<(Idx, T)>, k: int) -> bool {
    forall|j: int| 0 <= j < k ==> #[trigger] zero_answer(pairs[j].1, true)
}

/// Of the pairs `rem` left in an iterator, `k` were passed over as zeros
/// and `r` is the one that came next, with `after` left; or, where `k` is
/// all of them, none came.
pub open spec fn found_at<Idx, T: Default + PartialEq>(
    rem: Seq<(Idx, T)>,
    k: int,
    r: Option<(Idx, T)>,
    after: Seq<(Idx, T)>,
) -> bool {
    if k < rem.len() {
        &&& r == Some(rem[k])
        &&& zero_answer(rem[k].1, false)
        &&& after == rem.skip(k + 1)
    } else {
        r is None && after.len() == 0
    }
}

/// After `m` pairs of `all`, with flags `zero` answering for them, the
/// non-zero ones are `(indices, values)`.
pub open spec fn stream_state<Idx, T: Default + PartialEq>(
    all: Seq<(Idx, T)>,
    zero: Seq<bool>,
    m: int,
    indices: Seq<Idx>,
    values: Seq<T>,
) -> bool {
    &&& 0 <= m <= all.len()
    &&& zero.len() == m
    &&& zero_answers(all, zero)
    &&& keys(nonzero_prefix(all, zero, m as nat)) == indices
    &&& vals(nonzero_prefix(all, zero, m as nat)) == values
}

/// Passing over `k` zero pairs after the first `m` and then taking pair
/// `m + k` keeps that pair.
proof fn lemma_stream_found<Idx, T: Default + PartialEq>(
    all: Seq<(Idx, T)>,
    zero: Seq<bool>,
    m: int,
    k: int,
    pair: (Idx, T),
)
    requires
        0 <= m,
        zero.len() == m,
        zero_answers(all, zero),
        0 <= k,
        m + k < all.len(),
        zeros_first(all.skip(m), k),
        zero_answer(all[m + k].1, false),
        pair == all[m + k],
    ensures
        (zero + skip_flags(k as nat).push(false)).len() == m + k + 1,
        zero_answers(all, zero + skip_flags(k as nat).push(false)),
        nonzero_prefix(all, zero + skip_flags(k as nat).push(false), (m + k + 1) as nat)
            == nonzero_prefix(all, zero, m as nat).push(pair),
{
    let z1 = zero + skip_flags(k as nat).push(false);
    let seen = all.take(m);
    let rem = all.skip(m);
    lemma_nonzero_found(seen, zero, rem, k);
    lemma_nonzero_agree_on(all, z1, seen + rem.take(k + 1), z1, (m + k + 1) as nat);
    lemma_nonzero_agree_on(all, zero, seen, zero, m as nat);
    assert forall|j: int| 0 <= j < z1.len() implies #[trigger] zero_answer(all[j].1, z1[j]) by {
        if j < m {
            assert(z1[j] == zero[j]);
        } else if j < m + k {
            assert(rem[j - m] == all[j]);
            assert(zero_answer(rem[j - m].1, true));
        }
    }
}

/// Passing over all pairs after the first `m` as zeros keeps the same
/// pairs.
proof fn lemma_stream_skipped<Idx, T: Default + PartialEq>(all: Seq<(Idx, T)>, zero: Seq<bool>, m: int)
    requires
        0 <= m <= all.len(),
        zero.len() == m,
        zero_answers(all, zero),
        zeros_first(all.skip(m), all.len() - m),
    ensures
        zero_answers(all, zero + skip_flags((all.len() - m) as nat)),
        nonzero_prefix(all, zero + skip_flags((all.len() - m) as nat), all.len())
            == nonzero_prefix(all, zero, m as nat),
{
    let z1 = zero + skip_flags((all.len() - m) as nat);
    let seen = all.take(m);
    let rem = all.skip(m);
    lemma_nonzero_skipped(seen, zero, rem);
    assert(seen + rem =~= all);
    lemma_nonzero_agree_on(all, zero, seen, zero, m as nat);
    assert forall|j: int| 0 <= j < z1.len() implies #[trigger] zero_answer(all[j].1, z1[j]) by {
        if j < m {
            assert(z1[j] == zero[j]);
        } else {
            assert(rem[j - m] == all[j]);
            assert(zero_answer(rem[j - m].1, true));
        }
    }
}

/// The pairs after the first `m`, with their own flags, complete the flags
/// of `all`, and their non-zero pairs follow the first ones.
proof fn lemma_stream_rest<Idx, T: Default + PartialEq>(
    all: Seq<(Idx, T)>,
    zero: Seq<bool>,
    m: int,
    rest: Seq<(Idx, T)>,
    zr: Seq<bool>,
)
    requires
        0 <= m <= all.len(),
        zero.len() == m,
        zero_answers(all, zero),
        rest == all.skip(m),
        zr.len() == rest.len(),
        zero_answers(rest, zr),
    ensures
        zero_answers(all, zero + zr),
        (zero + zr).len() == all.len(),
        nonzero_prefix(all, zero + zr, all.len()) == nonzero_prefix(all, zero, m as nat)
            + nonzero_prefix(rest, zr, rest.len()),
{
    let seen = all.take(m);
    assert(seen + rest =~= all);
    lemma_nonzero_concat(seen, zero, rest, zr);
    lemma_nonzero_agree_on(all, zero, seen, zero, m as nat);
    let z = zero + zr;
    assert forall|j: int| 0 <= j < z.len() implies #[trigger] zero_answer(all[j].1, z[j]) by {
        if j < m {
            assert(z[j] == zero[j]);
        } else {
            assert(rest[j - m] == all[j] && z[j] == zr[j - m]);
        }
    }
}

/// `Iterator::find` with the test `!is_zero(&pair.1)`: advances `iter`
/// past the pairs whose value is zero and returns the first pair whose
/// value is not, or `None` once `iter` is done. The test is
/// [`is_zero`], so the pairs passed over answer zero and the one returned
/// does not. Of iterators outside vstd's model of iterators nothing is
/// stated.
#[verifier::external_body]
fn next_nonzero<Idx, T: Default + PartialEq, I: Iterator<Item = (Idx, T)>>(iter: &mut I) -> (r: Option<(Idx, T)>)
    ensures
        (*final(iter)).obeys_prophetic_iter_laws() == (*old(iter)).obeys_prophetic_iter_laws(),
        (*old(iter)).obeys_prophetic_iter_laws() ==> exists|k: int|
            0 <= k <= (*old(iter)).remaining().len() && zeros_first((*old(iter)).remaining(), k)
                && #[trigger] found_at((*old(iter)).remaining(), k, r, (*final(iter)).remaining()),
{
    iter.find(|pair| !is_zero(&pair.1))
}

/// The error for index `index` found right after index `prev`.
pub open spec fn order_error<Idx: Index>(prev: Idx, index: Idx) -> SparseVecStorageError<Idx> {
    if index.rank() == prev.rank() {
        SparseVecStorageError::DuplicateIndices { index }
    } else {
        SparseVecStorageError::UnsortedIndices { index }
    }
}

/// Entry `p` of `kept` is the first whose index does not exceed the one
/// before it.
pub open spec fn first_disorder<Idx: Index, T>(kept: Seq<(Idx, T)>, p: int) -> bool {
    &&& 1 <= p < kept.len()
    &&& kept[p].0.rank() <= kept[p - 1].0.rank()
    &&& strictly_increasing(keys(kept).take(p))
}

/// Construct storage from already-canonical `(index, value)` pairs
/// without re-sorting, re-deduplicating, or filtering.
///
/// The caller guarantees strictly increasing indices (and, ideally, no
/// zero values); the storage holds the pairs as given.
pub trait FromCanonicalPairs<Idx, T>: SparseStorage<Idx, T> {
    /// How many of `n` entries the storage keeps: all of them, or as many
    /// as it can hold.
    spec fn kept_count(n: nat) -> nat;

    /// Construct `Self` from guaranteed-canonical `(index, value)` pairs:
    /// the storage holds them, as many as fit.
    fn from_canonical_pairs<I: Iterator<Item = (Idx, T)>>(iter: I) -> (s: Self)
        ensures
            parallel(&s),
            iter.obeys_prophetic_iter_laws() ==> {
                let items = iter.remaining();
                &&& s.spec_indices().len() <= items.len()
                &&& s.spec_indices() == keys(items).take(s.spec_indices().len() as int)
                &&& s.spec_values() == vals(items).take(s.spec_indices().len() as int)
                &&& s.spec_indices().len() == Self::kept_count(items.len())
            },
    ;

    /// Construct `Self` from guaranteed-canonical parallel indices and
    /// values: the storage holds them, as many as fit.
    fn from_canonical_parts(indices: Vec<Idx>, values: Vec<T>) -> (s: Self)
        requires
            indices@.len() == values@.len(),
        ensures
            parallel(&s),
            s.spec_indices().len() <= indices@.len(),
            s.spec_indices() == indices@.take(s.spec_indices().len() as int),
            s.spec_values() == values@.take(s.spec_indices().len() as int),
            s.spec_indices().len() == Self::kept_count(indices@.len()),
    ;
}

/// The storage holds as many indices as values.
pub open spec fn parallel<Idx, T, S: SparseStorage<Idx, T>>(s: &S) -> bool {
    s.spec_indices().len() == s.spec_values().len()
}

/// Backing storage for sparse vector components: parallel buffers of
/// indices and values.
pub trait SparseStorage<Idx, T>: Sized {
    /// The stored indices.
    spec fn spec_indices(&self) -> Seq<Idx>;

    /// The stored values, parallel to the indices.
    spec fn spec_values(&self) -> Seq<T>;

    /// Returns the number of elements in the storage.
    fn len(&self) -> (n: usize)
        ensures
            n == self.spec_values().len(),
    ;

    /// Returns true if the storage has a length of 0.
    fn is_empty(&self) -> (b: bool)
        ensures
            b == (self.spec_values().len() == 0),
    ;

    /// Returns a slice containing the entire index storage.
    fn indices(&self) -> (s: &[Idx])
        ensures
            s@ == self.spec_indices(),
    ;

    /// Returns a mutable slice containing the entire index storage.
    fn indices_mut(&mut self) -> (s: &mut [Idx])
        ensures
            s@ == old(self).spec_indices(),
            final(s)@ == final(self).spec_indices(),
            final(self).spec_values() == old(self).spec_values(),
    ;

    /// Returns a slice containing the entire value storage.
    fn values(&self) -> (s: &[T])
        ensures
            s@ == self.spec_values(),
    ;

    /// Returns a mutable slice containing the entire value storage.
    fn values_mut(&mut self) -> (s: &mut [T])
        ensures
            s@ == old(self).spec_values(),
            final(s)@ == final(self).spec_values(),
            final(self).spec_indices() == old(self).spec_indices(),
    ;

    /// Returns a borrowing iterator over `(index, value)` pairs.
    fn iter<'a>(&'a self) -> (it: SparseSliceIter<'a, Idx, T>)
        ensures
            it.indices() == self.spec_indices(),
            it.values() == self.spec_values(),
            it.pos() == 0,
    ;
}

/// Errors that can occur when constructing a sparse vector from unsorted input.
#[derive(Clone, Eq, PartialEq, Debug)]
pub enum SparseVecStorageError<Idx> {
    /// Indices are not in strictly increasing order; the value at this index was out of order.
    UnsortedIndices {
        /// The index in the input where the unsorted entry was found.
        index: Idx,
    },
    /// The same index appears more than once; this is the second occurrence.
    DuplicateIndices {
        /// The index that appears more than once.
        index: Idx,
    },
}

/// Heap-allocated storage for a sparse vector.
///
/// Stores parallel `Vec<Idx>` and `Vec<T>` buffers in a
/// struct-of-arrays layout. Construction from an iterator of
/// `(index, value)` pairs is fallible; see
/// [`SparseVecStorageError`].
#[derive(Clone, Eq, PartialEq, Debug)]
pub struct SparseVecStorage<Idx, T> {
    indices: Vec<Idx>,
    values: Vec<T>,
}

impl<Idx, T> SparseVecStorage<Idx, T> {
    /// The stored indices.
    pub closed spec fn index_seq(&self) -> Seq<Idx> {
        self.indices@
    }

    /// The stored values.
    pub closed spec fn value_seq(&self) -> Seq<T> {
        self.values@
    }
}

impl<Idx: Index, T: Copy> SparseStorage<Idx, T> for SparseVecStorage<Idx, T> {
    open spec fn spec_indices(&self) -> Seq<Idx> {
        self.index_seq()
    }

    open spec fn spec_values(&self) -> Seq<T> {
        self.value_seq()
    }

    fn len(&self) -> (n: usize) {
        self.values.len()
    }

    fn is_empty(&self) -> (b: bool) {
        self.values.len() == 0
    }

    fn indices(&self) -> (s: &[Idx]) {
        self.indices.as_slice()
    }

    fn indices_mut(&mut self) -> (s: &mut [Idx]) {
        self.indices.as_mut_slice()
    }

    fn values(&self) -> (s: &[T]) {
        self.values.as_slice()
    }

    fn values_mut(&mut self) -> (s: &mut [T]) {
        self.values.as_mut_slice()
    }

    fn iter<'a>(&'a self) -> (it: SparseSliceIter<'a, Idx, T>) {
        SparseSliceIter::new(self.indices.as_slice(), self.values.as_slice())
    }
}

/// `zero[k]` answers whether value `k` of `pairs` is zero, for every `k`
/// that `zero` covers.
pub open spec fn zero_answers<Idx, T: Default + PartialEq>(pairs: Seq<(Idx, T)>, zero: Seq<bool>) -> bool {
    &&& zero.len() <= pairs.len()
    &&& forall|k: int| 0 <= k < zero.len() ==> #[trigger] zero_answer(pairs[k].1, zero[k])
}

/// `r` is the outcome of validating `pairs`, where `zero` answers for the
/// entries looked at: the non-zero entries, if their indices strictly
/// increase; else the error at the first of them whose index does not
/// exceed the one before, which is the last entry looked at.
pub open spec fn validated<Idx: Index, T: Default + PartialEq>(
    pairs: Seq<(Idx, T)>,
    zero: Seq<bool>,
    r: Result<SparseVecStorage<Idx, T>, SparseVecStorageError<Idx>>,
) -> bool {
    let kept = nonzero_prefix(pairs, zero, zero.len());
    &&& zero_answers(pairs, zero)
    &&& r matches Ok(s) ==> {
        &&& zero.len() == pairs.len()
        &&& strictly_increasing(keys(kept))
        &&& s.index_seq() == keys(kept)
        &&& s.value_seq() == vals(kept)
    }
    &&& r matches Err(e) ==> {
        &&& first_disorder(kept, kept.len() - 1)
        &&& e == order_error(kept[kept.len() - 2].0, kept[kept.len() - 1].0)
    }
}

impl<Idx: Index, T: Default + PartialEq> SparseVecStorage<Idx, T> {
    /// Builds the storage from `(index, value)` pairs that must come in
    /// strictly increasing order of index. Zero-valued entries are dropped
    /// first; the first remaining entry whose index does not exceed the
    /// one before it is reported, as a duplicate if the two are equal.
    pub fn try_from_pairs(pairs: Vec<(Idx, T)>) -> (r: Result<Self, SparseVecStorageError<Idx>>)
        ensures
            exists|zero: Seq<bool>| #[trigger] validated(pairs@, zero, r),
    {
        let ghost all = pairs@;
        let mut indices: Vec<Idx> = Vec::new();
        let mut values: Vec<T> = Vec::new();
        let mut prev_index: Option<Idx> = None;
        let ghost mut zero: Seq<bool> = Seq::empty();
        for pair in it: pairs
            invariant
                all == it.seq(),
                zero.len() == it.index(),
                zero_answers(all, zero),
                keys(nonzero_prefix(all, zero, it.index() as nat)) == indices@,
                vals(nonzero_prefix(all, zero, it.index() as nat)) == values@,
                strictly_increasing(indices@),
                prev_index is None <==> indices@.len() == 0,
                prev_index matches Some(p) ==> indices@.len() > 0 && p == indices@.last(),
        {
            let ghost n = it.index();
            let (index, value) = pair;
            let z = is_zero(&value);
            let ghost z0 = zero;
            proof {
                zero = zero.push(z);
                assert(all[n] == (index, value));
                lemma_nonzero_agree(all, z0, zero, n as nat);
            }
            if !z {
                if let Some(prev) = prev_index {
                    if !prev.less(&index) {
                        let ghost kept = nonzero_prefix(all, zero, (n + 1) as nat);
                        proof {
                            let p = kept.len() - 1;
                            let before = nonzero_prefix(all, zero, n as nat);
                            assert(kept == before.push(all[n]));
                            assert(before.len() == indices@.len());
                            assert(kept[p - 1] == before[p - 1]);
                            assert(keys(before)[p - 1] == kept[p - 1].0);
                            assert forall|i: int| 0 <= i < p implies #[trigger] keys(kept).take(p)[i]
                                == indices@[i] by {
                                assert(kept[i] == before[i]);
                            }
                            assert(keys(kept).take(p) =~= indices@);
                            assert(first_disorder(kept, p));
                        }
                        let r = if index.same(&prev) {
                            Err(SparseVecStorageError::DuplicateIndices { index })
                        } else {
                            Err(SparseVecStorageError::UnsortedIndices { index })
                        };
                        proof {
                            assert(validated(all, zero, r));
                        }
                        return r;
                    }
                }
                indices.push(index);
                values.push(value);
                prev_index = Some(index);
            }
        }
        let r = Ok(SparseVecStorage { indices, values });
        proof {
            assert(validated(all, zero, r));
        }
        r
    }
}

/// Splits `pairs` into its indices and its values.
fn unzip_pairs<Idx, T>(pairs: Vec<(Idx, T)>) -> (parts: (Vec<Idx>, Vec<T>))
    ensures
        parts.0@ == keys(pairs@),
        parts.1@ == vals(pairs@),
{
    let ghost all = pairs@;
    let mut indices: Vec<Idx> = Vec::new();
    let mut values: Vec<T> = Vec::new();
    for pair in it: pairs
        invariant
            all == it.seq(),
            indices@ == keys(all.take(it.index())),
            values@ == vals(all.take(it.index())),
    {
        let ghost n = it.index();
        let (index, value) = pair;
        indices.push(index);
        values.push(value);
        proof {
            assert(all.take(n + 1) =~= all.take(n).push(all[n]));
            assert(keys(all.take(n + 1)) =~= indices@);
            assert(vals(all.take(n + 1)) =~= values@);
        }
    }
    proof {
        assert(all.take(all.len() as int) =~= all);
    }
    (indices, values)
}

impl<Idx: Index, T: Default + PartialEq> TryFromIterator<(Idx, T)> for SparseVecStorage<Idx, T> {
    type Error = SparseVecStorageError<Idx>;

    /// The outcome of validating the pairs, as
    /// [`SparseVecStorage::try_from_pairs`] gives it.
    open spec fn tried_from(items: Seq<(Idx, T)>, r: Result<Self, Self::Error>) -> bool {
        exists|zero: Seq<bool>| #[trigger] validated(items, zero, r)
    }

    /// Validates the collected pairs as [`SparseVecStorage::try_from_pairs`]
    /// does.
    fn try_from_iter<I: Iterator<Item = (Idx, T)>>(iter: I) -> (r: Result<Self, Self::Error>) {
        let pairs = collect_vec(iter);
        let ghost items = pairs@;
        let r = Self::try_from_pairs(pairs);
        proof {
            assert(Self::tried_from(items, r));
        }
        r
    }
}

impl<Idx: Index, T: Default + PartialEq> SparseVecStorage<Idx, T> {
    /// Builds the storage from pairs in any order: sorts them by index,
    /// keeps one value per index, and drops zero values.
    pub fn from_pairs_lossy(pairs: Vec<(Idx, T)>) -> (s: Self)
        ensures
            s.index_seq().len() == s.value_seq().len(),
            exists|zero: Seq<bool>|
                #[trigger] canonicalizes(
                    keys(pairs@),
                    vals(pairs@),
                    s.index_seq(),
                    s.value_seq(),
                    zero,
                    true,
                ),
    {
        let (mut indices, mut values) = unzip_pairs(pairs);
        let ghost o_i = indices@;
        let ghost o_v = values@;
        let len = canonicalize_entries(indices.as_mut_slice(), values.as_mut_slice(), true);
        let ghost n_i = indices@;
        let ghost n_v = values@;
        proof {
            assert(o_v.take(o_i.len() as int) =~= o_v);
            assert(n_v.take(o_i.len() as int) =~= n_v);
        }
        indices.truncate(len);
        values.truncate(len);
        proof {
            let zero = choose|zero: Seq<bool>|
                canonical_form(o_i, o_v, n_i, n_v, len as int, zero, true);
            assert(indices@ == n_i.take(len as int));
            assert(values@ == n_v.take(len as int));
            assert(canonicalizes(o_i, o_v, indices@, values@, zero, true));
        }
        SparseVecStorage { indices, values }
    }
}

impl<Idx: Index, T: Default + PartialEq> FromIteratorLossy<(Idx, T)> for SparseVecStorage<Idx, T> {
    /// The pairs sorted by index, one value per index, zero values
    /// dropped, as [`SparseVecStorage::from_pairs_lossy`] gives them.
    open spec fn lossy_from(items: Seq<(Idx, T)>, s: Self) -> bool {
        &&& s.index_seq().len() == s.value_seq().len()
        &&& exists|zero: Seq<bool>|
            #[trigger] canonicalizes(keys(items), vals(items), s.index_seq(), s.value_seq(), zero, true)
    }

    /// Canonicalizes the collected pairs as
    /// [`SparseVecStorage::from_pairs_lossy`] does.
    fn from_iter_lossy<I: Iterator<Item = (Idx, T)>>(iter: I) -> (s: Self) {
        let pairs = collect_vec(iter);
        let ghost items = pairs@;
        let s = Self::from_pairs_lossy(pairs);
        proof {
            assert(Self::lossy_from(items, s));
        }
        s
    }
}

impl<Idx: Index, T: Copy> FromCanonicalPairs<Idx, T> for SparseVecStorage<Idx, T> {
    open spec fn kept_count(n: nat) -> nat {
        n
    }

    /// Holds all the collected pairs.
    fn from_canonical_pairs<I: Iterator<Item = (Idx, T)>>(iter: I) -> (s: Self) {
        let (indices, values) = unzip_pairs(collect_vec(iter));
        proof {
            assert(indices@.take(indices@.len() as int) =~= indices@);
            assert(values@.take(values@.len() as int) =~= values@);
        }
        SparseVecStorage { indices, values }
    }

    fn from_canonical_parts(indices: Vec<Idx>, values: Vec<T>) -> (s: Self) {
        proof {
            assert(indices@.take(indices@.len() as int) =~= indices@);
            assert(values@.take(values@.len() as int) =~= values@);
        }
        SparseVecStorage { indices, values }
    }
}

/// Errors that can occur when constructing fixed-capacity sparse storage
/// from `(index, value)` pairs.
#[derive(Clone, Eq, PartialEq, Debug)]
pub enum SparseArrayVecStorageError<Idx> {
    /// Indices are not in strictly increasing order; the value at this index was out of order.
    UnsortedIndices {
        /// The index in the input where the unsorted entry was found.
        index: Idx,
    },
    /// The same index appears more than once; this is the second occurrence.
    DuplicateIndices {
        /// The index that appears more than once.
        index: Idx,
    },
    /// The iterator yielded more items than the storage's fixed capacity.
    StorageExceeded {
        /// The number of items that could not be stored.
        excess: usize,
    },
}

/// Fixed-capacity sparse storage: at most `N` entries.
///
/// Stores parallel index and value buffers in a struct-of-arrays layout.
/// Construction from an iterator of `(index, value)` pairs is fallible;
/// see [`SparseArrayVecStorageError`].
#[derive(Clone, Eq, PartialEq, Debug)]
pub struct SparseArrayVecStorage<Idx, T, const N: usize> {
    indices: Vec<Idx>,
    values: Vec<T>,
}

impl<Idx, T, const N: usize> SparseArrayVecStorage<Idx, T, N> {
    /// The stored indices.
    pub closed spec fn index_seq(&self) -> Seq<Idx> {
        self.indices@
    }

    /// The stored values.
    pub closed spec fn value_seq(&self) -> Seq<T> {
        self.values@
    }

    /// As many indices as values, at most `N` of each.
    pub open spec fn wf(&self) -> bool {
        &&& self.index_seq().len() == self.value_seq().len()
        &&& self.index_seq().len() <= N
    }
}

impl<Idx: Index, T: Copy, const N: usize> SparseStorage<Idx, T> for SparseArrayVecStorage<Idx, T, N> {
    open spec fn spec_indices(&self) -> Seq<Idx> {
        self.index_seq()
    }

    open spec fn spec_values(&self) -> Seq<T> {
        self.value_seq()
    }

    fn len(&self) -> (n: usize) {
        self.values.len()
    }

    fn is_empty(&self) -> (b: bool) {
        self.values.len() == 0
    }

    fn indices(&self) -> (s: &[Idx]) {
        self.indices.as_slice()
    }

    fn indices_mut(&mut self) -> (s: &mut [Idx]) {
        self.indices.as_mut_slice()
    }

    fn values(&self) -> (s: &[T]) {
        self.values.as_slice()
    }

    fn values_mut(&mut self) -> (s: &mut [T]) {
        self.values.as_mut_slice()
    }

    fn iter<'a>(&'a self) -> (it: SparseSliceIter<'a, Idx, T>) {
        SparseSliceIter::new(self.indices.as_slice(), self.values.as_slice())
    }
}

/// The error for index `index` found right after index `prev`, in
/// fixed-capacity storage.
pub open spec fn array_order_error<Idx: Index>(prev: Idx, index: Idx) -> SparseArrayVecStorageError<
    Idx,
> {
    if index.rank() == prev.rank() {
        SparseArrayVecStorageError::DuplicateIndices { index }
    } else {
        SparseArrayVecStorageError::UnsortedIndices { index }
    }
}

/// `r` is the outcome of validating `pairs` for storage of capacity `N`,
/// where `zero` answers for the entries looked at: the non-zero entries,
/// if their indices strictly increase and there are at most `N` of them;
/// else the error at the first of the first `N` whose index does not
/// exceed the one before, which is the last entry looked at; else the
/// number of non-zero entries past the first `N`.
pub open spec fn validated_within<Idx: Index, T: Default + PartialEq, const N: usize>(
    pairs: Seq<(Idx, T)>,
    zero: Seq<bool>,
    r: Result<SparseArrayVecStorage<Idx, T, N>, SparseArrayVecStorageError<Idx>>,
) -> bool {
    let kept = nonzero_prefix(pairs, zero, zero.len());
    &&& zero_answers(pairs, zero)
    &&& match r {
        Ok(s) => {
            &&& zero.len() == pairs.len()
            &&& kept.len() <= N
            &&& strictly_increasing(keys(kept))
            &&& s.index_seq() == keys(kept)
            &&& s.value_seq() == vals(kept)
        },
        Err(SparseArrayVecStorageError::StorageExceeded { excess }) => {
            &&& zero.len() == pairs.len()
            &&& kept.len() > N
            &&& excess == kept.len() - N
            &&& strictly_increasing(keys(kept).take(N as int))
        },
        Err(e) => {
            &&& kept.len() <= N
            &&& first_disorder(kept, kept.len() - 1)
            &&& e == array_order_error(kept[kept.len() - 2].0, kept[kept.len() - 1].0)
        },
    }
}

impl<Idx: Index, T: Default + PartialEq, const N: usize> SparseArrayVecStorage<Idx, T, N> {
    /// Builds the storage from `(index, value)` pairs that must come in
    /// strictly increasing order of index. Zero-valued entries are dropped
    /// first; of the first `N` remaining entries, the first whose index
    /// does not exceed the one before it is reported, as a duplicate if
    /// the two are equal; failing that, remaining entries past the first
    /// `N` are reported by their number.
    pub fn try_from_pairs(pairs: Vec<(Idx, T)>) -> (r: Result<Self, SparseArrayVecStorageError<Idx>>)
        ensures
            exists|zero: Seq<bool>| #[trigger] validated_within(pairs@, zero, r),
    {
        let ghost all = pairs@;
        let mut indices: Vec<Idx> = Vec::new();
        let mut values: Vec<T> = Vec::new();
        let mut prev_index: Option<Idx> = None;
        let mut excess: usize = 0;
        let ghost mut zero: Seq<bool> = Seq::empty();
        let total = pairs.len();
        for pair in it: pairs
            invariant
                all == it.seq(),
                all.len() == total,
                zero.len() == it.index(),
                zero_answers(all, zero),
                indices@.len() == values@.len(),
                indices@.len() <= N,
                nonzero_prefix(all, zero, it.index() as nat).len() == indices@.len() + excess,
                excess > 0 ==> indices@.len() == N,
                excess <= it.index(),
                keys(nonzero_prefix(all, zero, it.index() as nat)).take(indices@.len() as int)
                    == indices@,
                vals(nonzero_prefix(all, zero, it.index() as nat)).take(indices@.len() as int)
                    == values@,
                strictly_increasing(indices@),
                prev_index is None <==> indices@.len() == 0,
                prev_index matches Some(p) ==> indices@.len() > 0 && p == indices@.last(),
        {
            let ghost n = it.index();
            let (index, value) = pair;
            let z = is_zero(&value);
            let ghost z0 = zero;
            let ghost before = nonzero_prefix(all, zero, n as nat);
            proof {
                zero = zero.push(z);
                assert(all[n] == (index, value));
                lemma_nonzero_agree(all, z0, zero, n as nat);
            }
            let ghost kept = nonzero_prefix(all, zero, (n + 1) as nat);
            if !z {
                proof {
                    assert(kept == before.push(all[n]));
                }
                if indices.len() < N {
                    if let Some(prev) = prev_index {
                        if !prev.less(&index) {
                            proof {
                                let p = kept.len() - 1;
                                assert(before.len() == indices@.len());
                                assert(keys(before).take(indices@.len() as int) =~= keys(before));
                                assert(kept[p - 1] == before[p - 1]);
                                assert(keys(before)[p - 1] == kept[p - 1].0);
                                assert forall|i: int| 0 <= i < p implies #[trigger] keys(kept).take(p)[i]
                                    == indices@[i] by {
                                    assert(kept[i] == before[i]);
                                    assert(keys(before)[i] == before[i].0);
                                }
                                assert(keys(kept).take(p) =~= indices@);
                                assert(first_disorder(kept, p));
                            }
                            let r = if index.same(&prev) {
                                Err(SparseArrayVecStorageError::DuplicateIndices { index })
                            } else {
                                Err(SparseArrayVecStorageError::UnsortedIndices { index })
                            };
                            proof {
                                assert(validated_within(all, zero, r));
                            }
                            return r;
                        }
                    }
                    proof {
                        assert(before.len() == indices@.len());
                    }
                    indices.push(index);
                    values.push(value);
                    prev_index = Some(index);
                    proof {
                        assert(keys(kept).take(indices@.len() as int) =~= indices@) by {
                            assert(keys(before).take(before.len() as int) =~= keys(before));
                        }
                        assert(vals(kept).take(values@.len() as int) =~= values@) by {
                            assert(vals(before).take(before.len() as int) =~= vals(before));
                        }
                    }
                } else {
                    excess = excess + 1;
                    proof {
                        assert(keys(kept).take(indices@.len() as int) =~= keys(before).take(
                            indices@.len() as int,
                        ));
                        assert(vals(kept).take(values@.len() as int) =~= vals(before).take(
                            values@.len() as int,
                        ));
                    }
                }
            }
        }
        let ghost kept = nonzero_prefix(all, zero, all.len());
        if excess > 0 {
            let r = Err(SparseArrayVecStorageError::StorageExceeded { excess });
            proof {
                assert(validated_within(all, zero, r));
            }
            return r;
        }
        let r = Ok(SparseArrayVecStorage { indices, values });
        proof {
            assert(keys(kept).take(kept.len() as int) =~= keys(kept));
            assert(vals(kept).take(kept.len() as int) =~= vals(kept));
            assert(validated_within(all, zero, r));
        }
        r
    }
}

impl<Idx: Index, T: Default + PartialEq, const N: usize> TryFromIterator<(Idx, T)> for SparseArrayVecStorage<Idx, T, N> {
    type Error = SparseArrayVecStorageError<Idx>;

    /// The outcome of validating the pairs for capacity `N`, as
    /// [`SparseArrayVecStorage::try_from_pairs`] gives it.
    open spec fn tried_from(items: Seq<(Idx, T)>, r: Result<Self, Self::Error>) -> bool {
        exists|zero: Seq<bool>| #[trigger] validated_within(items, zero, r)
    }

    /// Takes the non-zero pairs one by one, up to the capacity, and stops
    /// at the first whose index does not exceed the one before; then
    /// consumes the rest of the iterator and fails with the number of
    /// non-zero pairs in it, if any.
    fn try_from_iter<I: Iterator<Item = (Idx, T)>>(iter: I) -> (r: Result<Self, Self::Error>) {
        let ghost all = iter.remaining();
        let ghost obeys = iter.obeys_prophetic_iter_laws();
        let mut it = iter;
        let mut indices: Vec<Idx> = Vec::new();
        let mut values: Vec<T> = Vec::new();
        let mut prev_index: Option<Idx> = None;
        proof {
            if obeys {
                assert(all.skip(0) =~= all);
                assert(keys(nonzero_prefix(all, Seq::<bool>::empty(), 0)) =~= indices@);
                assert(vals(nonzero_prefix(all, Seq::<bool>::empty(), 0)) =~= values@);
                assert(stream_state(all, Seq::empty(), 0, indices@, values@));
            }
        }
        let mut i: usize = 0;
        while i < N
            invariant_except_break
                indices@.len() == i,
            invariant
                all == iter.remaining(),
                obeys == iter.obeys_prophetic_iter_laws(),
                i <= N,
                indices@.len() == values@.len(),
                indices@.len() <= N,
                it.obeys_prophetic_iter_laws() == obeys,
                obeys ==> it.remaining().len() <= all.len() && it.remaining() == all.skip(
                    all.len() - it.remaining().len(),
                ) && exists|zero: Seq<bool>|
                    #[trigger] stream_state(
                        all,
                        zero,
                        all.len() - it.remaining().len(),
                        indices@,
                        values@,
                    ),
                strictly_increasing(indices@),
                prev_index is None <==> indices@.len() == 0,
                prev_index matches Some(p) ==> indices@.len() > 0 && p == indices@.last(),
            ensures
                indices@.len() < N ==> (obeys ==> it.remaining().len() == 0),
            decreases N - i,
        {
            let ghost rem = it.remaining();
            let ghost m0 = all.len() - rem.len();
            let ghost zero0 = choose|zero: Seq<bool>| #[trigger] stream_state(all, zero, m0, indices@, values@);
            let next = next_nonzero(&mut it);
            match next {
                Some(pair) => {
                    let (index, value) = pair;
                    let ghost k = choose|k: int|
                        0 <= k <= rem.len() && zeros_first(rem, k) && #[trigger] found_at(
                            rem,
                            k,
                            next,
                            it.remaining(),
                        );
                    let ghost zero1 = zero0 + skip_flags(k as nat).push(false);
                    proof {
                        if obeys {
                            assert(k < rem.len());
                            lemma_stream_found(all, zero0, m0, k, pair);
                            assert(rem.skip(k + 1) =~= all.skip(m0 + k + 1));
                            assert(it.remaining() =~= all.skip(m0 + k + 1));
                            assert(all.len() - it.remaining().len() == m0 + k + 1);
                        }
                    }
                    if let Some(prev) = prev_index {
                        if !prev.less(&index) {
                            let r = if index.same(&prev) {
                                Err(SparseArrayVecStorageError::DuplicateIndices { index })
                            } else {
                                Err(SparseArrayVecStorageError::UnsortedIndices { index })
                            };
                            proof {
                                if obeys {
                                    let before = nonzero_prefix(all, zero0, m0 as nat);
                                    let kept = nonzero_prefix(all, zero1, zero1.len());
                                    assert(kept == before.push(pair));
                                    let p = kept.len() - 1;
                                    assert(before.len() == indices@.len());
                                    assert(kept[p - 1] == before[p - 1]);
                                    assert(keys(before)[p - 1] == kept[p - 1].0);
                                    assert forall|q: int| 0 <= q < p implies #[trigger] keys(kept).take(p)[q]
                                        == indices@[q] by {
                                        assert(kept[q] == before[q]);
                                    }
                                    assert(keys(kept).take(p) =~= indices@);
                                    assert(first_disorder(kept, p));
                                    assert(validated_within(all, zero1, r));
                                    assert(Self::tried_from(all, r));
                                }
                            }
                            return r;
                        }
                    }
                    let ghost old_i = indices@;
                    let ghost old_v = values@;
                    indices.push(index);
                    values.push(value);
                    prev_index = Some(index);
                    proof {
                        if obeys {
                            let before = nonzero_prefix(all, zero0, m0 as nat);
                            assert(keys(before.push(pair)) =~= old_i.push(index));
                            assert(vals(before.push(pair)) =~= old_v.push(value));
                            assert(stream_state(all, zero1, m0 + k + 1, indices@, values@));
                            assert(stream_state(
                                all,
                                zero1,
                                all.len() - it.remaining().len(),
                                indices@,
                                values@,
                            ));
                        }
                    }
                    i += 1;
                },
                None => {
                    proof {
                        if obeys {
                            let k = choose|k: int|
                                0 <= k <= rem.len() && zeros_first(rem, k) && #[trigger] found_at(
                                    rem,
                                    k,
                                    next,
                                    it.remaining(),
                                );
                            assert(k == rem.len());
                            lemma_stream_skipped(all, zero0, m0);
                            assert(stream_state(
                                all,
                                zero0 + skip_flags((all.len() - m0) as nat),
                                all.len() as int,
                                indices@,
                                values@,
                            ));
                            assert(it.remaining() =~= all.skip(all.len() as int));
                            assert(stream_state(
                                all,
                                zero0 + skip_flags((all.len() - m0) as nat),
                                all.len() - it.remaining().len(),
                                indices@,
                                values@,
                            ));
                        }
                    }
                    break;
                },
            }
        }
        let ghost m = all.len() - it.remaining().len();
        let ghost zero = choose|zero: Seq<bool>| #[trigger] stream_state(all, zero, m, indices@, values@);
        let rest = collect_vec(it);
        let mut excess: usize = 0;
        let ghost mut zr: Seq<bool> = Seq::empty();
        let mut j: usize = 0;
        while j < rest.len()
            invariant
                j <= rest@.len(),
                zr.len() == j,
                zero_answers(rest@, zr),
                excess == nonzero_prefix(rest@, zr, j as nat).len(),
                excess <= j,
            decreases rest@.len() - j,
        {
            let z = is_zero(&rest[j].1);
            proof {
                let z0 = zr;
                zr = zr.push(z);
                lemma_nonzero_agree_on(rest@, zr, rest@, z0, j as nat);
            }
            if !z {
                excess += 1;
            }
            j += 1;
        }
        let r = if excess > 0 {
            Err(SparseArrayVecStorageError::StorageExceeded { excess })
        } else {
            Ok(SparseArrayVecStorage { indices, values })
        };
        proof {
            if obeys {
                lemma_stream_rest(all, zero, m, rest@, zr);
                let ztot = zero + zr;
                let kept_seen = nonzero_prefix(all, zero, m as nat);
                let kept = nonzero_prefix(all, ztot, ztot.len());
                assert(kept == kept_seen + nonzero_prefix(rest@, zr, rest@.len()));
                if excess > 0 {
                    assert(indices@.len() == N);
                    assert(keys(kept).take(N as int) =~= keys(kept_seen));
                } else {
                    assert(kept =~= kept_seen);
                }
                assert(validated_within(all, ztot, r));
            }
        }
        r
    }
}

impl<Idx: Index, T: Default + PartialEq, const N: usize> SparseArrayVecStorage<Idx, T, N> {
    /// Builds the storage from the first `N` pairs, in any order: sorts
    /// them by index, keeps one value per index, and drops zero values.
    pub fn from_pairs_lossy(pairs: Vec<(Idx, T)>) -> (s: Self)
        ensures
            s.wf(),
            exists|zero: Seq<bool>|
                #[trigger] canonicalizes(
                    keys(first_at_most(pairs@, N as nat)),
                    vals(first_at_most(pairs@, N as nat)),
                    s.index_seq(),
                    s.value_seq(),
                    zero,
                    true,
                ),
    {
        let ghost all = pairs@;
        let mut pairs = pairs;
        pairs.truncate(N);
        proof {
            if all.len() <= N {
                assert(all.take(all.len() as int) =~= all);
            } else {
                assert(all.take(N as int) =~= all.subrange(0, N as int));
            }
            assert(pairs@ == first_at_most(all, N as nat));
        }
        let ghost first = pairs@;
        let (mut indices, mut values) = unzip_pairs(pairs);
        let ghost o_i = indices@;
        let ghost o_v = values@;
        let len = canonicalize_entries(indices.as_mut_slice(), values.as_mut_slice(), true);
        let ghost n_i = indices@;
        let ghost n_v = values@;
        proof {
            assert(o_v.take(o_i.len() as int) =~= o_v);
            assert(n_v.take(o_i.len() as int) =~= n_v);
        }
        indices.truncate(len);
        values.truncate(len);
        let ghost zero = choose|zero: Seq<bool>|
            canonical_form(o_i, o_v, n_i, n_v, len as int, zero, true);
        proof {
            assert(indices@ == n_i.take(len as int));
            assert(values@ == n_v.take(len as int));
            assert(canonicalizes(o_i, o_v, indices@, values@, zero, true));
            assert(o_i == keys(first_at_most(all, N as nat)));
            assert(o_v == vals(first_at_most(all, N as nat)));
        }
        let s = SparseArrayVecStorage { indices, values };
        proof {
            assert(canonicalizes(
                keys(first_at_most(all, N as nat)),
                vals(first_at_most(all, N as nat)),
                s.index_seq(),
                s.value_seq(),
                zero,
                true,
            ));
        }
        s
    }
}

impl<Idx: Index, T: Default + PartialEq, const N: usize> FromIteratorLossy<(Idx, T)> for SparseArrayVecStorage<Idx, T, N> {
    /// The first `N` pairs sorted by index, one value per index, zero
    /// values dropped, as [`SparseArrayVecStorage::from_pairs_lossy`]
    /// gives them.
    open spec fn lossy_from(items: Seq<(Idx, T)>, s: Self) -> bool {
        &&& s.wf()
        &&& exists|zero: Seq<bool>|
            #[trigger] canonicalizes(
                keys(first_at_most(items, N as nat)),
                vals(first_at_most(items, N as nat)),
                s.index_seq(),
                s.value_seq(),
                zero,
                true,
            )
    }

    /// Takes the first `N` pairs, leaving the rest, and canonicalizes them
    /// as [`SparseArrayVecStorage::from_pairs_lossy`] does.
    fn from_iter_lossy<I: Iterator<Item = (Idx, T)>>(iter: I) -> (s: Self) {
        let ghost all = iter.remaining();
        let mut iter = iter;
        let pairs = take_items(&mut iter, N);
        let ghost taken = pairs@;
        let s = Self::from_pairs_lossy(pairs);
        proof {
            assert(first_at_most(taken, N as nat) =~= taken);
            let items = if iter.obeys_prophetic_iter_laws() {
                all
            } else {
                taken
            };
            assert(Self::lossy_from(items, s));
        }
        s
    }
}

impl<Idx: Index, T: Copy, const N: usize> FromCanonicalPairs<Idx, T> for SparseArrayVecStorage<Idx, T, N> {
    open spec fn kept_count(n: nat) -> nat {
        if n <= N {
            n
        } else {
            N as nat
        }
    }

    /// Takes the first `N` pairs, leaving the rest, and holds them.
    fn from_canonical_pairs<I: Iterator<Item = (Idx, T)>>(iter: I) -> (s: Self) {
        let ghost all = iter.remaining();
        let mut iter = iter;
        let pairs = take_items(&mut iter, N);
        let ghost taken = pairs@;
        let (indices, values) = unzip_pairs(pairs);
        let s = Self::from_canonical_parts(indices, values);
        proof {
            if iter.obeys_prophetic_iter_laws() {
                let k = taken.len() as int;
                assert(keys(taken) =~= keys(all).take(k));
                assert(vals(taken) =~= vals(all).take(k));
                assert(indices@.take(k) =~= indices@);
                assert(values@.take(k) =~= values@);
            }
        }
        s
    }

    /// Holds the first `N` indices and values.
    fn from_canonical_parts(indices: Vec<Idx>, values: Vec<T>) -> (s: Self) {
        let ghost o_i = indices@;
        let ghost o_v = values@;
        let mut indices = indices;
        let mut values = values;
        indices.truncate(N);
        values.truncate(N);
        proof {
            if o_i.len() <= N {
                assert(o_i.take(o_i.len() as int) =~= o_i);
                assert(o_v.take(o_v.len() as int) =~= o_v);
            } else {
                assert(o_i.take(N as int) =~= o_i.subrange(0, N as int));
                assert(o_v.take(N as int) =~= o_v.subrange(0, N as int));
            }
        }
        SparseArrayVecStorage { indices, values }
    }
}

/// The pairs `(indices[k], values[k])`, as far as both slices go.
fn zip_entries<Idx: Copy, T: Copy>(indices: &[Idx], values: &[T]) -> (pairs: Vec<(Idx, T)>)
    requires
        indices@.len() == values@.len(),
    ensures
        keys(pairs@) == indices@,
        vals(pairs@) == values@,
{
    let mut pairs: Vec<(Idx, T)> = Vec::new();
    let mut i: usize = 0;
    while i < indices.len()
        invariant
            indices@.len() == values@.len(),
            i <= indices@.len(),
            keys(pairs@) == indices@.take(i as int),
            vals(pairs@) == values@.take(i as int),
        decreases indices@.len() - i,
    {
        let ghost before = pairs@;
        pairs.push((indices[i], values[i]));
        proof {
            assert(keys(pairs@) =~= keys(before).push(indices@[i as int]));
            assert(vals(pairs@) =~= vals(before).push(values@[i as int]));
            assert(indices@.take(i + 1) =~= indices@.take(i as int).push(indices@[i as int]));
            assert(values@.take(i + 1) =~= values@.take(i as int).push(values@[i as int]));
        }
        i += 1;
    }
    proof {
        assert(indices@.take(i as int) =~= indices@);
        assert(values@.take(i as int) =~= values@);
    }
    pairs
}

impl<Idx: Copy + core::fmt::Debug, T: Copy + core::fmt::Debug> SparseVecStorage<Idx, T> {
    /// The entries as `Debug` renders a list of pairs:
    /// `[(i, a), (j, b)]`.
    pub fn debug_string(&self) -> (r: String)
        requires
            self.index_seq().len() == self.value_seq().len(),
        ensures
            is_pair_list_of(r@, self.index_seq().len()),
    {
        debug_pair_list_text(zip_entries(self.indices.as_slice(), self.values.as_slice()).as_slice())
    }
}

impl<Idx: Copy + core::fmt::Debug, T: Copy + core::fmt::Debug, const N: usize> SparseArrayVecStorage<Idx, T, N> {
    /// The entries as `Debug` renders a list of pairs:
    /// `[(i, a), (j, b)]`.
    pub fn debug_string(&self) -> (r: String)
        requires
            self.index_seq().len() == self.value_seq().len(),
        ensures
            is_pair_list_of(r@, self.index_seq().len()),
    {
        debug_pair_list_text(zip_entries(self.indices.as_slice(), self.values.as_slice()).as_slice())
    }
}

} // verus!

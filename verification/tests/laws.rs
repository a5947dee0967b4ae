use vectors::dense::{DenseVec, GenericDenseVec};
use vectors::sparse::{dot_gallop, SparseVec, SparseVector};
use vectors::sparse::{FromCanonicalPairs, SparseStorage};
use vectors::{Distance, Dot, FromIteratorLossy, TryFromIterator};

fn sparse(pairs: Vec<(usize, i64)>) -> SparseVec<usize, i64> {
    SparseVec::try_from_iter(pairs.into_iter()).unwrap()
}

fn to_dense(v: &SparseVec<usize, i64>, n: usize) -> DenseVec<i64> {
    let mut values = vec![0i64; n];
    let indices = SparseVector::indices(v);
    let stored = SparseVector::values(v);
    for k in 0..indices.len() {
        values[indices[k]] = stored[k];
    }
    GenericDenseVec::try_from_iter(values.into_iter()).unwrap()
}

#[test]
fn sparse_dot_equals_dense_dot() {
    let a = sparse(vec![(0, 2), (3, -4), (7, 1), (9, 5)]);
    let b = sparse(vec![(1, 6), (3, 5), (7, -10), (8, 3)]);
    let expected = to_dense(&a, 10).dot(&to_dense(&b, 10));
    assert_eq!(a.dot(&b), expected);
    assert_eq!(a.dot(&b), -30);
}

#[test]
fn sparse_distance_equals_dense_distance() {
    let a = sparse(vec![(0, 2), (3, -4), (7, 1)]);
    let b = sparse(vec![(1, 6), (3, 5), (8, 3)]);
    let expected = to_dense(&a, 9).squared_distance(&to_dense(&b, 9));
    assert_eq!(a.squared_distance(&b), expected);
    assert_eq!(expected, 4 + 36 + 81 + 1 + 9);
}

#[test]
fn dense_sparse_distance_equals_dense_distance() {
    let dense: DenseVec<i64> = GenericDenseVec::try_from_iter(vec![1, 2, 3].into_iter()).unwrap();
    let b = sparse(vec![(1, 6), (4, 2)]);
    let padded: DenseVec<i64> = GenericDenseVec::try_from_iter(vec![1, 2, 3, 0, 0].into_iter()).unwrap();
    assert_eq!(dense.squared_distance(&b), padded.squared_distance(&to_dense(&b, 5)));
    assert_eq!(dense.squared_distance(&b), 1 + 16 + 9 + 4);
}

#[test]
fn sparse_dense_distance_walks_past_both() {
    let a = sparse(vec![(0, 3), (4, 1)]);
    let dense: DenseVec<i64> = GenericDenseVec::try_from_iter(vec![1, 1].into_iter()).unwrap();
    assert_eq!(a.squared_distance(&dense), 4 + 1 + 1);
}

#[test]
fn sparse_add_equals_dense_add() {
    let a = sparse(vec![(0, 2), (3, -4), (7, 1)]);
    let b = sparse(vec![(1, 6), (3, 4), (8, 3)]);
    let expected = to_dense(&a, 9) + &to_dense(&b, 9);
    let sum = a + &b;
    assert_eq!(to_dense(&sum, 9), expected);
    assert_eq!(SparseVector::indices(&sum), &[0, 1, 7, 8]);
}

#[test]
fn sparse_sub_equals_dense_sub() {
    let a = sparse(vec![(0, 2), (3, 4), (7, 1)]);
    let b = sparse(vec![(1, 6), (3, 4), (8, 3)]);
    let expected = to_dense(&a, 9) - &to_dense(&b, 9);
    let difference = a - &b;
    assert_eq!(to_dense(&difference, 9), expected);
    assert_eq!(SparseVector::values(&difference), &[2, -6, 1, -3]);
}

#[test]
fn sparse_scaling_keeps_canonical_form() {
    let a = sparse(vec![(2, 3), (5, -1)]);
    let scaled = a * 0;
    assert!(scaled.is_empty());
    let b = sparse(vec![(2, 6), (5, -2)]);
    let halved = b / 2;
    assert_eq!(SparseVector::values(&halved), &[3, -1]);
}

#[test]
fn gallop_dot_equals_merge_dot() {
    let a = sparse(vec![(0, 1), (2, 2), (4, 3), (6, 4), (8, 5), (10, 6)]);
    let b = sparse(vec![(4, 7), (10, 9)]);
    let gallop = dot_gallop(
        SparseVector::indices(&a),
        SparseVector::values(&a),
        SparseVector::indices(&b),
        SparseVector::values(&b),
    );
    assert_eq!(gallop, a.dot(&b));
    assert_eq!(gallop, 3 * 7 + 6 * 9);
}

#[test]
fn sparse_distance_is_symmetric() {
    let a = sparse(vec![(0, 2), (3, -4), (7, 1)]);
    let b = sparse(vec![(1, 6), (3, 5), (8, 3)]);
    assert_eq!(a.squared_distance(&b), b.squared_distance(&a));
    assert_eq!(a.squared_distance(&b), 131);
}

#[test]
fn sparse_iter_size_hint_counts_rest() {
    let pairs = vec![(0usize, 1.0f64), (2, 2.0), (5, 3.0)];
    let mut it = vectors::sparse::Iter::new(&pairs);
    assert_eq!(it.size_hint(), (3, Some(3)));
    assert_eq!(it.next(), Some((0, 1.0)));
    assert_eq!(it.size_hint(), (2, Some(2)));
}

#[test]
fn array_lossy_canonicalizes_first_n() {
    let storage = vectors::sparse::SparseArrayVecStorage::<u32, f64, 2>::from_iter_lossy(
        vec![(0u32, 0.0f64), (1, 1.0), (2, 2.0)].into_iter(),
    );
    assert_eq!(storage.indices(), &[1u32][..]);
    assert_eq!(storage.values(), &[1.0f64][..]);
}

#[test]
fn canonical_pairs_over_capacity_keep_first_n() {
    let storage = vectors::sparse::SparseArrayVecStorage::<u32, i64, 2>::from_canonical_pairs(
        vec![(0u32, 1i64), (1, 0), (5, 3)].into_iter(),
    );
    assert_eq!(storage.indices(), &[0u32, 1][..]);
    assert_eq!(storage.values(), &[1i64, 0][..]);
}

#[test]
fn canonicalize_keeps_pairs_together() {
    let mut indices = vec![3u32, 1, 3, 0, 2];
    let mut values = vec![30i64, 10, 0, 5, 0];
    let len = vectors::sparse::util::canonicalize_entries(&mut indices, &mut values, true);
    assert_eq!(len, 3);
    assert_eq!(&indices[..len], &[0, 1, 3]);
    assert_eq!(&values[..len], &[5, 10, 30]);
    let mut pairs: Vec<(u32, i64)> = indices.iter().copied().zip(values.iter().copied()).collect();
    pairs.sort();
    assert_eq!(pairs, vec![(0, 5), (1, 10), (2, 0), (3, 0), (3, 30)]);
}

#[test]
fn array_lossy_stops_after_capacity() {
    let storage = vectors::sparse::SparseArrayVecStorage::<u32, i64, 3>::from_iter_lossy((0u32..).map(|i| (i, 1i64)));
    assert_eq!(storage.indices(), &[0u32, 1, 2][..]);
    let dense = vectors::dense::DenseArrayVecStorage::<i32, 3>::from_iter_lossy(std::iter::repeat(4));
    assert_eq!(dense.debug_string(), "[4, 4, 4]");
}

#[test]
fn array_try_from_iter_stops_at_first_disorder() {
    let pairs = vec![(5u32, 1i64), (0, 0), (3, 1)].into_iter().chain(std::iter::repeat((7u32, 1i64)));
    let err = vectors::sparse::SparseArrayVecStorage::<u32, i64, 4>::try_from_iter(pairs).unwrap_err();
    assert_eq!(err, vectors::sparse::SparseArrayVecStorageError::UnsortedIndices { index: 3 });
}

#[test]
fn canonical_pairs_stop_after_capacity() {
    let storage = vectors::sparse::SparseArrayVecStorage::<u32, i64, 2>::from_canonical_pairs((0u32..).map(|i| (i, 2i64)));
    assert_eq!(storage.indices(), &[0u32, 1][..]);
    assert_eq!(storage.values(), &[2i64, 2][..]);
}

#[test]
fn canonicalize_leaves_extra_values_alone() {
    let mut indices = vec![2u32, 1];
    let mut values = vec![20i64, 10, 99];
    let len = vectors::sparse::util::canonicalize_entries(&mut indices, &mut values, true);
    assert_eq!(len, 2);
    assert_eq!(indices, vec![1, 2]);
    assert_eq!(values, vec![10, 20, 99]);
}

#[test]
fn dense_slice_iter_counts_and_copies() {
    let values = [3i64, 4, 5];
    let mut it: vectors::dense::DenseSliceIter<u8, i64> = vectors::dense::DenseSliceIter::new(values.iter());
    assert_eq!(it.len(), 3);
    assert_eq!(it.next(), Some((0u8, 3i64)));
    assert_eq!(it.len(), 2);
    assert_eq!(it.into_vec(), vec![(1u8, 4i64), (2, 5)]);
}

use vectors::sparse::util::canonicalize_entries;
use vectors::sparse::{
    dot_gallop, inner_join, outer_join, IntoIter, Iter, Join, SparseArrayVecStorage,
    SparseArrayVecStorageError, SparseVec, SparseVecStorage, SparseVecStorageError,
};
use vectors::dense::heap::DenseVector as HeapDenseVector;
use vectors::{Distance, Dot, TryFromIterator};

fn sparse(pairs: Vec<(usize, f64)>) -> SparseVec<usize, f64> {
    SparseVec::try_from_iter(pairs.into_iter()).unwrap()
}

fn outer_merge(_idx: u32, join: Join<'_, i32>) -> i32 {
    match join {
        Join::Left(l) => *l,
        Join::Right(r) => *r,
        Join::Both(l, r) => *l + *r,
    }
}

fn inner_merge(_idx: u32, l: &i32, r: &i32) -> i32 {
    *l + *r
}

#[test]
fn outer_join_disjoint() {
    let left_i = [0_u32, 2];
    let left_v = [10_i32, 20];
    let right_i = [1_u32, 3];
    let right_v = [100_i32, 200];

    let result: Vec<_> = outer_join(&left_i, &left_v, &right_i, &right_v, outer_merge).into_vec();

    assert_eq!(result, vec![(0, 10), (1, 100), (2, 20), (3, 200)]);
}

#[test]
fn outer_join_overlapping() {
    let left_i = [0_u32, 1, 2];
    let left_v = [10_i32, 20, 30];
    let right_i = [1_u32, 2, 3];
    let right_v = [100_i32, 200, 300];

    let result: Vec<_> = outer_join(&left_i, &left_v, &right_i, &right_v, outer_merge).into_vec();

    assert_eq!(result, vec![(0, 10), (1, 120), (2, 230), (3, 300)]);
}

#[test]
fn outer_join_empty_sides() {
    let empty_i: [u32; 0] = [];
    let empty_v: [i32; 0] = [];
    let right_i = [1_u32, 2];
    let right_v = [100_i32, 200];

    let result: Vec<_> = outer_join(&empty_i, &empty_v, &right_i, &right_v, outer_merge).into_vec();
    assert_eq!(result, vec![(1, 100), (2, 200)]);

    let result: Vec<_> = outer_join(&right_i, &right_v, &empty_i, &empty_v, outer_merge).into_vec();
    assert_eq!(result, vec![(1, 100), (2, 200)]);

    let result: Vec<_> = outer_join(&empty_i, &empty_v, &empty_i, &empty_v, outer_merge).into_vec();
    assert!(result.is_empty());
}

#[test]
fn inner_join_intersection() {
    let left_i = [0_u32, 1, 2, 4];
    let left_v = [10_i32, 20, 30, 40];
    let right_i = [1_u32, 2, 3, 4];
    let right_v = [100_i32, 200, 300, 400];

    let result: Vec<_> = inner_join(&left_i, &left_v, &right_i, &right_v, inner_merge).into_vec();

    assert_eq!(result, vec![(1, 120), (2, 230), (4, 440)]);
}

#[test]
fn inner_join_no_overlap() {
    let left_i = [0_u32, 2, 4];
    let left_v = [10_i32, 20, 30];
    let right_i = [1_u32, 3, 5];
    let right_v = [100_i32, 200, 300];

    let result: Vec<_> = inner_join(&left_i, &left_v, &right_i, &right_v, inner_merge).into_vec();

    assert!(result.is_empty());
}

#[test]
fn size_hints_are_bounded() {
    let left_i = [0_u32, 1, 2];
    let left_v = [10_i32, 20, 30];
    let right_i = [1_u32, 2, 3, 4];
    let right_v = [100_i32, 200, 300, 400];

    let outer = outer_join(&left_i, &left_v, &right_i, &right_v, outer_merge);
    assert_eq!(outer.size_hint(), (4, Some(7)));

    let inner = inner_join(&left_i, &left_v, &right_i, &right_v, inner_merge);
    assert_eq!(inner.size_hint(), (0, Some(3)));
}

#[test]
fn outer_join_yields_one_step_at_a_time() {
    let left_i = [0_u32, 2];
    let left_v = [10_i32, 20];
    let right_i = [2_u32];
    let right_v = [5_i32];
    let mut join = outer_join(&left_i, &left_v, &right_i, &right_v, outer_merge);
    assert_eq!(join.next(), Some((0, 10)));
    assert_eq!(join.size_hint(), (1, Some(2)));
    assert_eq!(join.next(), Some((2, 25)));
    assert_eq!(join.next(), None);
    assert_eq!(join.next(), None);
}

#[test]
fn vec_unsorted_indices() {
    let err = SparseVecStorage::<u32, f64>::try_from_iter([(2, 1.0), (1, 2.0)].into_iter()).unwrap_err();
    assert_eq!(err, SparseVecStorageError::UnsortedIndices { index: 1 });
}

#[test]
fn vec_duplicate_indices() {
    let err = SparseVecStorage::<u32, f64>::try_from_iter([(1, 1.0), (1, 2.0)].into_iter()).unwrap_err();
    assert_eq!(err, SparseVecStorageError::DuplicateIndices { index: 1 });
}

#[test]
fn array_vec_capacity_exceeded() {
    let err = SparseArrayVecStorage::<u32, f64, 2>::try_from_iter(
        [(0, 1.0), (1, 2.0), (2, 3.0)].into_iter(),
    )
    .unwrap_err();
    assert_eq!(err, SparseArrayVecStorageError::StorageExceeded { excess: 1 });
}

#[test]
fn array_vec_unsorted_indices() {
    let err =
        SparseArrayVecStorage::<u32, f64, 3>::try_from_iter([(2, 1.0), (1, 2.0)].into_iter()).unwrap_err();
    assert_eq!(err, SparseArrayVecStorageError::UnsortedIndices { index: 1 });
}

#[test]
fn array_vec_duplicate_indices() {
    let err =
        SparseArrayVecStorage::<u32, f64, 3>::try_from_iter([(1, 1.0), (1, 2.0)].into_iter()).unwrap_err();
    assert_eq!(err, SparseArrayVecStorageError::DuplicateIndices { index: 1 });
}

#[test]
fn array_vec_zero_values_do_not_count_against_capacity() {
    let storage = SparseArrayVecStorage::<u32, i64, 2>::try_from_iter(
        [(0, 1), (1, 0), (2, 0), (3, 4)].into_iter(),
    )
    .unwrap();
    assert_eq!(storage.debug_string(), "[(0, 1), (3, 4)]");
}

#[test]
fn vec_zero_values_are_dropped_before_order_checks() {
    let storage =
        SparseVecStorage::<u32, i64>::try_from_iter([(3, 1), (1, 0), (5, 2)].into_iter()).unwrap();
    assert_eq!(storage.debug_string(), "[(3, 1), (5, 2)]");
}

#[test]
fn sparse_debug() {
    let vector = sparse(vec![(0, 0.2), (1, 0.5), (2, 1.0), (4, 2.0)]);
    assert_eq!(vector.debug_string(), "[(0, 0.2), (1, 0.5), (2, 1.0), (4, 2.0)]");
}

#[test]
fn iter_into_iter() {
    let values = vec![(0, 0.1), (1, 0.2), (2, 0.3), (4, 0.4), (5, 0.5)];
    let subject: Vec<(usize, f64)> = IntoIter::new(values.clone().into_iter()).into_vec();
    assert_eq!(subject, values);
}

#[test]
fn iter() {
    let values = vec![(0, 0.1), (1, 0.2), (2, 0.3), (4, 0.4), (5, 0.5)];
    let subject: Vec<(usize, f64)> = Iter::new(&values).into_vec();
    assert_eq!(subject, values);
}

#[test]
fn sparse_ops_add() {
    let subject = sparse(vec![(0, 0.2), (1, 0.5), (2, 1.0), (4, 2.0), (5, 4.0)]);
    let other = sparse(vec![(1, 0.1), (2, 0.2), (3, 0.3), (5, 0.4)]);
    let expected = sparse(vec![(0, 0.2), (1, 0.6), (2, 1.2), (3, 0.3), (4, 2.0), (5, 4.4)]);
    assert_eq!(subject + &other, expected);
}

#[test]
fn sparse_ops_sub() {
    let subject = sparse(vec![(0, 0.2), (1, 0.6), (2, 1.2), (4, 2.0), (5, 0.4)]);
    let other = sparse(vec![(1, 0.1), (2, 0.2), (3, 0.3), (5, 0.4)]);
    let expected = sparse(vec![(0, 0.2), (1, 0.5), (2, 1.0), (3, -0.3), (4, 2.0)]);
    assert_eq!(subject - &other, expected);
}

#[test]
fn sparse_ops_mul() {
    let subject = sparse(vec![(0, 0.2), (1, 0.5), (2, 1.0), (4, 2.0), (5, 4.0)]);
    assert_eq!(subject * 2.0, sparse(vec![(0, 0.4), (1, 1.0), (2, 2.0), (4, 4.0), (5, 8.0)]));
}

#[test]
fn sparse_ops_div() {
    let subject = sparse(vec![(0, 0.4), (1, 1.0), (2, 2.0), (4, 4.0), (5, 8.0)]);
    assert_eq!(subject / 2.0, sparse(vec![(0, 0.2), (1, 0.5), (2, 1.0), (4, 2.0), (5, 4.0)]));
}

#[test]
fn sparse_ops_mul_add() {
    let subject = sparse(vec![(1, 0.1), (2, 0.2), (3, 0.3), (5, 0.4)]);
    let other = sparse(vec![(0, 0.2), (1, 0.5), (2, 1.0), (4, 2.0), (5, 4.0)]);
    let expected = sparse(vec![(0, 0.2), (1, 0.7), (2, 1.4), (3, 0.6), (4, 2.0), (5, 4.8)]);
    assert_eq!(subject.mul_add(2.0, &other), expected);
}

#[test]
fn sparse_add_drops_cancelled_entries() {
    let a: SparseVec<u32, i64> = SparseVec::try_from_iter(vec![(1, 3), (4, 5)].into_iter()).unwrap();
    let b: SparseVec<u32, i64> = SparseVec::try_from_iter(vec![(1, -3), (2, 7)].into_iter()).unwrap();
    let sum = a + &b;
    assert_eq!(sum.debug_string(), "[(2, 7), (4, 5)]");
}

#[test]
fn sparse_distance_squared_distance() {
    let subject = sparse(vec![(0, 0.2), (1, 0.5), (2, 1.0), (4, 2.0), (5, 4.0)]);
    let other = sparse(vec![(1, 0.1), (2, 0.2), (3, 0.3), (5, 0.4), (6, 0.5)]);
    let dense_l = HeapDenseVector::from(vec![0.2, 0.5, 1.0, 0.0, 2.0, 4.0, 0.0]);
    let dense_r = HeapDenseVector::from(vec![0.0, 0.1, 0.2, 0.3, 0.0, 0.4, 0.5]);
    let expected: f64 = dense_l.squared_distance(&dense_r);
    assert!((subject.squared_distance(&other) - expected).abs() <= 1e-9);
}

#[test]
fn squared_distance_dense() {
    let sparse_vector = sparse(vec![(0, 0.2), (1, 0.5), (2, 1.0), (4, 2.0), (5, 4.0)]);
    let dense_vector = vectors::dense::DenseVec::<f64>::try_from_iter(
        vec![0.0_f64, 0.1, 0.2, 0.3, 0.0, 0.4, 0.5].into_iter(),
    )
    .unwrap();
    let sq_dist: f64 = sparse_vector.squared_distance(&dense_vector);
    let expected: f64 = 0.2_f64.powi(2)
        + (0.5_f64 - 0.1_f64).powi(2)
        + (1.0_f64 - 0.2_f64).powi(2)
        + (-0.3_f64).powi(2)
        + 2.0_f64.powi(2)
        + (4.0_f64 - 0.4_f64).powi(2)
        + (-0.5_f64).powi(2);
    assert!((sq_dist - expected).abs() <= 1e-9);
}

#[test]
fn sparse_dot_merges_common_indices() {
    let a: SparseVec<u32, i64> = SparseVec::try_from_iter(vec![(0, 2), (3, 4), (7, 1)].into_iter()).unwrap();
    let b: SparseVec<u32, i64> = SparseVec::try_from_iter(vec![(3, 5), (6, 9), (7, 10)].into_iter()).unwrap();
    assert_eq!(a.dot(&b), 30);
}

#[test]
fn dot_gallop_agrees_with_merge() {
    let a_i = [1_u32, 4, 9, 16, 25, 36, 49, 64, 81, 100];
    let a_v = [1_i64, 2, 3, 4, 5, 6, 7, 8, 9, 10];
    let b_i = [4_u32, 49, 100];
    let b_v = [10_i64, 20, 30];
    assert_eq!(dot_gallop(&a_i, &a_v, &b_i, &b_v), 2 * 10 + 7 * 20 + 10 * 30);
    assert_eq!(dot_gallop(&b_i, &b_v, &a_i, &a_v), 2 * 10 + 7 * 20 + 10 * 30);
    let c_i = [5_u32, 50];
    let c_v = [1_i64, 1];
    assert_eq!(dot_gallop(&a_i, &a_v, &c_i, &c_v), 0);
}

#[test]
fn canonicalize_entries_single() {
    let mut indices = [3usize];
    let mut values = [42i32];
    let len = canonicalize_entries(&mut indices, &mut values, false);
    assert_eq!(len, 1);
    assert_eq!(indices[..len], [3]);
    assert_eq!(values[..len], [42]);
}

#[test]
fn canonicalize_entries_single_zero() {
    let mut indices = [3usize];
    let mut values = [0i32];
    let len = canonicalize_entries(&mut indices, &mut values, true);
    assert_eq!(len, 0);
}

#[test]
fn canonicalize_entries_two_elements() {
    let mut indices = [2usize, 1];
    let mut values = [20, 10];
    let len = canonicalize_entries(&mut indices, &mut values, false);
    assert_eq!(len, 2);
    assert_eq!(&indices[..len], [1, 2]);
    assert_eq!(&values[..len], [10, 20]);
}

#[test]
fn canonicalize_entries_reverse_order() {
    let mut indices = [8usize, 5, 3, 2, 1];
    let mut values = [10, 20, 30, 40, 50];
    let len = canonicalize_entries(&mut indices, &mut values, false);
    assert_eq!(len, 5);
    assert_eq!(&indices[..len], [1, 2, 3, 5, 8]);
    assert_eq!(&values[..len], [50, 40, 30, 20, 10]);
}

#[test]
fn canonicalize_entries_values_stay_in_sync() {
    let mut indices = [5usize, 3, 1, 4, 2];
    let mut values = [50usize, 30, 10, 40, 20];
    let len = canonicalize_entries(&mut indices, &mut values, false);
    for i in 0..len {
        assert_eq!(values[i], indices[i] * 10);
    }
}

#[test]
fn canonicalize_entries_no_dedup_no_zero() {
    let mut indices = [3usize, 1, 2];
    let mut values = [30, 10, 20];
    let len = canonicalize_entries(&mut indices, &mut values, false);
    assert_eq!(len, 3);
    assert_eq!(&indices[..len], [1, 2, 3]);
    assert_eq!(&values[..len], [10, 20, 30]);
}

#[test]
fn canonicalize_entries_dedup_keeps_last() {
    let mut indices = [2usize, 1, 2, 1];
    let mut values = [20, 10, 21, 11];
    let len = canonicalize_entries(&mut indices, &mut values, false);
    assert_eq!(len, 2);
    assert_eq!(&indices[..len], [1, 2]);
    assert_eq!(values[0] % 10, 1);
    assert_eq!(values[1] % 10, 0);
}

#[test]
fn canonicalize_entries_drops_zeros() {
    let mut indices = [2usize, 0, 1];
    let mut values = [0, 5, 3];
    let len = canonicalize_entries(&mut indices, &mut values, true);
    assert_eq!(len, 2);
    assert_eq!(&indices[..len], [0, 1]);
    assert_eq!(&values[..len], [5, 3]);
}

#[test]
fn canonicalize_entries_empty() {
    let mut indices: [usize; 0] = [];
    let mut values: [i32; 0] = [];
    let len = canonicalize_entries(&mut indices, &mut values, true);
    assert_eq!(len, 0);
}

#[test]
fn canonicalize_entries_all_zeros() {
    let mut indices = [1usize, 2, 3];
    let mut values = [0, 0, 0];
    let len = canonicalize_entries(&mut indices, &mut values, true);
    assert_eq!(len, 0);
}

#[test]
fn canonicalize_entries_all_duplicates() {
    let mut indices = [5usize, 5, 5];
    let mut values = [10, 20, 30];
    let len = canonicalize_entries(&mut indices, &mut values, false);
    assert_eq!(len, 1);
    assert_eq!(indices[0], 5);
    assert!(values[0] == 10 || values[0] == 20 || values[0] == 30);
}

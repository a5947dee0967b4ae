use arrayvec::ArrayVec;
use vectors::dense::{
    DenseArrayVec, DenseArrayVecStorage, DenseArrayVecStorageError, DenseVec, DenseVecStorage,
};
use vectors::sparse::{SparseArrayVec, SparseVec, SparseVector};
use vectors::{Distance, Dot, FromIteratorLossy, TryFromIterator};

#[test]
fn vec_debug() {
    let storage = DenseVecStorage::from(Vec::from([0.0, 0.25, 0.5, 0.75, 1.0]));
    assert_eq!(storage.debug_string(), "[0.0, 0.25, 0.5, 0.75, 1.0]");
}

#[test]
fn array_vec_debug() {
    let storage = DenseArrayVecStorage::from(ArrayVec::from([0.0, 0.25, 0.5, 0.75, 1.0]));
    assert_eq!(storage.debug_string(), "[0.0, 0.25, 0.5, 0.75, 1.0]");
}

#[test]
fn dense_array_vec_capacity_exceeded() {
    let result = DenseArrayVecStorage::<i32, 3>::try_from_iter([1, 2, 3, 4, 5].into_iter());
    match result {
        Err(DenseArrayVecStorageError::StorageExceeded { excess }) => assert_eq!(excess, 2),
        Ok(_) => panic!("five items fit in a capacity of three"),
    }
}

#[test]
fn dense_array_vec_lossy_truncates() {
    let storage = DenseArrayVecStorage::<i32, 3>::from_iter_lossy([1, 2, 3, 4, 5].into_iter());
    assert_eq!(storage.debug_string(), "[1, 2, 3]");
}

#[test]
fn sparse_vec_lossy_canonicalizes() {
    let v: SparseVec<usize, f64> =
        SparseVec::from_iter_lossy(vec![(5usize, 4.0), (0usize, 1.0), (1usize, 0.0)].into_iter());
    assert_eq!(v.iter().into_vec(), vec![(0usize, 1.0), (5usize, 4.0)]);
}

#[test]
fn readme_basic_example() {
    let dense_1 = DenseVec::from(DenseVecStorage::from(vec![0.0, 0.5, 1.0, 2.0, 4.0]));
    let dense_2 = DenseVec::from(DenseVecStorage::from(vec![0.1, 0.2, 0.3, 0.4, 0.0]));
    let _dot = dense_1.dot(&dense_2);
    let _dist = dense_1.squared_distance(&dense_2);

    let sparse_1: SparseVec<usize, f64> = SparseVec::try_from_iter(
        vec![(0usize, 0.2), (2usize, 0.2), (4usize, 0.3), (6usize, 0.4)].into_iter(),
    )
    .unwrap();
    let sparse_2: SparseVec<usize, f64> = SparseVec::try_from_iter(
        vec![(0usize, 0.2), (3usize, 0.4), (5usize, 0.2), (6usize, 0.6)].into_iter(),
    )
    .unwrap();
    let _dot = sparse_1.dot(&sparse_2);
    let _dist = sparse_1.squared_distance(&sparse_2);

    let _dot = dense_1.dot(&sparse_1);
}

#[test]
fn readme_sparse_construction() {
    let _v: SparseVec<usize, f64> =
        SparseVec::try_from_iter(vec![(0usize, 1.0), (2usize, 3.0), (5usize, 4.0)].into_iter()).unwrap();
    let _v: SparseVec<usize, f64> =
        SparseVec::try_from_iter(vec![(0usize, 1.0), (2usize, 3.0)].into_iter()).unwrap();
    let v: SparseVec<usize, f64> =
        SparseVec::try_from_iter(vec![(0usize, 1.0), (1usize, 0.0), (5usize, 4.0)].into_iter()).unwrap();
    assert_eq!(v.iter().into_vec(), vec![(0usize, 1.0), (5usize, 4.0)]);
}

#[test]
fn readme_stack_variant() {
    let _v: DenseArrayVec<f64, 4> = DenseArrayVec::try_from_iter([1.0, 2.0, 3.0, 4.0].into_iter()).unwrap();
    let _v: SparseArrayVec<usize, f64, 6> =
        SparseArrayVec::try_from_iter(vec![(0usize, 1.0), (2usize, 3.0)].into_iter()).unwrap();
}

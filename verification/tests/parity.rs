use vectors::sparse::SparseVec;
use vectors::{Distance, Dot, TryFromIterator};

#[test]
fn empty_sparse_vectors() {
    let a: SparseVec<usize, f64> = SparseVec::try_from_iter(vec![].into_iter()).unwrap();
    let b: SparseVec<usize, f64> = SparseVec::try_from_iter(vec![].into_iter()).unwrap();
    let dot: f64 = a.dot(&b);
    let dist: f64 = a.squared_distance(&b);
    assert_eq!(dot, 0.0);
    assert_eq!(dist, 0.0);
    let sum = a + &b;
    assert!(sum.is_empty());
}

#[test]
fn single_element_vectors() {
    let a: SparseVec<usize, f64> = SparseVec::try_from_iter(vec![(5, 3.0_f64)].into_iter()).unwrap();
    let b: SparseVec<usize, f64> = SparseVec::try_from_iter(vec![(5, 4.0_f64)].into_iter()).unwrap();
    let dot: f64 = a.dot(&b);
    let dist: f64 = a.squared_distance(&b);
    assert!((dot - 12.0).abs() < 1e-9);
    assert!((dist - 1.0).abs() < 1e-9);
}

#[test]
fn single_element_different_keys() {
    let a: SparseVec<usize, f64> = SparseVec::try_from_iter(vec![(1, 3.0_f64)].into_iter()).unwrap();
    let b: SparseVec<usize, f64> = SparseVec::try_from_iter(vec![(5, 4.0_f64)].into_iter()).unwrap();
    let dot: f64 = a.dot(&b);
    let dist: f64 = a.squared_distance(&b);
    assert!((dot - 0.0).abs() < 1e-9);
    assert!((dist - 25.0).abs() < 1e-9);
}

#[test]
fn large_indices() {
    let a: SparseVec<usize, f64> =
        SparseVec::try_from_iter(vec![(0, 1.0_f64), (1_000_000, 2.0_f64)].into_iter()).unwrap();
    let b: SparseVec<usize, f64> =
        SparseVec::try_from_iter(vec![(1_000_000, 3.0_f64)].into_iter()).unwrap();
    let dot: f64 = a.dot(&b);
    let dist: f64 = a.squared_distance(&b);
    assert!((dot - 6.0).abs() < 1e-9);
    assert!((dist - 2.0).abs() < 1e-9);
}

#[test]
fn zero_valued_entries_are_filtered() {
    let a: SparseVec<usize, f64> = SparseVec::try_from_iter(vec![(0, 0.0_f64)].into_iter()).unwrap();
    assert_eq!(a.len(), 0);
}

#[test]
fn nan_propagation_f64() {
    let a: SparseVec<usize, f64> = SparseVec::try_from_iter(vec![(0, f64::NAN)].into_iter()).unwrap();
    let b: SparseVec<usize, f64> = SparseVec::try_from_iter(vec![(0, 1.0_f64)].into_iter()).unwrap();
    let dot: f64 = a.dot(&b);
    assert!(dot.is_nan());
    let dist: f64 = a.squared_distance(&b);
    assert!(dist.is_nan());
}

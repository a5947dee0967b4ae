use vectors::dense::heap::DenseVector as HeapDenseVector;
use vectors::dense::stack::DenseVector as StackDenseVector;
use vectors::dense::{DenseSliceIter, DenseVec, DenseVecIntoIter, DenseVector, GenericDenseVec, Indexed};
use vectors::sparse::SparseVec;
use vectors::{Distance, Dot, TryFromIterator};

type Vector = DenseVec<f64>;

fn dense(values: &[f64]) -> Vector {
    GenericDenseVec::try_from_iter(values.to_vec().into_iter()).unwrap()
}

#[test]
fn debug_debug() {
    let vector = HeapDenseVector::from(vec![0.0, 0.25, 0.5, 0.75, 1.0]);
    assert_eq!(vector.debug_string(), "[0.0, 0.25, 0.5, 0.75, 1.0]");
}

#[test]
fn indexed_iter() {
    let iter = [0.1, 0.2, 0.3, 0.4, 0.5].into_iter();
    let iter: Indexed<u32, _> = Indexed::from(iter);
    let actual: Vec<(u32, f32)> = iter.into_vec();
    let expected = vec![(0, 0.1), (1, 0.2), (2, 0.3), (3, 0.4), (4, 0.5)];
    assert_eq!(actual, expected);
}

#[test]
fn slice_iter() {
    let values = [0.1, 0.2, 0.3, 0.4, 0.5];
    let iter = DenseSliceIter::new(values.iter());
    let actual: Vec<(u32, f32)> = iter.into_vec();
    let expected = vec![(0, 0.1), (1, 0.2), (2, 0.3), (3, 0.4), (4, 0.5)];
    assert_eq!(actual, expected);
}

#[test]
fn vec_into_iter() {
    let values = vec![0.1, 0.2, 0.3, 0.4, 0.5];
    let iter = DenseVecIntoIter::new(values.into_iter());
    let actual: Vec<(u32, f32)> = iter.into_vec();
    let expected = vec![(0, 0.1), (1, 0.2), (2, 0.3), (3, 0.4), (4, 0.5)];
    assert_eq!(actual, expected);
}

#[test]
fn ops_add() {
    let subject: Vector = GenericDenseVec::try_from_iter([0.0, 0.5, 1.0, 2.0, 3.0].into_iter()).unwrap();
    let other: Vector = GenericDenseVec::try_from_iter([2.0, 1.0, 0.0, -1.0, -2.0].into_iter()).unwrap();
    let expected: Vector = GenericDenseVec::try_from_iter([2.0, 1.5, 1.0, 1.0, 1.0].into_iter()).unwrap();
    assert_eq!(subject + &other, expected);
}

#[test]
fn ops_add_assign() {
    let mut subject: Vector =
        GenericDenseVec::try_from_iter([0.0, 0.5, 1.0, 2.0, 3.0].into_iter()).unwrap();
    let other: Vector = GenericDenseVec::try_from_iter([2.0, 1.0, 0.0, -1.0, -2.0].into_iter()).unwrap();
    subject.add_assign(&other);
    assert_eq!(
        subject,
        GenericDenseVec::try_from_iter([2.0, 1.5, 1.0, 1.0, 1.0].into_iter()).unwrap()
    );
}

#[test]
fn ops_sub() {
    let subject: Vector = GenericDenseVec::try_from_iter([2.0, 1.5, 1.0, 1.0, 1.0].into_iter()).unwrap();
    let other: Vector = GenericDenseVec::try_from_iter([2.0, 1.0, 0.0, -1.0, -2.0].into_iter()).unwrap();
    assert_eq!(
        subject - &other,
        GenericDenseVec::try_from_iter([0.0, 0.5, 1.0, 2.0, 3.0].into_iter()).unwrap()
    );
}

#[test]
fn ops_mul() {
    let subject: Vector = GenericDenseVec::try_from_iter([0.0, 0.5, 1.25, 2.0, 3.0].into_iter()).unwrap();
    assert_eq!(
        subject * 2.0,
        GenericDenseVec::try_from_iter([0.0, 1.0, 2.5, 4.0, 6.0].into_iter()).unwrap()
    );
}

#[test]
fn ops_div() {
    let subject: Vector = GenericDenseVec::try_from_iter([0.0, 1.0, 2.0, 4.0, 6.0].into_iter()).unwrap();
    assert_eq!(
        subject / 2.0,
        GenericDenseVec::try_from_iter([0.0, 0.5, 1.0, 2.0, 3.0].into_iter()).unwrap()
    );
}

#[test]
fn ops_mul_add() {
    let subject: Vector = GenericDenseVec::try_from_iter([0.0, 0.5, 1.0, 2.0, 3.0].into_iter()).unwrap();
    let other: Vector = GenericDenseVec::try_from_iter([2.0, 1.0, 0.0, -1.0, -2.0].into_iter()).unwrap();
    assert_eq!(
        other.mul_add(2.0, &subject),
        GenericDenseVec::try_from_iter([4.0, 2.5, 1.0, 0.0, -1.0].into_iter()).unwrap()
    );
}

#[test]
fn sub_sub() {
    let subject = StackDenseVector::from([2.0, 1.5, 1.0, 1.0, 1.0]);
    let other = StackDenseVector::from([2.0, 1.0, 0.0, -1.0, -2.0]);
    let expected = StackDenseVector::from([0.0, 0.5, 1.0, 2.0, 3.0]);
    let result = subject - other;
    assert_eq!(result, expected);
}

#[test]
fn sub_ref() {
    let subject = StackDenseVector::from([2.0, 1.5, 1.0, 1.0, 1.0]);
    let other = StackDenseVector::from([2.0, 1.0, 0.0, -1.0, -2.0]);
    let expected = StackDenseVector::from([0.0, 0.5, 1.0, 2.0, 3.0]);
    let result = subject - other;
    assert_eq!(result, expected);
}

#[test]
fn sub_assign() {
    let subject = StackDenseVector::from([2.0, 1.5, 1.0, 1.0, 1.0]);
    let other = StackDenseVector::from([2.0, 1.0, 0.0, -1.0, -2.0]);
    let expected = StackDenseVector::from([0.0, 0.5, 1.0, 2.0, 3.0]);
    let mut result = subject;
    result.sub_assign(&other);
    assert_eq!(result, expected);
}

#[test]
fn mul_mul() {
    let subject = StackDenseVector::from([0.0, 0.5, 1.25, 2.0, 3.0]);
    let expected = StackDenseVector::from([0.0, 1.0, 2.5, 4.0, 6.0]);
    let result = subject * 2.0;
    assert_eq!(result, expected);
}

#[test]
fn mul_assign() {
    let subject = StackDenseVector::from([0.0, 0.5, 1.25, 2.0, 3.0]);
    let expected = StackDenseVector::from([0.0, 1.0, 2.5, 4.0, 6.0]);
    let mut result = subject;
    result.mul_assign(2.0);
    assert_eq!(result, expected);
}

#[test]
fn distance_squared_distance() {
    let subject: DenseVec<f32> =
        GenericDenseVec::try_from_iter([0.0, 0.5, 1.0, 2.0, 4.0].into_iter()).unwrap();
    let other: DenseVec<f32> =
        GenericDenseVec::try_from_iter([0.1, 0.2, 0.3, 0.4, 0.0].into_iter()).unwrap();
    assert!((subject.squared_distance(&other) - 19.15).abs() <= 0.001);
}

#[test]
fn squared_distance_sparse_dense_overlapping() {
    let dense: DenseVec<f32> =
        GenericDenseVec::try_from_iter([0.0, 0.5, 1.0, 2.0, 4.0].into_iter()).unwrap();
    let sparse: SparseVec<usize, f32> =
        SparseVec::try_from_iter(vec![(0usize, 0.1), (2usize, 0.5), (4usize, 3.0)].into_iter())
            .unwrap();
    assert!((dense.squared_distance(&sparse) - 5.51).abs() <= 0.001);
}

#[test]
fn squared_distance_sparse_dense_disjoint() {
    let dense: DenseVec<f32> = GenericDenseVec::try_from_iter([1.0, 2.0, 3.0].into_iter()).unwrap();
    let sparse: SparseVec<usize, f32> =
        SparseVec::try_from_iter(vec![(10usize, 1.0), (11usize, 2.0)].into_iter()).unwrap();
    assert!((dense.squared_distance(&sparse) - 19.0).abs() <= 0.001);
}

#[test]
fn squared_distance_sparse_dense_identical() {
    let dense: DenseVec<f32> = GenericDenseVec::try_from_iter([1.0, 2.0, 3.0].into_iter()).unwrap();
    let sparse: SparseVec<usize, f32> =
        SparseVec::try_from_iter(vec![(0usize, 1.0), (1usize, 2.0), (2usize, 3.0)].into_iter())
            .unwrap();
    assert!((dense.squared_distance(&sparse) - 0.0).abs() <= 0.001);
}

#[test]
fn dot_dot() {
    let subject = dense(&[0.0, 0.5, 1.0, 2.0, 4.0]);
    let other = dense(&[0.1, 0.2, 0.3, 0.4, 0.0]);
    assert!((subject.dot(&other) - 1.2).abs() <= 0.001);
}

#[test]
fn dot_sparse() {
    let dense_vector = dense(&[0.0_f64, 0.5, 1.0, 2.0, 4.0, 0.0, 0.0]);
    let sparse: SparseVec<usize, f64> = SparseVec::try_from_iter(
        vec![(1usize, 0.1_f64), (2usize, 0.2), (3usize, 0.3), (5usize, 0.4), (6usize, 0.5)]
            .into_iter(),
    )
    .unwrap();
    let dot: f64 = dense_vector.dot(&sparse);
    let expected: f64 = 0.5 * 0.1 + 1.0 * 0.2 + 2.0 * 0.3;
    assert!((dot - expected).abs() <= 1e-9);
}

#[test]
fn add_add() {
    let subject = HeapDenseVector::from(vec![0.0, 0.5, 1.0, 2.0, 3.0]);
    let other = HeapDenseVector::from(vec![2.0, 1.0, 0.0, -1.0, -2.0]);
    let expected = HeapDenseVector::from(vec![2.0, 1.5, 1.0, 1.0, 1.0]);
    let result = subject + &other;
    assert_eq!(result, expected);
}

#[test]
fn add_add_assign() {
    let subject = HeapDenseVector::from(vec![0.0, 0.5, 1.0, 2.0, 3.0]);
    let other = HeapDenseVector::from(vec![2.0, 1.0, 0.0, -1.0, -2.0]);
    let expected = HeapDenseVector::from(vec![2.0, 1.5, 1.0, 1.0, 1.0]);
    let mut result = subject;
    result.add_assign(&other);
    assert_eq!(result, expected);
}

#[test]
fn heap_distance_squared_distance() {
    let subject = HeapDenseVector::from(vec![0.0, 0.5, 1.0, 2.0, 4.0]);
    let other = HeapDenseVector::from(vec![0.1, 0.2, 0.3, 0.4, 0.0]);
    let squared_distance: f64 = subject.squared_distance(&other);
    assert!((squared_distance - 19.15).abs() <= 0.001);
}

#[test]
fn mod_from() {
    let values: Vec<_> = vec![0.0; 5];
    let subject = HeapDenseVector::from(values.clone());
    assert_eq!(subject.components(), values.as_slice());
}

#[test]
fn dense_values_and_len() {
    let subject = dense(&[1.0, 2.0, 3.0]);
    assert_eq!(subject.len(), 3);
    assert!(!subject.is_empty());
    assert_eq!(DenseVector::values(&subject), &[1.0, 2.0, 3.0]);
    let range = DenseVector::indices::<u32>(&subject);
    assert_eq!(range, 0..3);
}

use vector_index::vectors::{AlignedVec, VectorStorage};

#[test]
fn add_vector_returns_consecutive_indices() {
    let mut s = VectorStorage::new(3);
    assert_eq!(s.add_vector(vec![1.0f32, 2.0, 3.0]), 0);
    assert_eq!(s.add_vector(vec![4.0f32, 5.0, 6.0]), 1);
}

#[test]
fn get_vector_returns_what_was_added() {
    let mut s = VectorStorage::new(2);
    let a = s.add_vector(vec![1.5f32, -2.0]);
    let b = s.add_vector(vec![0.25f32, 8.0]);
    assert_eq!(s.get_vector(a), &[1.5f32, -2.0]);
    assert_eq!(s.get_vector(b), &[0.25f32, 8.0]);
}

#[test]
fn zero_dimension_vectors_are_empty() {
    let s: VectorStorage<f32> = VectorStorage::new(0);
    assert!(s.get_vector(5).is_empty());
}

#[test]
fn aligned_vec_rows_hold_fill_value() {
    let v = AlignedVec::with_capacity(4, 3, 0.0f32);
    for row in 0..3 {
        assert_eq!(v.get(row), &[0.0f32; 4]);
    }
}

#[test]
fn aligned_vec_row_length_is_dimension() {
    let v = AlignedVec::with_capacity(5, 2, 7u8);
    assert_eq!(v.get(1).len(), 5);
}

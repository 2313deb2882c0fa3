use ort_superserve::tensor::{checked_shape_size, ShapeError, Tensor};

#[test]
fn checked_shape_size_counts_elements() {
    assert_eq!(checked_shape_size(&[3, 224, 224]), Some(150528));
    assert_eq!(checked_shape_size(&[]), Some(1));
    assert_eq!(checked_shape_size(&[4, 0, 7]), Some(0));
    assert_eq!(checked_shape_size(&[usize::MAX, 2]), None);
    // Zero extents do not count towards the limit, but nonzero ones do.
    assert_eq!(checked_shape_size(&[1usize << 62, 0, 1usize << 2]), None);
    assert_eq!(checked_shape_size(&[1usize << 62, 0]), Some(0));
}

#[test]
fn from_shape_vec_reports_each_mismatch() {
    assert_eq!(Tensor::from_shape_vec(vec![2, 3], vec![0u8; 5]).unwrap_err(), ShapeError::OutOfBounds);
    assert_eq!(Tensor::from_shape_vec(vec![2, 3], vec![0u8; 7]).unwrap_err(), ShapeError::IncompatibleShape);
    assert_eq!(Tensor::from_shape_vec(vec![usize::MAX, 3], vec![0u8; 7]).unwrap_err(), ShapeError::Overflow);
    let t = Tensor::from_shape_vec(vec![2, 3], vec![1u8, 2, 3, 4, 5, 6]).unwrap();
    assert_eq!(t.shape(), &[2, 3]);
    assert_eq!(t.data(), &[1, 2, 3, 4, 5, 6]);
    assert_eq!(t.len(), 6);
    let (shape, data) = t.into_parts();
    assert_eq!(shape, vec![2, 3]);
    assert_eq!(data, vec![1, 2, 3, 4, 5, 6]);
}

#[test]
fn from_elem_fills_the_shape() {
    let t = Tensor::from_elem(vec![2, 2], 7i32).unwrap();
    assert_eq!(t.data(), &[7, 7, 7, 7]);
    assert!(Tensor::from_elem(vec![usize::MAX, 2], 0u8).is_none());
}

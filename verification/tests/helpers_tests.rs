use ort_superserve::helpers::{batch_array, BatchArrayError};
use ort_superserve::tensor::{ShapeError, Tensor};

fn zeros(shape: &[usize]) -> Tensor<f32> {
    Tensor::from_elem(shape.to_vec(), 0.0f32).unwrap()
}

fn ones(shape: &[usize]) -> Tensor<f32> {
    Tensor::from_elem(shape.to_vec(), 1.0f32).unwrap()
}

#[test]
fn test_batch_array_single() {
    let items = vec![zeros(&[3, 224, 224])];
    let batched = batch_array(&items).unwrap();
    assert_eq!(batched.shape(), &[1, 3, 224, 224]);
}

#[test]
fn test_batch_array_multiple() {
    let items = vec![zeros(&[3, 224, 224]), ones(&[3, 224, 224])];
    let batched = batch_array(&items).unwrap();
    assert_eq!(batched.shape(), &[2, 3, 224, 224]);
}

#[test]
fn test_batch_array_empty() {
    let items: Vec<Tensor<f32>> = vec![];
    let result = batch_array(&items);
    assert!(result.is_err());
}

#[test]
fn test_batch_array_1d() {
    let items = vec![
        Tensor::from_shape_vec(vec![2], vec![1.0f32, 2.0]).unwrap(),
        Tensor::from_shape_vec(vec![2], vec![3.0f32, 4.0]).unwrap(),
    ];
    let batched = batch_array(&items).unwrap();
    assert_eq!(batched.shape(), &[2, 2]);
    // Row-major: element [0, 0] is at 0, element [1, 1] at 1 * 2 + 1.
    assert_eq!(batched.data()[0], 1.0);
    assert_eq!(batched.data()[3], 4.0);
}

#[test]
fn test_batch_array_2d() {
    let items = vec![zeros(&[4, 5]), ones(&[4, 5])];
    let batched = batch_array(&items).unwrap();
    assert_eq!(batched.shape(), &[2, 4, 5]);
}

#[test]
fn test_batch_single_item() {
    let items: Vec<Tensor<f32>> = vec![ones(&[1, 10, 10])];
    let batched = batch_array(&items).unwrap();
    assert_eq!(batched.shape(), &[1, 1, 10, 10]);
}

#[test]
fn test_batch_multiple_items() {
    let items: Vec<Tensor<f32>> = vec![zeros(&[3, 32, 32]), zeros(&[3, 32, 32]), zeros(&[3, 32, 32])];
    let batched = batch_array(&items).unwrap();
    assert_eq!(batched.shape(), &[3, 3, 32, 32]);
}

#[test]
fn test_batch_different_shapes_fails() {
    let items: Vec<Tensor<f32>> = vec![zeros(&[3, 32, 32]), zeros(&[3, 64, 64])];
    let result = batch_array(&items);
    assert!(result.is_err());
}

#[test]
fn test_batch_empty_fails() {
    let items: Vec<Tensor<f32>> = vec![];
    let result = batch_array(&items);
    assert!(result.is_err());
}

#[test]
fn batch_array_concatenates_items_in_order() {
    let items = vec![
        Tensor::from_shape_vec(vec![2, 2], vec![1u32, 2, 3, 4]).unwrap(),
        Tensor::from_shape_vec(vec![2, 2], vec![5u32, 6, 7, 8]).unwrap(),
        Tensor::from_shape_vec(vec![2, 2], vec![9u32, 10, 11, 12]).unwrap(),
    ];
    let batched = batch_array(&items).unwrap();
    assert_eq!(batched.shape(), &[3, 2, 2]);
    assert_eq!(batched.data(), &[1, 2, 3, 4, 5, 6, 7, 8, 9, 10, 11, 12]);
}

#[test]
fn batch_array_error_kinds_and_messages() {
    let empty: Vec<Tensor<u8>> = vec![];
    let e = batch_array(&empty).unwrap_err();
    assert_eq!(e, BatchArrayError::EmptyInput);
    assert_eq!(e.message(), "cannot batch empty array list");

    let mixed = vec![
        Tensor::from_shape_vec(vec![2], vec![1u8, 2]).unwrap(),
        Tensor::from_shape_vec(vec![1, 2], vec![1u8, 2]).unwrap(),
    ];
    let e = batch_array(&mixed).unwrap_err();
    assert_eq!(e, BatchArrayError::Shape(ShapeError::IncompatibleShape));
    assert_eq!(e.message(), "ShapeError/IncompatibleShape: incompatible shapes");
}

#[test]
fn batch_array_rejects_unaddressable_batch_shape() {
    // Zero-sized items of extent 2^62 each: two fit, but the batch of
    // 2 * 2^62 nonzero extents exceeds isize::MAX.
    let big = 1usize << 62;
    let item = Tensor::from_shape_vec(vec![big, 0], Vec::<u8>::new()).unwrap();
    let item2 = Tensor::from_shape_vec(vec![big, 0], Vec::<u8>::new()).unwrap();
    let e = batch_array(&[item, item2]).unwrap_err();
    assert_eq!(e, BatchArrayError::Shape(ShapeError::Overflow));
    assert_eq!(e.message(), "ShapeError/Overflow: arithmetic overflow");
}

use ort_superserve::actor::worker::WorkerTask;
use ort_superserve::helpers::batch_array;
use ort_superserve::tensor::{ShapeError, Tensor};

#[test]
fn output_dims_casts_each_extent() {
    assert_eq!(WorkerTask::output_dims(&[4, 1000]), vec![4, 1000]);
    assert_eq!(WorkerTask::output_dims(&[-1, 3]), vec![usize::MAX, 3]);
}

#[test]
fn split_batch_cuts_rows() {
    let data: Vec<u32> = (0..12).collect();
    let items = WorkerTask::split_batch(&[3, 2, 2], &data).unwrap();
    assert_eq!(items.len(), 3);
    for (i, item) in items.iter().enumerate() {
        assert_eq!(item.shape(), &[2, 2]);
        let start = i as u32 * 4;
        assert_eq!(item.data(), &[start, start + 1, start + 2, start + 3]);
    }
}

#[test]
fn split_batch_of_vectors_gives_scalars_per_row() {
    let items = WorkerTask::split_batch(&[2], &[5.0f32, 6.0]).unwrap();
    assert_eq!(items.len(), 2);
    assert_eq!(items[0].shape(), &[] as &[usize]);
    assert_eq!(items[1].data(), &[6.0]);
}

#[test]
fn split_batch_reports_mismatches() {
    let data = vec![0u8; 6];
    assert_eq!(WorkerTask::split_batch(&[2, 4], &data).unwrap_err(), ShapeError::OutOfBounds);
    assert_eq!(WorkerTask::split_batch(&[usize::MAX, 4], &data).unwrap_err(), ShapeError::Overflow);
    assert_eq!(
        ShapeError::OutOfBounds.message(),
        "ShapeError/OutOfBounds: out of bounds indexing"
    );
}

#[test]
fn split_batch_uses_leading_elements_of_longer_data() {
    let data: Vec<u8> = (0..7).collect();
    let items = WorkerTask::split_batch(&[2, 3], &data).unwrap();
    assert_eq!(items.len(), 2);
    assert_eq!(items[0].data(), &[0, 1, 2]);
    assert_eq!(items[1].data(), &[3, 4, 5]);
}

#[test]
fn split_inverts_batch_array() {
    let items = vec![
        Tensor::from_shape_vec(vec![3], vec![1i64, 2, 3]).unwrap(),
        Tensor::from_shape_vec(vec![3], vec![4i64, 5, 6]).unwrap(),
    ];
    let batched = batch_array(&items).unwrap();
    let back = WorkerTask::split_batch(batched.shape(), batched.data()).unwrap();
    assert_eq!(back.len(), items.len());
    for (a, b) in back.iter().zip(items.iter()) {
        assert_eq!(a.shape(), b.shape());
        assert_eq!(a.data(), b.data());
    }
}

#[test]
fn batch_array_inverts_split() {
    let data: Vec<u16> = (0..8).collect();
    let items = WorkerTask::split_batch(&[4, 2], &data).unwrap();
    let batched = batch_array(&items).unwrap();
    assert_eq!(batched.shape(), &[4, 2]);
    assert_eq!(batched.data(), data.as_slice());
}

#[test]
fn missing_output_message_names_the_tensor() {
    assert_eq!(WorkerTask::missing_output_message("logits"), "Output tensor 'logits' not found");
}

#[test]
fn session_retries_back_off_exponentially_up_to_a_cap() {
    let delays: Vec<u64> = (0..9).map(WorkerTask::retry_delay_secs).collect();
    assert_eq!(delays, vec![5, 10, 20, 40, 80, 160, 300, 300, 300]);
    assert_eq!(WorkerTask::retry_delay_secs(u32::MAX), 300);
}

use ort_superserve::actor::batcher::{
    preprocessing_failed_message, BatchFailure, BatchPhase, BatcherAction, BatcherEvent, BatcherTask,
};

#[test]
fn full_batch_closes_without_waiting() {
    let mut b = BatcherTask::new(2, 1, 1);
    assert_eq!(b.step(BatcherEvent::RequestReceived), BatcherAction::StartCollecting);
    assert_eq!(b.phase, BatchPhase::Collecting { buffered: 1 });
    assert_eq!(b.step(BatcherEvent::RequestReceived), BatcherAction::Preprocess { batch_len: 2 });
}

#[test]
fn timeout_closes_partial_batch() {
    let mut b = BatcherTask::new(8, 1, 1);
    assert_eq!(b.step(BatcherEvent::RequestReceived), BatcherAction::StartCollecting);
    assert_eq!(b.step(BatcherEvent::RequestReceived), BatcherAction::KeepCollecting);
    assert_eq!(b.step(BatcherEvent::RequestReceived), BatcherAction::KeepCollecting);
    assert_eq!(b.step(BatcherEvent::WaitElapsed), BatcherAction::Preprocess { batch_len: 3 });
}

#[test]
fn max_batch_size_of_one_or_zero_batches_each_request() {
    let mut b = BatcherTask::new(1, 1, 1);
    assert_eq!(b.step(BatcherEvent::RequestReceived), BatcherAction::Preprocess { batch_len: 1 });
    let mut z = BatcherTask::new(0, 0, 1);
    assert_eq!(z.step(BatcherEvent::RequestReceived), BatcherAction::Preprocess { batch_len: 1 });
}

#[test]
fn undersized_batch_is_rejected() {
    let mut b = BatcherTask::new(8, 3, 1);
    b.step(BatcherEvent::RequestReceived);
    b.step(BatcherEvent::RequestReceived);
    let action = b.step(BatcherEvent::WaitElapsed);
    assert_eq!(action, BatcherAction::FailBatch(BatchFailure::InsufficientBatch));
    assert_eq!(b.phase, BatchPhase::Idle);
    assert_eq!(BatchFailure::InsufficientBatch.message(), "Insufficient batch size");
}

#[test]
fn channel_closed_while_idle_stops_the_batcher() {
    let mut b = BatcherTask::new(8, 1, 1);
    assert_eq!(b.step(BatcherEvent::RequestChannelClosed), BatcherAction::Shutdown);
    assert_eq!(b.phase, BatchPhase::Stopped);
}

#[test]
fn channel_closed_while_collecting_processes_the_batch() {
    let mut b = BatcherTask::new(8, 1, 1);
    b.step(BatcherEvent::RequestReceived);
    assert_eq!(b.step(BatcherEvent::RequestChannelClosed), BatcherAction::Preprocess { batch_len: 1 });
}

#[test]
fn full_cycle_reaches_postprocessing() {
    let mut b = BatcherTask::new(4, 1, 2);
    b.step(BatcherEvent::RequestReceived);
    b.step(BatcherEvent::RequestReceived);
    assert_eq!(b.step(BatcherEvent::WaitElapsed), BatcherAction::Preprocess { batch_len: 2 });
    assert_eq!(b.step(BatcherEvent::PreprocessingDone { succeeded: 2 }), BatcherAction::Stack);
    assert_eq!(b.step(BatcherEvent::BatchingDone), BatcherAction::SendToWorker { worker: 0 });
    assert_eq!(b.dispatch_index, 1);
    assert_eq!(b.step(BatcherEvent::SendDone), BatcherAction::AwaitOutputs);
    assert_eq!(b.step(BatcherEvent::OutputsReady { outputs: 2 }), BatcherAction::Postprocess);
    assert_eq!(b.step(BatcherEvent::PostprocessingDone), BatcherAction::AwaitRequest);
    assert_eq!(b.phase, BatchPhase::Idle);
}

fn dispatch_one(b: &mut BatcherTask) -> usize {
    b.step(BatcherEvent::RequestReceived);
    b.step(BatcherEvent::WaitElapsed);
    b.step(BatcherEvent::PreprocessingDone { succeeded: 1 });
    let worker = match b.step(BatcherEvent::BatchingDone) {
        BatcherAction::SendToWorker { worker } => worker,
        other => panic!("unexpected action {:?}", other),
    };
    b.step(BatcherEvent::SendDone);
    b.step(BatcherEvent::OutputsReady { outputs: 1 });
    b.step(BatcherEvent::PostprocessingDone);
    worker
}

#[test]
fn workers_take_turns() {
    let mut b = BatcherTask::new(8, 1, 3);
    let order: Vec<usize> = (0..7).map(|_| dispatch_one(&mut b)).collect();
    assert_eq!(order, vec![0, 1, 2, 0, 1, 2, 0]);
}

#[test]
fn dispatch_counter_wraps() {
    let mut b = BatcherTask::new(8, 1, 3);
    b.dispatch_index = usize::MAX;
    let w = dispatch_one(&mut b);
    assert_eq!(w, usize::MAX % 3);
    assert_eq!(b.dispatch_index, 0);
}

#[test]
fn every_failure_returns_to_idle_with_its_message() {
    let setup = |b: &mut BatcherTask| {
        b.step(BatcherEvent::RequestReceived);
        b.step(BatcherEvent::WaitElapsed);
        b.step(BatcherEvent::PreprocessingDone { succeeded: 1 });
    };
    let mut b = BatcherTask::new(8, 1, 1);
    setup(&mut b);
    let a = b.step(BatcherEvent::BatchingFailed("bad shapes".to_string()));
    assert_eq!(a, BatcherAction::FailBatch(BatchFailure::Batching("bad shapes".to_string())));
    assert_eq!(BatchFailure::Batching("bad shapes".to_string()).message(), "Batching failed: bad shapes");

    setup(&mut b);
    b.step(BatcherEvent::BatchingDone);
    assert_eq!(b.step(BatcherEvent::SendFailed), BatcherAction::FailBatch(BatchFailure::WorkerUnavailable));
    assert_eq!(BatchFailure::WorkerUnavailable.message(), "Worker unavailable");

    setup(&mut b);
    b.step(BatcherEvent::BatchingDone);
    b.step(BatcherEvent::SendDone);
    let a = b.step(BatcherEvent::InferenceFailed("session error".to_string()));
    assert_eq!(a, BatcherAction::FailBatch(BatchFailure::Inference("session error".to_string())));
    assert_eq!(BatchFailure::Inference("session error".to_string()).message(), "session error");

    setup(&mut b);
    b.step(BatcherEvent::BatchingDone);
    b.step(BatcherEvent::SendDone);
    assert_eq!(b.step(BatcherEvent::WorkerReplyLost), BatcherAction::FailBatch(BatchFailure::WorkerChannelClosed));
    assert_eq!(BatchFailure::WorkerChannelClosed.message(), "Worker channel closed");

    setup(&mut b);
    b.step(BatcherEvent::BatchingDone);
    b.step(BatcherEvent::SendDone);
    assert_eq!(
        b.step(BatcherEvent::OutputsReady { outputs: 2 }),
        BatcherAction::FailBatch(BatchFailure::OutputCountMismatch)
    );
    assert_eq!(BatchFailure::OutputCountMismatch.message(), "Output count mismatch");
    assert_eq!(b.phase, BatchPhase::Idle);
}

#[test]
fn nothing_preprocessed_drops_the_batch() {
    let mut b = BatcherTask::new(8, 1, 1);
    b.step(BatcherEvent::RequestReceived);
    b.step(BatcherEvent::WaitElapsed);
    assert_eq!(b.step(BatcherEvent::PreprocessingDone { succeeded: 0 }), BatcherAction::DropBatch);
    assert_eq!(b.phase, BatchPhase::Idle);
}

#[test]
fn order_preprocessed_restores_request_order() {
    let completed = vec![(2usize, "c"), (0, "a"), (3, "d")];
    let (items, kept) = BatcherTask::order_preprocessed(4, completed);
    assert_eq!(items, vec!["a", "c", "d"]);
    assert_eq!(kept, vec![true, false, true, true]);
}

#[test]
fn order_preprocessed_keeps_the_latest_report() {
    let (items, kept) = BatcherTask::order_preprocessed(2, vec![(1usize, 10), (1, 11)]);
    assert_eq!(items, vec![11]);
    assert_eq!(kept, vec![false, true]);
}

#[test]
fn split_responders_partitions_in_order() {
    let responders = vec!["r0", "r1", "r2", "r3"];
    let (kept, rejected) = BatcherTask::split_responders(responders, &vec![true, false, true, true]);
    assert_eq!(kept, vec!["r0", "r2", "r3"]);
    assert_eq!(rejected, vec!["r1"]);
    assert_eq!(preprocessing_failed_message(), "Preprocessing failed");
}

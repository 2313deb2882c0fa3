//! The decisions of the batcher.
//!
//! The batcher collects requests until a batch is full or its wait time has
//! elapsed, rejects batches smaller than the minimum, preprocesses the rest,
//! stacks what was preprocessed, hands the batch to the workers in turn and
//! postprocesses the outputs for their callers.
//!
//! `BatcherTask` holds the state of that cycle. The task that drives it waits,
//! preprocesses, sends and answers; after each of these it reports what
//! happened as a `BatcherEvent`, and `BatcherTask::step` answers with the next
//! `BatcherAction`. After `FailBatch`, `DropBatch` and postprocessing the
//! batcher is idle again and waits for the next request.
use vstd::prelude::*;
use vstd::std_specs::hash::group_hash_axioms;
use std::collections::HashMap;
use vstd::arithmetic::div_mod::{
    lemma_add_mod_noop, lemma_add_mod_noop_right, lemma_mod_add_multiples_vanish, lemma_mod_self_0,
    lemma_small_mod,
};

verus! {

broadcast use group_hash_axioms;

/// Where the batcher stands in the cycle of one batch.
#[derive(Debug, Clone, Copy, PartialEq, Eq, Structural)]
pub enum BatchPhase {
    /// Waiting for the first request of a batch.
    Idle,
    /// Holding `buffered` requests while the wait timer runs.
    Collecting { buffered: usize },
    /// Preprocessing the `batch_len` requests of a closed batch.
    Preprocessing { batch_len: usize },
    /// Stacking the `kept` inputs that were preprocessed.
    Batching { kept: usize },
    /// Handing the stacked batch of `kept` inputs to a worker.
    Dispatching { kept: usize },
    /// Waiting for the worker's outputs for `kept` inputs.
    Inferring { kept: usize },
    /// Postprocessing `kept` outputs for their callers.
    Postprocessing { kept: usize },
    /// The request channel has closed; nothing more happens.
    Stopped,
}

/// Why every pending caller of a batch is answered with an error.
#[derive(Debug, PartialEq, Eq)]
pub enum BatchFailure {
    /// Fewer requests arrived than the minimum batch size.
    InsufficientBatch,
    /// Stacking the preprocessed inputs failed with the given description.
    Batching(String),
    /// The worker could not be reached.
    WorkerUnavailable,
    /// Inference failed with the given description.
    Inference(String),
    /// The worker dropped its reply.
    WorkerChannelClosed,
    /// The worker returned a number of outputs other than the number of callers.
    OutputCountMismatch,
}

impl BatchFailure {
    /// The error text every affected caller receives.
    pub open spec fn spec_message(&self) -> Seq<char> {
        match self {
            BatchFailure::InsufficientBatch => "Insufficient batch size"@,
            BatchFailure::Batching(d) => "Batching failed: "@ + d@,
            BatchFailure::WorkerUnavailable => "Worker unavailable"@,
            BatchFailure::Inference(d) => d@,
            BatchFailure::WorkerChannelClosed => "Worker channel closed"@,
            BatchFailure::OutputCountMismatch => "Output count mismatch"@,
        }
    }

    /// The error text every affected caller receives.
    pub fn message(&self) -> (m: String)
        ensures
            m@ == self.spec_message(),
    {
        match self {
            BatchFailure::InsufficientBatch => String::from_str("Insufficient batch size"),
            BatchFailure::Batching(d) => String::from_str("Batching failed: ").concat(d.as_str()),
            BatchFailure::WorkerUnavailable => String::from_str("Worker unavailable"),
            BatchFailure::Inference(d) => d.clone(),
            BatchFailure::WorkerChannelClosed => String::from_str("Worker channel closed"),
            BatchFailure::OutputCountMismatch => String::from_str("Output count mismatch"),
        }
    }
}

/// The error text of a request whose preprocessing failed.
pub fn preprocessing_failed_message() -> (m: String)
    ensures
        m@ == "Preprocessing failed"@,
{
    String::from_str("Preprocessing failed")
}

/// What happened since the batcher's last action.
#[derive(Debug, PartialEq, Eq)]
pub enum BatcherEvent {
    /// A request arrived.
    RequestReceived,
    /// The request channel closed.
    RequestChannelClosed,
    /// The wait timer of the batch being collected elapsed.
    WaitElapsed,
    /// Preprocessing finished; `succeeded` inputs were preprocessed.
    PreprocessingDone { succeeded: usize },
    /// Stacking failed with the given description.
    BatchingFailed(String),
    /// Stacking succeeded.
    BatchingDone,
    /// The batch could not be sent to the chosen worker.
    SendFailed,
    /// The batch was sent to the chosen worker.
    SendDone,
    /// The worker reported that inference failed, with the given description.
    InferenceFailed(String),
    /// The worker's reply channel closed without a reply.
    WorkerReplyLost,
    /// The worker returned `outputs` sliced outputs.
    OutputsReady { outputs: usize },
    /// Every output was postprocessed and delivered.
    PostprocessingDone,
}

/// What the batcher does next.
#[derive(Debug, PartialEq, Eq)]
pub enum BatcherAction {
    /// Wait, without deadline, for the first request of the next batch.
    AwaitRequest,
    /// Start the wait timer, then wait for more requests until it elapses.
    StartCollecting,
    /// Keep waiting for more requests until the running timer elapses.
    KeepCollecting,
    /// Preprocess the `batch_len` buffered requests.
    Preprocess { batch_len: usize },
    /// Nothing could be preprocessed: drop the batch.
    DropBatch,
    /// Stack the preprocessed inputs into one tensor.
    Stack,
    /// Send the stacked batch to worker `worker`.
    SendToWorker { worker: usize },
    /// Wait for the worker's sliced outputs.
    AwaitOutputs,
    /// Answer every pending caller of the batch with the failure's message.
    FailBatch(BatchFailure),
    /// Postprocess each output for the caller of the same position.
    Postprocess,
    /// The request channel is closed: stop.
    Shutdown,
}

/// State of the batcher: its limits, its turn among workers and its phase.
pub struct BatcherTask {
    /// A batch is closed as soon as it holds this many requests.
    pub max_batch_size: usize,
    /// Batches with fewer requests are rejected.
    pub min_batch_size: usize,
    /// Number of workers batches are spread over.
    pub num_workers: usize,
    /// Count of batches dispatched so far (wrapping).
    pub dispatch_index: usize,
    /// Where the batcher stands.
    pub phase: BatchPhase,
}

/// The largest batch the batcher ever forms: `max_batch_size`, but at least one.
pub open spec fn batch_capacity(max_batch_size: usize) -> nat {
    if max_batch_size == 0 {
        1
    } else {
        max_batch_size as nat
    }
}

/// Worker that receives the batch dispatched as number `index`.
pub open spec fn worker_for(index: usize, num_workers: usize) -> nat
    recommends
        num_workers > 0,
{
    (index % num_workers) as nat
}

/// Dispatch counter after one more batch: `index + 1`, wrapping at `usize::MAX`.
pub open spec fn next_dispatch_index(index: usize) -> usize {
    if index == usize::MAX {
        0
    } else {
        (index + 1) as usize
    }
}

impl BatcherTask {
    /// The phases the batcher can be in, given its limits.
    pub open spec fn wf(&self) -> bool {
        match self.phase {
            BatchPhase::Idle | BatchPhase::Stopped => true,
            BatchPhase::Collecting { buffered } => 1 <= buffered < self.max_batch_size,
            BatchPhase::Preprocessing { batch_len } => {
                &&& 1 <= batch_len <= batch_capacity(self.max_batch_size)
                &&& self.min_batch_size <= batch_len
            },
            BatchPhase::Batching { kept }
            | BatchPhase::Dispatching { kept }
            | BatchPhase::Inferring { kept }
            | BatchPhase::Postprocessing { kept } => 1 <= kept <= batch_capacity(
                self.max_batch_size,
            ),
        }
    }

    /// Which events can happen in the current phase.
    pub open spec fn accepts(&self, event: BatcherEvent) -> bool {
        match (self.phase, event) {
            (BatchPhase::Idle, BatcherEvent::RequestReceived) => true,
            (BatchPhase::Idle, BatcherEvent::RequestChannelClosed) => true,
            (BatchPhase::Collecting { .. }, BatcherEvent::RequestReceived) => true,
            (BatchPhase::Collecting { .. }, BatcherEvent::RequestChannelClosed) => true,
            (BatchPhase::Collecting { .. }, BatcherEvent::WaitElapsed) => true,
            (
                BatchPhase::Preprocessing { batch_len },
                BatcherEvent::PreprocessingDone { succeeded },
            ) => succeeded <= batch_len,
            (BatchPhase::Batching { .. }, BatcherEvent::BatchingFailed(_)) => true,
            (BatchPhase::Batching { .. }, BatcherEvent::BatchingDone) => self.num_workers > 0,
            (BatchPhase::Dispatching { .. }, BatcherEvent::SendFailed) => true,
            (BatchPhase::Dispatching { .. }, BatcherEvent::SendDone) => true,
            (BatchPhase::Inferring { .. }, BatcherEvent::InferenceFailed(_)) => true,
            (BatchPhase::Inferring { .. }, BatcherEvent::WorkerReplyLost) => true,
            (BatchPhase::Inferring { .. }, BatcherEvent::OutputsReady { .. }) => true,
            (BatchPhase::Postprocessing { .. }, BatcherEvent::PostprocessingDone) => true,
            _ => false,
        }
    }

    /// The same batcher in another phase.
    pub open spec fn with_phase(self, phase: BatchPhase) -> BatcherTask {
        BatcherTask { phase, ..self }
    }

    /// Closing a batch of `buffered` requests: too small ones are rejected,
    /// the others go to preprocessing.
    pub open spec fn close_batch(self, buffered: usize) -> (BatcherTask, BatcherAction) {
        if buffered < self.min_batch_size {
            (
                self.with_phase(BatchPhase::Idle),
                BatcherAction::FailBatch(BatchFailure::InsufficientBatch),
            )
        } else {
            (
                self.with_phase(BatchPhase::Preprocessing { batch_len: buffered }),
                BatcherAction::Preprocess { batch_len: buffered },
            )
        }
    }

    /// Taking in one more request when `buffered` are already held.
    pub open spec fn take_request(self, buffered: usize) -> (BatcherTask, BatcherAction) {
        let held = (buffered + 1) as usize;
        if held >= self.max_batch_size {
            self.close_batch(held)
        } else if buffered == 0 {
            (self.with_phase(BatchPhase::Collecting { buffered: held }), BatcherAction::StartCollecting)
        } else {
            (self.with_phase(BatchPhase::Collecting { buffered: held }), BatcherAction::KeepCollecting)
        }
    }

    /// The next state and action after `event`.
    pub open spec fn transition(self, event: BatcherEvent) -> (BatcherTask, BatcherAction) {
        match (self.phase, event) {
            (BatchPhase::Idle, BatcherEvent::RequestReceived) => self.take_request(0),
            (BatchPhase::Idle, BatcherEvent::RequestChannelClosed) => (
                self.with_phase(BatchPhase::Stopped),
                BatcherAction::Shutdown,
            ),
            (BatchPhase::Collecting { buffered }, BatcherEvent::RequestReceived) => self.take_request(
                buffered,
            ),
            (BatchPhase::Collecting { buffered }, BatcherEvent::RequestChannelClosed) => self.close_batch(
                buffered,
            ),
            (BatchPhase::Collecting { buffered }, BatcherEvent::WaitElapsed) => self.close_batch(
                buffered,
            ),
            (BatchPhase::Preprocessing { .. }, BatcherEvent::PreprocessingDone { succeeded }) => {
                if succeeded == 0 {
                    (self.with_phase(BatchPhase::Idle), BatcherAction::DropBatch)
                } else {
                    (self.with_phase(BatchPhase::Batching { kept: succeeded }), BatcherAction::Stack)
                }
            },
            (BatchPhase::Batching { .. }, BatcherEvent::BatchingFailed(d)) => (
                self.with_phase(BatchPhase::Idle),
                BatcherAction::FailBatch(BatchFailure::Batching(d)),
            ),
            (BatchPhase::Batching { kept }, BatcherEvent::BatchingDone) => (
                BatcherTask {
                    dispatch_index: next_dispatch_index(self.dispatch_index),
                    phase: BatchPhase::Dispatching { kept },
                    ..self
                },
                BatcherAction::SendToWorker {
                    worker: worker_for(self.dispatch_index, self.num_workers) as usize,
                },
            ),
            (BatchPhase::Dispatching { .. }, BatcherEvent::SendFailed) => (
                self.with_phase(BatchPhase::Idle),
                BatcherAction::FailBatch(BatchFailure::WorkerUnavailable),
            ),
            (BatchPhase::Dispatching { kept }, BatcherEvent::SendDone) => (
                self.with_phase(BatchPhase::Inferring { kept }),
                BatcherAction::AwaitOutputs,
            ),
            (BatchPhase::Inferring { .. }, BatcherEvent::InferenceFailed(d)) => (
                self.with_phase(BatchPhase::Idle),
                BatcherAction::FailBatch(BatchFailure::Inference(d)),
            ),
            (BatchPhase::Inferring { .. }, BatcherEvent::WorkerReplyLost) => (
                self.with_phase(BatchPhase::Idle),
                BatcherAction::FailBatch(BatchFailure::WorkerChannelClosed),
            ),
            (BatchPhase::Inferring { kept }, BatcherEvent::OutputsReady { outputs }) => {
                if outputs != kept {
                    (
                        self.with_phase(BatchPhase::Idle),
                        BatcherAction::FailBatch(BatchFailure::OutputCountMismatch),
                    )
                } else {
                    (self.with_phase(BatchPhase::Postprocessing { kept }), BatcherAction::Postprocess)
                }
            },
            (BatchPhase::Postprocessing { .. }, BatcherEvent::PostprocessingDone) => (
                self.with_phase(BatchPhase::Idle),
                BatcherAction::AwaitRequest,
            ),
            _ => (self, BatcherAction::AwaitRequest),
        }
    }

    /// An idle batcher with the given limits that has dispatched nothing yet.
    pub fn new(max_batch_size: usize, min_batch_size: usize, num_workers: usize) -> (b: BatcherTask)
        ensures
            b.max_batch_size == max_batch_size,
            b.min_batch_size == min_batch_size,
            b.num_workers == num_workers,
            b.dispatch_index == 0,
            b.phase == BatchPhase::Idle,
            b.wf(),
    {
        BatcherTask {
            max_batch_size,
            min_batch_size,
            num_workers,
            dispatch_index: 0,
            phase: BatchPhase::Idle,
        }
    }

    fn close_batch_exec(&mut self, buffered: usize) -> (action: BatcherAction)
        requires
            1 <= buffered <= batch_capacity(old(self).max_batch_size),
        ensures
            (*final(self), action) == old(self).close_batch(buffered),
    {
        if buffered < self.min_batch_size {
            self.phase = BatchPhase::Idle;
            BatcherAction::FailBatch(BatchFailure::InsufficientBatch)
        } else {
            self.phase = BatchPhase::Preprocessing { batch_len: buffered };
            BatcherAction::Preprocess { batch_len: buffered }
        }
    }

    fn take_request_exec(&mut self, buffered: usize) -> (action: BatcherAction)
        requires
            buffered < old(self).max_batch_size || buffered == 0,
        ensures
            (*final(self), action) == old(self).take_request(buffered),
    {
        let held = buffered + 1;
        if held >= self.max_batch_size {
            self.close_batch_exec(held)
        } else if buffered == 0 {
            self.phase = BatchPhase::Collecting { buffered: held };
            BatcherAction::StartCollecting
        } else {
            self.phase = BatchPhase::Collecting { buffered: held };
            BatcherAction::KeepCollecting
        }
    }

    /// Advances the batcher by one event and returns what to do next.
    ///
    /// Every batch handed to preprocessing holds at least `min_batch_size`
    /// and at most `max(max_batch_size, 1)` requests; every batch is sent to
    /// worker `dispatch_index % num_workers`, after which the counter moves
    /// on by one.
    pub fn step(&mut self, event: BatcherEvent) -> (action: BatcherAction)
        requires
            old(self).wf(),
            old(self).accepts(event),
        ensures
            (*final(self), action) == old(self).transition(event),
            final(self).wf(),
            action matches BatcherAction::Preprocess { batch_len } ==> {
                &&& old(self).min_batch_size <= batch_len
                &&& 1 <= batch_len <= batch_capacity(old(self).max_batch_size)
            },
            action matches BatcherAction::SendToWorker { worker } ==> {
                &&& worker < old(self).num_workers
                &&& worker == old(self).dispatch_index % old(self).num_workers
                &&& final(self).dispatch_index == next_dispatch_index(old(self).dispatch_index)
            },
            action is Shutdown <==> final(self).phase is Stopped,
    {
        match event {
            BatcherEvent::RequestReceived => {
                match self.phase {
                    BatchPhase::Idle => self.take_request_exec(0),
                    BatchPhase::Collecting { buffered } => self.take_request_exec(buffered),
                    _ => BatcherAction::AwaitRequest,
                }
            },
            BatcherEvent::RequestChannelClosed => {
                match self.phase {
                    BatchPhase::Idle => {
                        self.phase = BatchPhase::Stopped;
                        BatcherAction::Shutdown
                    },
                    BatchPhase::Collecting { buffered } => self.close_batch_exec(buffered),
                    _ => BatcherAction::AwaitRequest,
                }
            },
            BatcherEvent::WaitElapsed => {
                match self.phase {
                    BatchPhase::Collecting { buffered } => self.close_batch_exec(buffered),
                    _ => BatcherAction::AwaitRequest,
                }
            },
            BatcherEvent::PreprocessingDone { succeeded } => {
                if succeeded == 0 {
                    self.phase = BatchPhase::Idle;
                    BatcherAction::DropBatch
                } else {
                    self.phase = BatchPhase::Batching { kept: succeeded };
                    BatcherAction::Stack
                }
            },
            BatcherEvent::BatchingFailed(d) => {
                self.phase = BatchPhase::Idle;
                BatcherAction::FailBatch(BatchFailure::Batching(d))
            },
            BatcherEvent::BatchingDone => {
                match self.phase {
                    BatchPhase::Batching { kept } => {
                        let worker = self.dispatch_index % self.num_workers;
                        self.dispatch_index = self.dispatch_index.wrapping_add(1);
                        self.phase = BatchPhase::Dispatching { kept };
                        BatcherAction::SendToWorker { worker }
                    },
                    _ => BatcherAction::AwaitRequest,
                }
            },
            BatcherEvent::SendFailed => {
                self.phase = BatchPhase::Idle;
                BatcherAction::FailBatch(BatchFailure::WorkerUnavailable)
            },
            BatcherEvent::SendDone => {
                match self.phase {
                    BatchPhase::Dispatching { kept } => {
                        self.phase = BatchPhase::Inferring { kept };
                        BatcherAction::AwaitOutputs
                    },
                    _ => BatcherAction::AwaitRequest,
                }
            },
            BatcherEvent::InferenceFailed(d) => {
                self.phase = BatchPhase::Idle;
                BatcherAction::FailBatch(BatchFailure::Inference(d))
            },
            BatcherEvent::WorkerReplyLost => {
                self.phase = BatchPhase::Idle;
                BatcherAction::FailBatch(BatchFailure::WorkerChannelClosed)
            },
            BatcherEvent::OutputsReady { outputs } => {
                match self.phase {
                    BatchPhase::Inferring { kept } => {
                        if outputs != kept {
                            self.phase = BatchPhase::Idle;
                            BatcherAction::FailBatch(BatchFailure::OutputCountMismatch)
                        } else {
                            self.phase = BatchPhase::Postprocessing { kept };
                            BatcherAction::Postprocess
                        }
                    },
                    _ => BatcherAction::AwaitRequest,
                }
            },
            BatcherEvent::PostprocessingDone => {
                self.phase = BatchPhase::Idle;
                BatcherAction::AwaitRequest
            },
        }
    }
}


/// The preprocessed inputs by request position; a later report for a position
/// replaces an earlier one.
pub open spec fn completion_map<T>(completed: Seq<(usize, T)>) -> Map<usize, T>
    decreases completed.len(),
{
    if completed.len() == 0 {
        Map::empty()
    } else {
        completion_map(completed.drop_last()).insert(
            completed.last().0,
            completed.last().1,
        )
    }
}

/// Positions below `n` that were preprocessed, in increasing order.
pub open spec fn kept_positions<T>(done: Map<usize, T>, n: nat) -> Seq<usize>
    decreases n,
{
    if n == 0 {
        Seq::empty()
    } else {
        let earlier = kept_positions(done, (n - 1) as nat);
        if done.dom().contains((n - 1) as usize) {
            earlier.push((n - 1) as usize)
        } else {
            earlier
        }
    }
}

/// The elements of `items` whose flag in `mask` equals `want`, in order.
pub open spec fn select<R>(items: Seq<R>, mask: Seq<bool>, want: bool) -> Seq<R>
    decreases items.len(),
{
    if items.len() == 0 {
        Seq::empty()
    } else {
        let earlier = select(items.drop_last(), mask, want);
        if mask[items.len() - 1] == want {
            earlier.push(items.last())
        } else {
            earlier
        }
    }
}

/// Number of flags equal to `want` among the first `n` of `mask`.
pub open spec fn count_flags(mask: Seq<bool>, n: nat, want: bool) -> nat
    decreases n,
{
    if n == 0 {
        0
    } else {
        count_flags(mask, (n - 1) as nat, want) + if mask[n - 1] == want {
            1nat
        } else {
            0nat
        }
    }
}

proof fn lemma_select_take<R>(items: Seq<R>, mask: Seq<bool>, want: bool, i: int)
    requires
        0 <= i < items.len(),
    ensures
        select(items.take(i + 1), mask, want) == if mask[i] == want {
            select(items.take(i), mask, want).push(items[i])
        } else {
            select(items.take(i), mask, want)
        },
{
    assert(items.take(i + 1).drop_last() =~= items.take(i));
}

/// The number of selected elements is the number of matching flags.
pub proof fn lemma_select_len<R>(items: Seq<R>, mask: Seq<bool>, want: bool)
    requires
        items.len() <= mask.len(),
    ensures
        select(items, mask, want).len() == count_flags(mask, items.len(), want),
    decreases items.len(),
{
    if items.len() > 0 {
        lemma_select_len(items.drop_last(), mask, want);
    }
}

/// Every position is counted as kept or as rejected, never both.
pub proof fn lemma_count_flags_split(mask: Seq<bool>, n: nat)
    requires
        n <= mask.len(),
    ensures
        count_flags(mask, n, true) + count_flags(mask, n, false) == n,
    decreases n,
{
    if n > 0 {
        lemma_count_flags_split(mask, (n - 1) as nat);
    }
}

/// Kept positions are exactly the positions flagged in the mask of preprocessed positions.
pub proof fn lemma_kept_positions_len<T>(done: Map<usize, T>, n: nat)
    ensures
        kept_positions(done, n).len() == count_flags(
            Seq::new(n, |i: int| done.dom().contains(i as usize)),
            n,
            true,
        ),
    decreases n,
{
    if n > 0 {
        let m = (n - 1) as nat;
        lemma_kept_positions_len(done, m);
        lemma_count_flags_prefix(
            Seq::new(n, |i: int| done.dom().contains(i as usize)),
            Seq::new(m, |i: int| done.dom().contains(i as usize)),
            m,
            true,
        );
    }
}

/// The `j`-th caller kept by the mask of preprocessed positions is the caller
/// at the `j`-th preprocessed position: kept callers and preprocessed inputs
/// are paired in the same order.
pub proof fn lemma_kept_callers_match_positions<R, T>(
    responders: Seq<R>,
    mask: Seq<bool>,
    done: Map<usize, T>,
)
    requires
        responders.len() <= usize::MAX,
        responders.len() <= mask.len(),
        forall|i: int| 0 <= i < responders.len() ==> mask[i] == done.dom().contains(i as usize),
    ensures
        select(responders, mask, true).len() == kept_positions(done, responders.len()).len(),
        forall|j: int|
            0 <= j < kept_positions(done, responders.len()).len() ==> (
            #[trigger] kept_positions(done, responders.len())[j] as int) < responders.len()
                && done.dom().contains(kept_positions(done, responders.len())[j])
                && select(responders, mask, true)[j] == responders[kept_positions(
                done,
                responders.len(),
            )[j] as int],
    decreases responders.len(),
{
    let n = responders.len();
    if n > 0 {
        let init = responders.drop_last();
        let m = (n - 1) as nat;
        lemma_kept_callers_match_positions(init, mask, done);
        let before = kept_positions(done, m);
        let picked = select(init, mask, true);
        assert forall|j: int| 0 <= j < before.len() implies picked[j] == responders[before[j] as int]
            by {
            assert(init[before[j] as int] == responders[before[j] as int]);
        }
        assert(((n - 1) as usize) as int == n - 1);
        if mask[n - 1] {
            let after = before.push((n - 1) as usize);
            let all = picked.push(responders.last());
            assert forall|j: int| 0 <= j < after.len() implies (#[trigger] after[j] as int) < n
                && done.dom().contains(after[j]) && all[j] == responders[after[j] as int] by {
                if j < before.len() {
                    assert(after[j] == before[j]);
                    assert(all[j] == picked[j]);
                }
            }
        }
    }
}

proof fn lemma_count_flags_prefix(a: Seq<bool>, b: Seq<bool>, n: nat, want: bool)
    requires
        n <= a.len(),
        n <= b.len(),
        forall|i: int| 0 <= i < n ==> a[i] == b[i],
    ensures
        count_flags(a, n, want) == count_flags(b, n, want),
    decreases n,
{
    if n > 0 {
        lemma_count_flags_prefix(a, b, (n - 1) as nat, want);
    }
}

impl BatcherTask {
    /// Puts preprocessed inputs back in request order.
    ///
    /// `completed` holds `(position, input)` pairs in the order in which
    /// preprocessing finished. The result lists the inputs of positions
    /// `0..batch_len` that were preprocessed, by increasing position, and
    /// flags for each position whether it was preprocessed.
    pub fn order_preprocessed<T>(batch_len: usize, completed: Vec<(usize, T)>) -> (r: (
        Vec<T>,
        Vec<bool>,
    ))
        ensures
            r.0@ == kept_positions(completion_map(completed@), batch_len as nat).map_values(
                |p: usize| completion_map(completed@)[p],
            ),
            r.1@ == Seq::new(
                batch_len as nat,
                |i: int| completion_map(completed@).dom().contains(i as usize),
            ),
            r.0@.len() == count_flags(r.1@, batch_len as nat, true),
    {
        let ghost pairs = completed@;
        let ghost full = completion_map(pairs);
        let mut done: HashMap<usize, T> = HashMap::new();
        let mut completed = completed;
        assert(pairs.len() == completed.len());
        let mut taken: usize = 0;
        while completed.len() > 0
            invariant
                pairs.len() <= usize::MAX,
                taken <= pairs.len(),
                completed@ == pairs.subrange(taken as int, pairs.len() as int),
                done@ == completion_map(pairs.take(taken as int)),
            decreases completed.len(),
        {
            let (position, input) = completed.remove(0);
            assert(pairs.take(taken + 1).drop_last() =~= pairs.take(taken as int));
            assert(pairs.take(taken + 1).last() == pairs[taken as int]);
            done.insert(position, input);
            taken = taken + 1;
            assert(completed@ =~= pairs.subrange(taken as int, pairs.len() as int));
        }
        assert(pairs.take(pairs.len() as int) =~= pairs);
        let mut items: Vec<T> = Vec::new();
        let mut kept: Vec<bool> = Vec::new();
        let mut i: usize = 0;
        while i < batch_len
            invariant
                i <= batch_len,
                forall|k: usize|
                    k >= i ==> (#[trigger] done@.contains_key(k) <==> full.contains_key(k)),
                forall|k: usize| k >= i && full.contains_key(k) ==> #[trigger] done@[k] == full[k],
                items@ == kept_positions(full, i as nat).map_values(|p: usize| full[p]),
                kept@ == Seq::new(i as nat, |j: int| full.dom().contains(j as usize)),
            decreases batch_len - i,
        {
            let ghost before = items@;
            match done.remove(&i) {
                Some(input) => {
                    items.push(input);
                    kept.push(true);
                    assert(items@ =~= kept_positions(full, (i + 1) as nat).map_values(
                        |p: usize| full[p],
                    ));
                },
                None => {
                    kept.push(false);
                    assert(items@ =~= kept_positions(full, (i + 1) as nat).map_values(
                        |p: usize| full[p],
                    ));
                },
            }
            i = i + 1;
            assert(kept@ =~= Seq::new(i as nat, |j: int| full.dom().contains(j as usize)));
        }
        proof {
            lemma_kept_positions_len(full, batch_len as nat);
        }
        (items, kept)
    }

    /// Separates callers whose input was preprocessed from the others.
    ///
    /// Returns the callers flagged in `kept`, then the others, each in their
    /// order of arrival; together they are all the callers, each once.
    pub fn split_responders<R>(responders: Vec<R>, kept: &Vec<bool>) -> (r: (Vec<R>, Vec<R>))
        requires
            responders@.len() == kept@.len(),
        ensures
            r.0@ == select(responders@, kept@, true),
            r.1@ == select(responders@, kept@, false),
            r.0@.len() == count_flags(kept@, kept@.len(), true),
            r.0@.len() + r.1@.len() == responders@.len(),
    {
        let ghost all = responders@;
        let n = responders.len();
        let mut responders = responders;
        let mut accepted: Vec<R> = Vec::new();
        let mut rejected: Vec<R> = Vec::new();
        let mut i: usize = 0;
        while i < n
            invariant
                n == all.len(),
                n == kept@.len(),
                i <= n,
                responders@ == all.subrange(i as int, n as int),
                accepted@ == select(all.take(i as int), kept@, true),
                rejected@ == select(all.take(i as int), kept@, false),
            decreases n - i,
        {
            let r = responders.remove(0);
            proof {
                lemma_select_take(all, kept@, true, i as int);
                lemma_select_take(all, kept@, false, i as int);
            }
            if kept[i] {
                accepted.push(r);
            } else {
                rejected.push(r);
            }
            i = i + 1;
            assert(responders@ =~= all.subrange(i as int, n as int));
        }
        assert(all.take(n as int) =~= all);
        proof {
            lemma_select_len(all, kept@, true);
            lemma_select_len(all, kept@, false);
            lemma_count_flags_split(kept@, n as nat);
        }
        (accepted, rejected)
    }
}


/// Successive batches go to successive workers, the first after the last.
pub proof fn lemma_round_robin_next(index: usize, num_workers: usize)
    requires
        num_workers > 0,
        index < usize::MAX,
    ensures
        worker_for(next_dispatch_index(index), num_workers) == (worker_for(index, num_workers) + 1)
            % (num_workers as nat),
{
    let n = num_workers as int;
    lemma_add_mod_noop_right(1, index as int, n);
    assert(next_dispatch_index(index) == index + 1);
}

/// Among `num_workers` successive batches every worker receives one, as long
/// as the dispatch counter does not wrap meanwhile.
pub proof fn lemma_round_robin_covers(start: usize, num_workers: usize, worker: nat)
    requires
        num_workers > 0,
        worker < num_workers,
        start + num_workers <= usize::MAX + 1,
    ensures
        exists|k: nat|
            k < num_workers && #[trigger] worker_for((start + k) as usize, num_workers) == worker,
{
    let n = num_workers as int;
    let r = start as int % n;
    let k = ((worker as int) + n - r) % n;
    assert(0 <= k < n);
    lemma_add_mod_noop_right(k, start as int, n);
    lemma_add_mod_noop_right(r, (worker as int) + n - r, n);
    lemma_mod_add_multiples_vanish(worker as int, n);
    lemma_small_mod(worker, num_workers as nat);
    assert((k + start) % n == (r + k) % n);
    assert((r + ((worker as int) + n - r)) == (worker as int) + n);
    assert(worker_for((start + k as nat) as usize, num_workers) == worker);
}

/// A stopped batcher accepts no further event.
pub proof fn lemma_stopped_is_final(b: BatcherTask, event: BatcherEvent)
    requires
        b.phase is Stopped,
    ensures
        !b.accepts(event),
{
}

/// The batcher after answering each event of `events` in turn.
pub open spec fn run(start: BatcherTask, events: Seq<BatcherEvent>) -> BatcherTask
    decreases events.len(),
{
    if events.len() == 0 {
        start
    } else {
        run(start, events.drop_last()).transition(events.last()).0
    }
}

/// The actions with which the batcher answers `events`, in order.
pub open spec fn run_actions(start: BatcherTask, events: Seq<BatcherEvent>) -> Seq<BatcherAction>
    decreases events.len(),
{
    if events.len() == 0 {
        Seq::empty()
    } else {
        run_actions(start, events.drop_last()).push(
            run(start, events.drop_last()).transition(events.last()).1,
        )
    }
}

/// Each event of `events` can happen at its turn.
pub open spec fn run_valid(start: BatcherTask, events: Seq<BatcherEvent>) -> bool
    decreases events.len(),
{
    events.len() == 0 || (run_valid(start, events.drop_last()) && run(
        start,
        events.drop_last(),
    ).accepts(events.last()))
}

/// The workers named by the `SendToWorker` actions of `actions`, in order.
pub open spec fn dispatched_workers(actions: Seq<BatcherAction>) -> Seq<usize>
    decreases actions.len(),
{
    if actions.len() == 0 {
        Seq::empty()
    } else {
        let earlier = dispatched_workers(actions.drop_last());
        match actions.last() {
            BatcherAction::SendToWorker { worker } => earlier.push(worker),
            _ => earlier,
        }
    }
}

/// The dispatch counter `count` batches after `start`, wrapping as the
/// counter does.
pub open spec fn advance(start: usize, count: nat) -> usize {
    ((start as nat + count) % (usize::MAX as nat + 1)) as usize
}

/// One step keeps the batcher well formed and its limits, bounds the batch it
/// preprocesses, and moves the dispatch counter exactly when it sends.
proof fn lemma_transition_step(b: BatcherTask, event: BatcherEvent)
    requires
        b.wf(),
        b.accepts(event),
    ensures
        b.transition(event).0.wf(),
        b.transition(event).0.max_batch_size == b.max_batch_size,
        b.transition(event).0.min_batch_size == b.min_batch_size,
        b.transition(event).0.num_workers == b.num_workers,
        b.transition(event).1 matches BatcherAction::Preprocess { batch_len } ==> {
            &&& b.min_batch_size <= batch_len
            &&& 1 <= batch_len <= batch_capacity(b.max_batch_size)
        },
        b.transition(event).1 matches BatcherAction::SendToWorker { worker } ==> {
            &&& worker == worker_for(b.dispatch_index, b.num_workers)
            &&& b.transition(event).0.dispatch_index == next_dispatch_index(b.dispatch_index)
        },
        !(b.transition(event).1 is SendToWorker) ==> b.transition(event).0.dispatch_index
            == b.dispatch_index,
{
    if b.transition(event).1 is SendToWorker {
        assert(b.num_workers > 0);
        assert(worker_for(b.dispatch_index, b.num_workers) < b.num_workers);
    }
}

/// Over any run of events that can happen, the batcher keeps its limits and
/// stays well formed, and every batch it hands to preprocessing holds at
/// least `min_batch_size` and at most `max(max_batch_size, 1)` requests.
pub proof fn lemma_run_keeps_batch_bounds(start: BatcherTask, events: Seq<BatcherEvent>)
    requires
        start.wf(),
        run_valid(start, events),
    ensures
        run(start, events).wf(),
        run(start, events).max_batch_size == start.max_batch_size,
        run(start, events).min_batch_size == start.min_batch_size,
        run(start, events).num_workers == start.num_workers,
        run_actions(start, events).len() == events.len(),
        forall|k: int|
            0 <= k < events.len() ==> (#[trigger] run_actions(start, events)[k] matches BatcherAction::Preprocess {
                batch_len,
            } ==> {
                &&& start.min_batch_size <= batch_len
                &&& 1 <= batch_len <= batch_capacity(start.max_batch_size)
            }),
    decreases events.len(),
{
    if events.len() > 0 {
        let prefix = events.drop_last();
        lemma_run_keeps_batch_bounds(start, prefix);
        lemma_transition_step(run(start, prefix), events.last());
        let before = run_actions(start, prefix);
        let after = run_actions(start, events);
        assert forall|k: int| 0 <= k < events.len() implies (#[trigger] after[k] matches BatcherAction::Preprocess {
            batch_len,
        } ==> {
            &&& start.min_batch_size <= batch_len
            &&& 1 <= batch_len <= batch_capacity(start.max_batch_size)
        }) by {
            if k < prefix.len() {
                assert(after[k] == before[k]);
            }
        }
    }
}

/// The counter after one more batch is the counter advanced by one more.
proof fn lemma_advance_next(start: usize, count: nat)
    ensures
        next_dispatch_index(advance(start, count)) == advance(start, count + 1),
{
    let m = usize::MAX as int + 1;
    let x = start as int + count;
    lemma_add_mod_noop(x, 1, m);
    lemma_small_mod(1, m as nat);
    let a = x % m;
    if a == usize::MAX {
        lemma_mod_self_0(m);
        assert((a + 1) % m == 0);
    } else {
        lemma_small_mod((a + 1) as nat, m as nat);
    }
}

/// Round-robin over a run: the `j`-th batch sent goes to worker
/// `(d + j) % num_workers`, `d` being the counter the run starts from and
/// `d + j` wrapping as the counter does; afterwards the counter stands that
/// many batches further. A new batcher starts at 0, so its `j`-th batch goes
/// to worker `j % num_workers` while `j <= usize::MAX`.
pub proof fn lemma_run_round_robin(start: BatcherTask, events: Seq<BatcherEvent>)
    requires
        start.wf(),
        run_valid(start, events),
    ensures
        run(start, events).dispatch_index == advance(
            start.dispatch_index,
            dispatched_workers(run_actions(start, events)).len(),
        ),
        forall|j: int|
            0 <= j < dispatched_workers(run_actions(start, events)).len() ==> #[trigger] dispatched_workers(
                run_actions(start, events),
            )[j] == worker_for(advance(start.dispatch_index, j as nat), start.num_workers),
    decreases events.len(),
{
    if events.len() == 0 {
        lemma_small_mod(start.dispatch_index as nat, usize::MAX as nat + 1);
    } else {
        let prefix = events.drop_last();
        lemma_run_round_robin(start, prefix);
        lemma_run_keeps_batch_bounds(start, prefix);
        let b = run(start, prefix);
        lemma_transition_step(b, events.last());
        let before = dispatched_workers(run_actions(start, prefix));
        let actions = run_actions(start, events);
        assert(actions.drop_last() =~= run_actions(start, prefix));
        let after = dispatched_workers(actions);
        if b.transition(events.last()).1 is SendToWorker {
            lemma_advance_next(start.dispatch_index, before.len());
            assert forall|j: int| 0 <= j < after.len() implies #[trigger] after[j] == worker_for(
                advance(start.dispatch_index, j as nat),
                start.num_workers,
            ) by {
                if j < before.len() {
                    assert(after[j] == before[j]);
                }
            }
        } else {
            assert(after == before);
        }
    }
}

/// Requests are collected until the batch is full. A request that leaves the
/// batch below `max_batch_size` keeps the batcher collecting, one request
/// more; the request that brings it to `max_batch_size` (or the first one,
/// when that is at most 1) closes it: it goes to preprocessing when it holds
/// at least `min_batch_size` requests and is rejected otherwise.
pub proof fn lemma_requests_collect_until_full(b: BatcherTask)
    requires
        b.wf(),
    ensures
        ({
            let held: usize = match b.phase {
                BatchPhase::Collecting { buffered } => (buffered + 1) as usize,
                _ => 1,
            };
            let next = b.transition(BatcherEvent::RequestReceived);
            (b.phase is Idle || b.phase is Collecting) ==> {
                &&& held < b.max_batch_size && b.phase is Idle ==> next == (
                    BatcherTask { phase: BatchPhase::Collecting { buffered: held }, ..b },
                    BatcherAction::StartCollecting,
                )
                &&& held < b.max_batch_size && b.phase is Collecting ==> next == (
                    BatcherTask { phase: BatchPhase::Collecting { buffered: held }, ..b },
                    BatcherAction::KeepCollecting,
                )
                &&& held >= b.max_batch_size && held >= b.min_batch_size ==> next == (
                    BatcherTask { phase: BatchPhase::Preprocessing { batch_len: held }, ..b },
                    BatcherAction::Preprocess { batch_len: held },
                )
                &&& held >= b.max_batch_size && held < b.min_batch_size ==> next == (
                    BatcherTask { phase: BatchPhase::Idle, ..b },
                    BatcherAction::FailBatch(BatchFailure::InsufficientBatch),
                )
            }
        }),
        b.transition(BatcherEvent::RequestReceived).1 matches BatcherAction::Preprocess { batch_len }
            ==> batch_len == batch_capacity(b.max_batch_size),
{
}

/// A batch goes on with the requests whose preprocessing succeeded: when at
/// least one did, the batcher stacks exactly those; only when none did is the
/// batch dropped.
pub proof fn lemma_preprocessing_keeps_successes(b: BatcherTask, succeeded: usize)
    requires
        b.phase is Preprocessing,
    ensures
        succeeded >= 1 ==> b.transition(BatcherEvent::PreprocessingDone { succeeded }) == (
            BatcherTask { phase: BatchPhase::Batching { kept: succeeded }, ..b },
            BatcherAction::Stack,
        ),
        succeeded == 0 ==> b.transition(BatcherEvent::PreprocessingDone { succeeded }) == (
            BatcherTask { phase: BatchPhase::Idle, ..b },
            BatcherAction::DropBatch,
        ),
        b.transition(BatcherEvent::PreprocessingDone { succeeded }).1 is DropBatch <==> succeeded
            == 0,
{
}

} // verus!

//! What a worker does with the tensor a session returns for a batch.
//!
//! A session runs one batched tensor and produces one batched output. The
//! worker cuts that output along its leading (batch) axis so that each caller
//! receives the output of its own input, with the batch axis removed.
use vstd::prelude::*;
use crate::actor::batcher::{
    completion_map, kept_positions, select, lemma_kept_callers_match_positions, lemma_select_len,
    lemma_count_flags_split,
};
use crate::helpers::{batch_outcome, stacked_data, stacked_shape, same_shapes, tensor_views};
use crate::tensor::{
    Tensor, TensorView, ShapeError, shape_size, shape_fits, checked_shape_size,
    lemma_size_first, lemma_rest_fits, lemma_size_prepend,
};

verus! {

/// The worker side of the server: slices batched session outputs.
pub struct WorkerTask;

/// Seconds a worker waits before its first new attempt to start a session.
pub const FIRST_RETRY_DELAY_SECS: u64 = 5;

/// Longest wait, in seconds, between two attempts to start a session. The
/// doubling stops here so that a worker whose model is still missing keeps
/// trying every few minutes.
pub const MAX_RETRY_DELAY_SECS: u64 = 300;

/// Two to the power `n`.
pub open spec fn power_of_two(n: nat) -> nat
    decreases n,
{
    if n == 0 {
        1
    } else {
        2 * power_of_two((n - 1) as nat)
    }
}

/// Seconds to wait before new attempt number `retry` (0 for the first) to
/// start a session: the first delay doubled `retry` times, capped.
pub open spec fn retry_delay(retry: nat) -> nat {
    let grown = (FIRST_RETRY_DELAY_SECS as nat) * power_of_two(retry);
    if grown < MAX_RETRY_DELAY_SECS {
        grown
    } else {
        MAX_RETRY_DELAY_SECS as nat
    }
}

/// Exponential backoff: each delay is the one before it doubled, up to the
/// cap, starting from the first delay.
pub proof fn lemma_backoff_doubles(retry: nat)
    ensures
        retry_delay(0) == FIRST_RETRY_DELAY_SECS,
        retry_delay(retry + 1) == if 2 * retry_delay(retry) < MAX_RETRY_DELAY_SECS {
            2 * retry_delay(retry)
        } else {
            MAX_RETRY_DELAY_SECS as nat
        },
{
    assert(power_of_two(retry + 1) == 2 * power_of_two(retry));
}

/// Delays never shrink from one attempt to the next and never pass the cap.
pub proof fn lemma_backoff_monotonic(earlier: nat, later: nat)
    requires
        earlier <= later,
    ensures
        retry_delay(earlier) <= retry_delay(later) <= MAX_RETRY_DELAY_SECS,
    decreases later - earlier,
{
    if earlier < later {
        lemma_backoff_monotonic(earlier, (later - 1) as nat);
        lemma_backoff_doubles((later - 1) as nat);
    }
}

/// The elements of item `i` when `data` holds items of `row` elements each.
pub open spec fn batch_slice<T>(data: Seq<T>, row: nat, i: int) -> Seq<T> {
    data.subrange(i * row, (i + 1) * row)
}

/// What slicing a batched output of extents `shape` and elements `data` yields.
///
/// As with a view of `data` in that shape, the extents must not overflow and
/// `data` must hold at least as many elements as they call for; the items are
/// cut from that many leading elements.
pub open spec fn split_outcome<T>(shape: Seq<usize>, data: Seq<T>) -> Result<
    Seq<TensorView<T>>,
    ShapeError,
>
    recommends
        shape.len() >= 1,
{
    if !shape_fits(shape) {
        Err(ShapeError::Overflow)
    } else if shape_size(shape) > data.len() {
        Err(ShapeError::OutOfBounds)
    } else {
        Ok(
            Seq::new(
                shape[0] as nat,
                |i: int|
                    TensorView {
                        shape: shape.drop_first(),
                        data: batch_slice(data, shape_size(shape.drop_first()), i),
                    },
            ),
        )
    }
}

/// Splitting `b` blocks of `row` elements each, laid one after another.
pub proof fn lemma_flatten_uniform<T>(blocks: Seq<Seq<T>>, row: nat)
    requires
        forall|i: int| 0 <= i < blocks.len() ==> (#[trigger] blocks[i]).len() == row,
    ensures
        blocks.flatten().len() == blocks.len() * row,
        forall|i: int|
            0 <= i < blocks.len() ==> #[trigger] batch_slice(blocks.flatten(), row, i)
                == blocks[i],
    decreases blocks.len(),
{
    if blocks.len() > 0 {
        let init = blocks.drop_last();
        let last = blocks.last();
        lemma_flatten_uniform(init, row);
        assert(init.push(last) =~= blocks);
        init.lemma_flatten_push(last);
        let flat = blocks.flatten();
        let n = init.len();
        assert(flat == init.flatten() + last);
        assert(n * row + row == (n + 1) * row) by (nonlinear_arith);
        assert forall|i: int| 0 <= i < blocks.len() implies #[trigger] batch_slice(
            flat,
            row,
            i,
        ) == blocks[i] by {
            assert((i + 1) * row == i * row + row) by (nonlinear_arith);
            if i < n {
                assert((i + 1) * row <= n * row) by (nonlinear_arith)
                    requires
                        i + 1 <= n,
                ;
                assert(i * row >= 0) by (nonlinear_arith)
                    requires
                        i >= 0,
                ;
                assert(batch_slice(flat, row, i) =~= batch_slice(init.flatten(), row, i));
            } else {
                assert(i * row == n * row);
                assert(batch_slice(flat, row, i) =~= last);
            }
        }
    }
}

impl WorkerTask {
    /// Seconds to wait before new attempt number `retry` (0 for the first)
    /// to start a session after failed ones.
    pub fn retry_delay_secs(retry: u32) -> (secs: u64)
        ensures
            secs == retry_delay(retry as nat),
    {
        let mut secs: u64 = FIRST_RETRY_DELAY_SECS;
        let mut done: u32 = 0;
        while done < retry && secs < MAX_RETRY_DELAY_SECS
            invariant
                done <= retry,
                secs == retry_delay(done as nat),
            decreases retry - done,
        {
            proof {
                lemma_backoff_doubles(done as nat);
                lemma_backoff_monotonic(done as nat, done as nat);
            }
            secs = if 2 * secs < MAX_RETRY_DELAY_SECS {
                2 * secs
            } else {
                MAX_RETRY_DELAY_SECS
            };
            done = done + 1;
        }
        proof {
            lemma_backoff_monotonic(done as nat, retry as nat);
        }
        secs
    }

    /// Extents of a session output, each converted as `d as usize`.
    pub fn output_dims(shape: &[i64]) -> (dims: Vec<usize>)
        ensures
            dims@ == shape@.map_values(|d: i64| d as usize),
    {
        let mut dims: Vec<usize> = Vec::with_capacity(shape.len());
        let mut i: usize = 0;
        while i < shape.len()
            invariant
                i <= shape.len(),
                dims@ == shape@.take(i as int).map_values(|d: i64| d as usize),
            decreases shape.len() - i,
        {
            dims.push(shape[i] as usize);
            i = i + 1;
            assert(dims@ =~= shape@.take(i as int).map_values(|d: i64| d as usize));
        }
        assert(shape@.take(shape.len() as int) =~= shape@);
        dims
    }

    /// The error text when the session output lacks the tensor named `name`.
    pub fn missing_output_message(name: &str) -> (m: String)
        ensures
            m@ == "Output tensor '"@ + name@ + "' not found"@,
    {
        String::from_str("Output tensor '").concat(name).concat("' not found")
    }

    /// Slices a batched output along its leading axis.
    ///
    /// With `shape = [b, ...rest]`, item `i < b` has shape `rest` and the `i`-th
    /// block of `shape_size(rest)` elements of `data`. Fails when the extents
    /// overflow or call for more elements than `data` holds; elements past
    /// those the extents cover are not used.
    pub fn split_batch<T: Copy>(shape: &[usize], data: &[T]) -> (r: Result<
        Vec<Tensor<T>>,
        ShapeError,
    >)
        requires
            shape.len() >= 1,
        ensures
            match split_outcome(shape@, data@) {
                Ok(items) => r matches Ok(ts) && tensor_views(ts@) == items,
                Err(e) => r == Err::<Vec<Tensor<T>>, ShapeError>(e),
            },
    {
        let size = match checked_shape_size(shape) {
            None => {
                return Err(ShapeError::Overflow);
            },
            Some(size) => size,
        };
        if size > data.len() {
            return Err(ShapeError::OutOfBounds);
        }
        let ghost rest = shape@.drop_first();
        proof {
            lemma_size_first(shape@);
            lemma_rest_fits(shape@);
        }
        let batch = shape[0];
        let mut rest_shape: Vec<usize> = Vec::new();
        let mut j: usize = 1;
        while j < shape.len()
            invariant
                1 <= j <= shape.len(),
                rest_shape@ == shape@.subrange(1, j as int),
            decreases shape.len() - j,
        {
            rest_shape.push(shape[j]);
            j = j + 1;
            assert(rest_shape@ =~= shape@.subrange(1, j as int));
        }
        assert(rest_shape@ =~= rest);
        let row = match checked_shape_size(rest_shape.as_slice()) {
            None => {
                return Err(ShapeError::Overflow);
            },
            Some(row) => row,
        };
        let ghost expected = Seq::new(
            batch as nat,
            |i: int| TensorView { shape: rest, data: batch_slice(data@, row as nat, i) },
        );
        assert((batch as nat) * (row as nat) <= data@.len());
        let mut out: Vec<Tensor<T>> = Vec::with_capacity(batch);
        let mut i: usize = 0;
        while i < batch
            invariant
                shape@.len() >= 1,
                batch == shape@[0],
                data@.len() == data.len(),
                rest_shape@ == rest,
                shape_fits(rest),
                row == shape_size(rest),
                (batch as nat) * (row as nat) <= data@.len(),
                i <= batch,
                expected == Seq::new(
                    batch as nat,
                    |i: int| TensorView { shape: rest, data: batch_slice(data@, row as nat, i) },
                ),
                tensor_views(out@) == expected.take(i as int),
            decreases batch - i,
        {
            assert((i as nat) * (row as nat) + (row as nat) <= (batch as nat) * (row as nat))
                by (nonlinear_arith)
                requires
                    i < batch,
            ;
            assert(((i + 1) as nat) * (row as nat) == (i as nat) * (row as nat) + (row as nat))
                by (nonlinear_arith);
            let start = i * row;
            let end = start + row;
            let mut block: Vec<T> = Vec::with_capacity(row);
            let mut k = start;
            while k < end
                invariant
                    start <= k <= end,
                    end <= data@.len(),
                    block@ == data@.subrange(start as int, k as int),
                decreases end - k,
            {
                block.push(data[k]);
                k = k + 1;
                assert(block@ =~= data@.subrange(start as int, k as int));
            }
            let shape_copy = rest_shape.clone();
            assert(shape_copy@ =~= rest_shape@);
            let t = Tensor::from_valid_parts(shape_copy, block);
            assert(t@ == expected[i as int]);
            let ghost before = out@;
            out.push(t);
            assert(tensor_views(out@) =~= tensor_views(before).push(t@));
            i = i + 1;
            assert(tensor_views(out@) =~= expected.take(i as int));
        }
        assert(expected.take(batch as int) =~= expected);
        Ok(out)
    }
}

/// Slicing a batch recovers the tensors it was stacked from.
///
/// Whenever `batch_array` stacks `items`, cutting the stacked tensor along its
/// leading axis gives back exactly `items`, in order: each caller of a batch
/// gets the row that came from its own input.
pub proof fn lemma_split_inverts_stack<T>(items: Seq<TensorView<T>>)
    requires
        items.len() <= usize::MAX,
        batch_outcome(items) is Ok,
        forall|i: int| 0 <= i < items.len() ==> (#[trigger] items[i]).valid(),
    ensures
        split_outcome(stacked_shape(items), stacked_data(items)) == Ok::<
            Seq<TensorView<T>>,
            ShapeError,
        >(items),
{
    let shape = stacked_shape(items);
    let data = stacked_data(items);
    let s = items[0].shape;
    let row = shape_size(s);
    let n = items.len();
    let blocks = items.map_values(|t: TensorView<T>| t.data);
    assert forall|i: int| 0 <= i < blocks.len() implies (#[trigger] blocks[i]).len() == row by {
        assert(items[i].shape == s);
    }
    lemma_flatten_uniform(blocks, row);
    lemma_size_prepend(n as usize, s);
    assert(shape.drop_first() =~= s);
    assert(shape[0] == n);
    let out = split_outcome(shape, data)->Ok_0;
    assert(out.len() == n);
    assert forall|i: int| 0 <= i < n implies #[trigger] out[i] == items[i] by {
        assert(batch_slice(data, row, i) == blocks[i]);
        assert(items[i].shape == s);
    }
    assert(out =~= items);
}


/// Consecutive blocks of `row` elements, laid one after another, give back the prefix they cover.
pub proof fn lemma_flatten_blocks<T>(data: Seq<T>, row: nat, k: nat)
    requires
        k * row <= data.len(),
    ensures
        Seq::new(k, |i: int| batch_slice(data, row, i)).flatten() == data.subrange(0, (k * row) as int),
    decreases k,
{
    let blocks = Seq::new(k, |i: int| batch_slice(data, row, i));
    if k == 0 {
        assert(data.subrange(0, 0) =~= Seq::<T>::empty());
    } else {
        let m = (k - 1) as nat;
        assert(m * row + row == k * row) by (nonlinear_arith)
            requires
                m + 1 == k,
        ;
        assert(m * row <= k * row) by (nonlinear_arith)
            requires
                m + 1 == k,
        ;
        lemma_flatten_blocks(data, row, m);
        let init = Seq::new(m, |i: int| batch_slice(data, row, i));
        assert(init.push(batch_slice(data, row, m as int)) =~= blocks);
        init.lemma_flatten_push(batch_slice(data, row, m as int));
        assert(((m + 1) as int) * row == m * row + row) by (nonlinear_arith);
        assert(blocks.flatten() =~= data.subrange(0, (k * row) as int));
    }
}

/// Stacking the items of a sliced batch gives back the batch.
///
/// When a batched output of at least one item slices into `items`, batching
/// those items rebuilds the extents of the batch and the elements its extents
/// cover (all of them when `data` holds no more).
pub proof fn lemma_stack_inverts_split<T>(shape: Seq<usize>, data: Seq<T>)
    requires
        shape.len() >= 1,
        shape[0] >= 1,
        split_outcome(shape, data) is Ok,
    ensures
        batch_outcome(split_outcome(shape, data)->Ok_0) == Ok::<TensorView<T>, crate::helpers::BatchArrayError>(
            TensorView { shape, data: data.take(shape_size(shape) as int) },
        ),
{
    let items = split_outcome(shape, data)->Ok_0;
    let rest = shape.drop_first();
    let row = shape_size(rest);
    let b = shape[0] as nat;
    lemma_size_first(shape);
    lemma_rest_fits(shape);
    assert(b * row <= data.len());
    assert(same_shapes(items));
    assert(stacked_shape(items) =~= shape);
    let blocks = items.map_values(|t: TensorView<T>| t.data);
    assert(blocks =~= Seq::new(b, |i: int| batch_slice(data, row, i)));
    lemma_flatten_blocks(data, row, b);
    assert(data.subrange(0, (b * row) as int) =~= data.take(shape_size(shape) as int));
}

/// Each kept caller of a batch receives the row of its own request.
///
/// The batcher puts the preprocessed inputs in request order
/// (`order_preprocessed`), keeps the callers flagged as preprocessed in the
/// same order (`split_responders`) and stacks the inputs (`batch_array`); a
/// worker slices the batched output (`split_batch`). For an output whose rows
/// are the input rows, the `j`-th kept caller is the caller at the `j`-th
/// preprocessed position and receives the input preprocessed for exactly that
/// position, whatever order preprocessing finished in.
pub proof fn lemma_each_caller_gets_its_own_row<R, T>(
    responders: Seq<R>,
    completed: Seq<(usize, TensorView<T>)>,
)
    requires
        responders.len() <= usize::MAX,
        forall|p: usize|
            completion_map(completed).dom().contains(p) ==> (#[trigger] completion_map(
                completed,
            )[p]).valid(),
        batch_outcome(
            kept_positions(completion_map(completed), responders.len()).map_values(
                |p: usize| completion_map(completed)[p],
            ),
        ) is Ok,
    ensures
        ({
            let done = completion_map(completed);
            let kept = kept_positions(done, responders.len());
            let items = kept.map_values(|p: usize| done[p]);
            let mask = Seq::new(responders.len(), |i: int| done.dom().contains(i as usize));
            let callers = select(responders, mask, true);
            let rows = split_outcome(stacked_shape(items), stacked_data(items));
            &&& rows is Ok
            &&& rows->Ok_0.len() == callers.len()
            &&& forall|j: int|
                0 <= j < callers.len() ==> {
                    &&& #[trigger] callers[j] == responders[kept[j] as int]
                    &&& rows->Ok_0[j] == done[kept[j]]
                }
        }),
{
    let done = completion_map(completed);
    let n = responders.len();
    let kept = kept_positions(done, n);
    let items = kept.map_values(|p: usize| done[p]);
    let mask = Seq::new(n, |i: int| done.dom().contains(i as usize));
    lemma_kept_callers_match_positions(responders, mask, done);
    lemma_select_len(responders, mask, true);
    lemma_count_flags_split(mask, n);
    assert forall|i: int| 0 <= i < items.len() implies (#[trigger] items[i]).valid() by {
        assert(done.dom().contains(kept[i]));
    }
    lemma_split_inverts_stack(items);
}

} // verus!

//! Batching decisions and the slicing of batched logits in the hand-written
//! benchmark servers.
use vstd::prelude::*;
use crate::actor::worker::batch_slice;

verus! {

/// Whether the batching actor sends its pending batch at once, rather than
/// when the wait for more requests has passed: it does when the batch has
/// reached the largest size.
pub fn dispatch_now(pending: usize, max_batch_size: usize) -> (now: bool)
    ensures
        now == (pending >= max_batch_size),
{
    pending >= max_batch_size
}

/// Number of logits per image in an output of extents `shape`: the second
/// extent when there is one, the first otherwise.
pub fn logits_per_item(shape: &[usize]) -> (n: usize)
    requires
        shape.len() >= 1,
    ensures
        n == if shape@.len() > 1 {
            shape@[1]
        } else {
            shape@[0]
        },
{
    if shape.len() > 1 {
        shape[1]
    } else {
        shape[0]
    }
}

/// The first `rows` consecutive runs of `row_len` elements of `data`.
pub fn split_rows<T: Copy>(data: &[T], rows: usize, row_len: usize) -> (out: Vec<Vec<T>>)
    requires
        (rows as nat) * (row_len as nat) <= data@.len(),
    ensures
        out@.len() == rows,
        forall|i: int| 0 <= i < rows ==> #[trigger] out@[i]@ == batch_slice(data@, row_len as nat, i),
{
    let mut out: Vec<Vec<T>> = Vec::with_capacity(rows);
    let mut i: usize = 0;
    while i < rows
        invariant
            i <= rows,
            (rows as nat) * (row_len as nat) <= data@.len(),
            data@.len() == data.len(),
            out@.len() == i,
            forall|j: int| 0 <= j < i ==> #[trigger] out@[j]@ == batch_slice(data@, row_len as nat, j),
        decreases rows - i,
    {
        assert((i as nat) * (row_len as nat) + (row_len as nat) <= (rows as nat) * (row_len as nat))
            by (nonlinear_arith)
            requires
                i < rows,
        ;
        assert(((i + 1) as nat) * (row_len as nat) == (i as nat) * (row_len as nat) + (row_len as nat))
            by (nonlinear_arith);
        let start = i * row_len;
        let end = start + row_len;
        let mut row: Vec<T> = Vec::with_capacity(row_len);
        let mut k = start;
        while k < end
            invariant
                start <= k <= end,
                end <= data@.len(),
                row@ == data@.subrange(start as int, k as int),
            decreases end - k,
        {
            row.push(data[k]);
            k = k + 1;
            assert(row@ =~= data@.subrange(start as int, k as int));
        }
        out.push(row);
        i = i + 1;
    }
    out
}

/// Extents under which one image tensor is fed to a model: a three-axis
/// `[C, H, W]` image gains a leading batch axis of one, other shapes stay.
pub fn single_batch_shape(shape: &[usize]) -> (batched: Vec<usize>)
    ensures
        batched@ == if shape@.len() == 3 {
            seq![1usize] + shape@
        } else {
            shape@
        },
{
    let mut batched: Vec<usize> = Vec::new();
    if shape.len() == 3 {
        batched.push(1);
    }
    let ghost prefix = batched@;
    let mut i: usize = 0;
    while i < shape.len()
        invariant
            i <= shape@.len(),
            batched@ == prefix + shape@.take(i as int),
        decreases shape.len() - i,
    {
        batched.push(shape[i]);
        i = i + 1;
        assert(batched@ =~= prefix + shape@.take(i as int));
    }
    assert(shape@.take(shape@.len() as int) =~= shape@);
    assert(prefix + shape@ =~= if shape@.len() == 3 {
        seq![1usize] + shape@
    } else {
        shape@
    });
    batched
}

} // verus!

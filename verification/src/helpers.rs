//! Batching of preprocessed inputs into one tensor.
//!
//! `batch_array` stacks tensors of one common shape along a new leading axis,
//! which is how the inputs of a batch become the single tensor handed to a
//! session.
use vstd::prelude::*;
use crate::tensor::{
    Tensor, TensorView, ShapeError, shape_size, shape_fits, checked_shape_size, lemma_size_prepend,
};

verus! {

/// The abstract values of a slice of tensors.
pub open spec fn tensor_views<T>(items: Seq<Tensor<T>>) -> Seq<TensorView<T>> {
    items.map_values(|t: Tensor<T>| t@)
}

/// Every tensor has the shape of the first.
pub open spec fn same_shapes<T>(items: Seq<TensorView<T>>) -> bool {
    forall|i: int| 0 <= i < items.len() ==> #[trigger] items[i].shape == items[0].shape
}

/// Shape of the stacked tensor: the number of items, then the common shape.
pub open spec fn stacked_shape<T>(items: Seq<TensorView<T>>) -> Seq<usize> {
    seq![items.len() as usize] + items[0].shape
}

/// Elements of the stacked tensor: the items' elements one item after another.
pub open spec fn stacked_data<T>(items: Seq<TensorView<T>>) -> Seq<T> {
    items.map_values(|t: TensorView<T>| t.data).flatten()
}

/// Why a list of tensors cannot be batched.
#[derive(Debug, Clone, Copy, PartialEq, Eq, Structural)]
pub enum BatchArrayError {
    /// There is nothing to batch.
    EmptyInput,
    /// The shapes disagree or the batched shape is not addressable.
    Shape(ShapeError),
}

impl BatchArrayError {
    /// The text of the error.
    pub fn message(&self) -> (m: String)
        ensures
            m@ == self.spec_message(),
    {
        match self {
            BatchArrayError::EmptyInput => String::from_str("cannot batch empty array list"),
            BatchArrayError::Shape(e) => e.message(),
        }
    }

    pub open spec fn spec_message(&self) -> Seq<char> {
        match self {
            BatchArrayError::EmptyInput => "cannot batch empty array list"@,
            BatchArrayError::Shape(e) => e.spec_message(),
        }
    }
}

/// What batching `items` yields.
pub open spec fn batch_outcome<T>(items: Seq<TensorView<T>>) -> Result<
    TensorView<T>,
    BatchArrayError,
> {
    if items.len() == 0 {
        Err(BatchArrayError::EmptyInput)
    } else if !same_shapes(items) {
        Err(BatchArrayError::Shape(ShapeError::IncompatibleShape))
    } else if !shape_fits(stacked_shape(items)) {
        Err(BatchArrayError::Shape(ShapeError::Overflow))
    } else {
        Ok(TensorView { shape: stacked_shape(items), data: stacked_data(items) })
    }
}

/// Whether two shapes are equal.
pub fn same_extents(a: &[usize], b: &[usize]) -> (r: bool)
    ensures
        r == (a@ == b@),
{
    if a.len() != b.len() {
        return false;
    }
    let mut i: usize = 0;
    while i < a.len()
        invariant
            a.len() == b.len(),
            i <= a.len(),
            forall|k: int| 0 <= k < i ==> a@[k] == b@[k],
        decreases a.len() - i,
    {
        if a[i] != b[i] {
            return false;
        }
        i = i + 1;
    }
    assert(a@ =~= b@);
    true
}

/// Stacks tensors of one common shape along a new leading axis.
///
/// The result has shape `[items.len(), ...shape]` and holds the items'
/// elements one item after another. Fails when `items` is empty, when the
/// shapes differ, or when the stacked shape is not addressable.
pub fn batch_array<T: Copy>(items: &[Tensor<T>]) -> (r: Result<Tensor<T>, BatchArrayError>)
    ensures
        match batch_outcome(tensor_views(items@)) {
            Ok(v) => r matches Ok(t) && t@ == v,
            Err(e) => r == Err::<Tensor<T>, BatchArrayError>(e),
        },
{
    let ghost views = tensor_views(items@);
    let n = items.len();
    if n == 0 {
        return Err(BatchArrayError::EmptyInput);
    }
    let first = items[0].shape();
    assert(views[0] == items@[0]@);
    let mut i: usize = 1;
    while i < n
        invariant
            n == items@.len(),
            views == tensor_views(items@),
            1 <= i <= n,
            first@ == views[0].shape,
            forall|k: int| 0 <= k < i ==> #[trigger] views[k].shape == views[0].shape,
        decreases n - i,
    {
        let shape_i = items[i].shape();
        assert(views[i as int] == items@[i as int]@);
        if !same_extents(shape_i, first) {
            assert(views[i as int].shape != views[0].shape);
            assert(!same_shapes(views));
            return Err(BatchArrayError::Shape(ShapeError::IncompatibleShape));
        }
        i = i + 1;
    }
    assert(same_shapes(views));
    let mut shape: Vec<usize> = Vec::new();
    shape.push(n);
    let mut j: usize = 0;
    while j < first.len()
        invariant
            j <= first@.len(),
            shape@ == seq![n] + first@.take(j as int),
        decreases first.len() - j,
    {
        shape.push(first[j]);
        j = j + 1;
        assert(shape@ =~= seq![n] + first@.take(j as int));
    }
    assert(first@.take(first@.len() as int) =~= first@);
    assert(shape@ == stacked_shape(views));
    let total = match checked_shape_size(shape.as_slice()) {
        None => {
            return Err(BatchArrayError::Shape(ShapeError::Overflow));
        },
        Some(total) => total,
    };
    let row = items[0].len();
    proof {
        lemma_size_prepend(n, first@);
    }
    let ghost datas = views.map_values(|t: TensorView<T>| t.data);
    let mut data: Vec<T> = Vec::with_capacity(total);
    let mut i: usize = 0;
    while i < n
        invariant
            n == items@.len(),
            views == tensor_views(items@),
            datas == views.map_values(|t: TensorView<T>| t.data),
            same_shapes(views),
            i <= n,
            row == shape_size(views[0].shape),
            total == (n as nat) * (row as nat),
            data@ == datas.take(i as int).flatten(),
            data@.len() == (i as nat) * (row as nat),
        decreases n - i,
    {
        let item = items[i].data();
        assert(views[i as int].shape == views[0].shape);
        let ghost base = data@;
        let mut k: usize = 0;
        while k < item.len()
            invariant
                data@ == base + item@.take(k as int),
                k <= item@.len(),
            decreases item.len() - k,
        {
            data.push(item[k]);
            k = k + 1;
            assert(data@ =~= base + item@.take(k as int));
        }
        assert(item@.take(item@.len() as int) =~= item@);
        proof {
            assert(datas.take(i + 1) =~= datas.take(i as int).push(datas[i as int]));
            datas.take(i as int).lemma_flatten_push(datas[i as int]);
            assert((i as nat) * (row as nat) + (row as nat) == ((i + 1) as nat) * (row as nat))
                by (nonlinear_arith);
        }
        i = i + 1;
    }
    assert(datas.take(n as int) =~= datas);
    Ok(Tensor::from_valid_parts(shape, data))
}

} // verus!

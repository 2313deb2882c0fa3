//! Dense row-major tensors of plain elements.
//!
//! A `Tensor` is a shape (one extent per axis) and the elements in row-major
//! order. Its shape is addressable when the product of its nonzero extents fits
//! in `isize`, and it always holds exactly as many elements as its shape
//! describes.
use vstd::prelude::*;

verus! {

/// Number of elements described by `shape`: the product of all extents.
pub open spec fn shape_size(shape: Seq<usize>) -> nat
    decreases shape.len(),
{
    if shape.len() == 0 {
        1
    } else {
        shape_size(shape.drop_last()) * (shape.last() as nat)
    }
}

/// The extent as a factor of `nonzero_size`: zero extents count as one.
pub open spec fn nonzero_factor(extent: usize) -> nat {
    if extent == 0 {
        1
    } else {
        extent as nat
    }
}

/// Product of the nonzero extents of `shape`.
pub open spec fn nonzero_size(shape: Seq<usize>) -> nat
    decreases shape.len(),
{
    if shape.len() == 0 {
        1
    } else {
        nonzero_size(shape.drop_last()) * nonzero_factor(shape.last())
    }
}

/// A shape is addressable when the product of its nonzero extents is at most `isize::MAX`.
pub open spec fn shape_fits(shape: Seq<usize>) -> bool {
    nonzero_size(shape) <= isize::MAX
}

/// Abstract value of a tensor: its extents and its elements in row-major order.
pub struct TensorView<T> {
    pub shape: Seq<usize>,
    pub data: Seq<T>,
}

impl<T> TensorView<T> {
    /// The shape is addressable and the element count matches it.
    pub open spec fn valid(self) -> bool {
        &&& shape_fits(self.shape)
        &&& self.data.len() == shape_size(self.shape)
    }
}

/// Why a shape and a buffer of elements do not form a tensor.
#[derive(Debug, Clone, Copy, PartialEq, Eq, Structural)]
pub enum ShapeError {
    /// The product of the nonzero extents exceeds `isize::MAX`.
    Overflow,
    /// The buffer holds fewer elements than the shape describes.
    OutOfBounds,
    /// The buffer holds more elements than the shape describes, or shapes disagree.
    IncompatibleShape,
}

impl ShapeError {
    /// The text of the error, `ShapeError/<kind>: <description>`.
    pub fn message(&self) -> (m: String)
        ensures
            m@ == self.spec_message(),
    {
        match self {
            ShapeError::Overflow => String::from_str("ShapeError/Overflow: arithmetic overflow"),
            ShapeError::OutOfBounds => String::from_str(
                "ShapeError/OutOfBounds: out of bounds indexing",
            ),
            ShapeError::IncompatibleShape => String::from_str(
                "ShapeError/IncompatibleShape: incompatible shapes",
            ),
        }
    }

    pub open spec fn spec_message(&self) -> Seq<char> {
        match self {
            ShapeError::Overflow => "ShapeError/Overflow: arithmetic overflow"@,
            ShapeError::OutOfBounds => "ShapeError/OutOfBounds: out of bounds indexing"@,
            ShapeError::IncompatibleShape => "ShapeError/IncompatibleShape: incompatible shapes"@,
        }
    }
}

/// The outcome of pairing `shape` with `len` elements.
pub open spec fn shape_check(shape: Seq<usize>, len: nat) -> Result<(), ShapeError> {
    if !shape_fits(shape) {
        Err(ShapeError::Overflow)
    } else if shape_size(shape) > len {
        Err(ShapeError::OutOfBounds)
    } else if shape_size(shape) < len {
        Err(ShapeError::IncompatibleShape)
    } else {
        Ok(())
    }
}

/// A prefix of a shape has a product of nonzero extents no larger than the whole.
pub proof fn lemma_nonzero_size_prefix(shape: Seq<usize>, k: int)
    requires
        0 <= k <= shape.len(),
    ensures
        nonzero_size(shape.take(k)) <= nonzero_size(shape),
    decreases shape.len(),
{
    if k < shape.len() {
        assert(shape.drop_last().take(k) =~= shape.take(k));
        lemma_nonzero_size_prefix(shape.drop_last(), k);
        let a = nonzero_size(shape.drop_last());
        let b = nonzero_factor(shape.last());
        assert(a <= a * b) by (nonlinear_arith)
            requires
                b >= 1,
                a >= 0,
        ;
    } else {
        assert(shape.take(k) =~= shape);
    }
}

/// Prepending an extent multiplies both products by it.
pub proof fn lemma_size_prepend(n: usize, shape: Seq<usize>)
    ensures
        shape_size(seq![n] + shape) == (n as nat) * shape_size(shape),
        nonzero_size(seq![n] + shape) == nonzero_factor(n) * nonzero_size(shape),
    decreases shape.len(),
{
    let full = seq![n] + shape;
    if shape.len() == 0 {
        assert(full.drop_last() =~= Seq::<usize>::empty());
        assert(full.last() == n);
        assert(shape_size(full.drop_last()) == 1);
        assert(nonzero_size(full.drop_last()) == 1);
        assert(shape_size(full) == 1 * (n as nat));
        assert(nonzero_size(full) == 1 * nonzero_factor(n));
        assert(shape_size(shape) == 1);
        assert(nonzero_size(shape) == 1);
        assert(shape_size(full) == (n as nat) * shape_size(shape));
        assert(nonzero_size(full) == nonzero_factor(n) * nonzero_size(shape));
    } else {
        assert(full.drop_last() =~= seq![n] + shape.drop_last());
        assert(full.last() == shape.last());
        lemma_size_prepend(n, shape.drop_last());
        let a = shape_size(shape.drop_last());
        let c = shape.last() as nat;
        let x = nonzero_size(shape.drop_last());
        let y = nonzero_factor(shape.last());
        let m = n as nat;
        let f = nonzero_factor(n);
        assert(shape_size(full) == shape_size(seq![n] + shape.drop_last()) * c);
        assert(shape_size(shape) == a * c);
        assert(nonzero_size(full) == nonzero_size(seq![n] + shape.drop_last()) * y);
        assert(nonzero_size(shape) == x * y);
        assert((m * a) * c == m * (a * c)) by (nonlinear_arith);
        assert((f * x) * y == f * (x * y)) by (nonlinear_arith);
        assert(shape_size(full) == (n as nat) * shape_size(shape));
        assert(nonzero_size(full) == nonzero_factor(n) * nonzero_size(shape));
    }
}

/// A nonempty shape counts its first extent times the count of the rest.
pub proof fn lemma_size_first(shape: Seq<usize>)
    requires
        shape.len() >= 1,
    ensures
        shape_size(shape) == (shape[0] as nat) * shape_size(shape.drop_first()),
        nonzero_size(shape) == nonzero_factor(shape[0]) * nonzero_size(shape.drop_first()),
{
    assert(shape =~= seq![shape[0]] + shape.drop_first());
    lemma_size_prepend(shape[0], shape.drop_first());
}

/// The rest of a nonempty addressable shape is addressable.
pub proof fn lemma_rest_fits(shape: Seq<usize>)
    requires
        shape.len() >= 1,
        shape_fits(shape),
    ensures
        shape_fits(shape.drop_first()),
{
    lemma_size_first(shape);
    let f = nonzero_factor(shape[0]);
    let r = nonzero_size(shape.drop_first());
    assert(r <= f * r) by (nonlinear_arith)
        requires
            f >= 1,
            r >= 0,
    ;
}

/// Element count of `shape` when the shape is addressable, `None` otherwise.
pub fn checked_shape_size(shape: &[usize]) -> (r: Option<usize>)
    ensures
        r is Some <==> shape_fits(shape@),
        r matches Some(n) ==> n == shape_size(shape@),
{
    let mut nonzero: usize = 1;
    let mut has_zero = false;
    let mut i: usize = 0;
    while i < shape.len()
        invariant
            i <= shape.len(),
            nonzero == nonzero_size(shape@.take(i as int)),
            nonzero <= isize::MAX,
            shape_size(shape@.take(i as int)) == if has_zero {
                0
            } else {
                nonzero as nat
            },
        decreases shape.len() - i,
    {
        let d = shape[i];
        let f: usize = if d == 0 {
            1
        } else {
            d
        };
        let ghost prefix = shape@.take(i as int);
        let ghost next = shape@.take(i + 1);
        assert(next.drop_last() =~= prefix);
        assert(next.last() == d);
        assert((nonzero as nat) * (f as nat) <= (isize::MAX as nat) * (usize::MAX as nat))
            by (nonlinear_arith)
            requires
                nonzero <= isize::MAX,
                f <= usize::MAX,
        ;
        let wide: u128 = (nonzero as u128) * (f as u128);
        if wide > (isize::MAX as u128) {
            proof {
                lemma_nonzero_size_prefix(shape@, i + 1);
            }
            return None;
        }
        let ghost old_size = shape_size(prefix);
        nonzero = wide as usize;
        if d == 0 {
            has_zero = true;
            assert(old_size * 0 == 0) by (nonlinear_arith);
        }
        i = i + 1;
    }
    assert(shape@.take(shape.len() as int) =~= shape@);
    if has_zero {
        Some(0)
    } else {
        Some(nonzero)
    }
}

/// A row-major tensor: a shape and exactly as many elements as it describes.
#[derive(Debug)]
pub struct Tensor<T> {
    shape: Vec<usize>,
    data: Vec<T>,
}

impl<T> View for Tensor<T> {
    type V = TensorView<T>;

    closed spec fn view(&self) -> TensorView<T> {
        TensorView { shape: self.shape@, data: self.data@ }
    }
}

impl<T> Tensor<T> {
    #[verifier::type_invariant]
    closed spec fn inv(self) -> bool {
        TensorView { shape: self.shape@, data: self.data@ }.valid()
    }

    /// Builds a tensor from parts already known to agree.
    pub(crate) fn from_valid_parts(shape: Vec<usize>, data: Vec<T>) -> (t: Tensor<T>)
        requires
            (TensorView { shape: shape@, data: data@ }).valid(),
        ensures
            t@.shape == shape@,
            t@.data == data@,
    {
        Tensor { shape, data }
    }

    /// Pairs `shape` with the row-major elements `data`.
    ///
    /// Fails with `Overflow` when the shape is not addressable, `OutOfBounds`
    /// when `data` is too short and `IncompatibleShape` when it is too long.
    pub fn from_shape_vec(shape: Vec<usize>, data: Vec<T>) -> (r: Result<Tensor<T>, ShapeError>)
        ensures
            match shape_check(shape@, data@.len()) {
                Ok(_) => r matches Ok(t) && t@.shape == shape@ && t@.data == data@,
                Err(e) => r == Err::<Tensor<T>, ShapeError>(e),
            },
    {
        match checked_shape_size(shape.as_slice()) {
            None => Err(ShapeError::Overflow),
            Some(n) => {
                if n > data.len() {
                    Err(ShapeError::OutOfBounds)
                } else if n < data.len() {
                    Err(ShapeError::IncompatibleShape)
                } else {
                    Ok(Tensor { shape, data })
                }
            },
        }
    }

    /// The extents of the tensor.
    pub fn shape(&self) -> (s: &[usize])
        ensures
            s@ == self@.shape,
            self@.valid(),
    {
        proof {
            use_type_invariant(self);
        }
        self.shape.as_slice()
    }

    /// The elements of the tensor in row-major order.
    pub fn data(&self) -> (d: &[T])
        ensures
            d@ == self@.data,
            self@.valid(),
    {
        proof {
            use_type_invariant(self);
        }
        self.data.as_slice()
    }

    /// Number of elements.
    pub fn len(&self) -> (n: usize)
        ensures
            n == self@.data.len(),
            n == shape_size(self@.shape),
    {
        proof {
            use_type_invariant(self);
        }
        self.data.len()
    }

    /// Splits the tensor into its shape and its elements.
    pub fn into_parts(self) -> (parts: (Vec<usize>, Vec<T>))
        ensures
            parts.0@ == self@.shape,
            parts.1@ == self@.data,
            self@.valid(),
    {
        proof {
            use_type_invariant(&self);
        }
        (self.shape, self.data)
    }
}

impl<T: Copy> Tensor<T> {
    /// A tensor of the given shape whose elements all equal `value`;
    /// `None` when the shape is not addressable.
    pub fn from_elem(shape: Vec<usize>, value: T) -> (r: Option<Tensor<T>>)
        ensures
            r is Some <==> shape_fits(shape@),
            r matches Some(t) ==> t@.shape == shape@ && t@.data == Seq::new(
                shape_size(shape@),
                |i: int| value,
            ),
    {
        match checked_shape_size(shape.as_slice()) {
            None => None,
            Some(n) => {
                let mut data: Vec<T> = Vec::with_capacity(n);
                let mut i: usize = 0;
                while i < n
                    invariant
                        i <= n,
                        data@ == Seq::new(i as nat, |k: int| value),
                    decreases n - i,
                {
                    data.push(value);
                    i = i + 1;
                }
                Some(Tensor { shape, data })
            },
        }
    }
}

} // verus!

//! Tensor shapes and dense row-major tensor storage.
use vstd::prelude::*;
use vstd::string::*;

use crate::error::{
    Result,
    RustGradError,
    is_invalid_argument,
    is_shape_data_mismatch,
    is_shape_mismatch,
};
use crate::text::decimal;

verus! {

/// Every dimension of the list is greater than zero.
pub open spec fn all_positive(s: Seq<usize>) -> bool {
    forall|i: int| 0 <= i < s.len() ==> #[trigger] s[i] > 0
}

/// The product of all dimensions; the number of stored values a shape implies.
pub open spec fn product(s: Seq<usize>) -> nat
    decreases s.len(),
{
    if s.len() == 0 {
        1
    } else {
        product(s.drop_last()) * (s.last() as nat)
    }
}

/// Index of the first zero dimension, when there is one.
pub open spec fn is_first_zero(s: Seq<usize>, index: int) -> bool {
    &&& 0 <= index < s.len()
    &&& s[index] == 0
    &&& forall|j: int| 0 <= j < index ==> #[trigger] s[j] > 0
}

/// A usable list of dimensions: at least one, all positive.
pub open spec fn valid_dims(s: Seq<usize>) -> bool {
    s.len() > 0 && all_positive(s)
}

/// The error a shape constructor reports for an unusable list of dimensions:
/// `EmptyShape` for no dimension, otherwise the position of the first zero.
pub open spec fn dims_error(s: Seq<usize>, e: RustGradError) -> bool {
    if s.len() == 0 {
        e == RustGradError::EmptyShape
    } else {
        exists|k: int|
            #[trigger] is_first_zero(s, k) && is_invalid_argument(
                e,
                "dims"@,
                "dimension "@ + decimal(k as nat) + " must be greater than zero"@,
            )
    }
}

/// A prefix of positive dimensions has a product no larger than the whole.
pub proof fn lemma_prefix_product_le(s: Seq<usize>, k: int)
    requires
        all_positive(s),
        0 <= k <= s.len(),
    ensures
        product(s.take(k)) <= product(s),
    decreases s.len(),
{
    if k < s.len() {
        let t = s.drop_last();
        assert(t.take(k) =~= s.take(k));
        assert(all_positive(t)) by {
            assert forall|i: int| 0 <= i < t.len() implies #[trigger] t[i] > 0 by {
                assert(t[i] == s[i]);
            }
        }
        lemma_prefix_product_le(t, k);
        let a = product(t);
        let b = s.last() as nat;
        assert(s[s.len() - 1] > 0);
        assert(a * b >= a) by (nonlinear_arith)
            requires
                b >= 1,
        ;
    } else {
        assert(s.take(k) =~= s);
    }
}

/// The product of one dimension and of two dimensions.
pub proof fn lemma_product_small(a: usize, b: usize)
    ensures
        product(seq![a]) == a,
        product(seq![a, b]) == a * b,
{
    let e = Seq::<usize>::empty();
    let s1 = seq![a];
    let s2 = seq![a, b];
    assert(product(e) == 1);
    assert(s1.drop_last() =~= e);
    assert(s1.last() == a);
    assert(product(s1) == product(e) * (a as nat));
    assert(s2.drop_last() =~= s1);
    assert(s2.last() == b);
    assert(product(s2) == product(s1) * (b as nat));
}

/// A product of positive dimensions is positive.
pub proof fn lemma_product_positive(s: Seq<usize>)
    requires
        all_positive(s),
    ensures
        product(s) >= 1,
    decreases s.len(),
{
    if s.len() > 0 {
        let t = s.drop_last();
        assert(all_positive(t)) by {
            assert forall|i: int| 0 <= i < t.len() implies #[trigger] t[i] > 0 by {
                assert(t[i] == s[i]);
            }
        }
        lemma_product_positive(t);
        let a = product(t);
        let b = s.last() as nat;
        assert(s[s.len() - 1] > 0);
        assert(a * b >= 1) by (nonlinear_arith)
            requires
                a >= 1,
                b >= 1,
        ;
    }
}

/// Shape metadata for a tensor: a non-empty list of positive dimensions.
#[derive(Debug, PartialEq, Eq, Hash)]
pub struct Shape {
    dims: Vec<usize>,
}

impl Clone for Shape {
    fn clone(&self) -> (r: Self)
        ensures
            r@ == self@,
    {
        proof {
            use_type_invariant(self);
        }
        Shape { dims: self.to_vec() }
    }
}

impl From<Shape> for Vec<usize> {
    fn from(shape: Shape) -> (v: Vec<usize>)
        ensures
            v@ == shape@,
    {
        shape.dims
    }
}

impl vstd::std_specs::convert::FromSpecImpl<Shape> for Vec<usize> {
    open spec fn obeys_from_spec() -> bool {
        true
    }

    closed spec fn from_spec(v: Shape) -> Self {
        v.dims
    }
}

impl View for Shape {
    type V = Seq<usize>;

    closed spec fn view(&self) -> Seq<usize> {
        self.dims@
    }
}

impl Shape {
    /// A shape has at least one dimension and every dimension is positive.
    #[verifier::type_invariant]
    pub open spec fn valid(&self) -> bool {
        self@.len() > 0 && all_positive(self@)
    }

    /// Number of stored values implied by this shape.
    pub open spec fn spec_element_count(&self) -> nat {
        product(self@)
    }

    /// Creates a shape from a list of dimensions.
    ///
    /// Every dimension must be greater than zero.
    pub fn new(dims: Vec<usize>) -> (r: Result<Shape>)
        ensures
            r is Ok <==> valid_dims(dims@),
            r matches Ok(s) ==> s@ == dims@,
            r matches Err(e) ==> dims_error(dims@, e),
    {
        if dims.len() == 0 {
            return Err(RustGradError::EmptyShape);
        }
        let n = dims.len();
        let mut i: usize = 0;
        while i < n
            invariant
                n == dims@.len(),
                i <= n,
                forall|j: int| 0 <= j < i ==> #[trigger] dims@[j] > 0,
            decreases n - i,
        {
            if dims[i] == 0 {
                let mut reason = String::new();
                reason.append("dimension ");
                crate::text::push_decimal(&mut reason, i);
                reason.append(" must be greater than zero");
                let e = RustGradError::InvalidArgument { name: "dims", reason };
                proof {
                    assert(reason@ =~= "dimension "@ + decimal(i as nat) + " must be greater than zero"@);
                    assert(is_first_zero(dims@, i as int));
                }
                return Err(e);
            }
            i += 1;
        }
        Ok(Shape { dims })
    }

    /// Creates a scalar-like shape represented as one stored value.
    pub fn scalar() -> (s: Shape)
        ensures
            s@ == seq![1usize],
    {
        let dims = vec![1usize];
        assert(dims@ =~= seq![1usize]);
        Shape { dims }
    }

    /// Creates a vector shape.
    pub fn vector(len: usize) -> (r: Result<Shape>)
        ensures
            r is Ok <==> len > 0,
            r matches Ok(s) ==> s@ == seq![len],
            r matches Err(e) ==> dims_error(seq![len], e),
    {
        let dims = vec![len];
        assert(dims@ =~= seq![len]);
        Shape::new(dims)
    }

    /// Creates a matrix shape.
    pub fn matrix(rows: usize, cols: usize) -> (r: Result<Shape>)
        ensures
            r is Ok <==> rows > 0 && cols > 0,
            r matches Ok(s) ==> s@ == seq![rows, cols],
            r matches Err(e) ==> dims_error(seq![rows, cols], e),
    {
        let dims = vec![rows, cols];
        assert(dims@ =~= seq![rows, cols]);
        Shape::new(dims)
    }

    /// Returns the dimensions as a slice.
    pub fn dims(&self) -> (d: &[usize])
        ensures
            d@ == self@,
            d@.len() > 0,
            all_positive(d@),
    {
        proof {
            use_type_invariant(self);
        }
        self.dims.as_slice()
    }

    /// Returns an owned copy of the dimensions.
    pub fn to_vec(&self) -> (v: Vec<usize>)
        ensures
            v@ == self@,
    {
        let mut out: Vec<usize> = Vec::new();
        let n = self.dims.len();
        let mut i: usize = 0;
        while i < n
            invariant
                n == self.dims@.len(),
                i <= n,
                out@ == self.dims@.take(i as int),
            decreases n - i,
        {
            out.push(self.dims[i]);
            i += 1;
            assert(out@ =~= self.dims@.take(i as int));
        }
        assert(self.dims@.take(n as int) =~= self.dims@);
        out
    }

    /// Returns the tensor rank.
    pub fn rank(&self) -> (r: usize)
        ensures
            r == self@.len(),
            r > 0,
    {
        proof {
            use_type_invariant(self);
        }
        self.dims.len()
    }

    /// Returns the number of stored values implied by this shape.
    pub fn element_count(&self) -> (c: usize)
        requires
            self.spec_element_count() <= usize::MAX,
        ensures
            c == self.spec_element_count(),
            c >= 1,
    {
        proof {
            use_type_invariant(self);
            lemma_product_positive(self@);
        }
        let n = self.dims.len();
        let mut acc: usize = 1;
        let mut i: usize = 0;
        while i < n
            invariant
                n == self.dims@.len(),
                i <= n,
                acc == product(self.dims@.take(i as int)),
                all_positive(self.dims@),
                product(self.dims@) <= usize::MAX,
            decreases n - i,
        {
            proof {
                let s = self.dims@;
                assert(s.take(i + 1).drop_last() =~= s.take(i as int));
                lemma_prefix_product_le(s, i + 1);
            }
            acc = acc * self.dims[i];
            i += 1;
        }
        assert(self.dims@.take(n as int) =~= self.dims@);
        acc
    }

    /// Returns true when this shape is represented by one stored value.
    pub fn is_scalar_like(&self) -> (b: bool)
        requires
            self.spec_element_count() <= usize::MAX,
        ensures
            b == (self.spec_element_count() == 1),
    {
        self.element_count() == 1
    }

    /// Returns true for a one-dimensional shape.
    pub fn is_vector(&self) -> (b: bool)
        ensures
            b == (self@.len() == 1),
    {
        self.dims.len() == 1
    }

    /// Returns true for a two-dimensional shape.
    pub fn is_matrix(&self) -> (b: bool)
        ensures
            b == (self@.len() == 2),
    {
        self.dims.len() == 2
    }

    /// Returns the matrix row count when the shape is two-dimensional.
    pub fn rows(&self) -> (r: Option<usize>)
        ensures
            r == (if self@.len() == 2 { Some(self@[0]) } else { None::<usize> }),
    {
        if self.dims.len() == 2 {
            Some(self.dims[0])
        } else {
            None
        }
    }

    /// Returns the matrix column count when the shape is two-dimensional.
    pub fn cols(&self) -> (r: Option<usize>)
        ensures
            r == (if self@.len() == 2 { Some(self@[1]) } else { None::<usize> }),
    {
        if self.dims.len() == 2 {
            Some(self.dims[1])
        } else {
            None
        }
    }
}

} // verus!

verus! {

/// Dense tensor storage: shape metadata and the values in row-major order.
///
/// The element type is a parameter; numeric element types are supplied by the
/// caller.
#[derive(Debug, PartialEq)]
pub struct Tensor<T> {
    shape: Shape,
    data: Vec<T>,
}

/// The outcome of building a tensor from a list of dimensions and values:
/// the dimension error, then `EmptyTensor` for no value, then a length
/// mismatch, and otherwise a tensor holding exactly those dimensions and values.
pub open spec fn built_from<T>(r: Result<Tensor<T>>, dims: Seq<usize>, data: Seq<T>) -> bool {
    if !valid_dims(dims) {
        r is Err && dims_error(dims, r->Err_0)
    } else if data.len() == 0 {
        r == Err::<Tensor<T>, RustGradError>(RustGradError::EmptyTensor)
    } else if data.len() != product(dims) {
        r is Err && is_shape_data_mismatch(r->Err_0, dims, product(dims), data.len())
    } else {
        &&& r is Ok
        &&& r->Ok_0.spec_dims() == dims
        &&& r->Ok_0.spec_data() == data
        &&& r->Ok_0.well_formed()
    }
}

impl<T> Tensor<T> {
    /// The dimensions of the tensor.
    pub closed spec fn spec_dims(&self) -> Seq<usize> {
        self.shape@
    }

    /// The stored values in row-major order.
    pub closed spec fn spec_data(&self) -> Seq<T> {
        self.data@
    }

    /// The number of stored values equals the product of the dimensions, and
    /// is positive. Every constructor establishes it and no method breaks it.
    pub open spec fn well_formed(&self) -> bool {
        &&& valid_dims(self.spec_dims())
        &&& self.spec_data().len() == product(self.spec_dims())
        &&& self.spec_data().len() > 0
    }

    /// Creates a tensor from explicit shape metadata and dense values.
    pub fn new(shape: Shape, data: Vec<T>) -> (r: Result<Tensor<T>>)
        requires
            shape.spec_element_count() <= usize::MAX,
        ensures
            built_from(r, shape@, data@),
    {
        proof {
            use_type_invariant(&shape);
        }
        if data.len() == 0 {
            return Err(RustGradError::EmptyTensor);
        }
        let expected_len = shape.element_count();
        let actual_len = data.len();
        if expected_len != actual_len {
            return Err(
                RustGradError::ShapeDataMismatch { shape: shape.to_vec(), expected_len, actual_len },
            );
        }
        Ok(Tensor { shape, data })
    }

    /// Creates a tensor from raw dimensions and dense values.
    pub fn from_vec(dims: Vec<usize>, data: Vec<T>) -> (r: Result<Tensor<T>>)
        requires
            product(dims@) <= usize::MAX,
        ensures
            built_from(r, dims@, data@),
    {
        let shape = Shape::new(dims)?;
        Tensor::new(shape, data)
    }

    /// Creates a scalar-like tensor represented by one value.
    pub fn scalar(value: T) -> (r: Result<Tensor<T>>)
        ensures
            built_from(r, seq![1usize], seq![value]),
            r is Ok,
    {
        let shape = Shape::scalar();
        let data = vec![value];
        proof {
            lemma_product_small(1, 1);
        }
        assert(data@ =~= seq![value]);
        Tensor::new(shape, data)
    }

    /// Creates a one-dimensional tensor.
    pub fn vector(values: Vec<T>) -> (r: Result<Tensor<T>>)
        ensures
            built_from(r, seq![values@.len() as usize], values@),
            r is Ok <==> values@.len() > 0,
    {
        proof {
            lemma_product_small(values.len(), 1);
        }
        let shape = Shape::vector(values.len())?;
        Tensor::new(shape, values)
    }

    /// Creates a two-dimensional tensor from row-major values.
    pub fn matrix(rows: usize, cols: usize, values: Vec<T>) -> (r: Result<Tensor<T>>)
        requires
            rows * cols <= usize::MAX,
        ensures
            built_from(r, seq![rows, cols], values@),
    {
        proof {
            lemma_product_small(rows, cols);
        }
        let shape = Shape::matrix(rows, cols)?;
        Tensor::new(shape, values)
    }

    /// Returns the tensor shape.
    pub fn shape(&self) -> (s: &Shape)
        ensures
            s@ == self.spec_dims(),
    {
        &self.shape
    }

    /// Returns the tensor dimensions.
    pub fn dims(&self) -> (d: &[usize])
        ensures
            d@ == self.spec_dims(),
            valid_dims(d@),
    {
        self.shape.dims()
    }

    /// Returns the tensor rank.
    pub fn rank(&self) -> (r: usize)
        ensures
            r == self.spec_dims().len(),
    {
        self.shape.rank()
    }

    /// Returns the number of stored values.
    pub fn len(&self) -> (n: usize)
        ensures
            n == self.spec_data().len(),
    {
        self.data.len()
    }

    /// Returns true when the tensor has no stored values.
    pub fn is_empty(&self) -> (b: bool)
        ensures
            b == (self.spec_data().len() == 0),
    {
        self.data.len() == 0
    }

    /// Returns the dense values in row-major order.
    pub fn data(&self) -> (d: &[T])
        ensures
            d@ == self.spec_data(),
    {
        self.data.as_slice()
    }

    /// Returns mutable dense values in row-major order.
    pub fn data_mut(&mut self) -> (d: &mut [T])
        ensures
            d@ == old(self).spec_data(),
            final(self).spec_dims() == old(self).spec_dims(),
            final(self).spec_data() == final(d)@,
    {
        self.data.as_mut_slice()
    }

    /// Consumes the tensor and returns the underlying dense values.
    pub fn into_data(self) -> (v: Vec<T>)
        ensures
            v@ == self.spec_data(),
    {
        self.data
    }

    /// Returns the matrix row count when the tensor is two-dimensional.
    pub fn rows(&self) -> (r: Option<usize>)
        ensures
            r == (if self.spec_dims().len() == 2 { Some(self.spec_dims()[0]) } else { None::<usize> }),
    {
        self.shape.rows()
    }

    /// Returns the matrix column count when the tensor is two-dimensional.
    pub fn cols(&self) -> (r: Option<usize>)
        ensures
            r == (if self.spec_dims().len() == 2 { Some(self.spec_dims()[1]) } else { None::<usize> }),
    {
        self.shape.cols()
    }
}

impl<T: Copy> Clone for Tensor<T> {
    fn clone(&self) -> (r: Self)
        ensures
            r.spec_dims() == self.spec_dims(),
            r.spec_data() == self.spec_data(),
    {
        let n = self.data.len();
        let mut data: Vec<T> = Vec::new();
        let mut i: usize = 0;
        while i < n
            invariant
                n == self.data@.len(),
                i <= n,
                data@ == self.data@.take(i as int),
            decreases n - i,
        {
            data.push(self.data[i]);
            i += 1;
            assert(data@ =~= self.data@.take(i as int));
        }
        assert(self.data@.take(n as int) =~= self.data@);
        Tensor { shape: self.shape.clone(), data }
    }
}

impl<T: Copy> Tensor<T> {
    /// Creates a tensor filled with a caller-provided value.
    pub fn full(dims: Vec<usize>, value: T) -> (r: Result<Tensor<T>>)
        requires
            product(dims@) <= usize::MAX,
        ensures
            built_from(r, dims@, Seq::new(product(dims@), |i: int| value)),
            r is Ok <==> valid_dims(dims@),
    {
        let shape = Shape::new(dims)?;
        let count = shape.element_count();
        let mut data: Vec<T> = Vec::new();
        let mut i: usize = 0;
        while i < count
            invariant
                i <= count,
                data@ == Seq::new(i as nat, |j: int| value),
            decreases count - i,
        {
            data.push(value);
            i += 1;
            assert(data@ =~= Seq::new(i as nat, |j: int| value));
        }
        Tensor::new(shape, data)
    }
}

/// Element-by-element equality of two dimension lists.
pub fn same_dims(a: &[usize], b: &[usize]) -> (r: bool)
    ensures
        r == (a@ == b@),
{
    if a.len() != b.len() {
        return false;
    }
    let n = a.len();
    let mut i: usize = 0;
    while i < n
        invariant
            n == a@.len(),
            n == b@.len(),
            i <= n,
            forall|j: int| 0 <= j < i ==> a@[j] == b@[j],
        decreases n - i,
    {
        if a[i] != b[i] {
            return false;
        }
        i += 1;
    }
    assert(a@ =~= b@);
    true
}

/// Rejects two tensors whose dimensions differ, naming the operation.
pub fn ensure_same_shape<T>(op: &'static str, left: &Tensor<T>, right: &Tensor<T>) -> (r: Result<()>)
    ensures
        r is Ok <==> left.spec_dims() == right.spec_dims(),
        r matches Err(e) ==> is_shape_mismatch(e, op@, left.spec_dims(), right.spec_dims()),
{
    if same_dims(left.dims(), right.dims()) {
        Ok(())
    } else {
        Err(RustGradError::ShapeMismatch { op, left: left.shape().to_vec(), right: right.shape().to_vec() })
    }
}

/// Rejects a tensor that is not a matrix.
pub fn validate_rank_two<T>(name: &'static str, tensor: &Tensor<T>) -> (r: Result<()>)
    ensures
        r is Ok <==> tensor.spec_dims().len() == 2,
        r matches Err(e) ==> is_invalid_argument(
            e,
            name@,
            "expected rank 2 tensor, got rank "@ + decimal(tensor.spec_dims().len()),
        ),
{
    let rank = tensor.rank();
    if rank == 2 {
        Ok(())
    } else {
        let mut reason = String::new();
        reason.append("expected rank 2 tensor, got rank ");
        crate::text::push_decimal(&mut reason, rank);
        assert(reason@ =~= "expected rank 2 tensor, got rank "@ + decimal(rank as nat));
        Err(RustGradError::InvalidArgument { name, reason })
    }
}

} // verus!

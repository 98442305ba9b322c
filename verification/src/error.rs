//! Shared error type used across the library.
use vstd::prelude::*;
use vstd::string::*;

use crate::text::{debug_list, decimal, push_debug_list, push_decimal};

verus! {

/// Convenient result alias for operations that can fail inside the library.
pub type Result<T> = core::result::Result<T, RustGradError>;

/// Errors returned by tensor operations, autograd, training, and CLI helpers.
#[derive(Debug, Clone, PartialEq, Eq)]
pub enum RustGradError {
    /// A tensor shape contains no dimensions.
    EmptyShape,
    /// A tensor contains no values where at least one value is required.
    EmptyTensor,
    /// The provided data length does not match the requested shape.
    ShapeDataMismatch {
        /// Tensor shape as a list of dimensions.
        shape: Vec<usize>,
        /// Number of values required by the shape.
        expected_len: usize,
        /// Number of values provided by the caller.
        actual_len: usize,
    },
    /// Two shapes cannot participate in the requested operation.
    ShapeMismatch {
        /// Name of the operation that failed.
        op: &'static str,
        /// Left-hand shape.
        left: Vec<usize>,
        /// Right-hand shape.
        right: Vec<usize>,
    },
    /// Matrix multiplication dimensions are incompatible.
    MatMulShapeMismatch {
        /// Left matrix shape.
        left: Vec<usize>,
        /// Right matrix shape.
        right: Vec<usize>,
    },
    /// A requested axis is outside the tensor rank.
    InvalidAxis {
        /// Axis provided by the caller.
        axis: usize,
        /// Number of axes in the tensor.
        rank: usize,
    },
    /// A flat or multidimensional index is outside the tensor bounds.
    IndexOutOfBounds {
        /// Index provided by the caller.
        index: Vec<usize>,
        /// Tensor shape that defines the valid bounds.
        shape: Vec<usize>,
    },
    /// A user-facing argument failed validation.
    InvalidArgument {
        /// Argument name.
        name: &'static str,
        /// Human-readable validation detail.
        reason: String,
    },
    /// An operation exists in the graph but does not yet have a gradient rule.
    UnsupportedOperation {
        /// Operation name.
        op: String,
        /// Human-readable explanation.
        reason: String,
    },
}

/// The human-readable message of an error.
pub open spec fn error_message(e: RustGradError) -> Seq<char> {
    match e {
        RustGradError::EmptyShape => "shape must contain at least one dimension"@,
        RustGradError::EmptyTensor => "tensor must contain at least one value"@,
        RustGradError::ShapeDataMismatch { shape, expected_len, actual_len } => "shape "@
            + debug_list(shape@) + " requires "@ + decimal(expected_len as nat)
            + " values, but got "@ + decimal(actual_len as nat),
        RustGradError::ShapeMismatch { op, left, right } => op@ + " cannot operate on shapes "@
            + debug_list(left@) + " and "@ + debug_list(right@),
        RustGradError::MatMulShapeMismatch { left, right } =>
            "matmul requires left columns to equal right rows, but got "@ + debug_list(left@)
            + " and "@ + debug_list(right@),
        RustGradError::InvalidAxis { axis, rank } => "axis "@ + decimal(axis as nat)
            + " is invalid for tensor rank "@ + decimal(rank as nat),
        RustGradError::IndexOutOfBounds { index, shape } => "index "@ + debug_list(index@)
            + " is out of bounds for shape "@ + debug_list(shape@),
        RustGradError::InvalidArgument { name, reason } => "invalid argument `"@ + name@
            + "`: "@ + reason@,
        RustGradError::UnsupportedOperation { op, reason } => "unsupported operation `"@ + op@
            + "`: "@ + reason@,
    }
}

/// An `InvalidArgument` error with the given argument name and reason text.
pub open spec fn is_invalid_argument(e: RustGradError, name: Seq<char>, reason: Seq<char>) -> bool {
    &&& e matches RustGradError::InvalidArgument { name: n, reason: r }
    &&& n@ == name
    &&& r@ == reason
}

/// An `UnsupportedOperation` error with the given operation name and reason text.
pub open spec fn is_unsupported_operation(e: RustGradError, op: Seq<char>, reason: Seq<char>) -> bool {
    &&& e matches RustGradError::UnsupportedOperation { op: o, reason: r }
    &&& o@ == op
    &&& r@ == reason
}

/// A `ShapeDataMismatch` error with the given fields.
pub open spec fn is_shape_data_mismatch(
    e: RustGradError,
    shape: Seq<usize>,
    expected_len: nat,
    actual_len: nat,
) -> bool {
    &&& e matches RustGradError::ShapeDataMismatch { shape: s, expected_len: x, actual_len: a }
    &&& s@ == shape
    &&& x == expected_len
    &&& a == actual_len
}

/// A `ShapeMismatch` error with the given fields.
pub open spec fn is_shape_mismatch(
    e: RustGradError,
    op: Seq<char>,
    left: Seq<usize>,
    right: Seq<usize>,
) -> bool {
    &&& e matches RustGradError::ShapeMismatch { op: o, left: l, right: r }
    &&& o@ == op
    &&& l@ == left
    &&& r@ == right
}

/// An `IndexOutOfBounds` error with the given fields.
pub open spec fn is_index_out_of_bounds(
    e: RustGradError,
    index: Seq<usize>,
    shape: Seq<usize>,
) -> bool {
    &&& e matches RustGradError::IndexOutOfBounds { index: i, shape: s }
    &&& i@ == index
    &&& s@ == shape
}

impl RustGradError {
    /// Renders the error as a human-readable message.
    pub fn to_string(&self) -> (r: String)
        ensures
            r@ == error_message(*self),
    {
        let mut out = String::new();
        match self {
            RustGradError::EmptyShape => {
                out.append("shape must contain at least one dimension");
            },
            RustGradError::EmptyTensor => {
                out.append("tensor must contain at least one value");
            },
            RustGradError::ShapeDataMismatch { shape, expected_len, actual_len } => {
                out.append("shape ");
                push_debug_list(&mut out, shape.as_slice());
                out.append(" requires ");
                push_decimal(&mut out, *expected_len);
                out.append(" values, but got ");
                push_decimal(&mut out, *actual_len);
            },
            RustGradError::ShapeMismatch { op, left, right } => {
                out.append(op);
                out.append(" cannot operate on shapes ");
                push_debug_list(&mut out, left.as_slice());
                out.append(" and ");
                push_debug_list(&mut out, right.as_slice());
            },
            RustGradError::MatMulShapeMismatch { left, right } => {
                out.append("matmul requires left columns to equal right rows, but got ");
                push_debug_list(&mut out, left.as_slice());
                out.append(" and ");
                push_debug_list(&mut out, right.as_slice());
            },
            RustGradError::InvalidAxis { axis, rank } => {
                out.append("axis ");
                push_decimal(&mut out, *axis);
                out.append(" is invalid for tensor rank ");
                push_decimal(&mut out, *rank);
            },
            RustGradError::IndexOutOfBounds { index, shape } => {
                out.append("index ");
                push_debug_list(&mut out, index.as_slice());
                out.append(" is out of bounds for shape ");
                push_debug_list(&mut out, shape.as_slice());
            },
            RustGradError::InvalidArgument { name, reason } => {
                out.append("invalid argument `");
                out.append(name);
                out.append("`: ");
                out.append(reason.as_str());
            },
            RustGradError::UnsupportedOperation { op, reason } => {
                out.append("unsupported operation `");
                out.append(op.as_str());
                out.append("`: ");
                out.append(reason.as_str());
            },
        }
        assert(out@ =~= error_message(*self));
        out
    }
}

} // verus!

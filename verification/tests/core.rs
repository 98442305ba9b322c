use rustgrad::{version, Result, RustGradError};

#[test]
fn exposes_package_version() {
    assert_eq!(version(), "0.1.0");
}

#[test]
fn formats_shape_data_mismatch() {
    let error = RustGradError::ShapeDataMismatch {
        shape: vec![2, 3],
        expected_len: 6,
        actual_len: 5,
    };

    assert_eq!(
        error.to_string(),
        "shape [2, 3] requires 6 values, but got 5"
    );
}

#[test]
fn implements_std_error() {
    let error = RustGradError::EmptyTensor;

    assert_eq!(error.to_string(), "tensor must contain at least one value");
}

#[test]
fn result_alias_uses_rustgrad_error() {
    fn always_fails() -> Result<()> {
        Err(RustGradError::InvalidAxis { axis: 2, rank: 2 })
    }

    assert_eq!(
        always_fails().expect_err("expected invalid axis"),
        RustGradError::InvalidAxis { axis: 2, rank: 2 }
    );
}

#[test]
fn formats_every_error_variant() {
    assert_eq!(
        RustGradError::EmptyShape.to_string(),
        "shape must contain at least one dimension"
    );
    assert_eq!(
        RustGradError::ShapeMismatch {
            op: "add",
            left: vec![2],
            right: vec![3, 1],
        }
        .to_string(),
        "add cannot operate on shapes [2] and [3, 1]"
    );
    assert_eq!(
        RustGradError::MatMulShapeMismatch {
            left: vec![2, 3],
            right: vec![2, 3],
        }
        .to_string(),
        "matmul requires left columns to equal right rows, but got [2, 3] and [2, 3]"
    );
    assert_eq!(
        RustGradError::InvalidAxis { axis: 2, rank: 2 }.to_string(),
        "axis 2 is invalid for tensor rank 2"
    );
    assert_eq!(
        RustGradError::IndexOutOfBounds {
            index: vec![3, 5],
            shape: vec![4],
        }
        .to_string(),
        "index [3, 5] is out of bounds for shape [4]"
    );
    assert_eq!(
        RustGradError::InvalidArgument {
            name: "title",
            reason: "report title must not be empty".to_string(),
        }
        .to_string(),
        "invalid argument `title`: report title must not be empty"
    );
    assert_eq!(
        RustGradError::UnsupportedOperation {
            op: "dropout".to_string(),
            reason: "no rule".to_string(),
        }
        .to_string(),
        "unsupported operation `dropout`: no rule"
    );
}

#[test]
fn formats_multi_digit_and_empty_lists() {
    assert_eq!(
        RustGradError::ShapeDataMismatch {
            shape: vec![],
            expected_len: 1000,
            actual_len: 0,
        }
        .to_string(),
        "shape [] requires 1000 values, but got 0"
    );
    assert_eq!(
        RustGradError::ShapeDataMismatch {
            shape: vec![10, 205, 1],
            expected_len: 2050,
            actual_len: 18446744073709551615,
        }
        .to_string(),
        "shape [10, 205, 1] requires 2050 values, but got 18446744073709551615"
    );
}

use rustgrad::tensor::{ensure_same_shape, validate_rank_two, Shape, Tensor};
use rustgrad::RustGradError;

#[test]
fn shape_new_accepts_positive_dimensions() {
    let shape = Shape::new(vec![2, 3, 4]).expect("valid shape");

    assert_eq!(shape.dims(), &[2, 3, 4]);
    assert_eq!(shape.to_vec(), vec![2, 3, 4]);
    assert_eq!(shape.rank(), 3);
    assert_eq!(shape.element_count(), 24);
    assert!(!shape.is_scalar_like());
    assert!(!shape.is_vector());
    assert!(!shape.is_matrix());
    assert_eq!(shape.rows(), None);
    assert_eq!(shape.cols(), None);
}

#[test]
fn shape_new_rejects_empty_dimensions() {
    assert_eq!(
        Shape::new(vec![]).expect_err("empty shape"),
        RustGradError::EmptyShape
    );
}

#[test]
fn shape_new_reports_first_zero_dimension() {
    assert_eq!(
        Shape::new(vec![3, 0, 0]).expect_err("zero dimension"),
        RustGradError::InvalidArgument {
            name: "dims",
            reason: "dimension 1 must be greater than zero".to_string(),
        }
    );
}

#[test]
fn shape_helpers_build_scalar_vector_and_matrix() {
    let scalar = Shape::scalar();
    assert_eq!(scalar.dims(), &[1]);
    assert!(scalar.is_scalar_like());
    assert!(scalar.is_vector());

    let vector = Shape::vector(5).expect("valid vector");
    assert_eq!(vector.dims(), &[5]);
    assert_eq!(
        Shape::vector(0).expect_err("zero length"),
        RustGradError::InvalidArgument {
            name: "dims",
            reason: "dimension 0 must be greater than zero".to_string(),
        }
    );

    let matrix = Shape::matrix(2, 3).expect("valid matrix");
    assert!(matrix.is_matrix());
    assert_eq!(matrix.rows(), Some(2));
    assert_eq!(matrix.cols(), Some(3));
    assert_eq!(matrix.element_count(), 6);
    assert_eq!(
        Shape::matrix(2, 0).expect_err("zero columns"),
        RustGradError::InvalidArgument {
            name: "dims",
            reason: "dimension 1 must be greater than zero".to_string(),
        }
    );
    assert_eq!(Shape::matrix(1, 1).expect("unit").clone().dims(), &[1, 1]);
}

#[test]
fn tensor_new_checks_data_length() {
    let shape = Shape::matrix(2, 3).expect("valid shape");
    assert_eq!(
        Tensor::new(shape.clone(), vec![1.0, 2.0, 3.0, 4.0, 5.0]).expect_err("short data"),
        RustGradError::ShapeDataMismatch {
            shape: vec![2, 3],
            expected_len: 6,
            actual_len: 5,
        }
    );
    assert_eq!(
        Tensor::<f64>::new(shape.clone(), vec![]).expect_err("empty data"),
        RustGradError::EmptyTensor
    );

    let tensor = Tensor::new(shape, vec![1.0, 2.0, 3.0, 4.0, 5.0, 6.0]).expect("valid tensor");
    assert_eq!(tensor.dims(), &[2, 3]);
    assert_eq!(tensor.rank(), 2);
    assert_eq!(tensor.len(), 6);
    assert!(!tensor.is_empty());
    assert_eq!(tensor.rows(), Some(2));
    assert_eq!(tensor.cols(), Some(3));
    assert_eq!(tensor.shape().element_count(), 6);
    assert_eq!(tensor.into_data(), vec![1.0, 2.0, 3.0, 4.0, 5.0, 6.0]);
}

#[test]
fn tensor_constructors_cover_common_shapes() {
    let scalar = Tensor::scalar(4.5).expect("scalar");
    assert_eq!(scalar.dims(), &[1]);
    assert_eq!(scalar.data(), &[4.5]);

    let vector = Tensor::vector(vec![1.0, 2.0]).expect("vector");
    assert_eq!(vector.dims(), &[2]);
    assert_eq!(vector.rows(), None);

    assert_eq!(
        Tensor::<f64>::vector(vec![]).expect_err("empty vector"),
        RustGradError::InvalidArgument {
            name: "dims",
            reason: "dimension 0 must be greater than zero".to_string(),
        }
    );

    let matrix = Tensor::matrix(1, 2, vec![3.0, 4.0]).expect("matrix");
    assert_eq!(matrix.dims(), &[1, 2]);

    let full = Tensor::full(vec![2, 2], 7.0).expect("full");
    assert_eq!(full.data(), &[7.0, 7.0, 7.0, 7.0]);

    let from_vec = Tensor::from_vec(vec![3], vec![1.0, 2.0, 3.0]).expect("from_vec");
    assert_eq!(from_vec.dims(), &[3]);
    assert_eq!(
        Tensor::from_vec(vec![], vec![1.0]).expect_err("no dims"),
        RustGradError::EmptyShape
    );
}

#[test]
fn tensor_data_mut_updates_values_in_place() {
    let mut tensor = Tensor::vector(vec![1.0, 2.0]).expect("vector");
    tensor.data_mut()[1] = 5.0;
    assert_eq!(tensor.data(), &[1.0, 5.0]);
    let copy = tensor.clone();
    assert_eq!(copy, tensor);
}

#[test]
fn shape_and_rank_checks_name_the_operation() {
    let a = Tensor::vector(vec![1.0, 2.0]).expect("vector");
    let b = Tensor::matrix(1, 2, vec![1.0, 2.0]).expect("matrix");

    assert!(ensure_same_shape("add", &a, &a).is_ok());
    assert_eq!(
        ensure_same_shape("mean squared error", &a, &b).expect_err("shape mismatch"),
        RustGradError::ShapeMismatch {
            op: "mean squared error",
            left: vec![2],
            right: vec![1, 2],
        }
    );
    assert!(validate_rank_two("predictions", &b).is_ok());
    assert_eq!(
        validate_rank_two("predictions", &a).expect_err("rank one"),
        RustGradError::InvalidArgument {
            name: "predictions",
            reason: "expected rank 2 tensor, got rank 1".to_string(),
        }
    );
}

#[test]
fn shape_converts_into_its_dimensions() {
    let dims: Vec<usize> = Shape::new(vec![2, 3, 4]).expect("valid").into();
    assert_eq!(dims, vec![2, 3, 4]);
    assert_eq!(Vec::<usize>::from(Shape::scalar()), vec![1]);
}

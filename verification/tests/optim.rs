use rustgrad::optim::{
    state_fits_parameters, validate_gradient_shape, validate_parameter_gradient_count,
    validate_parameter_gradient_shapes, GradientSet,
};
use rustgrad::tensor::Tensor;
use rustgrad::RustGradError;

#[test]
fn gradient_set_starts_empty() {
    let gradients: GradientSet<Tensor<f64>> = GradientSet::new();

    assert!(gradients.is_empty());
    assert_eq!(gradients.len(), 0);
    assert!(gradients.get(0).is_none());
    assert_eq!(gradients.iter().iter().count(), 0);
}

#[test]
fn gradient_set_keeps_gradients_in_parameter_order() {
    let first = Tensor::vector(vec![1.0, 2.0]).expect("valid first gradient");
    let second = Tensor::matrix(1, 2, vec![3.0, 4.0]).expect("valid second gradient");
    let gradients = GradientSet::from_tensors(vec![first.clone(), second.clone()]);

    assert_eq!(gradients.len(), 2);
    assert_eq!(gradients.get(0), Some(&first));
    assert_eq!(gradients.get(1), Some(&second));
    assert_eq!(
        gradients.iter().iter().map(Tensor::dims).collect::<Vec<_>>(),
        vec![&[2][..], &[1, 2][..]]
    );
}

#[test]
fn gradient_set_can_be_created_from_vec_and_cleared() {
    let mut gradients: GradientSet<Tensor<f64>> =
        vec![Tensor::scalar(1.0).expect("valid scalar gradient")].into();

    assert_eq!(gradients.len(), 1);

    gradients.clear();

    assert!(gradients.is_empty());
}

#[test]
fn gradient_count_and_shape_checks_report_mismatches() {
    assert!(validate_parameter_gradient_count(2, 2).is_ok());
    assert_eq!(
        validate_parameter_gradient_count(2, 1).expect_err("count mismatch"),
        RustGradError::InvalidArgument {
            name: "gradients",
            reason: "expected 2 gradients, got 1".to_string(),
        }
    );

    let parameter = Tensor::vector(vec![1.0, 2.0]).expect("parameter");
    let gradient = Tensor::vector(vec![0.5, 0.5, 0.5]).expect("gradient");
    assert!(validate_gradient_shape(&parameter, &parameter).is_ok());
    assert_eq!(
        validate_gradient_shape(&parameter, &gradient).expect_err("shape mismatch"),
        RustGradError::ShapeMismatch {
            op: "optimizer gradient",
            left: vec![2],
            right: vec![3],
        }
    );
}

#[test]
fn parameter_gradient_shapes_are_checked_in_order() {
    let mut a = Tensor::vector(vec![1.0, 2.0]).expect("valid");
    let mut b = Tensor::scalar(3.0).expect("valid");
    let good = GradientSet::from_tensors(vec![
        Tensor::vector(vec![0.5, 0.5]).expect("valid"),
        Tensor::scalar(1.0).expect("valid"),
    ]);
    let bad = GradientSet::from_tensors(vec![
        Tensor::vector(vec![0.5, 0.5]).expect("valid"),
        Tensor::vector(vec![1.0, 1.0]).expect("valid"),
    ]);
    let short = GradientSet::from_tensors(vec![Tensor::scalar(1.0).expect("valid")]);
    {
        let parameters = [&mut a, &mut b];
        assert_eq!(validate_parameter_gradient_shapes(&parameters, &good), Ok(()));
        assert_eq!(
            validate_parameter_gradient_shapes(&parameters, &bad)
                .expect_err("shape")
                .to_string(),
            "optimizer gradient cannot operate on shapes [1] and [2]"
        );
        assert_eq!(
            validate_parameter_gradient_shapes(&parameters, &short)
                .expect_err("count")
                .to_string(),
            "invalid argument `gradients`: expected 2 gradients, got 1"
        );
    }
}

#[test]
fn optimizer_state_fits_only_matching_parameters() {
    let mut a = Tensor::vector(vec![1.0, 2.0]).expect("valid");
    let mut b = Tensor::scalar(3.0).expect("valid");
    let parameters = [&mut a, &mut b];
    let fitting = vec![
        Tensor::vector(vec![0.0, 0.0]).expect("valid"),
        Tensor::scalar(0.0).expect("valid"),
    ];
    let wrong_shape = vec![
        Tensor::vector(vec![0.0, 0.0]).expect("valid"),
        Tensor::vector(vec![0.0, 0.0]).expect("valid"),
    ];
    assert!(state_fits_parameters(&fitting, &parameters));
    assert!(!state_fits_parameters(&wrong_shape, &parameters));
    assert!(!state_fits_parameters(&fitting[..1], &parameters));
    assert!(!state_fits_parameters::<f64>(&[], &parameters));
}

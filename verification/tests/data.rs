use rustgrad::data::{one_hot as one_hot_with, validate_positive, Dataset};
use rustgrad::tensor::Tensor;
use rustgrad::RustGradError;

fn xor() -> Dataset<f64> {
    Dataset::new(
        "xor",
        Tensor::matrix(4, 2, vec![0.0, 0.0, 0.0, 1.0, 1.0, 0.0, 1.0, 1.0]).expect("features"),
        Tensor::matrix(4, 1, vec![0.0, 1.0, 1.0, 0.0]).expect("targets"),
    )
    .expect("valid xor dataset")
}

#[test]
fn dataset_new_stores_metadata_and_shapes() {
    let dataset = Dataset::new(
        "toy",
        Tensor::matrix(2, 2, vec![1.0, 2.0, 3.0, 4.0]).expect("valid features"),
        Tensor::matrix(2, 1, vec![0.0, 1.0]).expect("valid targets"),
    )
    .expect("valid dataset");

    assert_eq!(dataset.name(), "toy");
    assert_eq!(dataset.len(), 2);
    assert!(!dataset.is_empty());
    assert_eq!(dataset.input_size(), 2);
    assert_eq!(dataset.target_size(), 1);
    assert_eq!(dataset.features().dims(), &[2, 2]);
    assert_eq!(dataset.targets().dims(), &[2, 1]);
}

#[test]
fn dataset_new_rejects_empty_name() {
    let error = Dataset::new(
        " ",
        Tensor::matrix(1, 1, vec![1.0]).expect("valid features"),
        Tensor::matrix(1, 1, vec![1.0]).expect("valid targets"),
    )
    .expect_err("empty name should fail");

    assert_eq!(
        error,
        RustGradError::InvalidArgument {
            name: "name",
            reason: "dataset name must not be empty".to_string(),
        }
    );
}

#[test]
fn dataset_new_rejects_non_matrix_features() {
    let error = Dataset::new(
        "bad",
        Tensor::vector(vec![1.0, 2.0]).expect("invalid feature rank"),
        Tensor::matrix(2, 1, vec![0.0, 1.0]).expect("valid targets"),
    )
    .expect_err("rank one features should fail");

    assert_eq!(
        error,
        RustGradError::InvalidArgument {
            name: "features",
            reason: "dataset features must be rank 2, got rank 1".to_string(),
        }
    );
}

#[test]
fn dataset_new_rejects_non_matrix_targets() {
    let error = Dataset::new(
        "bad",
        Tensor::matrix(2, 1, vec![1.0, 2.0]).expect("valid features"),
        Tensor::vector(vec![0.0, 1.0]).expect("invalid target rank"),
    )
    .expect_err("rank one targets should fail");

    assert_eq!(
        error,
        RustGradError::InvalidArgument {
            name: "targets",
            reason: "dataset targets must be rank 2, got rank 1".to_string(),
        }
    );
}

#[test]
fn dataset_new_rejects_row_count_mismatch() {
    let error = Dataset::new(
        "bad",
        Tensor::matrix(2, 1, vec![1.0, 2.0]).expect("valid features"),
        Tensor::matrix(1, 1, vec![1.0]).expect("valid targets"),
    )
    .expect_err("row mismatch should fail");

    assert_eq!(
        error,
        RustGradError::ShapeMismatch {
            op: "dataset rows",
            left: vec![2, 1],
            right: vec![1, 1],
        }
    );
}

#[test]
fn dataset_sample_returns_feature_and_target_vectors() {
    let dataset = Dataset::new(
        "toy",
        Tensor::matrix(2, 2, vec![1.0, 2.0, 3.0, 4.0]).expect("valid features"),
        Tensor::matrix(2, 2, vec![1.0, 0.0, 0.0, 1.0]).expect("valid targets"),
    )
    .expect("valid dataset");

    let (features, targets) = dataset.sample(1).expect("sample should exist");

    assert_eq!(features.dims(), &[2]);
    assert_eq!(targets.dims(), &[2]);
    assert_eq!(features.data(), &[3.0, 4.0]);
    assert_eq!(targets.data(), &[0.0, 1.0]);
}

#[test]
fn dataset_sample_rejects_out_of_bounds_index() {
    let dataset = xor();

    let error = dataset
        .sample(4)
        .expect_err("index equal to len should fail");

    assert_eq!(
        error,
        RustGradError::IndexOutOfBounds {
            index: vec![4],
            shape: vec![4],
        }
    );
}

#[test]
fn dataset_batch_returns_contiguous_rows() {
    let dataset = Dataset::new(
        "toy",
        Tensor::matrix(3, 2, vec![1.0, 2.0, 3.0, 4.0, 5.0, 6.0]).expect("valid features"),
        Tensor::matrix(3, 1, vec![10.0, 20.0, 30.0]).expect("valid targets"),
    )
    .expect("valid dataset");

    let batch = dataset.batch(1, 2).expect("batch should exist");

    assert_eq!(batch.name(), "toy[1..3]");
    assert_eq!(batch.len(), 2);
    assert_eq!(batch.input_size(), 2);
    assert_eq!(batch.target_size(), 1);
    assert_eq!(batch.features().data(), &[3.0, 4.0, 5.0, 6.0]);
    assert_eq!(batch.targets().data(), &[20.0, 30.0]);
}

#[test]
fn dataset_batch_rejects_zero_batch_size() {
    let dataset = xor();

    let error = dataset
        .batch(0, 0)
        .expect_err("zero batch size should fail");

    assert_eq!(
        error,
        RustGradError::InvalidArgument {
            name: "batch_size",
            reason: "value must be greater than zero".to_string(),
        }
    );
}

#[test]
fn dataset_batch_rejects_out_of_bounds_range() {
    let dataset = xor();

    let error = dataset
        .batch(3, 2)
        .expect_err("range past dataset length should fail");

    assert_eq!(
        error,
        RustGradError::IndexOutOfBounds {
            index: vec![3, 5],
            shape: vec![4],
        }
    );
}

#[test]
fn dataset_batch_rejects_overflowing_range() {
    let dataset = xor();

    assert_eq!(
        dataset.batch(usize::MAX, 1).expect_err("overflow"),
        RustGradError::InvalidArgument {
            name: "batch_size",
            reason: "batch range overflows usize".to_string(),
        }
    );
}

#[test]
fn xor_dataset_has_expected_truth_table() {
    let dataset = xor();

    assert_eq!(dataset.name(), "xor");
    assert_eq!(dataset.len(), 4);
    assert_eq!(dataset.input_size(), 2);
    assert_eq!(dataset.target_size(), 1);
    assert_eq!(
        dataset.features().data(),
        &[0.0, 0.0, 0.0, 1.0, 1.0, 0.0, 1.0, 1.0]
    );
    assert_eq!(dataset.targets().data(), &[0.0, 1.0, 1.0, 0.0]);
}

#[test]
fn dataset_name_with_unicode_whitespace_only_is_blank() {
    let error = Dataset::new(
        "\t\u{3000}\n",
        Tensor::matrix(1, 1, vec![1.0]).expect("valid features"),
        Tensor::matrix(1, 1, vec![1.0]).expect("valid targets"),
    )
    .expect_err("blank name");
    assert_eq!(
        error,
        RustGradError::InvalidArgument {
            name: "name",
            reason: "dataset name must not be empty".to_string(),
        }
    );
    let ok = Dataset::new(
        " a ",
        Tensor::matrix(1, 1, vec![1.0]).expect("valid features"),
        Tensor::matrix(1, 1, vec![1.0]).expect("valid targets"),
    )
    .expect("non-blank name");
    assert_eq!(ok.clone().name(), " a ");
}

#[test]
fn validate_positive_rejects_zero() {
    assert!(validate_positive("samples", 3).is_ok());
    assert_eq!(
        validate_positive("samples", 0).expect_err("zero"),
        RustGradError::InvalidArgument {
            name: "samples",
            reason: "value must be greater than zero".to_string(),
        }
    );
}

fn one_hot(class_index: usize, classes: usize) -> Result<Vec<f64>, RustGradError> {
    one_hot_with(class_index, classes, 0.0, 1.0)
}

#[test]
fn one_hot_encodes_class_index() {
    assert_eq!(
        one_hot(2, 4).expect("valid class"),
        vec![0.0, 0.0, 1.0, 0.0]
    );
}

#[test]
fn one_hot_rejects_zero_classes() {
    let error = one_hot(0, 0).expect_err("zero classes should fail");

    assert_eq!(
        error,
        RustGradError::InvalidArgument {
            name: "classes",
            reason: "classes must be greater than zero".to_string(),
        }
    );
}

#[test]
fn one_hot_rejects_out_of_range_class() {
    let error = one_hot(3, 3).expect_err("class index should fail");

    assert_eq!(
        error,
        RustGradError::InvalidArgument {
            name: "class_index",
            reason: "class index 3 is out of range for 3 classes".to_string(),
        }
    );
}

#[test]
fn one_hot_works_for_any_pair_of_values() {
    assert_eq!(one_hot_with(0, 3, 'n', 'y'), Ok(vec!['y', 'n', 'n']));
    assert_eq!(one_hot_with(0, 1, 0u8, 1u8), Ok(vec![1]));
}

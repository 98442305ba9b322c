//! Supervised datasets: named feature and target matrices.
use vstd::prelude::*;
use vstd::string::*;

use crate::error::{
    Result,
    RustGradError,
    is_index_out_of_bounds,
    is_invalid_argument,
    is_shape_mismatch,
};
use crate::tensor::{Tensor, built_from, product, valid_dims, lemma_product_small};
use crate::text::{blank, decimal, is_blank, push_decimal};

verus! {

/// The error for a count that must be positive.
pub open spec fn is_not_positive_error(e: RustGradError, name: Seq<char>) -> bool {
    is_invalid_argument(e, name, "value must be greater than zero"@)
}

/// Rejects a zero count.
pub fn validate_positive(name: &'static str, value: usize) -> (r: Result<()>)
    ensures
        r is Ok <==> value > 0,
        r matches Err(e) ==> is_not_positive_error(e, name@),
{
    if value == 0 {
        let reason = "value must be greater than zero".to_owned();
        Err(RustGradError::InvalidArgument { name, reason })
    } else {
        Ok(())
    }
}

/// The error for a dataset tensor that is not a matrix.
pub open spec fn is_not_matrix_error(e: RustGradError, name: Seq<char>, rank: nat) -> bool {
    is_invalid_argument(e, name, "dataset "@ + name + " must be rank 2, got rank "@ + decimal(rank))
}

fn validate_matrix<T>(name: &'static str, tensor: &Tensor<T>) -> (r: Result<()>)
    ensures
        r is Ok <==> tensor.spec_dims().len() == 2,
        r matches Err(e) ==> is_not_matrix_error(e, name@, tensor.spec_dims().len()),
{
    let rank = tensor.rank();
    if rank == 2 {
        Ok(())
    } else {
        let mut reason = String::new();
        reason.append("dataset ");
        reason.append(name);
        reason.append(" must be rank 2, got rank ");
        push_decimal(&mut reason, rank);
        assert(reason@ =~= "dataset "@ + name@ + " must be rank 2, got rank "@ + decimal(rank as nat));
        Err(RustGradError::InvalidArgument { name, reason })
    }
}

/// In-memory supervised dataset with feature and target matrices.
///
/// Each row represents one sample.
#[derive(Debug, PartialEq)]
pub struct Dataset<T> {
    name: String,
    features: Tensor<T>,
    targets: Tensor<T>,
}

/// The values of row `row` of a row-major matrix with `cols` columns.
pub open spec fn row_of<T>(data: Seq<T>, row: int, cols: int) -> Seq<T> {
    data.subrange(row * cols, row * cols + cols)
}

/// Rows `start` up to `end` of a row-major matrix with `cols` columns.
pub open spec fn rows_of<T>(data: Seq<T>, start: int, end: int, cols: int) -> Seq<T> {
    data.subrange(start * cols, end * cols)
}

/// A range of rows of a matrix lies within its values.
proof fn lemma_rows_in_bounds(start: int, end: int, rows: int, cols: int)
    requires
        0 <= start <= end <= rows,
        cols >= 0,
    ensures
        0 <= start * cols <= end * cols <= rows * cols,
{
    assert(0 <= start * cols) by (nonlinear_arith)
        requires
            start >= 0,
            cols >= 0,
    ;
    assert(start * cols <= end * cols) by (nonlinear_arith)
        requires
            start <= end,
            cols >= 0,
    ;
    assert(end * cols <= rows * cols) by (nonlinear_arith)
        requires
            end <= rows,
            cols >= 0,
    ;
}

fn copy_range<T: Copy>(data: &[T], start: usize, end: usize) -> (v: Vec<T>)
    requires
        start <= end <= data@.len(),
    ensures
        v@ == data@.subrange(start as int, end as int),
{
    let mut out: Vec<T> = Vec::new();
    let mut i = start;
    while i < end
        invariant
            start <= i <= end,
            end <= data@.len(),
            out@ == data@.subrange(start as int, i as int),
        decreases end - i,
    {
        out.push(data[i]);
        i += 1;
        assert(out@ =~= data@.subrange(start as int, i as int));
    }
    out
}

impl<T> Dataset<T> {
    /// The dataset name.
    pub closed spec fn spec_name(&self) -> Seq<char> {
        self.name@
    }

    /// The feature matrix.
    pub closed spec fn spec_features(&self) -> Tensor<T> {
        self.features
    }

    /// The target matrix.
    pub closed spec fn spec_targets(&self) -> Tensor<T> {
        self.targets
    }

    /// Number of samples (rows).
    pub open spec fn spec_len(&self) -> nat {
        self.spec_features().spec_dims()[0] as nat
    }

    /// Two well-formed matrices with one row per sample, and a name that is
    /// not blank.
    pub open spec fn well_formed(&self) -> bool {
        &&& self.spec_features().well_formed()
        &&& self.spec_targets().well_formed()
        &&& self.spec_features().spec_dims().len() == 2
        &&& self.spec_targets().spec_dims().len() == 2
        &&& self.spec_features().spec_dims()[0] == self.spec_targets().spec_dims()[0]
        &&& !is_blank(self.spec_name())
    }

    /// Returns the dataset name.
    pub fn name(&self) -> (n: &str)
        ensures
            n@ == self.spec_name(),
    {
        self.name.as_str()
    }

    /// Returns all feature rows.
    pub fn features(&self) -> (f: &Tensor<T>)
        ensures
            *f == self.spec_features(),
    {
        &self.features
    }

    /// Returns all target rows.
    pub fn targets(&self) -> (t: &Tensor<T>)
        ensures
            *t == self.spec_targets(),
    {
        &self.targets
    }

    /// Returns the number of samples.
    pub fn len(&self) -> (n: usize)
        requires
            self.well_formed(),
        ensures
            n == self.spec_len(),
    {
        self.features.dims()[0]
    }

    /// Returns true when the dataset contains no samples.
    pub fn is_empty(&self) -> (b: bool)
        requires
            self.well_formed(),
        ensures
            b == (self.spec_len() == 0),
    {
        self.len() == 0
    }

    /// Returns the number of input features per sample.
    pub fn input_size(&self) -> (n: usize)
        requires
            self.well_formed(),
        ensures
            n == self.spec_features().spec_dims()[1],
    {
        self.features.dims()[1]
    }

    /// Returns the number of target values per sample.
    pub fn target_size(&self) -> (n: usize)
        requires
            self.well_formed(),
        ensures
            n == self.spec_targets().spec_dims()[1],
    {
        self.targets.dims()[1]
    }
}

impl<T: Copy> Clone for Dataset<T> {
    fn clone(&self) -> (r: Self)
        ensures
            r.spec_name() == self.spec_name(),
            r.spec_features().spec_dims() == self.spec_features().spec_dims(),
            r.spec_features().spec_data() == self.spec_features().spec_data(),
            r.spec_targets().spec_dims() == self.spec_targets().spec_dims(),
            r.spec_targets().spec_data() == self.spec_targets().spec_data(),
    {
        Dataset { name: self.name.clone(), features: self.features.clone(), targets: self.targets.clone() }
    }
}

impl<T: Copy> Dataset<T> {
    /// Creates a supervised dataset from feature and target matrices.
    ///
    /// Both tensors must be matrices with the same number of rows, and the
    /// name must hold a non-whitespace character.
    pub fn new(name: &str, features: Tensor<T>, targets: Tensor<T>) -> (r: Result<Dataset<T>>)
        requires
            features.well_formed(),
            targets.well_formed(),
        ensures
            features.spec_dims().len() != 2 ==> r is Err && is_not_matrix_error(
                r->Err_0,
                "features"@,
                features.spec_dims().len(),
            ),
            features.spec_dims().len() == 2 && targets.spec_dims().len() != 2 ==> r is Err
                && is_not_matrix_error(r->Err_0, "targets"@, targets.spec_dims().len()),
            features.spec_dims().len() == 2 && targets.spec_dims().len() == 2
                && features.spec_dims()[0] != targets.spec_dims()[0] ==> r is Err && is_shape_mismatch(
                r->Err_0,
                "dataset rows"@,
                features.spec_dims(),
                targets.spec_dims(),
            ),
            features.spec_dims().len() == 2 && targets.spec_dims().len() == 2
                && features.spec_dims()[0] == targets.spec_dims()[0] && is_blank(name@) ==> r is Err
                && is_invalid_argument(r->Err_0, "name"@, "dataset name must not be empty"@),
            r is Ok <==> features.spec_dims().len() == 2 && targets.spec_dims().len() == 2
                && features.spec_dims()[0] == targets.spec_dims()[0] && !is_blank(name@),
            r matches Ok(d) ==> {
                &&& d.spec_name() == name@
                &&& d.spec_features() == features
                &&& d.spec_targets() == targets
                &&& d.well_formed()
            },
    {
        validate_matrix("features", &features)?;
        validate_matrix("targets", &targets)?;
        let feature_rows = features.dims()[0];
        let target_rows = targets.dims()[0];
        if feature_rows != target_rows {
            return Err(
                RustGradError::ShapeMismatch {
                    op: "dataset rows",
                    left: features.shape().to_vec(),
                    right: targets.shape().to_vec(),
                },
            );
        }
        if blank(name) {
            let reason = "dataset name must not be empty".to_owned();
            return Err(RustGradError::InvalidArgument { name: "name", reason });
        }
        Ok(Dataset { name: name.to_owned(), features, targets })
    }

    /// Returns one sample as feature and target vectors.
    pub fn sample(&self, index: usize) -> (r: Result<(Tensor<T>, Tensor<T>)>)
        requires
            self.well_formed(),
        ensures
            r is Ok <==> index < self.spec_len(),
            r matches Err(e) ==> is_index_out_of_bounds(e, seq![index], seq![self.spec_len() as usize]),
            r matches Ok(p) ==> {
                let fc = self.spec_features().spec_dims()[1] as int;
                let tc = self.spec_targets().spec_dims()[1] as int;
                &&& p.0.spec_dims() == seq![fc as usize]
                &&& p.0.spec_data() == row_of(self.spec_features().spec_data(), index as int, fc)
                &&& p.0.well_formed()
                &&& p.1.spec_dims() == seq![tc as usize]
                &&& p.1.spec_data() == row_of(self.spec_targets().spec_data(), index as int, tc)
                &&& p.1.well_formed()
            },
    {
        let len = self.len();
        if index >= len {
            let i = vec![index];
            let s = vec![len];
            assert(i@ =~= seq![index]);
            assert(s@ =~= seq![len]);
            return Err(RustGradError::IndexOutOfBounds { index: i, shape: s });
        }
        let features = row_as_vector(&self.features, index);
        let targets = row_as_vector(&self.targets, index);
        Ok((features, targets))
    }

    /// Returns a contiguous batch of rows as a new dataset named
    /// `name[start..end]`.
    pub fn batch(&self, start: usize, batch_size: usize) -> (r: Result<Dataset<T>>)
        requires
            self.well_formed(),
        ensures
            batch_size == 0 ==> r is Err && is_invalid_argument(
                r->Err_0,
                "batch_size"@,
                "value must be greater than zero"@,
            ),
            batch_size > 0 && start + batch_size > usize::MAX ==> r is Err && is_invalid_argument(
                r->Err_0,
                "batch_size"@,
                "batch range overflows usize"@,
            ),
            batch_size > 0 && start + batch_size <= usize::MAX && (start >= self.spec_len() || start
                + batch_size > self.spec_len()) ==> r is Err && is_index_out_of_bounds(
                r->Err_0,
                seq![start, (start + batch_size) as usize],
                seq![self.spec_len() as usize],
            ),
            r is Ok <==> batch_size > 0 && start < self.spec_len() && start + batch_size
                <= self.spec_len(),
            r matches Ok(b) ==> {
                let end = start + batch_size;
                let fc = self.spec_features().spec_dims()[1] as int;
                let tc = self.spec_targets().spec_dims()[1] as int;
                &&& b.well_formed()
                &&& b.spec_name() == self.spec_name() + "["@ + decimal(start as nat) + ".."@
                    + decimal(end as nat) + "]"@
                &&& b.spec_features().spec_dims() == seq![batch_size, fc as usize]
                &&& b.spec_features().spec_data() == rows_of(
                    self.spec_features().spec_data(),
                    start as int,
                    end,
                    fc,
                )
                &&& b.spec_targets().spec_dims() == seq![batch_size, tc as usize]
                &&& b.spec_targets().spec_data() == rows_of(
                    self.spec_targets().spec_data(),
                    start as int,
                    end,
                    tc,
                )
            },
    {
        validate_positive("batch_size", batch_size)?;
        let end = match start.checked_add(batch_size) {
            Some(end) => end,
            None => {
                let reason = "batch range overflows usize".to_owned();
                return Err(RustGradError::InvalidArgument { name: "batch_size", reason });
            },
        };
        let len = self.len();
        if start >= len || end > len {
            let i = vec![start, end];
            let s = vec![len];
            assert(i@ =~= seq![start, end]);
            assert(s@ =~= seq![len]);
            return Err(RustGradError::IndexOutOfBounds { index: i, shape: s });
        }
        let feature_cols = self.input_size();
        let target_cols = self.target_size();
        let feature_total = self.features.len();
        let target_total = self.targets.len();
        proof {
            assert(self.features.spec_dims() =~= seq![len, feature_cols]);
            assert(self.targets.spec_dims() =~= seq![len, target_cols]);
            lemma_product_small(len, feature_cols);
            lemma_product_small(len, target_cols);
            lemma_rows_in_bounds(start as int, end as int, len as int, feature_cols as int);
            lemma_rows_in_bounds(start as int, end as int, len as int, target_cols as int);
            assert((end - start) * feature_cols == end * feature_cols - start * feature_cols)
                by (nonlinear_arith);
            assert((end - start) * target_cols == end * target_cols - start * target_cols)
                by (nonlinear_arith);
            lemma_product_small(batch_size, feature_cols);
            lemma_product_small(batch_size, target_cols);
        }
        let feature_start = start * feature_cols;
        let feature_end = end * feature_cols;
        let target_start = start * target_cols;
        let target_end = end * target_cols;
        let fdata = copy_range(self.features.data(), feature_start, feature_end);
        let tdata = copy_range(self.targets.data(), target_start, target_end);
        let mut name = String::new();
        name.append(self.name.as_str());
        name.append("[");
        push_decimal(&mut name, start);
        name.append("..");
        push_decimal(&mut name, end);
        name.append("]");
        proof {
            reveal_strlit("[");
            let n = name@;
            let k = self.name@.len() as int;
            assert(n[k] == '[');
            assert(!is_blank(n)) by {
                assert(!crate::text::is_whitespace_char(n[k]));
            }
        }
        proof {
            assert(self.features.spec_dims()[1] > 0);
            assert(self.targets.spec_dims()[1] > 0);
            assert(valid_dims(seq![batch_size, feature_cols])) by {
                assert(seq![batch_size, feature_cols][0] > 0);
                assert(seq![batch_size, feature_cols][1] > 0);
            }
            assert(valid_dims(seq![batch_size, target_cols])) by {
                assert(seq![batch_size, target_cols][0] > 0);
                assert(seq![batch_size, target_cols][1] > 0);
            }
        }
        let features = Tensor::matrix(batch_size, feature_cols, fdata);
        let targets = Tensor::matrix(batch_size, target_cols, tdata);
        assert(batch_size * feature_cols > 0) by (nonlinear_arith)
            requires
                batch_size > 0,
                feature_cols > 0,
        ;
        assert(batch_size * target_cols > 0) by (nonlinear_arith)
            requires
                batch_size > 0,
                target_cols > 0,
        ;
        match (features, targets) {
            (Ok(features), Ok(targets)) => {
                assert(features.spec_dims()[0] == targets.spec_dims()[0]);
                assert(!is_blank(name@));
                let r = Dataset::new(name.as_str(), features, targets);
                assert(name@ =~= self.spec_name() + "["@ + decimal(start as nat) + ".."@
                    + decimal(end as nat) + "]"@);
                r
            },
            (Err(e), _) => Err(e),
            (_, Err(e)) => Err(e),
        }
    }
}

fn row_as_vector<T: Copy>(tensor: &Tensor<T>, row: usize) -> (v: Tensor<T>)
    requires
        tensor.well_formed(),
        tensor.spec_dims().len() == 2,
        row < tensor.spec_dims()[0],
    ensures
        v.spec_dims() == seq![tensor.spec_dims()[1]],
        v.spec_data() == row_of(tensor.spec_data(), row as int, tensor.spec_dims()[1] as int),
        v.well_formed(),
{
    let rows = tensor.dims()[0];
    let cols = tensor.dims()[1];
    let total = tensor.len();
    proof {
        assert(tensor.spec_dims() =~= seq![rows, cols]);
        lemma_product_small(rows, cols);
        lemma_rows_in_bounds(row as int, row + 1, rows as int, cols as int);
        assert((row + 1) * cols == row * cols + cols) by (nonlinear_arith);
        lemma_product_small(cols, 1);
    }
    let start = row * cols;
    let end = start + cols;
    let values = copy_range(tensor.data(), start, end);
    match Tensor::vector(values) {
        Ok(v) => v,
        Err(_) => vstd::pervasive::unreached(),
    }
}

/// A one-hot encoding: `off` everywhere but `on` at `index`.
pub open spec fn one_hot_values<T>(index: int, classes: nat, off: T, on: T) -> Seq<T> {
    Seq::new(classes, |i: int| if i == index { on } else { off })
}

/// A one-hot vector has one entry per class: `on` at the class's position
/// and `off` at every other one, so that when `on` and `off` differ exactly
/// one entry is `on`.
pub proof fn lemma_one_hot_marks_one_class<T>(index: int, classes: nat, off: T, on: T)
    requires
        0 <= index < classes,
    ensures
        one_hot_values(index, classes, off, on).len() == classes,
        one_hot_values(index, classes, off, on)[index] == on,
        forall|i: int|
            0 <= i < classes && i != index ==> #[trigger] one_hot_values(index, classes, off, on)[i]
                == off,
        on != off ==> forall|i: int|
            0 <= i < classes && #[trigger] one_hot_values(index, classes, off, on)[i] == on ==> i
                == index,
{
}

/// Creates a one-hot encoded vector of `classes` entries, `on` at
/// `class_index` and `off` elsewhere.
pub fn one_hot<T: Copy>(class_index: usize, classes: usize, off: T, on: T) -> (r: Result<Vec<T>>)
    ensures
        r is Ok <==> 0 < classes && class_index < classes,
        classes == 0 ==> r is Err && is_invalid_argument(
            r->Err_0,
            "classes"@,
            "classes must be greater than zero"@,
        ),
        0 < classes <= class_index ==> r is Err && is_invalid_argument(
            r->Err_0,
            "class_index"@,
            "class index "@ + decimal(class_index as nat) + " is out of range for "@ + decimal(
                classes as nat,
            ) + " classes"@,
        ),
        r matches Ok(v) ==> v@ == one_hot_values(class_index as int, classes as nat, off, on),
{
    if classes == 0 {
        let reason = "classes must be greater than zero".to_owned();
        return Err(RustGradError::InvalidArgument { name: "classes", reason });
    }
    if class_index >= classes {
        let mut reason = String::new();
        reason.append("class index ");
        push_decimal(&mut reason, class_index);
        reason.append(" is out of range for ");
        push_decimal(&mut reason, classes);
        reason.append(" classes");
        return Err(RustGradError::InvalidArgument { name: "class_index", reason });
    }
    let mut encoded: Vec<T> = Vec::new();
    let mut i: usize = 0;
    while i < classes
        invariant
            i <= classes,
            class_index < classes,
            encoded@ == one_hot_values(class_index as int, i as nat, off, on),
        decreases classes - i,
    {
        if i == class_index {
            encoded.push(on);
        } else {
            encoded.push(off);
        }
        i += 1;
        assert(encoded@ =~= one_hot_values(class_index as int, i as nat, off, on));
    }
    Ok(encoded)
}

} // verus!

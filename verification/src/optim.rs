//! Gradient collections and the checks optimizers run before updating parameters.
use vstd::prelude::*;
use vstd::string::*;

use crate::error::{Result, RustGradError, is_invalid_argument, is_shape_mismatch};
use crate::tensor::{Tensor, same_dims};
use crate::text::{decimal, push_decimal};

verus! {

/// Gradients aligned with a model's trainable parameters, in parameter order.
#[derive(Debug, Clone, Default, PartialEq)]
pub struct GradientSet<G> {
    gradients: Vec<G>,
}

impl<G> View for GradientSet<G> {
    type V = Seq<G>;

    closed spec fn view(&self) -> Seq<G> {
        self.gradients@
    }
}

impl<G> GradientSet<G> {
    /// Creates an empty gradient collection.
    pub fn new() -> (s: Self)
        ensures
            s@ == Seq::<G>::empty(),
    {
        GradientSet { gradients: Vec::new() }
    }

    /// Creates a gradient collection from gradients in parameter order.
    pub fn from_tensors(gradients: Vec<G>) -> (s: Self)
        ensures
            s@ == gradients@,
    {
        GradientSet { gradients }
    }

    /// Returns the number of stored gradients.
    pub fn len(&self) -> (n: usize)
        ensures
            n == self@.len(),
    {
        self.gradients.len()
    }

    /// Returns true when no gradients are stored.
    pub fn is_empty(&self) -> (b: bool)
        ensures
            b == (self@.len() == 0),
    {
        self.gradients.len() == 0
    }

    /// Returns a gradient by index.
    pub fn get(&self, index: usize) -> (r: Option<&G>)
        ensures
            r is Some <==> index < self@.len(),
            r matches Some(g) ==> *g == self@[index as int],
    {
        if index < self.gradients.len() {
            Some(&self.gradients[index])
        } else {
            None
        }
    }

    /// Returns the gradients in parameter order.
    pub fn iter(&self) -> (s: &[G])
        ensures
            s@ == self@,
    {
        self.gradients.as_slice()
    }

    /// Removes all stored gradients.
    pub fn clear(&mut self)
        ensures
            final(self)@ == Seq::<G>::empty(),
    {
        self.gradients.clear();
    }
}

impl<G> From<Vec<G>> for GradientSet<G> {
    fn from(gradients: Vec<G>) -> (s: Self)
        ensures
            s@ == gradients@,
    {
        GradientSet { gradients }
    }
}

impl<G> vstd::std_specs::convert::FromSpecImpl<Vec<G>> for GradientSet<G> {
    open spec fn obeys_from_spec() -> bool {
        true
    }

    closed spec fn from_spec(v: Vec<G>) -> Self {
        GradientSet { gradients: v }
    }
}

/// The error for a gradient count that differs from the parameter count.
pub open spec fn is_gradient_count_error(e: RustGradError, parameters: nat, gradients: nat) -> bool {
    is_invalid_argument(
        e,
        "gradients"@,
        "expected "@ + decimal(parameters) + " gradients, got "@ + decimal(gradients),
    )
}

/// Rejects a gradient count that differs from the parameter count.
pub fn validate_parameter_gradient_count(parameter_count: usize, gradient_count: usize) -> (r: Result<()>)
    ensures
        r is Ok <==> parameter_count == gradient_count,
        r matches Err(e) ==> is_gradient_count_error(e, parameter_count as nat, gradient_count as nat),
{
    if parameter_count == gradient_count {
        Ok(())
    } else {
        let mut reason = String::new();
        reason.append("expected ");
        push_decimal(&mut reason, parameter_count);
        reason.append(" gradients, got ");
        push_decimal(&mut reason, gradient_count);
        assert(reason@ =~= "expected "@ + decimal(parameter_count as nat) + " gradients, got "@ + decimal(
            gradient_count as nat,
        ));
        Err(RustGradError::InvalidArgument { name: "gradients", reason })
    }
}

/// Rejects a gradient whose dimensions differ from its parameter's.
pub fn validate_gradient_shape<T>(parameter: &Tensor<T>, gradient: &Tensor<T>) -> (r: Result<()>)
    ensures
        r is Ok <==> parameter.spec_dims() == gradient.spec_dims(),
        r matches Err(e) ==> is_shape_mismatch(
            e,
            "optimizer gradient"@,
            parameter.spec_dims(),
            gradient.spec_dims(),
        ),
{
    if same_dims(parameter.dims(), gradient.dims()) {
        Ok(())
    } else {
        Err(
            RustGradError::ShapeMismatch {
                op: "optimizer gradient",
                left: parameter.shape().to_vec(),
                right: gradient.shape().to_vec(),
            },
        )
    }
}

/// The first pair, in parameter order, whose gradient has other dimensions
/// than its parameter.
pub open spec fn first_shape_mismatch<T>(parameters: Seq<&mut Tensor<T>>, gradients: Seq<Tensor<T>>, i: int) -> bool {
    &&& 0 <= i < parameters.len()
    &&& parameters[i].spec_dims() != gradients[i].spec_dims()
    &&& forall|j: int| 0 <= j < i ==> parameters[j].spec_dims() == (#[trigger] gradients[j]).spec_dims()
}

/// Checks that there is one gradient per parameter and that each has its
/// parameter's dimensions.
pub fn validate_parameter_gradient_shapes<T>(
    parameters: &[&mut Tensor<T>],
    gradients: &GradientSet<Tensor<T>>,
) -> (r: Result<()>)
    ensures
        r is Ok <==> parameters@.len() == gradients@.len() && forall|j: int|
            0 <= j < parameters@.len() ==> parameters@[j].spec_dims() == (
            #[trigger] gradients@[j]).spec_dims(),
        parameters@.len() != gradients@.len() ==> r is Err && is_gradient_count_error(
            r->Err_0,
            parameters@.len(),
            gradients@.len(),
        ),
        forall|i: int|
            parameters@.len() == gradients@.len() && #[trigger] first_shape_mismatch(
                parameters@,
                gradients@,
                i,
            ) ==> r is Err && is_shape_mismatch(
                r->Err_0,
                "optimizer gradient"@,
                parameters@[i].spec_dims(),
                gradients@[i].spec_dims(),
            ),
{
    validate_parameter_gradient_count(parameters.len(), gradients.len())?;
    let grads = gradients.iter();
    let n = parameters.len();
    let mut i: usize = 0;
    while i < n
        invariant
            n == parameters@.len(),
            n == grads@.len(),
            grads@ == gradients@,
            i <= n,
            forall|j: int| 0 <= j < i ==> parameters@[j].spec_dims() == (#[trigger] grads@[j]).spec_dims(),
        decreases n - i,
    {
        let parameter: &Tensor<T> = &*parameters[i];
        if let Err(e) = validate_gradient_shape(parameter, &grads[i]) {
            assert(first_shape_mismatch(parameters@, gradients@, i as int));
            return Err(e);
        }
        i += 1;
    }
    Ok(())
}

/// Optimizer state, one tensor per parameter, still fits the parameters:
/// as many tensors as parameters, each with its parameter's dimensions.
/// Optimizers rebuild their state when it does not.
pub fn state_fits_parameters<T>(state: &[Tensor<T>], parameters: &[&mut Tensor<T>]) -> (b: bool)
    ensures
        b <==> state@.len() == parameters@.len() && forall|j: int|
            0 <= j < state@.len() ==> (#[trigger] state@[j]).spec_dims()
                == parameters@[j].spec_dims(),
{
    if state.len() != parameters.len() {
        return false;
    }
    let n = state.len();
    let mut i: usize = 0;
    while i < n
        invariant
            n == state@.len(),
            n == parameters@.len(),
            i <= n,
            forall|j: int| 0 <= j < i ==> (#[trigger] state@[j]).spec_dims() == parameters@[j].spec_dims(),
        decreases n - i,
    {
        let parameter: &Tensor<T> = &*parameters[i];
        if !same_dims(state[i].dims(), parameter.dims()) {
            return false;
        }
        i += 1;
    }
    true
}

} // verus!

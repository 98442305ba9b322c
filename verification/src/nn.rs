//! Neural network building blocks.
use vstd::prelude::*;

verus! {

/// Common activation functions used by neural networks.
#[derive(Debug, Clone, Copy, PartialEq, Eq, Structural)]
pub enum Activation {
    /// Rectified linear unit.
    Relu,
    /// Logistic sigmoid.
    Sigmoid,
    /// Hyperbolic tangent.
    Tanh,
    /// Softmax normalization.
    Softmax,
}

/// The stable name of an activation, used in reports and debug output.
pub open spec fn activation_name(a: Activation) -> Seq<char> {
    match a {
        Activation::Relu => "relu"@,
        Activation::Sigmoid => "sigmoid"@,
        Activation::Tanh => "tanh"@,
        Activation::Softmax => "softmax"@,
    }
}

impl Activation {
    /// Returns the activation name used in reports and debug output.
    pub fn name(self) -> (r: &'static str)
        ensures
            r@ == activation_name(self),
    {
        match self {
            Activation::Relu => "relu",
            Activation::Sigmoid => "sigmoid",
            Activation::Tanh => "tanh",
            Activation::Softmax => "softmax",
        }
    }
}

} // verus!

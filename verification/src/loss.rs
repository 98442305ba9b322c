//! Loss functions for supervised learning.
use vstd::prelude::*;

verus! {

/// Mean squared error loss.
#[derive(Debug, Clone, Copy, Default, PartialEq, Eq, Structural)]
pub struct MSELoss;

impl MSELoss {
    /// Creates a mean squared error loss.
    pub fn new() -> (l: Self)
        ensures
            l == MSELoss,
    {
        MSELoss
    }
}

} // verus!

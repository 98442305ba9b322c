//! Core pieces of a small deep learning framework, with their behaviour stated and proved.
use vstd::prelude::*;

pub mod autograd;
pub mod cli;
pub mod data;
pub mod error;
pub mod loss;
pub mod node_order;
pub mod nn;
pub mod optim;
pub mod options;
pub mod report;
pub mod serialize;
pub mod tensor;
pub mod text;
pub mod train;

pub use error::{Result, RustGradError};

verus! {

/// Returns the crate version.
pub fn version() -> (v: &'static str)
    ensures
        v@ == "0.1.0"@,
{
    "0.1.0"
}

} // verus!

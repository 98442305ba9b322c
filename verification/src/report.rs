//! Checks shared by the report exporters.
use vstd::prelude::*;
use vstd::string::*;

use crate::error::{Result, RustGradError, is_invalid_argument};
use crate::text::{blank, is_blank};

verus! {

/// Rejects a report title that holds nothing but whitespace.
pub fn validate_title(title: &str) -> (r: Result<()>)
    ensures
        r is Ok <==> !is_blank(title@),
        r matches Err(e) ==> is_invalid_argument(e, "title"@, "report title must not be empty"@),
{
    if blank(title) {
        let reason = "report title must not be empty".to_owned();
        Err(RustGradError::InvalidArgument { name: "title", reason })
    } else {
        Ok(())
    }
}

} // verus!

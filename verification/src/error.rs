//! The error of asking for the router before it was configured.
use vstd::prelude::*;

verus! {

/// The router has not been set up yet.
pub struct RouterNotSetError;

impl RouterNotSetError {
    /// The text the error is shown as.
    pub fn to_string(&self) -> (r: String)
        ensures
            r@ == "Router not set"@,
    {
        "Router not set".to_owned()
    }
}

} // verus!

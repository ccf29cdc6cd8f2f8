//! The router's general error: a message.
use vstd::prelude::*;

verus! {

/// An error that carries a message for the operator.
pub struct OspfError {
    pub message: String,
}

impl OspfError {
    pub fn new(message: String) -> (r: Self)
        ensures
            r.message@ == message@,
    {
        OspfError { message }
    }

    /// The text the error is shown as: its message.
    pub fn to_string(&self) -> (r: String)
        ensures
            r@ == self.message@,
    {
        self.message.clone()
    }
}

} // verus!

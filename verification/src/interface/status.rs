//! The states of an interface.
use vstd::prelude::*;

verus! {

/// The state of an interface, in the order of the interface state machine.
#[derive(PartialEq, Eq, PartialOrd, Ord, Clone, Copy, Debug, Structural)]
pub enum Status {
    Down,
    Loopback,
    Waiting,
    PointToPoint,
    DRother,
    Backup,
    Question,
    DR,
}

} // verus!

//! The states of a neighbor conversation.
use vstd::prelude::*;

verus! {

/// The state of the conversation with a neighbor. The declaration order is the order in which
/// states compare: `Attempt` comes last.
#[derive(Clone, Copy, PartialEq, Eq, PartialOrd, Ord, Debug, Structural)]
pub enum Status {
    Down,
    Init,
    TwoWay,
    ExStart,
    Exchange,
    Loading,
    Full,
    Attempt,
}

impl Status {
    /// The position of the state in the declaration order.
    pub open spec fn rank(self) -> int {
        match self {
            Status::Down => 0,
            Status::Init => 1,
            Status::TwoWay => 2,
            Status::ExStart => 3,
            Status::Exchange => 4,
            Status::Loading => 5,
            Status::Full => 6,
            Status::Attempt => 7,
        }
    }

    /// The position of the state in the declaration order.
    pub fn position(&self) -> (r: u8)
        ensures
            r == self.rank(),
    {
        match self {
            Status::Down => 0,
            Status::Init => 1,
            Status::TwoWay => 2,
            Status::ExStart => 3,
            Status::Exchange => 4,
            Status::Loading => 5,
            Status::Full => 6,
            Status::Attempt => 7,
        }
    }
}

} // verus!

use vstd::prelude::*;

verus! {

/// The coarse phase of a connection's wire protocol.
#[derive(Debug, Clone, Copy, PartialEq, Eq, Structural, Hash)]
pub enum Stage {
    Handshake,
    Status,
    Login,
    Config,
    Play,
    Transfer,
    Invalid,
}

impl Stage {
    /// The stage a handshake's next-stage field selects.
    pub fn from_id(id: i32) -> (r: Stage)
        ensures
            r == Stage::spec_from_id(id),
    {
        if id == 1 {
            Stage::Status
        } else if id == 2 {
            Stage::Login
        } else if id == 3 {
            Stage::Transfer
        } else {
            Stage::Invalid
        }
    }

    pub open spec fn spec_from_id(id: i32) -> Stage {
        if id == 1 {
            Stage::Status
        } else if id == 2 {
            Stage::Login
        } else if id == 3 {
            Stage::Transfer
        } else {
            Stage::Invalid
        }
    }
}

} // verus!

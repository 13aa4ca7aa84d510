//! Ways to hand bytes and values from one task to another.
use vstd::prelude::*;

pub mod futurized;
pub mod push;
pub mod ring;

pub use futurized::{ReadPermitFuturized, RingFuturized, WritePermitFuturized};
pub use push::Pusher;
pub use ring::{ReadPermit, Ring, TruncateLength, WritePermit};

verus! {

/// Whether a permit is out.
#[derive(Debug, Copy, Clone, PartialEq, Eq, Structural)]
pub enum PermitState {
    Unleashed,
    TakenOut,
}

impl Default for PermitState {
    fn default() -> (r: PermitState)
        ensures
            r == PermitState::Unleashed,
    {
        PermitState::Unleashed
    }
}

impl PermitState {
    /// The number of this state.
    pub open spec fn code(self) -> u8 {
        match self {
            PermitState::Unleashed => 0,
            PermitState::TakenOut => 1,
        }
    }

    /// The number of this state.
    pub fn to_u8(self) -> (r: u8)
        ensures
            r == self.code(),
    {
        match self {
            PermitState::Unleashed => 0,
            PermitState::TakenOut => 1,
        }
    }

    /// The state with the given number.
    pub fn from_u8(code: u8) -> (r: Option<PermitState>)
        ensures
            match r {
                Some(state) => state.code() == code,
                None => code > 1,
            },
    {
        match code {
            0 => Some(PermitState::Unleashed),
            1 => Some(PermitState::TakenOut),
            _ => None,
        }
    }
}

/// Whether the one who asks for a permit can do with a failure though the permit is
/// not out. A ring that is used by one at a time never fails so.
#[derive(Debug, Copy, Clone, PartialEq, Eq, Structural)]
pub enum LeaseBehavior {
    AllowSpuriousFailures,
    NoSpuriousFailures,
}

impl LeaseBehavior {
    /// Takes the permit out, if it is not.
    pub fn try_acquire_lease(self, state: &mut PermitState) -> (r: bool)
        ensures
            r == (*old(state) == PermitState::Unleashed),
            *final(state) == PermitState::TakenOut,
    {
        match *state {
            PermitState::Unleashed => {
                *state = PermitState::TakenOut;
                true
            },
            PermitState::TakenOut => false,
        }
    }
}

/// The answer to a request for a permit.
#[derive(Debug, Copy, Clone)]
pub enum Lease<Permit> {
    /// There is nothing to permit.
    NoSpace,
    /// The permit may be out.
    PossiblyTaken,
    /// The permit.
    Taken(Permit),
}

impl<Permit> Lease<Permit> {
    /// The permit, if it was given.
    pub fn option(self) -> (r: Option<Permit>)
        ensures
            r == (match self {
                Lease::Taken(permit) => Some(permit),
                _ => None,
            }),
    {
        match self {
            Lease::NoSpace => None,
            Lease::PossiblyTaken => None,
            Lease::Taken(permit) => Some(permit),
        }
    }
}

} // verus!

use vstd::prelude::*;

verus! {

/// Announces that the protocol was paused, at ledger time `timestamp`.
#[derive(Copy, Clone, Debug, PartialEq, Eq, Structural)]
pub struct ContractPaused {
    pub timestamp: u64,
}

/// Announces that the protocol was resumed, at ledger time `timestamp`.
#[derive(Copy, Clone, Debug, PartialEq, Eq, Structural)]
pub struct ContractUnpaused {
    pub timestamp: u64,
}

/// A change of the pause switch, as announced.
#[derive(Copy, Clone, Debug, PartialEq, Eq, Structural)]
pub enum PauseEvent {
    Paused(ContractPaused),
    Unpaused(ContractUnpaused),
}

} // verus!

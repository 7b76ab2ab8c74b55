use vstd::prelude::*;
use crate::constants::ORACLE_STALENESS_THRESHOLD_SECS;
use crate::invoice::{Address, Config};
use crate::rate_logic::sat_sub;

verus! {

/// What the payer-verification oracle records about a payer.
#[derive(Copy, Clone, Debug, PartialEq, Eq, Structural)]
pub struct VerificationResult {
    /// Whether the payer's identity and creditworthiness are verified.
    pub verified: bool,
    /// Unix time, in seconds, of the oracle's last update of the entry.
    pub timestamp: u64,
}

/// The oracle that vouches for payers under `config`, if one is registered; without one every
/// payer passes.
pub fn payer_oracle(config: Option<Config>) -> (r: Option<Address>)
    ensures
        r == (match config {
            Some(c) => c.price_oracle,
            None => None,
        }),
{
    match config {
        Some(c) => c.price_oracle,
        None => None,
    }
}

/// Whether a payer passes verification at ledger time `now`, given the oracle's record of it
/// (`None` when no oracle is registered): it passes without an oracle, and otherwise when the
/// record says verified and is at most seven days old.
pub fn check_payer_verified(record: Option<VerificationResult>, now: u64) -> (ok: bool)
    ensures
        ok == (match record {
            None => true,
            Some(r) => r.verified && sat_sub(now as int, r.timestamp as int) <= ORACLE_STALENESS_THRESHOLD_SECS,
        }),
{
    match record {
        None => true,
        Some(r) => {
            if !r.verified {
                return false;
            }
            now.saturating_sub(r.timestamp) <= ORACLE_STALENESS_THRESHOLD_SECS
        },
    }
}

} // verus!

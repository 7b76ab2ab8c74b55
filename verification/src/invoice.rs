use vstd::prelude::*;

verus! {

/// An account, contract or token, identified by a number that the host assigns.
pub type Address = u64;

/// A 32-byte hash (evidence, referral code, WASM hash).
pub type Hash32 = [u8; 32];

/// Lifecycle of an invoice.
#[derive(Copy, Clone, Debug, PartialEq, Eq, Structural)]
pub enum InvoiceStatus {
    /// Submitted, waiting for a liquidity provider to fund it.
    Pending,
    /// Fully funded; the freelancer has been paid out.
    Funded,
    /// Funded in part by one or more LPs.
    PartiallyFunded,
    /// The payer has settled in full and the LPs have been paid.
    Paid,
    /// Past the due date and still unpaid.
    Defaulted,
    /// The payer has contested the default ruling.
    Appealed,
    /// The payer has disputed the invoice before settlement.
    Disputed,
    /// Past the due date with no funding.
    Expired,
    /// Cancelled by the freelancer before it was funded in full.
    Cancelled,
}

/// An invoice and its funding and payment progress.
#[derive(Clone, Debug, PartialEq)]
pub struct Invoice {
    pub id: u64,
    /// Who submitted the invoice and receives the liquidity.
    pub freelancer: Address,
    /// The client who owes the money.
    pub payer: Address,
    /// Token in which the invoice is funded and settled.
    pub token: Address,
    /// Full invoice value in token base units.
    pub amount: i128,
    /// Unix timestamp by which the payer must settle.
    pub due_date: u32,
    /// Discount in basis points, e.g. 300 = 3.00%.
    pub discount_rate: u32,
    pub status: InvoiceStatus,
    /// The LP that completed the funding.
    pub funder: Option<Address>,
    /// Ledger timestamp when the invoice became fully funded.
    pub funded_at: Option<u32>,
    /// Cumulative amount funded so far.
    pub amount_funded: i128,
    /// Cumulative amount paid by the payer.
    pub amount_paid: i128,
    pub referral_code: Option<Hash32>,
    /// The freelancer's reputation score when the invoice was submitted.
    pub submitter_reputation: u32,
    /// Whether funding follows a Dutch auction.
    pub is_auction: bool,
    pub auction_start_rate: Option<u32>,
    pub auction_min_rate: Option<u32>,
    pub auction_rate_decay_per_hour: Option<u32>,
    pub auction_started_at: Option<u32>,
    /// LPs allowed to fund the invoice; `None` makes it public.
    pub allowed_lps: Option<Vec<Address>>,
}

/// The terms of one invoice in a batch submission.
#[derive(Clone, Debug, PartialEq)]
pub struct InvoiceParams {
    pub freelancer: Address,
    pub payer: Address,
    pub amount: i128,
    pub due_date: u64,
    pub discount_rate: u32,
    pub token: Address,
    pub referral_code: Option<Hash32>,
    pub allowed_lps: Option<Vec<Address>>,
}

/// A stored payer reputation score.
#[derive(Copy, Clone, Debug, PartialEq, Eq, Structural)]
pub struct ReputationScore {
    pub score: u32,
    /// Ledger sequence of the last change of the score.
    pub last_activity_ledger: u32,
}

/// Detailed reputation profile of an address.
#[derive(Copy, Clone, Debug, PartialEq, Eq, Structural)]
pub struct ReputationProfile {
    pub address: Address,
    pub invoices_submitted: u32,
    pub invoices_paid: u32,
    pub invoices_defaulted: u32,
    pub score: u32,
}

/// Protocol-wide counters.
#[derive(Copy, Clone, Debug, PartialEq, Eq, Structural)]
pub struct ContractStats {
    pub total_invoices: u64,
    pub total_funded: u64,
    pub total_paid: u64,
    pub total_volume_usdc: i128,
    pub total_volume_eurc: i128,
    pub total_volume_xlm: i128,
    pub total_volume_usd_normalized: i128,
}

/// Per-LP portfolio analytics.
#[derive(Copy, Clone, Debug, PartialEq, Eq, Structural)]
pub struct LPStats {
    /// Cumulative face amount funded across all positions.
    pub total_funded: i128,
    /// Cumulative yield earned, net of protocol fees.
    pub total_earned: i128,
    /// Positions currently in the Funded state.
    pub active_positions: u32,
    /// All positions ever opened.
    pub total_positions: u32,
    /// Mean discount rate, in basis points, over all positions.
    pub avg_yield_bps: u32,
}

/// A payer's appeal against a default.
#[derive(Copy, Clone, Debug, PartialEq, Eq)]
pub struct AppealRecord {
    pub evidence_hash: Hash32,
    pub appealed_at: u32,
    /// The payer's score before the default penalty.
    pub pre_default_score: u32,
}

/// A payer's dispute of an invoice before settlement.
#[derive(Copy, Clone, Debug, PartialEq, Eq)]
pub struct DisputeRecord {
    pub reason_hash: Hash32,
    /// Ledger sequence at which the dispute was raised.
    pub disputed_at: u32,
}

/// A payer and its reputation score, as kept in the top-payers heap.
#[derive(Copy, Clone, Debug, PartialEq, Eq, Structural)]
pub struct TopPayerEntry {
    pub address: Address,
    pub score: u32,
}

/// An LP's request to fund an invoice, with its score when it joined the queue.
#[derive(Copy, Clone, Debug, PartialEq, Eq, Structural)]
pub struct LpFundRequest {
    pub lp: Address,
    pub score: u32,
}

/// Protocol configuration.
#[derive(Copy, Clone, Debug, PartialEq, Eq, Structural)]
pub struct Config {
    pub high_rep_threshold: u32,
    pub bonus_bps: u32,
    pub min_discount_rate_bps: u32,
    pub decay_rate_bps: u32,
    pub decay_period_ledgers: u64,
    pub dispute_timeout_ledgers: u64,
    pub xlm_sac_address: Address,
    pub usdc_sac_address: Address,
    pub eurc_sac_address: Address,
    pub price_oracle: Option<Address>,
    pub max_oracle_age_ledgers: u64,
}

/// What the verification oracle answers about a payer.
#[derive(Copy, Clone, Debug, PartialEq, Eq, Structural)]
pub struct OracleVerificationResponse {
    pub is_verified: bool,
    /// Ledger sequence at which the oracle last updated the entry.
    pub timestamp: u32,
}

/// The ledger's clock when a call is made.
#[derive(Copy, Clone, Debug, PartialEq, Eq, Structural)]
pub struct Ledger {
    pub timestamp: u64,
    pub sequence: u32,
}

/// An effect on the world outside the protocol's own state that a call asks its host to carry
/// out, in order. A failing effect undoes the whole call.
#[derive(Copy, Clone, Debug, PartialEq, Eq, Structural)]
pub enum Action {
    /// Move `amount` of `token` from `from` to `to`.
    Transfer { token: Address, from: Address, to: Address, amount: i128 },
    /// Move `amount` of `token` from `from` to the treasury `to`: the protocol's fee on an LP's
    /// earnings.
    TreasuryFee { token: Address, from: Address, to: Address, amount: i128 },
    /// Tell the distribution contract that `lp` funded `amount`.
    AccrueLp { contract: Address, lp: Address, amount: i128 },
    /// Tell the distribution contract that an invoice between `freelancer` and `payer` settled.
    AccrueSettlement { contract: Address, freelancer: Address, payer: Address, on_time: bool },
}

/// A token transfer, as an action.
pub open spec fn transfer(token: Address, from: Address, to: Address, amount: i128) -> Action {
    Action::Transfer { token, from, to, amount }
}

/// A transfer of the protocol's fee to the treasury, as an action.
pub open spec fn treasury_fee_transfer(token: Address, from: Address, to: Address, amount: i128) -> Action {
    Action::TreasuryFee { token, from, to, amount }
}

} // verus!

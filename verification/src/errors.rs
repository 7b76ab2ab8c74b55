use vstd::prelude::*;

verus! {

/// Every way in which a call into the invoice-liquidity protocol can be refused.
#[derive(Copy, Clone, Debug, PartialEq, Eq, Structural)]
pub enum ContractError {
    Unauthorized,
    AlreadyInitialized,
    InvalidAmount,
    InvalidDiscountRate,
    InvalidDueDate,
    InvoiceNotFound,
    AlreadyPaid,
    AlreadyFunded,
    NotYetDefaulted,
    InvoiceDefaulted,
    OverfundingRejected,
    OverpaymentRejected,
    ArithmeticOverflow,
    NothingToClaim,
    SelfInvoice,
    InvoiceExpired,
    BatchTooLarge,
    AlreadyCancelled,
    ContractPaused,
    DueDateTooSoon,
    DueDateTooFar,
    /// LP has already joined the fund queue for this invoice.
    AlreadyInQueue,
    /// A different LP was selected by the priority queue.
    NotApprovedFunder,
    /// The payer's reputation is below the configured minimum threshold.
    PayerReputationTooLow,
    /// Invoice is in Appealed state and cannot be acted upon yet.
    InvoiceAppealed,
    /// Payer attempted to appeal an invoice that already carries an appeal.
    AlreadyAppealed,
    /// Appeal window has closed; appeal can no longer be submitted.
    AppealWindowClosed,
    /// Action requires the invoice to be in Defaulted state.
    NotDefaulted,
    AlreadyDisputed,
    NotDisputed,
    InvoiceDisputed,
    NotFunded,
    /// A token kept part of a test transfer for itself.
    FeeOnTransferToken,
    InvalidMultisigConfig,
    NotAuthorizedSigner,
    AlreadySigned,
    ProposalNotFound,
    ProposalAlreadyExecuted,
    ProposalExpired,
    ThresholdNotReached,
    /// More than ten LPs were named in an invoice whitelist.
    WhitelistTooLarge,
    /// The funder is not on the invoice's LP whitelist.
    LPNotWhitelisted,
    /// The oracle's data is older than the configured maximum age.
    OracleDataStale,
    /// The oracle reports the payer as unverified.
    PayerUnverified,
    InvalidAuctionParams,
    InvoiceNftAlreadyExists,
    InvoiceNftNotFound,
    InvoiceNftNotOwned,
    /// A guarded entry point was entered while the guard was held.
    Reentrancy,
}

} // verus!

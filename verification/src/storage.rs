use vstd::prelude::*;
use crate::invoice::{Address, Hash32, InvoiceStatus};

verus! {

/// Keys under which the protocol's state is persisted on the ledger.
#[derive(Clone, Debug, PartialEq, Eq)]
pub enum DataKey {
    Admin,
    Config,
    FeeRate,
    ProtocolFeeBps,
    TreasuryAddress,
    MaxDiscountRate,
    DistributionContract,
    Paused,
    /// Minimum payer reputation required to fund an invoice.
    MinPayerReputation,
    /// Reentrancy guard lock flag.
    ReentrancyLock,
    /// Next invoice id.
    NextInvoiceId,
    Stats,
    MultisigAdmin,
    MultisigProposalCounter,
    Invoice(u64),
    InvoiceCount,
    Token,
    PayerScore(Address),
    InvoiceFunders(u64),
    ApprovedToken(Address),
    TokenList,
    Reputation(Address),
    Appeal(u64),
    PreDefaultPayerScore(u64),
    LpScore(Address),
    FundQueue(u64),
    QueueResolution(u64),
    TotalInvoices,
    TotalFunded,
    TotalPaid,
    TotalVolumeUsdc,
    TotalVolumeEurc,
    TotalVolumeXlm,
    TokenVolume(Address),
    ReferralCount(Hash32),
    Dispute(u64),
    SubmitterInvoices(Address),
    LpInvoices(Address),
    /// Fixed-size min-heap of the top payers by reputation score.
    TopPayersHeap,
    InvoiceNft(u64),
    InvoiceNftOwner(u64),
    MultisigProposal(u64),
    LPPortfolioStats(Address),
    InvoiceStateCount(InvoiceStatus),
}

} // verus!

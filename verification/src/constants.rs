use vstd::prelude::*;

verus! {

/// Largest discount rate, in basis points, that an invoice may carry.
pub const MAX_DISCOUNT_RATE: u32 = 5000;
/// Largest starting rate, in basis points, of a Dutch auction: the whole amount.
pub const MAX_AUCTION_RATE: u32 = 10_000;
/// Score of a payer that has no stored reputation.
pub const DEFAULT_PAYER_SCORE: u32 = 50;
/// Score of an LP that has no stored reputation.
pub const DEFAULT_LP_SCORE: u32 = 50;
/// Number of payers kept in the top-payers heap.
pub const TOP_PAYERS_CAPACITY: u32 = 50;
/// Maximum number of invoices accepted in a single batch submission.
pub const MAX_BATCH_SIZE: u32 = 50;
/// Largest number of LPs an invoice whitelist may name.
pub const MAX_WHITELIST_SIZE: u32 = 10;
/// Smallest invoice amount accepted, in token base units.
pub const MIN_INVOICE_AMOUNT: i128 = 1_000_000;
/// Basis points in one whole.
pub const BPS_DENOMINATOR: i128 = 10_000;
/// Minimum invoice duration: 24 hours, in seconds.
pub const MIN_INVOICE_DURATION: u64 = 86_400;
/// Maximum invoice duration: 365 days, in seconds.
pub const MAX_INVOICE_DURATION: u64 = 31_536_000;
/// Window after the due date during which a payer may appeal a default: 30 days.
pub const APPEAL_WINDOW_SECONDS: u64 = 2_592_000;
/// Default oracle freshness window, in ledgers (about 24 hours).
pub const DEFAULT_MAX_ORACLE_AGE_LEDGERS: u64 = 17_280;
/// Number of ledgers a multisig proposal remains valid.
pub const MULTISIG_WINDOW_LEDGERS: u64 = 17_280;
/// Staleness threshold of the verification oracle: 7 days in seconds.
pub const ORACLE_STALENESS_THRESHOLD_SECS: u64 = 604_800;
/// Amount moved to and from the contract when a new token is screened.
pub const TOKEN_TEST_AMOUNT: i128 = 1_000_000;
/// Largest reputation score.
pub const MAX_SCORE: u32 = 100;
/// Seconds in an hour.
pub const SECONDS_PER_HOUR: u64 = 3600;
/// Seconds in a day.
pub const SECONDS_PER_DAY: u64 = 86_400;

} // verus!

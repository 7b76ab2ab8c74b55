use vstd::prelude::*;
use crate::constants::{SECONDS_PER_DAY, SECONDS_PER_HOUR};

verus! {

/// Failures of the rate arithmetic.
#[derive(Copy, Clone, Debug, PartialEq, Eq, Structural)]
pub enum RateError {
    ArithmeticUnderflow,
    ArithmeticOverflow,
}

/// `a - b`, or zero when `b` exceeds `a`.
pub open spec fn sat_sub(a: int, b: int) -> int {
    if a >= b { a - b } else { 0 }
}

pub open spec fn max_int(a: int, b: int) -> int {
    if a >= b { a } else { b }
}

pub open spec fn min_int(a: int, b: int) -> int {
    if a <= b { a } else { b }
}

/// The discount rate a payer with `reputation_score` is offered: payers at or above the
/// high-reputation threshold get `bonus_bps` off the base rate; no rate falls below the floor.
pub open spec fn effective_rate_spec(
    base_rate_bps: u32,
    reputation_score: u8,
    high_rep_threshold: u8,
    bonus_bps: u32,
    min_discount_rate_bps: u32,
) -> int {
    if reputation_score >= high_rep_threshold {
        max_int(sat_sub(base_rate_bps as int, bonus_bps as int), min_discount_rate_bps as int)
    } else {
        max_int(base_rate_bps as int, min_discount_rate_bps as int)
    }
}

/// Computes the discount rate offered to a payer, given its reputation.
pub fn calculate_effective_rate(
    base_rate_bps: u32,
    reputation_score: u8,
    high_rep_threshold: u8,
    bonus_bps: u32,
    min_discount_rate_bps: u32,
) -> (r: Result<u32, RateError>)
    ensures
        r matches Ok(rate) && rate == effective_rate_spec(
            base_rate_bps,
            reputation_score,
            high_rep_threshold,
            bonus_bps,
            min_discount_rate_bps,
        ),
{
    if reputation_score >= high_rep_threshold {
        let reduced_rate = base_rate_bps.saturating_sub(bonus_bps);
        let effective_rate = if reduced_rate >= min_discount_rate_bps {
            reduced_rate
        } else {
            min_discount_rate_bps
        };
        Ok(effective_rate)
    } else {
        let effective_rate = if base_rate_bps >= min_discount_rate_bps {
            base_rate_bps
        } else {
            min_discount_rate_bps
        };
        Ok(effective_rate)
    }
}

/// Whole hours elapsed since `started_at` (zero when the clock reads earlier).
pub open spec fn hours_elapsed_spec(current_time: u64, started_at: u64) -> int {
    sat_sub(current_time as int, started_at as int) / (SECONDS_PER_HOUR as int)
}

/// The rate of a Dutch-auction invoice: the start rate, less `decay_per_hour` for every whole
/// hour since the auction opened, but never below the minimum rate.
pub open spec fn auction_rate_spec(
    current_time: u64,
    started_at: u64,
    start_rate: u32,
    min_rate: u32,
    decay_per_hour: u32,
) -> int {
    let decayed = start_rate as int - decay_per_hour as int * hours_elapsed_spec(current_time, started_at);
    if decayed <= min_rate as int { min_rate as int } else { decayed }
}

/// Current rate of a Dutch-auction invoice.
pub fn calculate_auction_rate(
    current_time: u64,
    started_at: u64,
    start_rate: u32,
    min_rate: u32,
    decay_per_hour: u32,
) -> (rate: u32)
    ensures
        rate == auction_rate_spec(current_time, started_at, start_rate, min_rate, decay_per_hour),
        rate <= max_int(start_rate as int, min_rate as int),
        rate >= min_rate,
{
    let elapsed = current_time.saturating_sub(started_at);
    let hours = elapsed / SECONDS_PER_HOUR;
    let hours128 = hours as u128;
    let decay128 = decay_per_hour as u128;
    assert(hours128 * decay128 <= 0xffff_ffff_ffff_ffffu128 * 0xffff_ffffu128) by (nonlinear_arith)
        requires hours128 <= 0xffff_ffff_ffff_ffffu128, decay128 <= 0xffff_ffffu128;
    let reduction = decay128 * hours128;
    let start128 = start_rate as u128;
    let min128 = min_rate as u128;
    if reduction >= start128 || start128 - reduction <= min128 {
        min_rate
    } else {
        (start128 - reduction) as u32
    }
}

/// The discount on `amount` at `rate_bps` basis points; a product too large for `i128`
/// gives no discount.
pub open spec fn discount_spec(amount: int, rate_bps: int) -> int {
    if amount * rate_bps > i128::MAX { 0 } else { amount * rate_bps / 10_000 }
}

/// `amount * rate_bps / 10_000`, or zero when the product does not fit in `i128`.
pub fn discount_amount(amount: i128, rate_bps: u32) -> (d: i128)
    requires
        amount >= 0,
    ensures
        d == discount_spec(amount as int, rate_bps as int),
        0 <= d,
        rate_bps <= 10_000 ==> d <= amount,
{
    let rate = rate_bps as i128;
    assert(amount * rate >= 0) by (nonlinear_arith)
        requires amount >= 0, rate >= 0;
    match amount.checked_mul(rate) {
        Some(p) => {
            assert(rate <= 10_000 ==> p / 10_000 <= amount) by (nonlinear_arith)
                requires p == amount * rate, p >= 0, amount >= 0;
            assert(p / 10_000 >= 0) by (nonlinear_arith) requires p >= 0;
            p / 10_000
        },
        None => 0,
    }
}

/// The discount rate suggested for a payer with reputation `score`: 5% plus 0.05% for every
/// point below 100, and never below 0.5%.
pub open spec fn suggested_rate_spec(score: u32) -> int {
    let capped = min_int(score as int, 100);
    max_int(500 + (100 - capped) * 5, 50)
}

/// Suggests a discount rate for a payer from its reputation score.
pub fn suggested_rate_for_score(score: u32) -> (rate: u32)
    ensures
        rate == suggested_rate_spec(score),
        500 <= rate <= 1000,
{
    let capped = if score < 100 { score } else { 100 };
    let rate = 500 + (100 - capped) * 5;
    if rate >= 50 { rate } else { 50 }
}

/// Annualised yield, in basis points, of `rate_bps` earned over the whole days left until
/// `due_date`, truncated to 32 bits.
pub open spec fn effective_yield_spec(rate_bps: u32, due_date: u32, now: u64) -> u32 {
    let days = sat_sub(due_date as int, now as int) / (SECONDS_PER_DAY as int);
    ((rate_bps as int * days) / 365) as u32
}

/// Computes the annualised yield reported when an invoice is funded.
pub fn effective_yield_bps(rate_bps: u32, due_date: u32, now: u64) -> (y: u32)
    ensures
        y == effective_yield_spec(rate_bps, due_date, now),
{
    let due = due_date as u64;
    let seconds_to_due: u64 = if due > now { due - now } else { 0 };
    let days = seconds_to_due / SECONDS_PER_DAY;
    assert(days <= 49_711);
    assert(rate_bps as u64 * days <= 0xffff_ffffu64 * 49_711u64) by (nonlinear_arith)
        requires days <= 49_711, rate_bps <= 0xffff_ffff;
    let product: u64 = rate_bps as u64 * days;
    #[verifier::truncate]
    let y = (product / 365) as u32;
    y
}

} // verus!

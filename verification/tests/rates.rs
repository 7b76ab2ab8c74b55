use invoice_liquidity::oracle::{check_payer_verified, VerificationResult};
use invoice_liquidity::rate_logic::{
    calculate_auction_rate, calculate_effective_rate, discount_amount, effective_yield_bps,
    suggested_rate_for_score,
};
use invoice_liquidity::invoice::TopPayerEntry;
use invoice_liquidity::top_payers::{
    get_top_payers, insert_into_heap, left_child, parent_index, remove_payer_from_heap, right_child, sift_down, sift_up,
    update_top_payers_on_score_change,
};

#[test]
fn effective_rate_applies_bonus_above_threshold() {
    assert_eq!(calculate_effective_rate(800, 90, 80, 200, 300), Ok(600));
    assert_eq!(calculate_effective_rate(800, 80, 80, 200, 300), Ok(600));
}

#[test]
fn effective_rate_without_bonus_below_threshold() {
    assert_eq!(calculate_effective_rate(800, 79, 80, 200, 300), Ok(800));
}

#[test]
fn effective_rate_respects_floor() {
    assert_eq!(calculate_effective_rate(400, 90, 80, 200, 300), Ok(300));
    assert_eq!(calculate_effective_rate(100, 10, 80, 0, 300), Ok(300));
    assert_eq!(calculate_effective_rate(100, 90, 80, 500, 0), Ok(0));
}

#[test]
fn auction_rate_decays_per_whole_hour() {
    let start = 1_000_000u64;
    assert_eq!(calculate_auction_rate(start, start, 1000, 200, 100), 1000);
    assert_eq!(calculate_auction_rate(start + 3599, start, 1000, 200, 100), 1000);
    assert_eq!(calculate_auction_rate(start + 3 * 3600, start, 1000, 200, 100), 700);
    assert_eq!(calculate_auction_rate(start + 8 * 3600, start, 1000, 200, 100), 200);
    assert_eq!(calculate_auction_rate(start + 100 * 3600, start, 1000, 200, 100), 200);
    // A clock that reads before the start leaves the start rate.
    assert_eq!(calculate_auction_rate(start - 7200, start, 1000, 200, 100), 1000);
    // A decay too large for any integer type floors at the minimum.
    assert_eq!(calculate_auction_rate(u64::MAX, 0, 1000, 200, u32::MAX), 200);
}

#[test]
fn discount_amount_exact_values() {
    assert_eq!(discount_amount(10_000_000, 300), 300_000);
    assert_eq!(discount_amount(1_000_000, 1000), 100_000);
    assert_eq!(discount_amount(9_999, 1), 0);
    assert_eq!(discount_amount(0, 300), 0);
    assert_eq!(discount_amount(i128::MAX, 2), 0);
}

#[test]
fn suggested_rate_follows_score() {
    assert_eq!(suggested_rate_for_score(100), 500);
    assert_eq!(suggested_rate_for_score(250), 500);
    assert_eq!(suggested_rate_for_score(50), 750);
    assert_eq!(suggested_rate_for_score(0), 1000);
}

#[test]
fn effective_yield_annualises_whole_days() {
    let now = 1_000_000u64;
    let day = 86_400u64;
    assert_eq!(effective_yield_bps(365, (now + 365 * day) as u32, now), 365);
    assert_eq!(effective_yield_bps(300, (now + 30 * day) as u32, now), 24);
    assert_eq!(effective_yield_bps(300, (now + 30 * day - 1) as u32, now), 23);
    assert_eq!(effective_yield_bps(300, (now - 1) as u32, now), 0);
}

#[test]
fn payer_verification_checks_flag_and_age() {
    let now = 2_000_000u64;
    assert!(check_payer_verified(None, now));
    assert!(check_payer_verified(Some(VerificationResult { verified: true, timestamp: now - 604_800 }), now));
    assert!(!check_payer_verified(Some(VerificationResult { verified: true, timestamp: now - 604_801 }), now));
    assert!(!check_payer_verified(Some(VerificationResult { verified: false, timestamp: now }), now));
    assert!(check_payer_verified(Some(VerificationResult { verified: true, timestamp: now + 10 }), now));
}

#[test]
fn heap_index_arithmetic() {
    assert_eq!(parent_index(1), 0);
    assert_eq!(parent_index(2), 0);
    assert_eq!(parent_index(6), 2);
    assert_eq!(left_child(2), 5);
    assert_eq!(right_child(2), 6);
}

#[test]
fn heap_operations_keep_top_payers_in_order() {
    let mut heap: Vec<TopPayerEntry> = Vec::new();
    insert_into_heap(&mut heap, 1, 10);
    insert_into_heap(&mut heap, 2, 30);
    insert_into_heap(&mut heap, 3, 20);
    let scores: Vec<(u64, u32)> = get_top_payers(&heap, 10).iter().map(|e| (e.address, e.score)).collect();
    assert_eq!(scores, vec![(2, 30), (3, 20), (1, 10)]);
    remove_payer_from_heap(&mut heap, 2);
    let scores: Vec<(u64, u32)> = get_top_payers(&heap, 10).iter().map(|e| (e.address, e.score)).collect();
    assert_eq!(scores, vec![(3, 20), (1, 10)]);
    update_top_payers_on_score_change(&mut heap, 1, 50);
    let scores: Vec<(u64, u32)> = get_top_payers(&heap, 1).iter().map(|e| (e.address, e.score)).collect();
    assert_eq!(scores, vec![(1, 50)]);
    assert_eq!(heap.len(), 2);
}

#[test]
fn sifting_orders_by_score_whatever_the_addresses() {
    let e = |address: u64, score: u32| TopPayerEntry { address, score };
    let mut heap = vec![e(1, 10), e(1, 20), e(2, 30), e(1, 5)];
    sift_up(&mut heap, 3);
    assert_eq!(heap, vec![e(1, 5), e(1, 10), e(2, 30), e(1, 20)]);
    let mut heap = vec![e(7, 40), e(7, 20), e(8, 30), e(7, 25)];
    sift_down(&mut heap, 0);
    assert_eq!(heap, vec![e(7, 20), e(7, 25), e(8, 30), e(7, 40)]);
}

use std::collections::HashMap;

use invoice_liquidity::contract::InvoiceLiquidity;
use invoice_liquidity::errors::ContractError;
use invoice_liquidity::invoice::{Action, Address, InvoiceParams, InvoiceStatus, Ledger};

const CONTRACT: Address = 1000;
const ADMIN: Address = 1;
const FREELANCER: Address = 2;
const PAYER: Address = 3;
const FUNDER: Address = 4;
const USDC: Address = 10;
const EURC: Address = 11;
const XLM: Address = 12;

const INVOICE_AMOUNT: i128 = 10_000_000;
const DISCOUNT_RATE: u32 = 300;
const DUE_DATE_OFFSET: u64 = 86_400 * 30;

/// The protocol together with the token balances its actions move.
struct World {
    c: InvoiceLiquidity,
    balances: HashMap<(Address, Address), i128>,
    ledger: Ledger,
}

impl World {
    fn new() -> World {
        let mut c = InvoiceLiquidity::new(CONTRACT);
        c.initialize(ADMIN, USDC, EURC, XLM).unwrap();
        let mut w = World { c, balances: HashMap::new(), ledger: Ledger { timestamp: 1_000_000, sequence: 100 } };
        for who in [FUNDER, PAYER] {
            for token in [USDC, XLM] {
                w.balances.insert((token, who), 1_000_000_000_000);
            }
        }
        w
    }

    fn balance(&self, token: Address, who: Address) -> i128 {
        *self.balances.get(&(token, who)).unwrap_or(&0)
    }

    fn apply(&mut self, actions: Vec<Action>) {
        for a in actions {
            if let Action::Transfer { token, from, to, amount } | Action::TreasuryFee { token, from, to, amount } = a {
                *self.balances.entry((token, from)).or_insert(0) -= amount;
                *self.balances.entry((token, to)).or_insert(0) += amount;
            }
        }
    }

    fn due(&self) -> u64 {
        self.ledger.timestamp + DUE_DATE_OFFSET
    }

    fn submit(&mut self, amount: i128, due_date: u64, rate: u32) -> Result<u64, ContractError> {
        let ledger = self.ledger;
        self.c.submit_invoice(FREELANCER, PAYER, amount, due_date, rate, USDC, None, None, ledger)
    }

    fn submit_standard(&mut self) -> u64 {
        let due = self.due();
        self.submit(INVOICE_AMOUNT, due, DISCOUNT_RATE).unwrap()
    }

    fn fund(&mut self, lp: Address, id: u64, amount: i128) -> Result<(), ContractError> {
        let ledger = self.ledger;
        let actions = self.c.fund_invoice(lp, id, amount, false, None, ledger)?;
        self.apply(actions);
        Ok(())
    }

    fn pay(&mut self, id: u64, amount: i128) -> Result<(), ContractError> {
        let ledger = self.ledger;
        let actions = self.c.mark_paid(id, amount, ledger)?;
        self.apply(actions);
        Ok(())
    }

    fn advance(&mut self, seconds: u64) {
        self.ledger.timestamp += seconds;
    }

    fn claim_default(&mut self, lp: Address, id: u64) -> Result<(), ContractError> {
        let ledger = self.ledger;
        let actions = self.c.claim_default(lp, id, ledger)?;
        self.apply(actions);
        Ok(())
    }

    fn lp_ids(&self, lp: Address) -> Vec<u64> {
        self.c.list_invoices_by_lp(lp, 0, 50).iter().map(|i| i.id).collect()
    }

    fn payer_score(&mut self) -> u32 {
        let ledger = self.ledger;
        self.c.payer_score(PAYER, ledger)
    }

    fn params(&self) -> InvoiceParams {
        InvoiceParams {
            freelancer: FREELANCER,
            payer: PAYER,
            amount: INVOICE_AMOUNT,
            due_date: self.due(),
            discount_rate: DISCOUNT_RATE,
            token: USDC,
            referral_code: None,
            allowed_lps: None,
        }
    }
}

#[test]
fn test_update_invoice_happy_path() {
    let mut t = World::new();
    let batch = vec![t.params(), t.params(), t.params()];
    let ledger = t.ledger;
    let ids = t.c.submit_invoices_batch(batch, ledger).unwrap();
    assert_eq!(ids, vec![1, 2, 3]);
    assert_eq!(t.c.get_invoice_count(None), 3);
}

#[test]
fn test_submit_invoice_happy_path() {
    let mut t = World::new();
    let due_date = t.due();
    let id = t.submit(INVOICE_AMOUNT, due_date, DISCOUNT_RATE).unwrap();
    assert_eq!(id, 1);
    let invoice = t.c.get_invoice(id).unwrap();
    assert_eq!(invoice.id, id);
    assert_eq!(invoice.freelancer, FREELANCER);
    assert_eq!(invoice.payer, PAYER);
    assert_eq!(invoice.token, USDC);
    assert_eq!(invoice.amount, INVOICE_AMOUNT);
    assert_eq!(u64::from(invoice.due_date), due_date);
    assert_eq!(invoice.discount_rate, DISCOUNT_RATE);
    assert_eq!(invoice.status, InvoiceStatus::Pending);
}

#[test]
fn test_get_invoice_returns_existing_invoice() {
    let mut t = World::new();
    let due_date = t.due();
    let id = t.submit(INVOICE_AMOUNT, due_date, DISCOUNT_RATE).unwrap();
    let invoice = t.c.get_invoice(id).unwrap();
    assert_eq!(invoice.id, id);
    assert_eq!(invoice.freelancer, FREELANCER);
    assert_eq!(invoice.payer, PAYER);
    assert_eq!(invoice.token, USDC);
    assert_eq!(invoice.amount, INVOICE_AMOUNT);
    assert_eq!(u64::from(invoice.due_date), due_date);
    assert_eq!(invoice.discount_rate, DISCOUNT_RATE);
    assert_eq!(invoice.status, InvoiceStatus::Pending);
    assert_eq!(invoice.amount_funded, 0);
    assert!(invoice.funder.is_none());
    assert!(invoice.funded_at.is_none());
}

#[test]
fn test_submitter_reputation_snapshot_at_submission() {
    let mut t = World::new();
    let id = t.submit_standard();
    let invoice = t.c.get_invoice(id).unwrap();
    assert_eq!(invoice.submitter_reputation, 50);
    assert_eq!(invoice.freelancer, FREELANCER);
}

#[test]
fn test_get_invoice_returns_invoice_not_found_for_missing_id() {
    let t = World::new();
    assert_eq!(t.c.get_invoice(999).err(), Some(ContractError::InvoiceNotFound));
}

#[test]
fn test_submit_multiple_invoices_increment_ids() {
    let mut t = World::new();
    assert_eq!(t.submit_standard(), 1);
    assert_eq!(t.submit_standard(), 2);
    assert_eq!(t.submit_standard(), 3);
}

#[test]
fn test_submit_invoices_batch_happy_path() {
    let mut t = World::new();
    let batch = vec![t.params(), t.params(), t.params()];
    let ledger = t.ledger;
    let ids = t.c.submit_invoices_batch(batch, ledger).unwrap();
    assert_eq!(ids.len(), 3);
    assert_eq!(ids[0], 1);
    assert_eq!(ids[1], 2);
    assert_eq!(ids[2], 3);
    assert_eq!(t.c.get_contract_stats().total_invoices, 3);
}

#[test]
fn test_submit_invoices_batch_max_size_succeeds() {
    let mut t = World::new();
    let batch: Vec<InvoiceParams> = (0..50).map(|_| t.params()).collect();
    let ledger = t.ledger;
    let ids = t.c.submit_invoices_batch(batch, ledger).unwrap();
    assert_eq!(ids.len(), 50);
    assert_eq!(ids[0], 1);
    assert_eq!(ids[49], 50);
    assert_eq!(t.c.get_invoice_count(None), 50);
}

#[test]
fn test_submit_invoices_batch_rejects_over_limit() {
    let mut t = World::new();
    let batch: Vec<InvoiceParams> = (0..51).map(|_| t.params()).collect();
    let ledger = t.ledger;
    let result = t.c.submit_invoices_batch(batch, ledger);
    assert_eq!(result, Err(ContractError::BatchTooLarge));
    assert_eq!(t.c.get_invoice_count(None), 0);
}

#[test]
fn test_submit_invoices_batch_atomicity_fail() {
    let mut t = World::new();
    let mut bad = t.params();
    bad.amount = 0;
    let batch = vec![t.params(), bad];
    let ledger = t.ledger;
    let result = t.c.submit_invoices_batch(batch, ledger);
    assert_eq!(result, Err(ContractError::InvalidAmount));
    assert_eq!(t.c.get_invoice_count(None), 0);
}

#[test]
fn test_submit_rejects_zero_amount() {
    let mut t = World::new();
    let due = t.due();
    assert_eq!(t.submit(0, due, DISCOUNT_RATE), Err(ContractError::InvalidAmount));
}

#[test]
fn test_submit_rejects_negative_amount() {
    let mut t = World::new();
    let due = t.due();
    assert_eq!(t.submit(-1, due, DISCOUNT_RATE), Err(ContractError::InvalidAmount));
}

#[test]
fn test_submit_rejects_past_due_date() {
    let mut t = World::new();
    let past = t.ledger.timestamp - 1;
    assert_eq!(t.submit(INVOICE_AMOUNT, past, DISCOUNT_RATE), Err(ContractError::InvalidDueDate));
}

#[test]
fn test_submit_rejects_zero_discount_rate() {
    let mut t = World::new();
    let due = t.due();
    assert_eq!(t.submit(INVOICE_AMOUNT, due, 0), Err(ContractError::InvalidDiscountRate));
}

#[test]
fn test_submit_rejects_discount_rate_above_50_percent() {
    let mut t = World::new();
    let due = t.due();
    assert_eq!(t.submit(INVOICE_AMOUNT, due, 5_001), Err(ContractError::InvalidDiscountRate));
}

#[test]
fn test_update_invoice_updates_pending_invoice_fields() {
    let mut t = World::new();
    let id = t.submit_standard();
    let amount = INVOICE_AMOUNT + 5_000_000;
    let due = t.ledger.timestamp + DUE_DATE_OFFSET * 2;
    let rate = DISCOUNT_RATE + 100;
    let ledger = t.ledger;
    t.c.update_invoice(FREELANCER, id, amount, due, rate, ledger).unwrap();
    let invoice = t.c.get_invoice(id).unwrap();
    assert_eq!(invoice.amount, amount);
    assert_eq!(u64::from(invoice.due_date), due);
    assert_eq!(invoice.discount_rate, rate);
    assert_eq!(invoice.payer, PAYER);
    assert_eq!(invoice.status, InvoiceStatus::Pending);
}

#[test]
fn test_update_invoice_emits_updated_event() {
    // The update is visible in the stored invoice, which is what the announcement reports.
    let mut t = World::new();
    let id = t.submit_standard();
    let amount = INVOICE_AMOUNT + 5_000_000;
    let due = t.ledger.timestamp + DUE_DATE_OFFSET * 2;
    let ledger = t.ledger;
    t.c.update_invoice(FREELANCER, id, amount, due, DISCOUNT_RATE + 100, ledger).unwrap();
    let invoice = t.c.get_invoice(id).unwrap();
    assert_eq!((invoice.id, invoice.freelancer, invoice.payer, invoice.token), (id, FREELANCER, PAYER, USDC));
    assert_eq!((invoice.amount, u64::from(invoice.due_date), invoice.discount_rate), (amount, due, DISCOUNT_RATE + 100));
    assert_eq!(invoice.status, InvoiceStatus::Pending);
}

#[test]
fn test_update_invoice_rejects_non_freelancer() {
    let mut t = World::new();
    let id = t.submit_standard();
    let due = t.ledger.timestamp + DUE_DATE_OFFSET * 2;
    let ledger = t.ledger;
    let result = t.c.update_invoice(77, id, INVOICE_AMOUNT, due, DISCOUNT_RATE, ledger);
    assert_eq!(result, Err(ContractError::Unauthorized));
}

#[test]
fn test_update_funded_invoice_fails() {
    let mut t = World::new();
    let id = t.submit_standard();
    let due = t.ledger.timestamp + DUE_DATE_OFFSET * 2;
    t.fund(FUNDER, id, INVOICE_AMOUNT).unwrap();
    let ledger = t.ledger;
    let result = t.c.update_invoice(FREELANCER, id, INVOICE_AMOUNT, due, DISCOUNT_RATE, ledger);
    assert_eq!(result, Err(ContractError::AlreadyFunded));
}

#[test]
fn test_update_invoice_rejects_invalid_amount() {
    let mut t = World::new();
    let id = t.submit_standard();
    let due = t.ledger.timestamp + DUE_DATE_OFFSET * 2;
    let ledger = t.ledger;
    assert_eq!(t.c.update_invoice(FREELANCER, id, 0, due, DISCOUNT_RATE, ledger), Err(ContractError::InvalidAmount));
}

#[test]
fn test_update_invoice_rejects_invalid_due_date() {
    let mut t = World::new();
    let id = t.submit_standard();
    let ledger = t.ledger;
    let past = t.ledger.timestamp;
    assert_eq!(
        t.c.update_invoice(FREELANCER, id, INVOICE_AMOUNT, past, DISCOUNT_RATE, ledger),
        Err(ContractError::InvalidDueDate)
    );
}

#[test]
fn test_update_invoice_rejects_invalid_discount_rate() {
    let mut t = World::new();
    let id = t.submit_standard();
    let due = t.ledger.timestamp + DUE_DATE_OFFSET * 2;
    let ledger = t.ledger;
    assert_eq!(t.c.update_invoice(FREELANCER, id, INVOICE_AMOUNT, due, 0, ledger), Err(ContractError::InvalidDiscountRate));
}

#[test]
fn test_transfer_invoice_updates_freelancer() {
    let mut t = World::new();
    let id = t.submit_standard();
    t.c.transfer_invoice(id, 55).unwrap();
    assert_eq!(t.c.get_invoice(id).unwrap().freelancer, 55);
    let moved: Vec<u64> = t.c.list_invoices_by_submitter(55, 0, 50).iter().map(|i| i.id).collect();
    assert_eq!(moved, vec![id]);
    assert!(t.c.list_invoices_by_submitter(FREELANCER, 0, 50).is_empty());
}

#[test]
fn test_transfer_nonexistent_invoice_fails() {
    let mut t = World::new();
    assert_eq!(t.c.transfer_invoice(999, 55), Err(ContractError::InvoiceNotFound));
}

#[test]
fn test_transfer_funded_invoice_fails() {
    let mut t = World::new();
    let id = t.submit_standard();
    t.fund(FUNDER, id, INVOICE_AMOUNT).unwrap();
    assert_eq!(t.c.transfer_invoice(id, 55), Err(ContractError::AlreadyFunded));
}

#[test]
fn test_transfer_lp_position_updates_funder_and_lp_index() {
    let mut t = World::new();
    let id = t.submit_standard();
    t.fund(FUNDER, id, INVOICE_AMOUNT).unwrap();
    t.c.transfer_lp_position(id, 66).unwrap();
    assert_eq!(t.c.get_invoice(id).unwrap().funder, Some(66));
    assert!(!t.lp_ids(FUNDER).contains(&id));
    assert!(t.lp_ids(66).contains(&id));
}

#[test]
fn test_transfer_lp_position_pays_new_lp_on_settlement() {
    let mut t = World::new();
    let id = t.submit_standard();
    t.fund(FUNDER, id, INVOICE_AMOUNT).unwrap();
    t.c.transfer_lp_position(id, 66).unwrap();
    let old_before = t.balance(USDC, FUNDER);
    let new_before = t.balance(USDC, 66);
    t.pay(id, INVOICE_AMOUNT).unwrap();
    assert_eq!(t.balance(USDC, FUNDER), old_before);
    assert_eq!(t.balance(USDC, 66) - new_before, INVOICE_AMOUNT);
}

#[test]
fn test_transfer_lp_position_can_transfer_twice() {
    let mut t = World::new();
    let id = t.submit_standard();
    t.fund(FUNDER, id, INVOICE_AMOUNT).unwrap();
    t.c.transfer_lp_position(id, 66).unwrap();
    t.c.transfer_lp_position(id, 67).unwrap();
    assert_eq!(t.c.get_invoice(id).unwrap().funder, Some(67));
    assert!(t.lp_ids(67).contains(&id));
}

#[test]
fn test_fund_invoice_transfers_correct_amounts() {
    let mut t = World::new();
    let id = t.submit_standard();
    let funder_before = t.balance(USDC, FUNDER);
    let freelancer_before = t.balance(USDC, FREELANCER);
    t.fund(FUNDER, id, INVOICE_AMOUNT).unwrap();
    let payout = INVOICE_AMOUNT - INVOICE_AMOUNT * DISCOUNT_RATE as i128 / 10_000;
    assert_eq!(funder_before - t.balance(USDC, FUNDER), payout);
    assert_eq!(t.balance(USDC, FREELANCER) - freelancer_before, payout);
}

#[test]
fn test_fund_invoice_updates_status_to_funded() {
    let mut t = World::new();
    let id = t.submit_standard();
    t.fund(FUNDER, id, INVOICE_AMOUNT).unwrap();
    let invoice = t.c.get_invoice(id).unwrap();
    assert_eq!(invoice.status, InvoiceStatus::Funded);
    assert_eq!(invoice.funder, Some(FUNDER));
    assert!(invoice.funded_at.is_some());
}

#[test]
fn test_fund_invoice_sets_funded_at_timestamp() {
    let mut t = World::new();
    let id = t.submit_standard();
    let now = t.ledger.timestamp;
    t.fund(FUNDER, id, INVOICE_AMOUNT).unwrap();
    assert_eq!(t.c.get_invoice(id).unwrap().funded_at, Some(now as u32));
}

#[test]
fn test_fund_nonexistent_invoice_fails() {
    let mut t = World::new();
    assert_eq!(t.fund(FUNDER, 999, INVOICE_AMOUNT), Err(ContractError::InvoiceNotFound));
}

#[test]
fn test_fund_already_funded_invoice_fails() {
    let mut t = World::new();
    let id = t.submit_standard();
    t.fund(FUNDER, id, INVOICE_AMOUNT).unwrap();
    assert_eq!(t.fund(66, id, INVOICE_AMOUNT), Err(ContractError::AlreadyFunded));
}

#[test]
fn test_mark_paid_releases_full_amount_to_lp() {
    let mut t = World::new();
    let id = t.submit_standard();
    t.fund(FUNDER, id, INVOICE_AMOUNT).unwrap();
    let before = t.balance(USDC, FUNDER);
    t.pay(id, INVOICE_AMOUNT).unwrap();
    assert_eq!(t.balance(USDC, FUNDER) - before, INVOICE_AMOUNT);
}

#[test]
fn test_mark_paid_updates_status() {
    let mut t = World::new();
    let id = t.submit_standard();
    t.fund(FUNDER, id, INVOICE_AMOUNT).unwrap();
    t.pay(id, INVOICE_AMOUNT).unwrap();
    assert_eq!(t.c.get_invoice(id).unwrap().status, InvoiceStatus::Paid);
}

#[test]
fn test_full_lifecycle_lp_earns_correct_yield() {
    let mut t = World::new();
    let id = t.submit_standard();
    let start = t.balance(USDC, FUNDER);
    t.fund(FUNDER, id, INVOICE_AMOUNT).unwrap();
    t.pay(id, INVOICE_AMOUNT).unwrap();
    assert_eq!(t.balance(USDC, FUNDER) - start, INVOICE_AMOUNT * DISCOUNT_RATE as i128 / 10_000);
}

#[test]
fn test_full_lifecycle_payer_balance_reduces_correctly() {
    let mut t = World::new();
    let id = t.submit_standard();
    let start = t.balance(USDC, PAYER);
    t.fund(FUNDER, id, INVOICE_AMOUNT).unwrap();
    t.pay(id, INVOICE_AMOUNT).unwrap();
    assert_eq!(start - t.balance(USDC, PAYER), INVOICE_AMOUNT);
}

#[test]
fn test_fund_invoice_full_lifecycle_with_stats() {
    let mut t = World::new();
    let id = t.submit_standard();
    t.fund(FUNDER, id, INVOICE_AMOUNT).unwrap();
    assert_eq!(t.c.get_invoice(id).unwrap().status, InvoiceStatus::Funded);
    t.pay(id, INVOICE_AMOUNT).unwrap();
    assert_eq!(t.c.get_invoice(id).unwrap().status, InvoiceStatus::Paid);
    let stats = t.c.get_contract_stats();
    assert_eq!(stats.total_paid, 1);
    assert_eq!(stats.total_funded, 1);
}

#[test]
fn test_mark_paid_on_pending_invoice_fails() {
    let mut t = World::new();
    let id = t.submit_standard();
    assert_eq!(t.pay(id, INVOICE_AMOUNT), Err(ContractError::NotFunded));
}

#[test]
fn test_mark_paid_twice_fails() {
    let mut t = World::new();
    let id = t.submit_standard();
    t.fund(FUNDER, id, INVOICE_AMOUNT).unwrap();
    t.pay(id, INVOICE_AMOUNT).unwrap();
    assert_eq!(t.pay(id, INVOICE_AMOUNT), Err(ContractError::AlreadyPaid));
}

#[test]
fn test_mark_paid_nonexistent_invoice_fails() {
    let mut t = World::new();
    assert_eq!(t.pay(999, INVOICE_AMOUNT), Err(ContractError::InvoiceNotFound));
}

#[test]
fn test_claim_default_success() {
    let mut t = World::new();
    let id = t.submit_standard();
    t.fund(FUNDER, id, INVOICE_AMOUNT).unwrap();
    t.advance(DUE_DATE_OFFSET + 1);
    let before = t.balance(USDC, FUNDER);
    t.claim_default(FUNDER, id).unwrap();
    let discount = INVOICE_AMOUNT * DISCOUNT_RATE as i128 / 10_000;
    assert_eq!(t.balance(USDC, FUNDER) - before, INVOICE_AMOUNT - discount);
    assert_eq!(t.c.get_invoice(id).unwrap().status, InvoiceStatus::Defaulted);
}

#[test]
fn test_claim_default_before_due_date_fails() {
    let mut t = World::new();
    let id = t.submit_standard();
    t.fund(FUNDER, id, INVOICE_AMOUNT).unwrap();
    assert_eq!(t.claim_default(FUNDER, id), Err(ContractError::NotYetDefaulted));
}

#[test]
fn test_claim_default_non_funder_fails() {
    let mut t = World::new();
    let id = t.submit_standard();
    t.fund(FUNDER, id, INVOICE_AMOUNT).unwrap();
    t.advance(DUE_DATE_OFFSET + 1);
    assert_eq!(t.claim_default(99, id), Err(ContractError::Unauthorized));
}

#[test]
fn test_claim_default_on_paid_invoice_fails() {
    let mut t = World::new();
    let id = t.submit_standard();
    t.fund(FUNDER, id, INVOICE_AMOUNT).unwrap();
    t.pay(id, INVOICE_AMOUNT).unwrap();
    t.advance(DUE_DATE_OFFSET + 1);
    assert_eq!(t.claim_default(FUNDER, id), Err(ContractError::AlreadyPaid));
}

#[test]
fn test_claim_default_twice_fails() {
    let mut t = World::new();
    let id = t.submit_standard();
    t.fund(FUNDER, id, INVOICE_AMOUNT).unwrap();
    t.advance(DUE_DATE_OFFSET + 1);
    t.claim_default(FUNDER, id).unwrap();
    assert_eq!(t.claim_default(FUNDER, id), Err(ContractError::InvoiceDefaulted));
}

#[test]
fn test_expire_invoice_success() {
    let mut t = World::new();
    let id = t.submit_standard();
    t.advance(DUE_DATE_OFFSET + 1);
    let ledger = t.ledger;
    t.c.expire_invoice(id, ledger).unwrap();
    assert_eq!(t.c.get_invoice(id).unwrap().status, InvoiceStatus::Expired);
}

#[test]
fn test_expire_invoice_before_due_date_fails() {
    let mut t = World::new();
    let id = t.submit_standard();
    let ledger = t.ledger;
    assert_eq!(t.c.expire_invoice(id, ledger), Err(ContractError::NotYetDefaulted));
}

#[test]
fn test_new_payer_score_is_neutral() {
    let mut t = World::new();
    assert_eq!(t.payer_score(), 50);
}

#[test]
fn test_perfect_payer_score() {
    let mut t = World::new();
    let id = t.submit_standard();
    t.fund(FUNDER, id, INVOICE_AMOUNT).unwrap();
    t.pay(id, INVOICE_AMOUNT).unwrap();
    assert_eq!(t.payer_score(), 51);
}

#[test]
fn test_payer_with_default() {
    let mut t = World::new();
    let id = t.submit_standard();
    t.fund(FUNDER, id, INVOICE_AMOUNT).unwrap();
    t.advance(DUE_DATE_OFFSET + 1);
    t.claim_default(FUNDER, id).unwrap();
    assert!(t.payer_score() < 50);
}

#[test]
fn test_reputation_score_never_exceeds_100() {
    let mut t = World::new();
    let (cfg, seq) = (t.c.settings.config, t.ledger.sequence);
    t.c.reputation.set_payer_score(cfg, seq, PAYER, 150);
    assert_eq!(t.payer_score(), 100);
}

#[test]
fn test_upgrade_emits_correct_event() {
    let t = World::new();
    assert_eq!(t.c.upgrade([1u8; 32]), Ok(ADMIN));
}

#[test]
fn test_upgrade_does_not_affect_existing_invoices() {
    let mut t = World::new();
    let id = t.submit_standard();
    let before = t.c.get_invoice(id).unwrap().clone();
    t.c.upgrade([3u8; 32]).unwrap();
    let after = t.c.get_invoice(id).unwrap();
    assert_eq!(before.id, after.id);
    assert_eq!(before.freelancer, after.freelancer);
    assert_eq!(before.payer, after.payer);
    assert_eq!(before.amount, after.amount);
    assert_eq!(before.status, after.status);
}

#[test]
fn test_upgrade_snapshot_before_after() {
    let mut t = World::new();
    t.submit_standard();
    let with_data = t.c.get_contract_stats();
    t.c.upgrade([4u8; 32]).unwrap();
    assert_eq!(with_data.total_invoices, t.c.get_contract_stats().total_invoices);
}

use invoice_liquidity::contract::InvoiceLiquidity;
use invoice_liquidity::errors::ContractError;
use invoice_liquidity::invoice::{Action, Address, InvoiceStatus, Ledger};

const ADMIN: Address = 1;
const FREELANCER: Address = 2;
const PAYER: Address = 3;
const LP: Address = 4;
const USDC: Address = 10;
const CONTRACT: Address = 1000;
const AMOUNT: i128 = 10_000_000;
const RATE: u32 = 300;
const DUE_OFFSET: u64 = 86_400 * 30;

struct Court {
    c: InvoiceLiquidity,
    ledger: Ledger,
}

impl Court {
    fn new() -> Court {
        let mut c = InvoiceLiquidity::new(CONTRACT);
        c.initialize(ADMIN, USDC, 11, 12).unwrap();
        Court { c, ledger: Ledger { timestamp: 1_000_000, sequence: 100 } }
    }

    fn submit(&mut self) -> u64 {
        let due = self.ledger.timestamp + DUE_OFFSET;
        self.c.submit_invoice(FREELANCER, PAYER, AMOUNT, due, RATE, USDC, None, None, self.ledger).unwrap()
    }

    fn fund(&mut self, id: u64, amount: i128) {
        self.c.fund_invoice(LP, id, amount, false, None, self.ledger).unwrap();
    }

    fn status(&self, id: u64) -> InvoiceStatus {
        self.c.get_invoice(id).unwrap().status
    }

    fn defaulted(&mut self) -> u64 {
        let id = self.submit();
        self.fund(id, AMOUNT);
        self.ledger.timestamp += DUE_OFFSET + 1;
        let ledger = self.ledger;
        self.c.claim_default(LP, id, ledger).unwrap();
        id
    }
}

#[test]
fn appeal_needs_a_defaulted_invoice_inside_the_window() {
    let mut t = Court::new();
    let pending = t.submit();
    let ledger = t.ledger;
    assert_eq!(t.c.appeal_default(pending, [7u8; 32], ledger), Err(ContractError::NotDefaulted));
    assert_eq!(t.c.appeal_default(99, [7u8; 32], ledger), Err(ContractError::InvoiceNotFound));
    let id = t.defaulted();
    let late = Ledger { timestamp: t.ledger.timestamp + 2_592_000, sequence: t.ledger.sequence };
    assert_eq!(t.c.appeal_default(id, [7u8; 32], late), Err(ContractError::AppealWindowClosed));
    let ledger = t.ledger;
    assert_eq!(t.c.appeal_default(id, [7u8; 32], ledger), Ok(()));
    assert_eq!(t.status(id), InvoiceStatus::Appealed);
    assert_eq!(t.c.appeal_default(id, [7u8; 32], ledger), Err(ContractError::AlreadyAppealed));
}

#[test]
fn upheld_appeal_restores_the_payer() {
    let mut t = Court::new();
    let id = t.defaulted();
    assert_eq!(t.c.get_reputation(PAYER).score, 45);
    assert_eq!(t.c.get_reputation(PAYER).invoices_defaulted, 1);
    let ledger = t.ledger;
    t.c.appeal_default(id, [7u8; 32], ledger).unwrap();
    t.c.resolve_appeal(id, true, ledger).unwrap();
    assert_eq!(t.status(id), InvoiceStatus::Defaulted);
    assert_eq!(t.c.get_reputation(PAYER).invoices_defaulted, 0);
    assert_eq!(t.c.payer_score(PAYER, ledger), 50);
}

#[test]
fn rejected_appeal_keeps_the_penalty() {
    let mut t = Court::new();
    let id = t.defaulted();
    let ledger = t.ledger;
    assert_eq!(t.c.resolve_appeal(id, false, ledger), Err(ContractError::NotDefaulted));
    t.c.appeal_default(id, [7u8; 32], ledger).unwrap();
    t.c.resolve_appeal(id, false, ledger).unwrap();
    assert_eq!(t.status(id), InvoiceStatus::Defaulted);
    assert_eq!(t.c.get_reputation(PAYER).invoices_defaulted, 1);
    assert_eq!(t.c.payer_score(PAYER, ledger), 45);
}

#[test]
fn dispute_freezes_and_rejection_restores_funding_state() {
    let mut t = Court::new();
    let id = t.submit();
    t.fund(id, AMOUNT / 2);
    let ledger = t.ledger;
    t.c.dispute_invoice(id, [1u8; 32], ledger).unwrap();
    assert_eq!(t.status(id), InvoiceStatus::Disputed);
    assert_eq!(t.c.dispute_invoice(id, [1u8; 32], ledger), Err(ContractError::AlreadyDisputed));
    assert!(t.c.fund_invoice(LP, id, AMOUNT / 2, false, None, ledger).is_err());
    assert_eq!(t.c.resolve_dispute(id, [2u8; 32], 3), Err(ContractError::Unauthorized));
    assert_eq!(t.c.resolve_dispute(id, [2u8; 32], 2), Ok(vec![]));
    assert_eq!(t.status(id), InvoiceStatus::PartiallyFunded);
    assert_eq!(t.c.resolve_dispute(id, [2u8; 32], 2), Err(ContractError::NotDisputed));
}

#[test]
fn upheld_dispute_cancels_and_refunds_the_lps() {
    let mut t = Court::new();
    let id = t.submit();
    t.fund(id, AMOUNT);
    let ledger = t.ledger;
    t.c.dispute_invoice(id, [1u8; 32], ledger).unwrap();
    let refunds = t.c.resolve_dispute(id, [2u8; 32], 1).unwrap();
    assert_eq!(refunds, vec![Action::Transfer { token: USDC, from: CONTRACT, to: LP, amount: 9_700_000 }]);
    assert_eq!(t.status(id), InvoiceStatus::Cancelled);
}

#[test]
fn dispute_of_a_paid_invoice_is_refused() {
    let mut t = Court::new();
    let id = t.submit();
    t.fund(id, AMOUNT);
    let ledger = t.ledger;
    t.c.mark_paid(id, AMOUNT, ledger).unwrap();
    assert_eq!(t.c.dispute_invoice(id, [1u8; 32], ledger), Err(ContractError::AlreadyPaid));
    assert_eq!(t.c.dispute_invoice(42, [1u8; 32], ledger), Err(ContractError::InvoiceNotFound));
}

#[test]
fn dispute_resolves_itself_after_the_timeout() {
    let mut t = Court::new();
    let id = t.submit();
    t.fund(id, AMOUNT);
    let ledger = t.ledger;
    t.c.dispute_invoice(id, [1u8; 32], ledger).unwrap();
    let early = Ledger { timestamp: ledger.timestamp, sequence: ledger.sequence + 9_999 };
    assert_eq!(t.c.auto_resolve_dispute(id, early), Err(ContractError::Unauthorized));
    let due = Ledger { timestamp: ledger.timestamp, sequence: ledger.sequence + 10_000 };
    assert_eq!(t.c.auto_resolve_dispute(id, due), Ok(()));
    assert_eq!(t.status(id), InvoiceStatus::Funded);
}

#[test]
fn cancel_refunds_partial_funding() {
    let mut t = Court::new();
    let id = t.submit();
    t.fund(id, 5_000_000);
    let refunds = t.c.cancel_invoice(id).unwrap();
    assert_eq!(refunds, vec![Action::Transfer { token: USDC, from: CONTRACT, to: LP, amount: 4_850_000 }]);
    assert_eq!(t.status(id), InvoiceStatus::Cancelled);
    assert_eq!(t.c.cancel_invoice(id), Err(ContractError::AlreadyCancelled));
}

#[test]
fn cancel_of_a_pending_invoice_moves_nothing_and_funded_is_refused() {
    let mut t = Court::new();
    let id = t.submit();
    assert_eq!(t.c.cancel_invoice(id), Ok(vec![]));
    let funded = t.submit();
    t.fund(funded, AMOUNT);
    assert_eq!(t.c.cancel_invoice(funded), Err(ContractError::AlreadyFunded));
    assert_eq!(t.c.cancel_invoice(77), Err(ContractError::InvoiceNotFound));
}

#[test]
fn claim_yield_reports_the_discount_once_paid() {
    let mut t = Court::new();
    let id = t.submit();
    assert_eq!(t.c.claim_yield(id), Err(ContractError::NothingToClaim));
    t.fund(id, AMOUNT);
    assert_eq!(t.c.claim_yield(id), Ok(0));
    let ledger = t.ledger;
    t.c.mark_paid(id, AMOUNT, ledger).unwrap();
    assert_eq!(t.c.claim_yield(id), Ok(300_000));
    assert_eq!(t.c.claim_yield(5), Err(ContractError::InvoiceNotFound));
}

#[test]
fn expire_only_after_due_date() {
    let mut t = Court::new();
    let id = t.submit();
    let ledger = t.ledger;
    assert_eq!(t.c.expire_invoice(id, ledger), Err(ContractError::NotYetDefaulted));
    let late = Ledger { timestamp: ledger.timestamp + DUE_OFFSET + 1, sequence: ledger.sequence };
    assert_eq!(t.c.expire_invoice(id, late), Ok(()));
    assert_eq!(t.status(id), InvoiceStatus::Expired);
}

#[test]
fn pause_blocks_submission_until_unpaused() {
    let mut t = Court::new();
    let paused = t.c.pause(5).unwrap();
    assert_eq!(paused.timestamp, 5);
    assert!(t.c.is_paused());
    let due = t.ledger.timestamp + DUE_OFFSET;
    let ledger = t.ledger;
    let r = t.c.submit_invoice(FREELANCER, PAYER, AMOUNT, due, RATE, USDC, None, None, ledger);
    assert_eq!(r, Err(ContractError::ContractPaused));
    assert_eq!(t.c.unpause(6).unwrap().timestamp, 6);
    assert!(t.submit() > 0);
}

#[test]
fn uninitialised_protocol_refuses_admin_calls() {
    let mut c = InvoiceLiquidity::new(CONTRACT);
    assert_eq!(c.pause(1), Err(ContractError::Unauthorized));
    assert_eq!(c.upgrade([0u8; 32]), Err(ContractError::Unauthorized));
    assert_eq!(c.set_admin(9), Err(ContractError::Unauthorized));
    c.initialize(ADMIN, USDC, 11, 12).unwrap();
    assert_eq!(c.initialize(ADMIN, USDC, 11, 12), Err(ContractError::AlreadyInitialized));
    assert_eq!(c.upgrade([0u8; 32]), Ok(ADMIN));
    c.set_admin(9).unwrap();
    assert_eq!(c.upgrade([0u8; 32]), Ok(9));
}

#[test]
fn listing_pages_through_submitted_invoices() {
    let mut t = Court::new();
    for _ in 0..5 {
        t.submit();
    }
    let ids = |v: Vec<invoice_liquidity::invoice::Invoice>| v.iter().map(|i| i.id).collect::<Vec<u64>>();
    assert_eq!(ids(t.c.list_invoices_by_submitter(FREELANCER, 0, 2)), vec![1, 2]);
    assert_eq!(ids(t.c.list_invoices_by_submitter(FREELANCER, 1, 2)), vec![3, 4]);
    assert_eq!(ids(t.c.list_invoices_by_submitter(FREELANCER, 2, 2)), vec![5]);
    assert_eq!(ids(t.c.list_invoices_by_submitter(FREELANCER, 3, 2)), Vec::<u64>::new());
    assert_eq!(ids(t.c.list_invoices_by_submitter(FREELANCER, 0, 500)), vec![1, 2, 3, 4, 5]);
    assert_eq!(ids(t.c.list_invoices_by_submitter(PAYER, 0, 10)), Vec::<u64>::new());
    t.fund(2, AMOUNT);
    t.fund(4, AMOUNT);
    assert_eq!(ids(t.c.list_invoices_by_lp(LP, 0, 10)), vec![2, 4]);
}

#[test]
fn suggested_discount_rate_follows_payer_score() {
    let mut t = Court::new();
    let ledger = t.ledger;
    assert_eq!(t.c.suggested_discount_rate(PAYER, ledger), 750);
    t.defaulted();
    let ledger = t.ledger;
    assert_eq!(t.c.suggested_discount_rate(PAYER, ledger), 775);
}

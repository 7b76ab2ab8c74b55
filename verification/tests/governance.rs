use invoice_liquidity::contract::InvoiceLiquidity;
use invoice_liquidity::errors::ContractError;
use invoice_liquidity::invoice::{Action, Address, InvoiceStatus, Ledger, ReputationProfile};

const ADMIN: Address = 1;
const FREELANCER: Address = 2;
const PAYER: Address = 3;
const LP: Address = 4;
const USDC: Address = 10;
const EURC: Address = 11;
const XLM: Address = 12;
const DUE_DATE_OFFSET: u64 = 60 * 60 * 24 * 30;
const DISCOUNT_RATE: u32 = 300;
const AMOUNT: i128 = 10_000_000;

struct Governed {
    c: InvoiceLiquidity,
    ledger: Ledger,
}

impl Governed {
    fn new() -> Governed {
        let mut c = InvoiceLiquidity::new(1000);
        c.initialize(ADMIN, USDC, EURC, XLM).unwrap();
        Governed { c, ledger: Ledger { timestamp: 1_700_000_000, sequence: 100 } }
    }

    fn submit(&mut self, token: Address) -> u64 {
        let due = self.ledger.timestamp + DUE_DATE_OFFSET;
        self.c.submit_invoice(FREELANCER, PAYER, AMOUNT, due, DISCOUNT_RATE, token, None, None, self.ledger).unwrap()
    }

    fn fund(&mut self, id: u64) -> Result<Vec<Action>, ContractError> {
        self.c.fund_invoice(LP, id, AMOUNT, false, None, self.ledger)
    }

    fn status(&self, id: u64) -> InvoiceStatus {
        self.c.get_invoice(id).unwrap().status
    }
}

#[test]
fn fund_succeeds_for_allowlisted_token() {
    let mut t = Governed::new();
    let id = t.submit(USDC);
    t.fund(id).unwrap();
    assert_eq!(t.status(id), InvoiceStatus::Funded);
}

#[test]
fn fund_fails_after_token_removed_from_allowlist() {
    let mut t = Governed::new();
    let id = t.submit(USDC);
    t.c.remove_token(USDC).unwrap();
    assert_eq!(t.fund(id), Err(ContractError::Unauthorized));
}

#[test]
fn add_token_then_fund_succeeds() {
    let mut t = Governed::new();
    let new_token: Address = 20;
    let probe = t.c.begin_add_token(new_token).unwrap();
    assert_eq!(probe, Action::Transfer { token: new_token, from: ADMIN, to: 1000, amount: 1_000_000 });
    let refund = t.c.add_token(new_token, 1_000_000).unwrap();
    assert_eq!(refund, vec![Action::Transfer { token: new_token, from: 1000, to: ADMIN, amount: 1_000_000 }]);
    let id = t.submit(new_token);
    t.fund(id).unwrap();
    assert_eq!(t.status(id), InvoiceStatus::Funded);
}

#[test]
fn add_token_rejects_fee_on_transfer_token() {
    let mut t = Governed::new();
    let fee_token: Address = 21;
    t.c.begin_add_token(fee_token).unwrap();
    // The token keeps 1% of every transfer.
    let received = 1_000_000 - 1_000_000 / 100;
    assert_eq!(t.c.add_token(fee_token, received), Err(ContractError::FeeOnTransferToken));
    assert!(!t.c.is_approved_token(fee_token));
}

#[test]
fn reputation_unknown_address_returns_zero_profile() {
    let t = Governed::new();
    let who: Address = 30;
    let profile = t.c.get_reputation(who);
    assert_eq!(profile.address, who);
    assert_eq!(profile.invoices_submitted, 0);
    assert_eq!(profile.invoices_paid, 0);
    assert_eq!(profile.invoices_defaulted, 0);
    assert_eq!(profile.score, 0);
}

#[test]
fn reputation_fields_update_correctly() {
    let mut t = Governed::new();
    let who: Address = 30;
    let updated = ReputationProfile {
        address: who,
        invoices_submitted: 4,
        invoices_paid: 3,
        invoices_defaulted: 1,
        score: 72,
    };
    t.c.reputation.set_reputation(updated);
    assert_eq!(t.c.reputation.get_reputation(who), updated);
    let via_view = t.c.get_reputation(who);
    assert_eq!(via_view.invoices_submitted, 4);
    assert_eq!(via_view.invoices_paid, 3);
    assert_eq!(via_view.invoices_defaulted, 1);
    assert_eq!(via_view.score, 72);
}

#[test]
fn threshold_defaults_to_zero_and_is_updatable() {
    let mut t = Governed::new();
    assert_eq!(t.c.min_payer_reputation(), 0);
    t.c.set_min_payer_reputation(25).unwrap();
    assert_eq!(t.c.min_payer_reputation(), 25);
}

#[test]
fn fund_succeeds_when_payer_reputation_meets_threshold() {
    let mut t = Governed::new();
    t.c.set_min_payer_reputation(40).unwrap();
    let id = t.submit(USDC);
    t.fund(id).unwrap();
    assert_eq!(t.status(id), InvoiceStatus::Funded);
}

#[test]
fn fund_fails_when_payer_reputation_below_threshold() {
    let mut t = Governed::new();
    t.c.set_min_payer_reputation(60).unwrap();
    let id = t.submit(USDC);
    assert_eq!(t.fund(id), Err(ContractError::PayerReputationTooLow));
}

#[test]
fn fund_nonexistent_invoice_returns_not_found() {
    let mut t = Governed::new();
    assert_eq!(t.fund(999), Err(ContractError::InvoiceNotFound));
}

#[test]
fn mark_paid_nonexistent_invoice_returns_not_found() {
    let mut t = Governed::new();
    let ledger = t.ledger;
    assert_eq!(t.c.mark_paid(999, AMOUNT, ledger), Err(ContractError::InvoiceNotFound));
}

#[test]
fn fund_then_mark_paid_full_lifecycle_still_works() {
    let mut t = Governed::new();
    let id = t.submit(USDC);
    t.fund(id).unwrap();
    let ledger = t.ledger;
    t.c.mark_paid(id, AMOUNT, ledger).unwrap();
    assert_eq!(t.status(id), InvoiceStatus::Paid);
}

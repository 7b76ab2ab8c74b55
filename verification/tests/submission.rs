use invoice_liquidity::constants::MIN_INVOICE_AMOUNT;
use invoice_liquidity::contract::InvoiceLiquidity;
use invoice_liquidity::errors::ContractError;
use invoice_liquidity::invoice::{Address, Hash32, Ledger};

const FREELANCER: Address = 2;
const PAYER: Address = 3;
const FUNDER: Address = 4;
const USDC: Address = 10;
const EURC: Address = 11;
const XLM: Address = 12;
const JUNK: Address = 13;
const INVOICE_AMOUNT: i128 = 1_000_000_000;
const DISCOUNT_RATE: u32 = 300;
const DUE_DATE_OFFSET: u64 = 60 * 60 * 24 * 30;

struct Desk {
    c: InvoiceLiquidity,
    ledger: Ledger,
}

impl Desk {
    fn new() -> Desk {
        let mut c = InvoiceLiquidity::new(1000);
        c.initialize(1, USDC, EURC, XLM).unwrap();
        Desk { c, ledger: Ledger { timestamp: 1_700_000_000, sequence: 100 } }
    }

    fn submit_with(&mut self, amount: i128, due_date: u64, rate: u32, code: Option<Hash32>) -> Result<u64, ContractError> {
        self.c.submit_invoice(FREELANCER, PAYER, amount, due_date, rate, USDC, code, None, self.ledger)
    }

    fn submit(&mut self) -> u64 {
        let due_date = self.ledger.timestamp + DUE_DATE_OFFSET;
        self.submit_with(INVOICE_AMOUNT, due_date, DISCOUNT_RATE, None).unwrap()
    }

    fn convert(&mut self, who: Address, id: u64, token: Address) -> Result<(), ContractError> {
        self.c.convert_invoice_token(who, id, token, self.ledger)
    }
}

#[test]
fn test_convert_invoice_token_success() {
    let mut t = Desk::new();
    let id = t.submit();
    t.convert(FREELANCER, id, EURC).unwrap();
    assert_eq!(t.c.get_invoice(id).unwrap().token, EURC);
}

#[test]
fn test_convert_invoice_token_non_submitter_fails() {
    let mut t = Desk::new();
    let id = t.submit();
    let someone_else: Address = 50;
    assert!(t.convert(someone_else, id, EURC).is_err());
    assert_eq!(t.c.get_invoice(id).unwrap().token, USDC);
}

#[test]
fn test_convert_invoice_token_non_allowlisted_fails() {
    let mut t = Desk::new();
    let id = t.submit();
    assert_eq!(t.convert(FREELANCER, id, JUNK), Err(ContractError::Unauthorized));
}

#[test]
fn test_convert_invoice_token_after_funding_fails() {
    let mut t = Desk::new();
    let id = t.submit();
    let ledger = t.ledger;
    t.c.fund_invoice(FUNDER, id, INVOICE_AMOUNT, false, None, ledger).unwrap();
    assert_eq!(t.convert(FREELANCER, id, EURC), Err(ContractError::AlreadyFunded));
}

#[test]
fn test_convert_invoice_token_after_expiry_fails() {
    let mut t = Desk::new();
    let id = t.submit();
    t.ledger.timestamp += DUE_DATE_OFFSET + 1;
    assert_eq!(t.convert(FREELANCER, id, EURC), Err(ContractError::InvoiceExpired));
}

#[test]
fn submit_invoice_at_minimum_succeeds() {
    let mut t = Desk::new();
    let due_date = t.ledger.timestamp + 100_000;
    let id = t.submit_with(MIN_INVOICE_AMOUNT, due_date, 100, None).unwrap();
    assert_eq!(t.c.get_invoice(id).unwrap().amount, MIN_INVOICE_AMOUNT);
}

#[test]
fn submit_invoice_below_minimum_rejected() {
    let mut t = Desk::new();
    let due_date = t.ledger.timestamp + 100_000;
    let result = t.submit_with(MIN_INVOICE_AMOUNT - 1, due_date, 100, None);
    assert_eq!(result, Err(ContractError::InvalidAmount));
}

#[test]
fn submit_invoice_zero_rejected() {
    let mut t = Desk::new();
    let due_date = t.ledger.timestamp + 100_000;
    let result = t.submit_with(0, due_date, 100, None);
    assert_eq!(result, Err(ContractError::InvalidAmount));
}

#[test]
fn test_submit_invoice_without_referral_does_not_increment_stats() {
    let mut t = Desk::new();
    let code: Hash32 = [1u8; 32];
    t.submit();
    assert_eq!(t.c.get_referral_stats(code), 0);
}

#[test]
fn test_submit_invoice_with_referral_increments_stats() {
    let mut t = Desk::new();
    let code: Hash32 = [2u8; 32];
    let due_date = t.ledger.timestamp + DUE_DATE_OFFSET;
    t.submit_with(INVOICE_AMOUNT, due_date, DISCOUNT_RATE, Some(code)).unwrap();
    assert_eq!(t.c.get_referral_stats(code), 1);
    assert_eq!(t.c.get_referral_stats([3u8; 32]), 0);
}

#[test]
fn submission_error_for_each_term() {
    let mut t = Desk::new();
    let now = t.ledger.timestamp;
    let ok_due = now + DUE_DATE_OFFSET;
    assert_eq!(t.submit_with(INVOICE_AMOUNT, ok_due, 0, None), Err(ContractError::InvalidDiscountRate));
    assert_eq!(t.submit_with(INVOICE_AMOUNT, ok_due, 5001, None), Err(ContractError::InvalidDiscountRate));
    assert!(t.submit_with(INVOICE_AMOUNT, ok_due, 5000, None).is_ok());
    assert_eq!(t.submit_with(INVOICE_AMOUNT, now, DISCOUNT_RATE, None), Err(ContractError::InvalidDueDate));
    assert_eq!(t.submit_with(INVOICE_AMOUNT, now + 86_399, DISCOUNT_RATE, None), Err(ContractError::DueDateTooSoon));
    assert!(t.submit_with(INVOICE_AMOUNT, now + 86_400, DISCOUNT_RATE, None).is_ok());
    assert!(t.submit_with(INVOICE_AMOUNT, now + 31_536_000, DISCOUNT_RATE, None).is_ok());
    assert_eq!(t.submit_with(INVOICE_AMOUNT, now + 31_536_001, DISCOUNT_RATE, None), Err(ContractError::DueDateTooFar));
    assert_eq!(t.c.get_invoice_count(None), 3);
}

#[test]
fn submission_refuses_self_invoice_and_unapproved_token() {
    let mut t = Desk::new();
    let due_date = t.ledger.timestamp + DUE_DATE_OFFSET;
    let ledger = t.ledger;
    let own = t.c.submit_invoice(FREELANCER, FREELANCER, INVOICE_AMOUNT, due_date, DISCOUNT_RATE, USDC, None, None, ledger);
    assert_eq!(own, Err(ContractError::SelfInvoice));
    let junk = t.c.submit_invoice(FREELANCER, PAYER, INVOICE_AMOUNT, due_date, DISCOUNT_RATE, JUNK, None, None, ledger);
    assert_eq!(junk, Err(ContractError::Unauthorized));
    assert_eq!(t.c.get_invoice_count(None), 0);
}

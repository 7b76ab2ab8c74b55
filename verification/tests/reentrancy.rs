use invoice_liquidity::contract::InvoiceLiquidity;
use invoice_liquidity::errors::ContractError;
use invoice_liquidity::invoice::{Address, InvoiceStatus, Ledger};

const FREELANCER: Address = 2;
const PAYER: Address = 3;
const FUNDER: Address = 4;
const USDC: Address = 10;
const DUE_DATE_OFFSET: u64 = 60 * 60 * 24 * 30;
const AMOUNT: i128 = 1_000_000_000;

struct Guarded {
    c: InvoiceLiquidity,
    ledger: Ledger,
}

impl Guarded {
    fn new() -> Guarded {
        let mut c = InvoiceLiquidity::new(1000);
        c.initialize(1, USDC, USDC, 12).unwrap();
        Guarded { c, ledger: Ledger { timestamp: 1_000_000, sequence: 100 } }
    }

    fn submit(&mut self) -> u64 {
        let due_date = self.ledger.timestamp + DUE_DATE_OFFSET;
        self.c.submit_invoice(FREELANCER, PAYER, AMOUNT, due_date, 500, USDC, None, None, self.ledger).unwrap()
    }

    fn fund(&mut self, id: u64) -> Result<(), ContractError> {
        self.c.fund_invoice(FUNDER, id, AMOUNT, false, None, self.ledger).map(|_| ())
    }

    fn pay(&mut self, id: u64) -> Result<(), ContractError> {
        self.c.mark_paid(id, AMOUNT, self.ledger).map(|_| ())
    }
}

#[test]
fn test_fund_invoice_reentrancy_guard() {
    let mut t = Guarded::new();
    let id = t.submit();
    t.fund(id).expect("First fund_invoice should succeed");
    assert_eq!(t.c.get_invoice(id).unwrap().status, InvoiceStatus::Funded);
}

#[test]
fn test_mark_paid_reentrancy_guard() {
    let mut t = Guarded::new();
    let id = t.submit();
    t.fund(id).unwrap();
    t.pay(id).expect("First mark_paid should succeed");
    assert_eq!(t.c.get_invoice(id).unwrap().status, InvoiceStatus::Paid);
}

#[test]
fn test_reentrancy_error_on_concurrent_fund_invoice() {
    let mut t = Guarded::new();
    let id = t.submit();
    t.fund(id).expect("First fund_invoice succeeds");
    let id2 = t.submit();
    t.fund(id2).expect("Second fund_invoice succeeds");
}

#[test]
fn test_reentrancy_error_on_concurrent_mark_paid() {
    let mut t = Guarded::new();
    let id = t.submit();
    t.fund(id).unwrap();
    t.pay(id).expect("First mark_paid succeeds");
    let id2 = t.submit();
    t.fund(id2).unwrap();
    t.pay(id2).expect("Second mark_paid succeeds");
}

#[test]
fn test_reentrancy_error_returned_on_fund_invoice_reentrant_call() {
    let mut t = Guarded::new();
    let id = t.submit();
    t.c.enter_guard().unwrap();
    assert_eq!(t.fund(id), Err(ContractError::Reentrancy));
    t.c.exit_guard();
    assert!(t.fund(id).is_ok());
}

#[test]
fn guard_refuses_settlement_and_default_claims_while_held() {
    let mut t = Guarded::new();
    let id = t.submit();
    t.fund(id).unwrap();
    t.c.enter_guard().unwrap();
    assert_eq!(t.c.enter_guard(), Err(ContractError::Reentrancy));
    assert_eq!(t.pay(id), Err(ContractError::Reentrancy));
    let late = Ledger { timestamp: t.ledger.timestamp + DUE_DATE_OFFSET + 1, sequence: 200 };
    assert_eq!(t.c.claim_default(FUNDER, id, late).map(|_| ()), Err(ContractError::Reentrancy));
    t.c.exit_guard();
    assert!(t.pay(id).is_ok());
}

use invoice_liquidity::contract::InvoiceLiquidity;
use invoice_liquidity::invoice::{Address, InvoiceStatus, Ledger};

const FREELANCER: Address = 2;
const PAYER: Address = 3;
const LP: Address = 4;
const USDC: Address = 10;
const DUE_DATE_OFFSET: u64 = 60 * 60 * 24 * 30;
const DISCOUNT_RATE: u32 = 300;
const INVOICE_AMOUNT: i128 = 1_000_000_000;
const NUM_INVOICES: u64 = 1000;

struct Load {
    c: InvoiceLiquidity,
    ledger: Ledger,
}

impl Load {
    fn new() -> Load {
        let mut c = InvoiceLiquidity::new(1000);
        c.initialize(1, USDC, 11, 12).unwrap();
        Load { c, ledger: Ledger { timestamp: 1_700_000_000, sequence: 100 } }
    }

    fn submit_at(&mut self, due_date: u64) -> u64 {
        self.c
            .submit_invoice(FREELANCER, PAYER, INVOICE_AMOUNT, due_date, DISCOUNT_RATE, USDC, None, None, self.ledger)
            .unwrap()
    }

    fn submit(&mut self) -> u64 {
        let due = self.ledger.timestamp + DUE_DATE_OFFSET;
        self.submit_at(due)
    }

    fn submit_many(&mut self) -> Vec<u64> {
        (0..NUM_INVOICES).map(|_| self.submit()).collect()
    }

    fn fund(&mut self, id: u64, amount: i128) {
        self.c.fund_invoice(LP, id, amount, false, None, self.ledger).unwrap();
    }

    fn pay(&mut self, id: u64) {
        self.c.mark_paid(id, INVOICE_AMOUNT, self.ledger).unwrap();
    }
}

#[test]
fn test_stress_1000_invoice_lifecycles() {
    let mut t = Load::new();
    let ids = t.submit_many();
    assert_eq!(t.c.get_contract_stats().total_invoices, NUM_INVOICES);
    for id in &ids {
        t.fund(*id, INVOICE_AMOUNT);
    }
    assert_eq!(t.c.get_contract_stats().total_funded, NUM_INVOICES);
    for id in &ids {
        t.pay(*id);
    }
    assert_eq!(t.c.get_contract_stats().total_paid, NUM_INVOICES);
    for id in &ids {
        assert_eq!(t.c.get_invoice(*id).unwrap().status, InvoiceStatus::Paid);
    }
    let s = t.c.get_contract_stats();
    assert_eq!((s.total_invoices, s.total_funded, s.total_paid), (NUM_INVOICES, NUM_INVOICES, NUM_INVOICES));
}

#[test]
fn test_stress_1000_concurrent_submissions() {
    let mut t = Load::new();
    let ids = t.submit_many();
    for id in &ids {
        assert_eq!(t.c.get_invoice(*id).unwrap().status, InvoiceStatus::Pending);
    }
    assert_eq!(t.c.get_contract_stats().total_invoices, NUM_INVOICES);
}

#[test]
fn test_stress_1000_partial_fundings() {
    let mut t = Load::new();
    let ids = t.submit_many();
    let partial_amount = INVOICE_AMOUNT / 2;
    for id in &ids {
        t.fund(*id, partial_amount);
    }
    for id in &ids {
        let invoice = t.c.get_invoice(*id).unwrap();
        assert_eq!(invoice.status, InvoiceStatus::PartiallyFunded);
        assert_eq!(invoice.amount_funded, partial_amount);
    }
}

#[test]
fn benchmark_submit_invoice() {
    let mut t = Load::new();
    let due = t.ledger.timestamp + 86_400;
    let id = t.submit_at(due);
    assert_eq!(t.c.get_invoice(id).unwrap().status, InvoiceStatus::Pending);
}

#[test]
fn benchmark_fund_invoice() {
    let mut t = Load::new();
    let due = t.ledger.timestamp + 86_400;
    let id = t.submit_at(due);
    t.fund(id, INVOICE_AMOUNT);
    assert_eq!(t.c.get_invoice(id).unwrap().status, InvoiceStatus::Funded);
}

#[test]
fn benchmark_mark_paid() {
    let mut t = Load::new();
    let due = t.ledger.timestamp + 86_400;
    let id = t.submit_at(due);
    t.fund(id, INVOICE_AMOUNT);
    t.pay(id);
    assert_eq!(t.c.get_invoice(id).unwrap().status, InvoiceStatus::Paid);
}

#[test]
fn benchmark_all_functions_summary() {
    let mut t = Load::new();
    let due = t.ledger.timestamp + 86_400;
    t.submit_at(due);
    let id = t.submit_at(due + 1);
    t.fund(id, INVOICE_AMOUNT);
    t.pay(id);
    assert_eq!(t.c.get_contract_stats().total_invoices, 2);
    assert_eq!(t.c.get_contract_stats().total_paid, 1);
}

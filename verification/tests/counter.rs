use invoice_liquidity::contract::InvoiceLiquidity;
use invoice_liquidity::invoice::{Address, InvoiceStatus, Ledger};

const FREELANCER: Address = 2;
const PAYER: Address = 3;
const FUNDER: Address = 4;
const USDC: Address = 10;

struct Counted {
    c: InvoiceLiquidity,
    ledger: Ledger,
}

impl Counted {
    fn new() -> Counted {
        let mut c = InvoiceLiquidity::new(1000);
        c.initialize(1, USDC, 11, 12).unwrap();
        Counted { c, ledger: Ledger { timestamp: 1_000_000, sequence: 100 } }
    }

    fn submit(&mut self, amount: i128) -> u64 {
        let due_date = self.ledger.timestamp + 86_400;
        self.c.submit_invoice(FREELANCER, PAYER, amount, due_date, 300, USDC, None, None, self.ledger).unwrap()
    }

    fn fund(&mut self, id: u64, amount: i128) {
        self.c.fund_invoice(FUNDER, id, amount, false, None, self.ledger).unwrap();
    }

    fn pay(&mut self, id: u64, amount: i128) {
        self.c.mark_paid(id, amount, self.ledger).unwrap();
    }

    fn count(&self, status: InvoiceStatus) -> u64 {
        self.c.get_invoice_count(Some(status))
    }
}

#[test]
fn test_total_count() {
    let mut t = Counted::new();
    assert_eq!(t.c.get_invoice_count(None), 0);
    t.submit(1_000_000_000);
    assert_eq!(t.c.get_invoice_count(None), 1);
    t.submit(2_000_000_000);
    assert_eq!(t.c.get_invoice_count(None), 2);
}

#[test]
fn test_per_state_counts() {
    let mut t = Counted::new();
    assert_eq!(t.count(InvoiceStatus::Pending), 0);
    let id = t.submit(1_000_000_000);
    assert_eq!(t.count(InvoiceStatus::Pending), 1);
    assert_eq!(t.count(InvoiceStatus::Funded), 0);
    t.fund(id, 1_000_000_000);
    assert_eq!(t.count(InvoiceStatus::Pending), 0);
    assert_eq!(t.count(InvoiceStatus::Funded), 1);
}

#[test]
fn test_state_transitions() {
    let mut t = Counted::new();
    let id = t.submit(1_000_000_000);
    assert_eq!(t.count(InvoiceStatus::Pending), 1);
    t.fund(id, 1_000_000_000);
    assert_eq!(t.count(InvoiceStatus::Pending), 0);
    assert_eq!(t.count(InvoiceStatus::Funded), 1);
    t.pay(id, 1_000_000_000);
    assert_eq!(t.count(InvoiceStatus::Funded), 0);
    assert_eq!(t.count(InvoiceStatus::Paid), 1);
}

#[test]
fn test_multiple_sequential_transitions() {
    let mut t = Counted::new();
    let id1 = t.submit(1_000_000_000);
    let id2 = t.submit(2_000_000_000);
    assert_eq!(t.count(InvoiceStatus::Pending), 2);
    t.fund(id1, 1_000_000_000);
    assert_eq!(t.count(InvoiceStatus::Pending), 1);
    assert_eq!(t.count(InvoiceStatus::Funded), 1);
    t.fund(id2, 2_000_000_000);
    assert_eq!(t.count(InvoiceStatus::Pending), 0);
    assert_eq!(t.count(InvoiceStatus::Funded), 2);
    t.pay(id1, 1_000_000_000);
    assert_eq!(t.count(InvoiceStatus::Funded), 1);
    assert_eq!(t.count(InvoiceStatus::Paid), 1);
    t.pay(id2, 2_000_000_000);
    assert_eq!(t.count(InvoiceStatus::Funded), 0);
    assert_eq!(t.count(InvoiceStatus::Paid), 2);
    assert_eq!(t.c.get_invoice_count(None), 2);
}

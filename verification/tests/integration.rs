use std::collections::HashMap;

use invoice_liquidity::contract::InvoiceLiquidity;
use invoice_liquidity::errors::ContractError;
use invoice_liquidity::invoice::{Action, Address, InvoiceStatus, Ledger};

const ADMIN: Address = 1;
const FREELANCER: Address = 2;
const PAYER: Address = 3;
const LP: Address = 4;
const USDC: Address = 10;
const EURC: Address = 11;
const XLM: Address = 12;
const DUE_DATE_OFFSET: u64 = 60 * 60 * 24 * 30;
const DISCOUNT_RATE: u32 = 300;
const INVOICE_AMOUNT: i128 = 1_000_000_000;

struct Market {
    c: InvoiceLiquidity,
    balances: HashMap<(Address, Address), i128>,
    ledger: Ledger,
}

fn expected_discount(amount: i128) -> i128 {
    amount * DISCOUNT_RATE as i128 / 10_000
}

impl Market {
    fn new() -> Market {
        let mut c = InvoiceLiquidity::new(1000);
        c.initialize(ADMIN, USDC, EURC, XLM).unwrap();
        let mut m = Market { c, balances: HashMap::new(), ledger: Ledger { timestamp: 1_700_000_000, sequence: 100 } };
        for token in [USDC, EURC, XLM] {
            m.balances.insert((token, PAYER), INVOICE_AMOUNT * 10);
            m.balances.insert((token, LP), INVOICE_AMOUNT * 10);
        }
        m
    }

    fn balance(&self, token: Address, who: Address) -> i128 {
        *self.balances.get(&(token, who)).unwrap_or(&0)
    }

    fn apply(&mut self, actions: Vec<Action>) {
        for a in actions {
            if let Action::Transfer { token, from, to, amount } | Action::TreasuryFee { token, from, to, amount } = a {
                *self.balances.entry((token, from)).or_insert(0) -= amount;
                *self.balances.entry((token, to)).or_insert(0) += amount;
            }
        }
    }

    fn submit(&mut self, token: Address) -> Result<u64, ContractError> {
        let due = self.ledger.timestamp + DUE_DATE_OFFSET;
        self.c.submit_invoice(FREELANCER, PAYER, INVOICE_AMOUNT, due, DISCOUNT_RATE, token, None, None, self.ledger)
    }

    fn fund(&mut self, id: u64) -> Result<(), ContractError> {
        let actions = self.c.fund_invoice(LP, id, INVOICE_AMOUNT, false, None, self.ledger)?;
        self.apply(actions);
        Ok(())
    }

    fn pay(&mut self, id: u64) {
        let actions = self.c.mark_paid(id, INVOICE_AMOUNT, self.ledger).unwrap();
        self.apply(actions);
    }

    /// Runs submit, fund and pay in `token` and checks every balance and status on the way.
    fn full_lifecycle(&mut self, token: Address) {
        let freelancer_before = self.balance(token, FREELANCER);
        let lp_before = self.balance(token, LP);
        let payer_before = self.balance(token, PAYER);
        let stats_initial = self.c.get_contract_stats();

        let id = self.submit(token).unwrap();
        let pending = self.c.get_invoice(id).unwrap();
        assert_eq!(pending.status, InvoiceStatus::Pending);
        assert_eq!(pending.amount, INVOICE_AMOUNT);
        assert_eq!(pending.discount_rate, DISCOUNT_RATE);
        assert_eq!(pending.token, token);
        assert_eq!(pending.freelancer, FREELANCER);
        assert_eq!(pending.payer, PAYER);
        assert_eq!(self.c.get_contract_stats().total_invoices, stats_initial.total_invoices + 1);

        self.fund(id).unwrap();
        let discount = expected_discount(INVOICE_AMOUNT);
        let expected_payout = INVOICE_AMOUNT - discount;
        assert_eq!(self.balance(token, FREELANCER) - freelancer_before, expected_payout);
        assert_eq!(lp_before - self.balance(token, LP), expected_payout);
        let funded = self.c.get_invoice(id).unwrap();
        assert_eq!(funded.status, InvoiceStatus::Funded);
        assert_eq!(funded.amount_funded, INVOICE_AMOUNT);
        assert_eq!(funded.funder, Some(LP));
        assert_eq!(self.c.get_contract_stats().total_funded, stats_initial.total_funded + 1);

        self.pay(id);
        assert_eq!(self.balance(token, LP) - lp_before, discount);
        assert_eq!(payer_before - self.balance(token, PAYER), INVOICE_AMOUNT);
        let paid = self.c.get_invoice(id).unwrap();
        assert_eq!(paid.status, InvoiceStatus::Paid);
        assert_eq!(paid.amount_paid, INVOICE_AMOUNT);
        let stats_final = self.c.get_contract_stats();
        assert_eq!(stats_final.total_invoices, stats_initial.total_invoices + 1);
        assert_eq!(stats_final.total_funded, stats_initial.total_funded + 1);
        assert_eq!(stats_final.total_paid, stats_initial.total_paid + 1);
    }
}

#[test]
fn test_lifecycle_usdc_full() {
    Market::new().full_lifecycle(USDC);
}

#[test]
fn test_lifecycle_eurc_full() {
    let mut m = Market::new();
    let eurc2: Address = 20;
    m.balances.insert((eurc2, PAYER), INVOICE_AMOUNT * 10);
    m.balances.insert((eurc2, LP), INVOICE_AMOUNT * 10);
    let probe = m.c.begin_add_token(eurc2).unwrap();
    m.apply(vec![probe]);
    let refund = m.c.add_token(eurc2, 1_000_000).unwrap();
    m.apply(refund);
    m.full_lifecycle(eurc2);
}

#[test]
fn test_lifecycle_xlm_full() {
    Market::new().full_lifecycle(XLM);
}

#[test]
fn test_lifecycle_stat_counters_increment() {
    let mut m = Market::new();
    let s0 = m.c.get_contract_stats();
    let id = m.submit(USDC).unwrap();
    let s1 = m.c.get_contract_stats();
    assert_eq!((s1.total_invoices, s1.total_funded, s1.total_paid), (s0.total_invoices + 1, s0.total_funded, s0.total_paid));
    m.fund(id).unwrap();
    let s2 = m.c.get_contract_stats();
    assert_eq!((s2.total_invoices, s2.total_funded, s2.total_paid), (s0.total_invoices + 1, s0.total_funded + 1, s0.total_paid));
    m.pay(id);
    let s3 = m.c.get_contract_stats();
    assert_eq!((s3.total_invoices, s3.total_funded, s3.total_paid), (s0.total_invoices + 1, s0.total_funded + 1, s0.total_paid + 1));
}

#[test]
fn test_integration_lifecycle_usdc() {
    Market::new().full_lifecycle(USDC);
}

#[test]
fn test_integration_lifecycle_eurc() {
    Market::new().full_lifecycle(EURC);
}

#[test]
fn test_integration_lifecycle_xlm() {
    Market::new().full_lifecycle(XLM);
}

#[test]
fn test_integration_submit_unapproved_token_fails() {
    let mut m = Market::new();
    assert_eq!(m.submit(99), Err(ContractError::Unauthorized));
}

#[test]
fn test_integration_fund_removed_token_fails() {
    let mut m = Market::new();
    let id = m.submit(EURC).unwrap();
    m.c.remove_token(EURC).unwrap();
    assert_eq!(m.fund(id), Err(ContractError::Unauthorized));
}

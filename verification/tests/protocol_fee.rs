use std::collections::HashMap;

use invoice_liquidity::contract::InvoiceLiquidity;
use invoice_liquidity::errors::ContractError;
use invoice_liquidity::invoice::{Action, Address, Ledger};

const ADMIN: Address = 1;
const FREELANCER: Address = 2;
const PAYER: Address = 3;
const LP: Address = 4;
const TREASURY: Address = 5;
const TOKEN: Address = 10;

struct Fees {
    c: InvoiceLiquidity,
    balances: HashMap<Address, i128>,
    ledger: Ledger,
}

impl Fees {
    fn new() -> Fees {
        let mut c = InvoiceLiquidity::new(1000);
        c.initialize(ADMIN, TOKEN, TOKEN, 12).unwrap();
        let mut balances = HashMap::new();
        balances.insert(LP, 10_000_000);
        balances.insert(PAYER, 10_000_000);
        Fees { c, balances, ledger: Ledger { timestamp: 1_000_000, sequence: 100 } }
    }

    fn apply(&mut self, actions: Vec<Action>) {
        for a in actions {
            if let Action::Transfer { token, from, to, amount } | Action::TreasuryFee { token, from, to, amount } = a {
                assert_eq!(token, TOKEN);
                *self.balances.entry(from).or_insert(0) -= amount;
                *self.balances.entry(to).or_insert(0) += amount;
            }
        }
    }

    fn balance(&self, who: Address) -> i128 {
        *self.balances.get(&who).unwrap_or(&0)
    }

    /// Submits an invoice of `amount` at a 10% discount, funds it fully and pays it.
    fn run_invoice(&mut self, amount: i128) -> (i128, Vec<Action>) {
        let due_date = self.ledger.timestamp + 7 * 24 * 60 * 60;
        let id = self
            .c
            .submit_invoice(FREELANCER, PAYER, amount, due_date, 1000, TOKEN, None, None, self.ledger)
            .unwrap();
        let funding = self.c.fund_invoice(LP, id, amount, false, None, self.ledger).unwrap();
        self.apply(funding);
        let before = self.balance(LP);
        let settlement = self.c.mark_paid(id, amount, self.ledger).unwrap();
        self.apply(settlement.clone());
        (self.balance(LP) - before, settlement)
    }
}

fn pays_treasury(actions: &[Action]) -> bool {
    actions.iter().any(|a| matches!(a, Action::Transfer { to, .. } | Action::TreasuryFee { to, .. } if *to == TREASURY))
}

#[test]
fn test_zero_fee() {
    let mut t = Fees::new();
    t.c.set_treasury_address(TREASURY).unwrap();
    t.c.update_protocol_fee_bps(0).unwrap();
    let amount = 1_000_000_i128;
    let (lp_gain, settlement) = t.run_invoice(amount);
    assert_eq!(lp_gain, amount);
    assert_eq!(t.balance(TREASURY), 0);
    assert!(!pays_treasury(&settlement));
}

#[test]
fn test_non_zero_fee() {
    let mut t = Fees::new();
    t.c.set_treasury_address(TREASURY).unwrap();
    t.c.update_protocol_fee_bps(100).unwrap();
    let amount = 1_000_000_i128;
    let (lp_gain, settlement) = t.run_invoice(amount);
    assert_eq!(lp_gain, 999_000);
    assert_eq!(t.balance(TREASURY), 1_000);
    assert!(settlement.contains(&Action::TreasuryFee { token: TOKEN, from: 1000, to: TREASURY, amount: 1_000 }));
}

#[test]
fn test_governance_update() {
    let mut t = Fees::new();
    assert_eq!(t.c.update_protocol_fee_bps(101), Err(ContractError::InvalidDiscountRate));
    assert!(t.c.update_protocol_fee_bps(50).is_ok());
    assert_eq!(t.c.settings.protocol_fee_bps, 50);
}

#[test]
fn test_treasury_update() {
    let mut t = Fees::new();
    let new_treasury: Address = 77;
    t.c.set_treasury_address(new_treasury).unwrap();
    t.c.update_protocol_fee_bps(100).unwrap();
    t.run_invoice(1_000_000);
    assert_eq!(t.balance(new_treasury), 1_000);
}

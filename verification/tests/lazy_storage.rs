use invoice_liquidity::contract::InvoiceLiquidity;
use invoice_liquidity::invoice::{Address, Ledger, ReputationProfile};

const FREELANCER: Address = 2;
const PAYER: Address = 3;
const USDC: Address = 10;

struct Lazy {
    c: InvoiceLiquidity,
    ledger: Ledger,
}

impl Lazy {
    fn new() -> Lazy {
        let mut c = InvoiceLiquidity::new(1000);
        c.initialize(1, USDC, 11, 12).unwrap();
        Lazy { c, ledger: Ledger { timestamp: 1_000_000, sequence: 100 } }
    }

    fn set_score(&mut self, payer: Address, score: u32) {
        let config = self.c.settings.config;
        self.c.reputation.set_payer_score(config, self.ledger.sequence, payer, score);
    }

    fn submit(&mut self) -> u64 {
        let due = self.ledger.timestamp + 86_400 * 30;
        self.c.submit_invoice(FREELANCER, PAYER, 1_000_000_000, due, 300, USDC, None, None, self.ledger).unwrap()
    }
}

#[test]
fn test_payer_score_read_does_not_create_storage() {
    let mut t = Lazy::new();
    let unknown: Address = 70;
    assert!(!t.c.reputation.payer_scores.contains_key(&unknown));
    let ledger = t.ledger;
    assert_eq!(t.c.payer_score(unknown, ledger), 50);
    assert!(!t.c.reputation.payer_scores.contains_key(&unknown));
}

#[test]
fn test_lp_score_read_does_not_create_storage() {
    let t = Lazy::new();
    let unknown: Address = 70;
    assert!(!t.c.reputation.lp_scores.contains_key(&unknown));
    assert_eq!(t.c.lp_score(unknown), 50);
    assert!(!t.c.reputation.lp_scores.contains_key(&unknown));
}

#[test]
fn test_reputation_read_does_not_create_storage() {
    let t = Lazy::new();
    let unknown: Address = 70;
    assert!(!t.c.reputation.profiles.contains_key(&unknown));
    let profile = t.c.get_reputation(unknown);
    assert_eq!(profile.invoices_submitted, 0);
    assert_eq!(profile.score, 0);
    assert!(!t.c.reputation.profiles.contains_key(&unknown));
}

#[test]
fn test_payer_score_write_on_non_default_value() {
    let mut t = Lazy::new();
    let payer: Address = 71;
    t.set_score(payer, 55);
    assert!(t.c.reputation.payer_scores.contains_key(&payer));
    let ledger = t.ledger;
    assert_eq!(t.c.payer_score(payer, ledger), 55);
}

#[test]
fn test_payer_score_removes_storage_when_reset_to_default() {
    let mut t = Lazy::new();
    let payer: Address = 71;
    t.set_score(payer, 55);
    t.set_score(payer, 50);
    assert!(!t.c.reputation.payer_scores.contains_key(&payer));
    let ledger = t.ledger;
    assert_eq!(t.c.payer_score(payer, ledger), 50);
}

#[test]
fn test_empty_invoice_funders_not_stored() {
    let mut t = Lazy::new();
    let id = t.submit();
    assert!(!t.c.funders.contains_key(&id));
    assert!(!t.c.funders.contains_key(&123));
}

#[test]
fn test_empty_submitter_index_removed_after_last_invoice() {
    let mut t = Lazy::new();
    let id = t.submit();
    assert!(t.c.submitter_invoices.contains_key(&FREELANCER));
    let new_owner: Address = 72;
    t.c.transfer_invoice(id, new_owner).unwrap();
    assert!(!t.c.submitter_invoices.contains_key(&FREELANCER));
    assert_eq!(t.c.submitter_invoices.get(&new_owner), Some(&vec![id]));
}

#[test]
fn test_zero_reputation_profile_not_stored() {
    let mut t = Lazy::new();
    let address: Address = 73;
    t.c.reputation.set_reputation(ReputationProfile {
        address,
        invoices_submitted: 0,
        invoices_paid: 0,
        invoices_defaulted: 0,
        score: 0,
    });
    assert!(!t.c.reputation.profiles.contains_key(&address));
}

#[test]
fn test_public_methods() {
    let t = Lazy::new();
    assert_eq!(t.c.get_contract_stats().total_invoices, 0);
    assert_eq!(t.c.get_invoice_count(None), 0);
}

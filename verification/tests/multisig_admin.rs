use invoice_liquidity::contract::InvoiceLiquidity;
use invoice_liquidity::errors::ContractError;
use invoice_liquidity::invoice::{Address, Ledger};

const ADMIN1: Address = 1;
const ADMIN2: Address = 2;
const ADMIN3: Address = 3;
const OTHER: Address = 4;

struct Board {
    c: InvoiceLiquidity,
    ledger: Ledger,
}

impl Board {
    fn new() -> Board {
        let mut c = InvoiceLiquidity::new(1000);
        c.initialize(ADMIN1, 10, 11, 12).unwrap();
        Board { c, ledger: Ledger { timestamp: 1_000_000, sequence: 100 } }
    }

    fn with_threshold(threshold: u32) -> Board {
        let mut b = Board::new();
        b.c.initialize_multisig_admin(vec![ADMIN1, ADMIN2, ADMIN3], threshold).unwrap();
        b
    }

    fn propose_pause(&mut self, who: Address) -> Result<u64, ContractError> {
        self.c.propose_pause(who, self.ledger.sequence)
    }

    fn propose_unpause(&mut self, who: Address) -> Result<u64, ContractError> {
        self.c.propose_unpause(who, self.ledger.sequence)
    }

    fn sign(&mut self, who: Address, id: u64) -> Result<(), ContractError> {
        self.c.sign_proposal(who, id)
    }

    fn execute(&mut self, who: Address, id: u64) -> Result<(), ContractError> {
        self.c.execute_proposal(who, id, self.ledger).map(|_| ())
    }
}

#[test]
fn test_initialize_multisig_admin_2of3() {
    let mut t = Board::new();
    let result = t.c.initialize_multisig_admin(vec![ADMIN1, ADMIN2, ADMIN3], 2);
    assert!(result.is_ok());
}

#[test]
fn test_propose_pause_action() {
    let mut t = Board::with_threshold(2);
    let result = t.propose_pause(ADMIN1);
    assert!(result.is_ok());
    assert!(result.unwrap() > 0);
}

#[test]
fn test_sign_proposal_threshold_not_met() {
    let mut t = Board::with_threshold(2);
    let id = t.propose_pause(ADMIN1).unwrap();
    assert!(t.sign(ADMIN1, id).is_ok());
    assert_eq!(t.execute(ADMIN1, id), Err(ContractError::ThresholdNotReached));
}

#[test]
fn test_sign_and_execute_threshold_met() {
    let mut t = Board::with_threshold(2);
    let id = t.propose_pause(ADMIN1).unwrap();
    t.sign(ADMIN1, id).unwrap();
    t.sign(ADMIN2, id).unwrap();
    assert!(t.execute(ADMIN1, id).is_ok());
    assert!(t.c.is_paused());
}

#[test]
fn test_unauthorized_signer() {
    let mut t = Board::with_threshold(2);
    let id = t.propose_pause(ADMIN1).unwrap();
    assert_eq!(t.sign(OTHER, id), Err(ContractError::NotAuthorizedSigner));
}

#[test]
fn test_prevent_duplicate_signature() {
    let mut t = Board::with_threshold(2);
    let id = t.propose_pause(ADMIN1).unwrap();
    t.sign(ADMIN1, id).unwrap();
    assert_eq!(t.sign(ADMIN1, id), Err(ContractError::AlreadySigned));
}

#[test]
fn test_non_signer_cannot_propose() {
    let mut t = Board::with_threshold(2);
    assert_eq!(t.propose_pause(OTHER), Err(ContractError::NotAuthorizedSigner));
}

#[test]
fn test_single_signature_insufficient() {
    let mut t = Board::with_threshold(2);
    let id = t.propose_pause(ADMIN1).unwrap();
    t.sign(ADMIN1, id).unwrap();
    assert_eq!(t.execute(ADMIN1, id), Err(ContractError::ThresholdNotReached));
}

#[test]
fn test_execute_non_existent_proposal() {
    let mut t = Board::with_threshold(2);
    assert_eq!(t.execute(ADMIN1, 999), Err(ContractError::ProposalNotFound));
}

#[test]
fn test_cannot_re_execute_proposal() {
    let mut t = Board::with_threshold(2);
    let id = t.propose_pause(ADMIN1).unwrap();
    t.sign(ADMIN1, id).unwrap();
    t.sign(ADMIN2, id).unwrap();
    t.execute(ADMIN1, id).unwrap();
    assert_eq!(t.execute(ADMIN1, id), Err(ContractError::ProposalAlreadyExecuted));
}

#[test]
fn test_invalid_multisig_config() {
    let mut t = Board::new();
    let result = t.c.initialize_multisig_admin(vec![ADMIN1, ADMIN2], 3);
    assert_eq!(result, Err(ContractError::InvalidMultisigConfig));
}

#[test]
fn test_propose_unpause_action() {
    let mut t = Board::with_threshold(2);
    let pause_id = t.propose_pause(ADMIN1).unwrap();
    t.sign(ADMIN1, pause_id).unwrap();
    t.sign(ADMIN2, pause_id).unwrap();
    t.execute(ADMIN1, pause_id).unwrap();
    let unpause_id = t.propose_unpause(ADMIN1).unwrap();
    t.sign(ADMIN1, unpause_id).unwrap();
    t.sign(ADMIN2, unpause_id).unwrap();
    assert!(t.execute(ADMIN1, unpause_id).is_ok());
    assert!(!t.c.is_paused());
}

#[test]
fn test_3of3_threshold_all_signers_required() {
    let mut t = Board::with_threshold(3);
    let id = t.propose_pause(ADMIN1).unwrap();
    t.sign(ADMIN1, id).unwrap();
    t.sign(ADMIN2, id).unwrap();
    assert!(t.execute(ADMIN1, id).is_err());
    t.sign(ADMIN3, id).unwrap();
    assert!(t.execute(ADMIN1, id).is_ok());
}

#[test]
fn test_signature_order_doesnt_matter() {
    let mut t = Board::with_threshold(2);
    let id = t.propose_pause(ADMIN1).unwrap();
    t.sign(ADMIN3, id).unwrap();
    t.sign(ADMIN1, id).unwrap();
    assert!(t.execute(ADMIN2, id).is_ok());
}

#[test]
fn multisig_proposal_expires_after_window() {
    let mut t = Board::with_threshold(2);
    let id = t.propose_pause(ADMIN1).unwrap();
    t.sign(ADMIN1, id).unwrap();
    t.sign(ADMIN2, id).unwrap();
    t.ledger.sequence += 17_281;
    assert_eq!(t.execute(ADMIN1, id), Err(ContractError::ProposalExpired));
    assert!(!t.c.is_paused());
}

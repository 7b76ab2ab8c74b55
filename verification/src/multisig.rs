use vstd::prelude::*;
use crate::constants::MULTISIG_WINDOW_LEDGERS;
use crate::errors::ContractError;
use crate::invoice::Address;

verus! {

/// Admin actions that a multisig proposal can carry.
#[derive(Clone, Debug, PartialEq)]
pub enum AdminAction {
    /// Pause the contract (emergency stop).
    Pause,
    /// Resume operations.
    Unpause,
    /// Remove a token from the approved tokens.
    RemoveToken(Address),
    /// Change the fee rate.
    SetFeeRate(u32),
    /// Change the maximum discount rate.
    SetMaxDiscount(u32),
    /// Change the signers or the threshold.
    UpdateMultisig { new_signers: Vec<Address>, new_threshold: u32 },
}

/// Multi-signature admin configuration.
#[derive(Clone, Debug, PartialEq)]
pub struct MultisigAdmin {
    /// Authorised signers.
    pub signers: Vec<Address>,
    /// Number of approvals an action needs.
    pub threshold: u32,
}

/// State of a proposal.
#[derive(Copy, Clone, Debug, PartialEq, Eq, Structural)]
pub enum ProposalState {
    Pending,
    Executed,
    Expired,
}

/// A proposal for an admin action awaiting signatures.
#[derive(Clone, Debug, PartialEq)]
pub struct MultisigProposal {
    pub id: u64,
    pub action: AdminAction,
    /// Signers who have approved the proposal, in order of approval.
    pub signers_approved: Vec<Address>,
    pub state: ProposalState,
    /// Ledger sequence from which the proposal can no longer be executed.
    pub expires_at: u64,
}

/// `address` is among `signers`.
pub fn is_signer(signers: &Vec<Address>, address: Address) -> (b: bool)
    ensures
        b == signers@.contains(address),
{
    let mut i: usize = 0;
    while i < signers.len()
        invariant
            i <= signers.len(),
            forall|j: int| 0 <= j < i ==> signers@[j] != address,
        decreases signers.len() - i,
    {
        if signers[i] == address {
            return true;
        }
        i = i + 1;
    }
    false
}

/// `signer` has already approved `proposal`.
pub fn has_signed(proposal: &MultisigProposal, signer: Address) -> (b: bool)
    ensures
        b == proposal.signers_approved@.contains(signer),
{
    is_signer(&proposal.signers_approved, signer)
}

/// `proposal` has gathered at least `threshold` approvals.
pub fn threshold_reached(proposal: &MultisigProposal, threshold: u32) -> (b: bool)
    ensures
        b == (proposal.signers_approved@.len() >= threshold),
{
    proposal.signers_approved.len() as u64 >= threshold as u64
}

/// The execution window of `proposal` has closed at ledger `sequence`.
pub fn is_expired(sequence: u32, proposal: &MultisigProposal) -> (b: bool)
    ensures
        b == (sequence >= proposal.expires_at),
{
    sequence as u64 >= proposal.expires_at
}

/// The multisig configuration and its proposals; the proposal with id `n` is stored at `n - 1`.
pub struct MultisigState {
    pub admin: Option<MultisigAdmin>,
    pub proposals: Vec<MultisigProposal>,
}

/// `address` may act as a multisig signer.
pub open spec fn signer_ok(admin: Option<MultisigAdmin>, address: Address) -> bool {
    admin matches Some(a) && a.signers@.contains(address)
}

impl MultisigState {
    pub open spec fn wf(&self) -> bool {
        &&& self.proposals@.len() < u64::MAX - 1
        &&& forall|i: int| 0 <= i < self.proposals@.len() ==> #[trigger] self.proposals@[i].id == i + 1
    }

    /// A proposal with `id` exists.
    pub open spec fn has_proposal(&self, id: u64) -> bool {
        1 <= id <= self.proposals@.len()
    }

    pub open spec fn proposal(&self, id: u64) -> MultisigProposal {
        self.proposals@[id - 1]
    }

    /// An empty multisig state.
    pub fn new() -> (s: Self)
        ensures
            s.wf(),
            s.admin is None,
            s.proposals@.len() == 0,
    {
        MultisigState { admin: None, proposals: Vec::new() }
    }

    /// Enables multisig approval with `signers` and `threshold`.
    pub fn initialize(&mut self, signers: Vec<Address>, threshold: u32) -> (r: Result<(), ContractError>)
        requires
            old(self).wf(),
        ensures
            final(self).wf(),
            final(self).proposals == old(self).proposals,
            r is Err <==> (threshold > signers@.len() || threshold == 0),
            r is Err ==> r == Err::<(), ContractError>(ContractError::InvalidMultisigConfig)
                && final(self).admin == old(self).admin,
            r is Ok ==> final(self).admin == Some(MultisigAdmin { signers, threshold }),
    {
        if threshold as usize > signers.len() || threshold == 0 {
            return Err(ContractError::InvalidMultisigConfig);
        }
        self.admin = Some(MultisigAdmin { signers, threshold });
        Ok(())
    }

    /// Records a new pending proposal for `action` by `proposer`; returns its id.
    pub fn propose(&mut self, proposer: Address, action: AdminAction, sequence: u32) -> (r: Result<u64, ContractError>)
        requires
            old(self).wf(),
            old(self).proposals@.len() < u64::MAX - 2,
        ensures
            final(self).wf(),
            final(self).admin == old(self).admin,
            r is Err <==> !signer_ok(old(self).admin, proposer),
            r is Err ==> r == Err::<u64, ContractError>(ContractError::NotAuthorizedSigner)
                && *final(self) == *old(self),
            r matches Ok(id) ==> {
                &&& id == old(self).proposals@.len() + 1
                &&& final(self).proposals@ == old(self).proposals@.push(MultisigProposal {
                    id,
                    action,
                    signers_approved: final(self).proposals@[id - 1].signers_approved,
                    state: ProposalState::Pending,
                    expires_at: (sequence + MULTISIG_WINDOW_LEDGERS) as u64,
                })
                &&& final(self).proposals@[id - 1].signers_approved@.len() == 0
            },
    {
        let authorized = match &self.admin {
            None => false,
            Some(a) => is_signer(&a.signers, proposer),
        };
        if !authorized {
            return Err(ContractError::NotAuthorizedSigner);
        }
        let id = self.proposals.len() as u64 + 1;
        let proposal = MultisigProposal {
            id,
            action,
            signers_approved: Vec::new(),
            state: ProposalState::Pending,
            expires_at: sequence as u64 + MULTISIG_WINDOW_LEDGERS,
        };
        self.proposals.push(proposal);
        Ok(id)
    }

    /// Adds `signer`'s approval to the proposal `proposal_id`.
    pub fn sign(&mut self, signer: Address, proposal_id: u64) -> (r: Result<(), ContractError>)
        requires
            old(self).wf(),
        ensures
            final(self).wf(),
            final(self).admin == old(self).admin,
            !signer_ok(old(self).admin, signer) ==> r == Err::<(), ContractError>(ContractError::NotAuthorizedSigner),
            signer_ok(old(self).admin, signer) && !old(self).has_proposal(proposal_id) ==> r == Err::<
                (),
                ContractError,
            >(ContractError::ProposalNotFound),
            signer_ok(old(self).admin, signer) && old(self).has_proposal(proposal_id)
                && old(self).proposal(proposal_id).signers_approved@.contains(signer) ==> r == Err::<
                (),
                ContractError,
            >(ContractError::AlreadySigned),
            r is Err ==> *final(self) == *old(self),
            r is Ok <==> signer_ok(old(self).admin, signer) && old(self).has_proposal(proposal_id)
                && !old(self).proposal(proposal_id).signers_approved@.contains(signer),
            r is Ok ==> {
                let p = old(self).proposal(proposal_id);
                &&& final(self).proposals@.len() == old(self).proposals@.len()
                &&& forall|i: int| 0 <= i < old(self).proposals@.len() && i != proposal_id - 1
                    ==> #[trigger] final(self).proposals@[i] == old(self).proposals@[i]
                &&& final(self).proposal(proposal_id).id == p.id
                &&& final(self).proposal(proposal_id).action == p.action
                &&& final(self).proposal(proposal_id).state == p.state
                &&& final(self).proposal(proposal_id).expires_at == p.expires_at
                &&& final(self).proposal(proposal_id).signers_approved@ == p.signers_approved@.push(signer)
            },
    {
        let authorized = match &self.admin {
            None => false,
            Some(a) => is_signer(&a.signers, signer),
        };
        if !authorized {
            return Err(ContractError::NotAuthorizedSigner);
        }
        if proposal_id == 0 || proposal_id > self.proposals.len() as u64 {
            return Err(ContractError::ProposalNotFound);
        }
        let i = (proposal_id - 1) as usize;
        if has_signed(&self.proposals[i], signer) {
            return Err(ContractError::AlreadySigned);
        }
        self.proposals[i].signers_approved.push(signer);
        Ok(())
    }

    /// Marks the proposal `proposal_id` executed when it has enough approvals and its window is
    /// open.
    pub fn execute(&mut self, executor: Address, proposal_id: u64, sequence: u32) -> (r: Result<(), ContractError>)
        requires
            old(self).wf(),
        ensures
            final(self).wf(),
            final(self).admin == old(self).admin,
            r is Err ==> *final(self) == *old(self),
            !signer_ok(old(self).admin, executor) ==> r == Err::<(), ContractError>(ContractError::NotAuthorizedSigner),
            signer_ok(old(self).admin, executor) ==> ({
                let a = old(self).admin.unwrap();
                let p = old(self).proposal(proposal_id);
                if !old(self).has_proposal(proposal_id) {
                    r == Err::<(), ContractError>(ContractError::ProposalNotFound)
                } else if p.state == ProposalState::Executed {
                    r == Err::<(), ContractError>(ContractError::ProposalAlreadyExecuted)
                } else if sequence >= p.expires_at {
                    r == Err::<(), ContractError>(ContractError::ProposalExpired)
                } else if p.signers_approved@.len() < a.threshold {
                    r == Err::<(), ContractError>(ContractError::ThresholdNotReached)
                } else {
                    &&& r is Ok
                    &&& final(self).proposals@.len() == old(self).proposals@.len()
                    &&& forall|i: int| 0 <= i < old(self).proposals@.len() && i != proposal_id - 1
                        ==> #[trigger] final(self).proposals@[i] == old(self).proposals@[i]
                    &&& final(self).proposal(proposal_id).id == p.id
                    &&& final(self).proposal(proposal_id).action == p.action
                    &&& final(self).proposal(proposal_id).signers_approved == p.signers_approved
                    &&& final(self).proposal(proposal_id).expires_at == p.expires_at
                    &&& final(self).proposal(proposal_id).state == ProposalState::Executed
                }
            }),
    {
        let threshold = match &self.admin {
            None => {
                return Err(ContractError::NotAuthorizedSigner);
            },
            Some(a) => {
                if !is_signer(&a.signers, executor) {
                    return Err(ContractError::NotAuthorizedSigner);
                }
                a.threshold
            },
        };
        if proposal_id == 0 || proposal_id > self.proposals.len() as u64 {
            return Err(ContractError::ProposalNotFound);
        }
        let i = (proposal_id - 1) as usize;
        if self.proposals[i].state == ProposalState::Executed {
            return Err(ContractError::ProposalAlreadyExecuted);
        }
        if is_expired(sequence, &self.proposals[i]) {
            return Err(ContractError::ProposalExpired);
        }
        if !threshold_reached(&self.proposals[i], threshold) {
            return Err(ContractError::ThresholdNotReached);
        }
        self.proposals[i].state = ProposalState::Executed;
        Ok(())
    }
}

/// A copy of `v`.
pub fn copy_addresses(v: &Vec<Address>) -> (r: Vec<Address>)
    ensures
        r@ == v@,
{
    let mut r: Vec<Address> = Vec::new();
    let mut i: usize = 0;
    while i < v.len()
        invariant
            i <= v.len(),
            r@ == v@.take(i as int),
        decreases v.len() - i,
    {
        r.push(v[i]);
        i = i + 1;
        assert(r@ =~= v@.take(i as int));
    }
    assert(v@.take(v.len() as int) =~= v@);
    r
}

} // verus!

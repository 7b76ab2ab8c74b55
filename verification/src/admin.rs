use vstd::prelude::*;
use crate::constants::{DEFAULT_MAX_ORACLE_AGE_LEDGERS, TOKEN_TEST_AMOUNT};
use crate::contract::{InvoiceLiquidity, Settings};
use crate::errors::ContractError;
use crate::events::{ContractPaused, ContractUnpaused, PauseEvent};
use crate::invoice::{transfer, Action, Address, Config, Hash32, Ledger};
use crate::multisig::{AdminAction, MultisigProposal, ProposalState, has_signed, signer_ok};

verus! {

broadcast use vstd::std_specs::hash::group_hash_axioms;

/// `s` with the element `x` left out.
pub open spec fn without(s: Seq<Address>, x: Address) -> Seq<Address>
    decreases s.len(),
{
    if s.len() == 0 {
        s
    } else if s.last() == x {
        without(s.drop_last(), x)
    } else {
        without(s.drop_last(), x).push(s.last())
    }
}

impl InvoiceLiquidity {
    /// Only the settings differ between `self` and `other`.
    pub open spec fn only_settings_changed(&self, other: &Self) -> bool {
        *self == InvoiceLiquidity { settings: self.settings, ..*other }
    }

    /// Replaces the admin.
    pub fn set_admin(&mut self, new_admin: Address) -> (r: Result<(), ContractError>)
        requires
            old(self).wf(),
        ensures
            final(self).wf(),
            old(self).settings.admin is None <==> (r is Err),
            r is Err ==> r == Err::<(), ContractError>(ContractError::Unauthorized) && *final(self) == *old(self),
            r is Ok ==> final(self).only_settings_changed(old(self))
                && final(self).settings == (Settings { admin: Some(new_admin), ..old(self).settings }),
    {
        if self.settings.admin.is_none() {
            return Err(ContractError::Unauthorized);
        }
        self.settings.admin = Some(new_admin);
        proof { self.lemma_wf_frame(old(self)); }
        Ok(())
    }

    /// Sets the settlement fee paid to the admin, in basis points of the invoice amount.
    pub fn update_fee_rate(&mut self, rate: u32) -> (r: Result<(), ContractError>)
        requires
            old(self).wf(),
        ensures
            final(self).wf(),
            old(self).settings.admin is None <==> (r is Err),
            r is Err ==> r == Err::<(), ContractError>(ContractError::Unauthorized) && *final(self) == *old(self),
            r is Ok ==> final(self).only_settings_changed(old(self))
                && final(self).settings == (Settings { fee_rate: rate, ..old(self).settings }),
    {
        if self.settings.admin.is_none() {
            return Err(ContractError::Unauthorized);
        }
        self.settings.fee_rate = rate;
        proof { self.lemma_wf_frame(old(self)); }
        Ok(())
    }

    /// Sets the treasury fee on LP earnings, at most 100 basis points.
    pub fn update_protocol_fee_bps(&mut self, bps: u32) -> (r: Result<(), ContractError>)
        requires
            old(self).wf(),
        ensures
            final(self).wf(),
            old(self).settings.admin is None ==> r == Err::<(), ContractError>(ContractError::Unauthorized),
            old(self).settings.admin is Some && bps > 100 ==> r == Err::<(), ContractError>(
                ContractError::InvalidDiscountRate,
            ),
            r is Err ==> *final(self) == *old(self),
            r is Ok <==> old(self).settings.admin is Some && bps <= 100,
            r is Ok ==> final(self).only_settings_changed(old(self))
                && final(self).settings == (Settings { protocol_fee_bps: bps, ..old(self).settings }),
    {
        if self.settings.admin.is_none() {
            return Err(ContractError::Unauthorized);
        }
        if bps > 100 {
            return Err(ContractError::InvalidDiscountRate);
        }
        self.settings.protocol_fee_bps = bps;
        proof { self.lemma_wf_frame(old(self)); }
        Ok(())
    }

    /// Sets the treasury that collects the fee on LP earnings.
    pub fn set_treasury_address(&mut self, treasury: Address) -> (r: Result<(), ContractError>)
        requires
            old(self).wf(),
        ensures
            final(self).wf(),
            old(self).settings.admin is None <==> (r is Err),
            r is Err ==> r == Err::<(), ContractError>(ContractError::Unauthorized) && *final(self) == *old(self),
            r is Ok ==> final(self).only_settings_changed(old(self))
                && final(self).settings == (Settings { treasury: Some(treasury), ..old(self).settings }),
    {
        if self.settings.admin.is_none() {
            return Err(ContractError::Unauthorized);
        }
        self.settings.treasury = Some(treasury);
        proof { self.lemma_wf_frame(old(self)); }
        Ok(())
    }

    /// Sets the largest discount rate that new or updated invoices may carry.
    pub fn update_max_discount(&mut self, rate: u32) -> (r: Result<(), ContractError>)
        requires
            old(self).wf(),
        ensures
            final(self).wf(),
            old(self).settings.admin is None <==> (r is Err),
            r is Err ==> r == Err::<(), ContractError>(ContractError::Unauthorized) && *final(self) == *old(self),
            r is Ok ==> final(self).only_settings_changed(old(self))
                && final(self).settings == (Settings { max_discount_rate: rate, ..old(self).settings }),
    {
        if self.settings.admin.is_none() {
            return Err(ContractError::Unauthorized);
        }
        self.settings.max_discount_rate = rate;
        proof { self.lemma_wf_frame(old(self)); }
        Ok(())
    }

    /// Sets the contract told about fundings and settlements.
    pub fn set_distribution_contract(&mut self, distribution_contract: Address) -> (r: Result<(), ContractError>)
        requires
            old(self).wf(),
        ensures
            final(self).wf(),
            old(self).settings.admin is None <==> (r is Err),
            r is Err ==> r == Err::<(), ContractError>(ContractError::Unauthorized) && *final(self) == *old(self),
            r is Ok ==> final(self).only_settings_changed(old(self)) && final(self).settings == (Settings {
                distribution_contract: Some(distribution_contract),
                ..old(self).settings
            }),
    {
        if self.settings.admin.is_none() {
            return Err(ContractError::Unauthorized);
        }
        self.settings.distribution_contract = Some(distribution_contract);
        proof { self.lemma_wf_frame(old(self)); }
        Ok(())
    }

    /// Registers the payer-verification oracle.
    pub fn set_price_oracle(&mut self, oracle: Address) -> (r: Result<(), ContractError>)
        requires
            old(self).wf(),
        ensures
            final(self).wf(),
            (old(self).settings.admin is None || old(self).settings.config is None) <==> (r is Err),
            r is Err ==> r == Err::<(), ContractError>(ContractError::Unauthorized) && *final(self) == *old(self),
            r is Ok ==> final(self).only_settings_changed(old(self)) && final(self).settings == (Settings {
                config: Some(Config { price_oracle: Some(oracle), ..old(self).settings.config.unwrap() }),
                ..old(self).settings
            }),
    {
        if self.settings.admin.is_none() {
            return Err(ContractError::Unauthorized);
        }
        let mut c = match self.settings.config {
            None => {
                return Err(ContractError::Unauthorized);
            },
            Some(c) => c,
        };
        c.price_oracle = Some(oracle);
        self.settings.config = Some(c);
        proof { self.lemma_wf_frame(old(self)); }
        Ok(())
    }

    /// The payer-verification oracle, if one is registered.
    pub fn get_price_oracle(&self) -> (r: Option<Address>)
        ensures
            r == (match self.settings.config {
                Some(c) => c.price_oracle,
                None => None,
            }),
    {
        match self.settings.config {
            Some(c) => c.price_oracle,
            None => None,
        }
    }

    /// Sets the largest age, in ledgers, of oracle data accepted when funding (0 disables the check).
    pub fn set_max_oracle_age(&mut self, max_age_ledgers: u64) -> (r: Result<(), ContractError>)
        requires
            old(self).wf(),
        ensures
            final(self).wf(),
            (old(self).settings.admin is None || old(self).settings.config is None) <==> (r is Err),
            r is Err ==> r == Err::<(), ContractError>(ContractError::Unauthorized) && *final(self) == *old(self),
            r is Ok ==> final(self).only_settings_changed(old(self)) && final(self).settings == (Settings {
                config: Some(Config { max_oracle_age_ledgers: max_age_ledgers, ..old(self).settings.config.unwrap() }),
                ..old(self).settings
            }),
    {
        if self.settings.admin.is_none() {
            return Err(ContractError::Unauthorized);
        }
        let mut c = match self.settings.config {
            None => {
                return Err(ContractError::Unauthorized);
            },
            Some(c) => c,
        };
        c.max_oracle_age_ledgers = max_age_ledgers;
        self.settings.config = Some(c);
        proof { self.lemma_wf_frame(old(self)); }
        Ok(())
    }

    /// The largest age of oracle data accepted when funding.
    pub fn get_max_oracle_age(&self) -> (r: u64)
        ensures
            r == (match self.settings.config {
                Some(c) => c.max_oracle_age_ledgers,
                None => DEFAULT_MAX_ORACLE_AGE_LEDGERS,
            }),
    {
        match self.settings.config {
            Some(c) => c.max_oracle_age_ledgers,
            None => DEFAULT_MAX_ORACLE_AGE_LEDGERS,
        }
    }

    /// Replaces the reputation, decay, dispute and token parameters; the oracle settings stay.
    pub fn update_config(
        &mut self,
        caller: Address,
        high_rep_threshold: u32,
        bonus_bps: u32,
        min_discount_rate_bps: u32,
        decay_rate_bps: u32,
        decay_period_ledgers: u64,
        dispute_timeout_ledgers: u64,
        xlm_sac_address: Address,
        usdc_sac_address: Address,
        eurc_sac_address: Address,
    ) -> (r: Result<(), ContractError>)
        requires
            old(self).wf(),
        ensures
            final(self).wf(),
            old(self).settings.admin != Some(caller) <==> (r is Err),
            r is Err ==> r == Err::<(), ContractError>(ContractError::Unauthorized) && *final(self) == *old(self),
            r is Ok ==> final(self).only_settings_changed(old(self)) && final(self).settings == (Settings {
                config: Some(Config {
                    high_rep_threshold,
                    bonus_bps,
                    min_discount_rate_bps,
                    decay_rate_bps,
                    decay_period_ledgers,
                    dispute_timeout_ledgers,
                    xlm_sac_address,
                    usdc_sac_address,
                    eurc_sac_address,
                    price_oracle: match old(self).settings.config {
                        Some(c) => c.price_oracle,
                        None => None,
                    },
                    max_oracle_age_ledgers: match old(self).settings.config {
                        Some(c) => c.max_oracle_age_ledgers,
                        None => DEFAULT_MAX_ORACLE_AGE_LEDGERS,
                    },
                }),
                ..old(self).settings
            }),
    {
        match self.settings.admin {
            Some(a) => {
                if a != caller {
                    return Err(ContractError::Unauthorized);
                }
            },
            None => {
                return Err(ContractError::Unauthorized);
            },
        }
        let price_oracle = self.get_price_oracle();
        let max_oracle_age_ledgers = self.get_max_oracle_age();
        self.settings.config = Some(Config {
            high_rep_threshold,
            bonus_bps,
            min_discount_rate_bps,
            decay_rate_bps,
            decay_period_ledgers,
            dispute_timeout_ledgers,
            xlm_sac_address,
            usdc_sac_address,
            eurc_sac_address,
            price_oracle,
            max_oracle_age_ledgers,
        });
        proof { self.lemma_wf_frame(old(self)); }
        Ok(())
    }

    /// The configuration.
    pub fn get_config(&self) -> (r: Result<Config, ContractError>)
        ensures
            r == (match self.settings.config {
                Some(c) => Ok::<Config, ContractError>(c),
                None => Err(ContractError::Unauthorized),
            }),
    {
        match self.settings.config {
            Some(c) => Ok(c),
            None => Err(ContractError::Unauthorized),
        }
    }

    /// Sets the minimum payer reputation required to fund an invoice.
    pub fn set_min_payer_reputation(&mut self, value: u32) -> (r: Result<(), ContractError>)
        requires
            old(self).wf(),
        ensures
            final(self).wf(),
            old(self).settings.admin is None <==> (r is Err),
            r is Err ==> r == Err::<(), ContractError>(ContractError::Unauthorized) && *final(self) == *old(self),
            r is Ok ==> final(self).only_settings_changed(old(self))
                && final(self).settings == (Settings { min_payer_reputation: value, ..old(self).settings }),
    {
        if self.settings.admin.is_none() {
            return Err(ContractError::Unauthorized);
        }
        self.settings.min_payer_reputation = value;
        proof { self.lemma_wf_frame(old(self)); }
        Ok(())
    }

    /// The minimum payer reputation required to fund an invoice (0 = off).
    pub fn min_payer_reputation(&self) -> (r: u32)
        ensures
            r == self.settings.min_payer_reputation,
    {
        self.settings.min_payer_reputation
    }

    /// Announces an upgrade to `new_wasm_hash`; returns the admin that announced it. The
    /// upgrade itself is carried out by the network.
    pub fn upgrade(&self, new_wasm_hash: Hash32) -> (r: Result<Address, ContractError>)
        ensures
            r == (match self.settings.admin {
                Some(a) => Ok::<Address, ContractError>(a),
                None => Err(ContractError::Unauthorized),
            }),
    {
        match self.settings.admin {
            Some(a) => Ok(a),
            None => Err(ContractError::Unauthorized),
        }
    }

    /// Pauses the protocol; returns the announcement, dated `now`.
    pub fn pause(&mut self, now: u64) -> (r: Result<ContractPaused, ContractError>)
        requires
            old(self).wf(),
        ensures
            final(self).wf(),
            old(self).settings.admin is None <==> (r is Err),
            r is Err ==> r == Err::<ContractPaused, ContractError>(ContractError::Unauthorized) && *final(self) == *old(self),
            r is Ok ==> r == Ok::<ContractPaused, ContractError>(ContractPaused { timestamp: now })
                && final(self).only_settings_changed(old(self))
                && final(self).settings == (Settings { paused: true, ..old(self).settings }),
    {
        if self.settings.admin.is_none() {
            return Err(ContractError::Unauthorized);
        }
        self.settings.paused = true;
        proof { self.lemma_wf_frame(old(self)); }
        Ok(ContractPaused { timestamp: now })
    }

    /// Resumes the protocol; returns the announcement, dated `now`.
    pub fn unpause(&mut self, now: u64) -> (r: Result<ContractUnpaused, ContractError>)
        requires
            old(self).wf(),
        ensures
            final(self).wf(),
            old(self).settings.admin is None <==> (r is Err),
            r is Err ==> r == Err::<ContractUnpaused, ContractError>(ContractError::Unauthorized) && *final(self) == *old(self),
            r is Ok ==> r == Ok::<ContractUnpaused, ContractError>(ContractUnpaused { timestamp: now })
                && final(self).only_settings_changed(old(self))
                && final(self).settings == (Settings { paused: false, ..old(self).settings }),
    {
        if self.settings.admin.is_none() {
            return Err(ContractError::Unauthorized);
        }
        self.settings.paused = false;
        proof { self.lemma_wf_frame(old(self)); }
        Ok(ContractUnpaused { timestamp: now })
    }

    /// Whether the protocol is paused.
    pub fn is_paused(&self) -> (b: bool)
        ensures
            b == self.settings.paused,
    {
        self.settings.paused
    }

    /// Takes the reentrancy lock for the time the host carries out a call's effects.
    pub fn enter_guard(&mut self) -> (r: Result<(), ContractError>)
        requires
            old(self).wf(),
        ensures
            final(self).wf(),
            old(self).locked ==> r == Err::<(), ContractError>(ContractError::Reentrancy) && *final(self) == *old(self),
            !old(self).locked ==> r is Ok && *final(self) == (InvoiceLiquidity { locked: true, ..*old(self) }),
    {
        if self.locked {
            return Err(ContractError::Reentrancy);
        }
        self.locked = true;
        proof { self.lemma_wf_frame(old(self)); }
        Ok(())
    }

    /// Releases the reentrancy lock.
    pub fn exit_guard(&mut self)
        requires
            old(self).wf(),
        ensures
            final(self).wf(),
            *final(self) == (InvoiceLiquidity { locked: false, ..*old(self) }),
    {
        self.locked = false;
        proof { self.lemma_wf_frame(old(self)); }
    }

    /// Whether invoices may use `token`.
    pub fn is_approved_token(&self, token: Address) -> (b: bool)
        ensures
            b == self.approved(token),
    {
        if let Some(f) = self.tokens.approved.get(&token) {
            return *f;
        }
        match self.settings.config {
            Some(c) => token == c.usdc_sac_address || token == c.eurc_sac_address || token == c.xlm_sac_address,
            None => false,
        }
    }

    /// The first step of approving `token`: the admin sends a test amount to the protocol, so
    /// that the protocol can see whether the token keeps part of a transfer.
    pub fn begin_add_token(&self, token: Address) -> (r: Result<Action, ContractError>)
        ensures
            self.settings.admin is None <==> (r is Err),
            r is Err ==> r == Err::<Action, ContractError>(ContractError::Unauthorized),
            r is Ok ==> r == Ok::<Action, ContractError>(
                transfer(token, self.settings.admin.unwrap(), self.contract_address, TOKEN_TEST_AMOUNT),
            ),
    {
        match self.settings.admin {
            None => Err(ContractError::Unauthorized),
            Some(a) => Ok(Action::Transfer { token, from: a, to: self.contract_address, amount: TOKEN_TEST_AMOUNT }),
        }
    }

    /// Approves `token`, given that the protocol's balance grew by `received` when the test
    /// amount of `begin_add_token` was sent. A token that delivered less or more is refused;
    /// otherwise the test amount goes back to the admin.
    pub fn add_token(&mut self, token: Address, received: i128) -> (r: Result<Vec<Action>, ContractError>)
        requires
            old(self).wf(),
        ensures
            final(self).wf(),
            old(self).settings.admin is None ==> r is Err && r->Err_0 == ContractError::Unauthorized,
            old(self).settings.admin is Some && received != TOKEN_TEST_AMOUNT ==> r is Err && r->Err_0
                == ContractError::FeeOnTransferToken,
            r is Err ==> *final(self) == *old(self),
            r is Ok <==> old(self).settings.admin is Some && received == TOKEN_TEST_AMOUNT,
            r is Ok ==> {
                &&& r->Ok_0@ == seq![
                    transfer(token, old(self).contract_address, old(self).settings.admin.unwrap(), TOKEN_TEST_AMOUNT),
                ]
                &&& final(self).tokens.approved@ == old(self).tokens.approved@.insert(token, true)
                &&& final(self).tokens.list@ == (if old(self).tokens.list@.contains(token) {
                    old(self).tokens.list@
                } else {
                    old(self).tokens.list@.push(token)
                })
                &&& *final(self) == InvoiceLiquidity { tokens: final(self).tokens, ..*old(self) }
            },
    {
        let admin = match self.settings.admin {
            None => {
                return Err(ContractError::Unauthorized);
            },
            Some(a) => a,
        };
        if received != TOKEN_TEST_AMOUNT {
            return Err(ContractError::FeeOnTransferToken);
        }
        let mut actions: Vec<Action> = Vec::new();
        actions.push(Action::Transfer { token, from: self.contract_address, to: admin, amount: TOKEN_TEST_AMOUNT });
        self.tokens.approved.insert(token, true);
        let mut present = false;
        let mut i: usize = 0;
        while i < self.tokens.list.len()
            invariant
                i <= self.tokens.list.len(),
                present <==> exists|j: int| 0 <= j < i && self.tokens.list@[j] == token,
            decreases self.tokens.list.len() - i,
        {
            if self.tokens.list[i] == token {
                present = true;
            }
            i = i + 1;
        }
        if !present {
            self.tokens.list.push(token);
        }
        proof { self.lemma_wf_frame(old(self)); }
        Ok(actions)
    }

    /// Withdraws the approval of `token`.
    pub fn remove_token(&mut self, token: Address) -> (r: Result<(), ContractError>)
        requires
            old(self).wf(),
        ensures
            final(self).wf(),
            old(self).settings.admin is None <==> (r is Err),
            r is Err ==> r == Err::<(), ContractError>(ContractError::Unauthorized) && *final(self) == *old(self),
            r is Ok ==> {
                &&& final(self).tokens.approved@ == old(self).tokens.approved@.insert(token, false)
                &&& final(self).tokens.list@ == without(old(self).tokens.list@, token)
                &&& *final(self) == InvoiceLiquidity { tokens: final(self).tokens, ..*old(self) }
            },
    {
        if self.settings.admin.is_none() {
            return Err(ContractError::Unauthorized);
        }
        self.tokens.approved.insert(token, false);
        let mut pruned: Vec<Address> = Vec::new();
        let mut i: usize = 0;
        while i < self.tokens.list.len()
            invariant
                i <= self.tokens.list.len(),
                pruned@ == without(self.tokens.list@.take(i as int), token),
            decreases self.tokens.list.len() - i,
        {
            let t = self.tokens.list[i];
            proof {
                let s = self.tokens.list@.take(i + 1);
                assert(s.drop_last() =~= self.tokens.list@.take(i as int));
                assert(s.last() == t);
            }
            if t != token {
                pruned.push(t);
            }
            i = i + 1;
        }
        assert(self.tokens.list@.take(self.tokens.list@.len() as int) =~= self.tokens.list@);
        self.tokens.list = pruned;
        proof { self.lemma_wf_frame(old(self)); }
        Ok(())
    }

    // ------------------------------------------------------------
    // Multisig admin
    // ------------------------------------------------------------

    /// Enables multisig approval of pause and unpause.
    pub fn initialize_multisig_admin(&mut self, signers: Vec<Address>, threshold: u32) -> (r: Result<(), ContractError>)
        requires
            old(self).wf(),
        ensures
            final(self).wf(),
            old(self).settings.admin is None ==> r == Err::<(), ContractError>(ContractError::Unauthorized),
            old(self).settings.admin is Some && (threshold > signers@.len() || threshold == 0) ==> r == Err::<(), ContractError>(ContractError::InvalidMultisigConfig),
            r is Err ==> *final(self) == *old(self),
            r is Ok <==> old(self).settings.admin is Some && threshold <= signers@.len() && threshold > 0,
            r is Ok ==> final(self).multisig.admin == Some(crate::multisig::MultisigAdmin { signers, threshold })
                && final(self).multisig.proposals == old(self).multisig.proposals
                && *final(self) == (InvoiceLiquidity { multisig: final(self).multisig, ..*old(self) }),
    {
        if self.settings.admin.is_none() {
            return Err(ContractError::Unauthorized);
        }
        if threshold as usize > signers.len() || threshold == 0 {
            return Err(ContractError::InvalidMultisigConfig);
        }
        let r = self.multisig.initialize(signers, threshold);
        proof { self.lemma_wf_frame(old(self)); }
        r
    }

    /// `signer` approves the proposal `proposal_id`.
    pub fn sign_proposal(&mut self, signer: Address, proposal_id: u64) -> (r: Result<(), ContractError>)
        requires
            old(self).wf(),
        ensures
            final(self).wf(),
            !signer_ok(old(self).multisig.admin, signer) ==> r == Err::<(), ContractError>(ContractError::NotAuthorizedSigner),
            signer_ok(old(self).multisig.admin, signer) && !old(self).multisig.has_proposal(proposal_id) ==> r == Err::<
                (),
                ContractError,
            >(ContractError::ProposalNotFound),
            signer_ok(old(self).multisig.admin, signer) && old(self).multisig.has_proposal(proposal_id)
                && old(self).multisig.proposal(proposal_id).signers_approved@.contains(signer) ==> r == Err::<
                (),
                ContractError,
            >(ContractError::AlreadySigned),
            r is Err ==> *final(self) == *old(self),
            r is Ok <==> signer_ok(old(self).multisig.admin, signer) && old(self).multisig.has_proposal(proposal_id)
                && !old(self).multisig.proposal(proposal_id).signers_approved@.contains(signer),
            r is Ok ==> {
                let p = old(self).multisig.proposal(proposal_id);
                &&& final(self).multisig.proposals@.len() == old(self).multisig.proposals@.len()
                &&& forall|i: int| 0 <= i < old(self).multisig.proposals@.len() && i != proposal_id - 1
                    ==> #[trigger] final(self).multisig.proposals@[i] == old(self).multisig.proposals@[i]
                &&& final(self).multisig.proposal(proposal_id).signers_approved@ == p.signers_approved@.push(signer)
                &&& final(self).multisig.proposal(proposal_id).state == p.state
                &&& final(self).multisig.proposal(proposal_id).action == p.action
                &&& final(self).multisig.proposal(proposal_id).expires_at == p.expires_at
                &&& final(self).multisig.admin == old(self).multisig.admin
                &&& *final(self) == (InvoiceLiquidity { multisig: final(self).multisig, ..*old(self) })
            },
    {
        let r = self.multisig.sign(signer, proposal_id);
        proof { self.lemma_wf_frame(old(self)); }
        r
    }

    /// `executor` carries out the proposal `proposal_id` once enough signers approved it and
    /// before it expires at ledger `ledger.sequence`: a pause or unpause takes effect at once and
    /// is announced, dated `ledger.timestamp`; other actions are only marked executed.
    #[verifier::rlimit(40)]
    pub fn execute_proposal(&mut self, executor: Address, proposal_id: u64, ledger: Ledger) -> (r: Result<
        Option<PauseEvent>,
        ContractError,
    >)
        requires
            old(self).wf(),
        ensures
            final(self).wf(),
            !signer_ok(old(self).multisig.admin, executor) ==> r == Err::<Option<PauseEvent>, ContractError>(
                ContractError::NotAuthorizedSigner,
            ),
            signer_ok(old(self).multisig.admin, executor) ==> ({
                let a = old(self).multisig.admin.unwrap();
                let p = old(self).multisig.proposal(proposal_id);
                if !old(self).multisig.has_proposal(proposal_id) {
                    r == Err::<Option<PauseEvent>, ContractError>(ContractError::ProposalNotFound)
                } else if p.state == ProposalState::Executed {
                    r == Err::<Option<PauseEvent>, ContractError>(ContractError::ProposalAlreadyExecuted)
                } else if ledger.sequence >= p.expires_at {
                    r == Err::<Option<PauseEvent>, ContractError>(ContractError::ProposalExpired)
                } else if p.signers_approved@.len() < a.threshold {
                    r == Err::<Option<PauseEvent>, ContractError>(ContractError::ThresholdNotReached)
                } else {
                    &&& final(self).multisig.proposals@.len() == old(self).multisig.proposals@.len()
                    &&& forall|i: int| 0 <= i < old(self).multisig.proposals@.len() && i != proposal_id - 1
                        ==> #[trigger] final(self).multisig.proposals@[i] == old(self).multisig.proposals@[i]
                    &&& final(self).multisig.proposal(proposal_id).id == p.id
                    &&& final(self).multisig.proposal(proposal_id).action == p.action
                    &&& final(self).multisig.proposal(proposal_id).signers_approved == p.signers_approved
                    &&& final(self).multisig.proposal(proposal_id).expires_at == p.expires_at
                    &&& final(self).multisig.proposal(proposal_id).state == ProposalState::Executed
                    &&& final(self).multisig.admin == old(self).multisig.admin
                    &&& r == Ok::<Option<PauseEvent>, ContractError>(match p.action {
                        AdminAction::Pause => Some(PauseEvent::Paused(ContractPaused { timestamp: ledger.timestamp })),
                        AdminAction::Unpause => Some(PauseEvent::Unpaused(ContractUnpaused { timestamp: ledger.timestamp })),
                        _ => None,
                    })
                    &&& final(self).settings == (Settings {
                        paused: match p.action {
                            AdminAction::Pause => true,
                            AdminAction::Unpause => false,
                            _ => old(self).settings.paused,
                        },
                        ..old(self).settings
                    })
                    &&& *final(self) == (InvoiceLiquidity {
                        multisig: final(self).multisig,
                        settings: final(self).settings,
                        ..*old(self)
                    })
                }
            }),
            r is Err ==> *final(self) == *old(self),
    {
        let r = self.multisig.execute(executor, proposal_id, ledger.sequence);
        proof { self.lemma_wf_frame(old(self)); }
        match r {
            Err(e) => {
                Err(e)
            },
            Ok(()) => {
                let n = self.multisig.proposals.len();
                let i = (proposal_id - 1) as usize;
                assert(i as int == proposal_id - 1 && i < n);
                let change = match &self.multisig.proposals[i].action {
                    AdminAction::Pause => Some(true),
                    AdminAction::Unpause => Some(false),
                    _ => None,
                };
                Ok(self.apply_pause_change(change, ledger.timestamp))
            },
        }
    }

    /// Carries out the pause switch an executed proposal asks for (`Some(true)` pauses,
    /// `Some(false)` resumes) and announces it, dated `now`.
    fn apply_pause_change(&mut self, change: Option<bool>, now: u64) -> (ev: Option<PauseEvent>)
        requires
            old(self).wf(),
        ensures
            final(self).wf(),
            ev == (match change {
                Some(true) => Some(PauseEvent::Paused(ContractPaused { timestamp: now })),
                Some(false) => Some(PauseEvent::Unpaused(ContractUnpaused { timestamp: now })),
                None => None,
            }),
            *final(self) == (InvoiceLiquidity {
                settings: Settings {
                    paused: match change {
                        Some(p) => p,
                        None => old(self).settings.paused,
                    },
                    ..old(self).settings
                },
                ..*old(self)
            }),
    {
        let ev = match change {
            Some(true) => {
                self.settings.paused = true;
                Some(PauseEvent::Paused(ContractPaused { timestamp: now }))
            },
            Some(false) => {
                self.settings.paused = false;
                Some(PauseEvent::Unpaused(ContractUnpaused { timestamp: now }))
            },
            None => None,
        };
        proof { self.lemma_wf_frame(old(self)); }
        ev
    }

    fn propose(&mut self, proposer: Address, action: AdminAction, sequence: u32) -> (r: Result<u64, ContractError>)
        requires
            old(self).wf(),
            old(self).multisig.proposals@.len() < u64::MAX - 2,
        ensures
            final(self).wf(),
            r is Err <==> !signer_ok(old(self).multisig.admin, proposer),
            r is Err ==> r == Err::<u64, ContractError>(ContractError::NotAuthorizedSigner) && *final(self) == *old(self),
            r matches Ok(id) ==> {
                &&& id == old(self).multisig.proposals@.len() + 1
                &&& final(self).multisig.proposals@.len() == id
                &&& final(self).multisig.proposals@.drop_last() == old(self).multisig.proposals@
                &&& final(self).multisig.proposals@[id - 1].action == action
                &&& final(self).multisig.proposals@[id - 1].id == id
                &&& final(self).multisig.proposals@[id - 1].state == ProposalState::Pending
                &&& final(self).multisig.proposals@[id - 1].expires_at == sequence + crate::constants::MULTISIG_WINDOW_LEDGERS
                &&& final(self).multisig.proposals@[id - 1].signers_approved@.len() == 0
                &&& final(self).multisig.admin == old(self).multisig.admin
                &&& *final(self) == (InvoiceLiquidity { multisig: final(self).multisig, ..*old(self) })
            },
    {
        let r = self.multisig.propose(proposer, action, sequence);
        proof {
            if r is Ok {
                assert(self.multisig.proposals@.drop_last() =~= old(self).multisig.proposals@);
            }
            self.lemma_wf_frame(old(self));
        }
        r
    }

    /// Proposes to pause the protocol; returns the proposal id.
    pub fn propose_pause(&mut self, proposer: Address, sequence: u32) -> (r: Result<u64, ContractError>)
        requires
            old(self).wf(),
            old(self).multisig.proposals@.len() < u64::MAX - 2,
        ensures
            final(self).wf(),
            r is Err <==> !signer_ok(old(self).multisig.admin, proposer),
            r is Err ==> r == Err::<u64, ContractError>(ContractError::NotAuthorizedSigner) && *final(self) == *old(self),
            r matches Ok(id) ==> {
                &&& id == old(self).multisig.proposals@.len() + 1
                &&& final(self).multisig.proposals@.len() == id
                &&& final(self).multisig.proposals@.drop_last() == old(self).multisig.proposals@
                &&& final(self).multisig.proposals@[id - 1].action == AdminAction::Pause
                &&& final(self).multisig.proposals@[id - 1].state == ProposalState::Pending
                &&& final(self).multisig.proposals@[id - 1].expires_at == sequence + crate::constants::MULTISIG_WINDOW_LEDGERS
                &&& final(self).multisig.proposals@[id - 1].signers_approved@.len() == 0
                &&& *final(self) == (InvoiceLiquidity { multisig: final(self).multisig, ..*old(self) })
            },
    {
        self.propose(proposer, AdminAction::Pause, sequence)
    }

    /// Proposes to unpause the protocol; returns the proposal id.
    pub fn propose_unpause(&mut self, proposer: Address, sequence: u32) -> (r: Result<u64, ContractError>)
        requires
            old(self).wf(),
            old(self).multisig.proposals@.len() < u64::MAX - 2,
        ensures
            final(self).wf(),
            r is Err <==> !signer_ok(old(self).multisig.admin, proposer),
            r is Err ==> r == Err::<u64, ContractError>(ContractError::NotAuthorizedSigner) && *final(self) == *old(self),
            r matches Ok(id) ==> {
                &&& id == old(self).multisig.proposals@.len() + 1
                &&& final(self).multisig.proposals@.len() == id
                &&& final(self).multisig.proposals@.drop_last() == old(self).multisig.proposals@
                &&& final(self).multisig.proposals@[id - 1].action == AdminAction::Unpause
                &&& final(self).multisig.proposals@[id - 1].state == ProposalState::Pending
                &&& final(self).multisig.proposals@[id - 1].expires_at == sequence + crate::constants::MULTISIG_WINDOW_LEDGERS
                &&& final(self).multisig.proposals@[id - 1].signers_approved@.len() == 0
                &&& *final(self) == (InvoiceLiquidity { multisig: final(self).multisig, ..*old(self) })
            },
    {
        self.propose(proposer, AdminAction::Unpause, sequence)
    }
}

} // verus!

use vstd::prelude::*;
use std::collections::HashMap;
use crate::constants::{
    DEFAULT_MAX_ORACLE_AGE_LEDGERS, MAX_DISCOUNT_RATE, MIN_INVOICE_AMOUNT, TOKEN_TEST_AMOUNT,
};
use crate::counting::{all_nonneg, count_where, fully_funded, in_state, lemma_count_update, sum_amounts};
use crate::errors::ContractError;
use crate::invoice::{
    transfer, Action, Address, Config, ContractStats, Hash32, Invoice, InvoiceStatus, LPStats,
    LpFundRequest, AppealRecord, DisputeRecord, ReputationProfile, ReputationScore,
};
use crate::multisig::MultisigState;
use crate::nft::{InvoiceNftMetadata, NftRegistry};
use crate::reputation::ReputationBook;

verus! {

broadcast use vstd::std_specs::hash::group_hash_axioms;

/// Governance-controlled parameters.
#[derive(Copy, Clone, Debug, PartialEq, Eq, Structural)]
pub struct Settings {
    pub initialized: bool,
    pub admin: Option<Address>,
    pub config: Option<Config>,
    /// Fee, in basis points of the invoice amount, paid to the admin on settlement.
    pub fee_rate: u32,
    /// Fee, in basis points of each LP's earnings, paid to the treasury on settlement.
    pub protocol_fee_bps: u32,
    pub treasury: Option<Address>,
    /// Largest discount rate an invoice may carry.
    pub max_discount_rate: u32,
    /// Contract told about fundings and settlements.
    pub distribution_contract: Option<Address>,
    pub paused: bool,
    /// Minimum payer reputation to fund an invoice (0 turns the check off).
    pub min_payer_reputation: u32,
}

/// The tokens that invoices may use.
pub struct TokenRegistry {
    /// Explicit approval flags.
    pub approved: HashMap<Address, bool>,
    /// Approved tokens in order of approval.
    pub list: Vec<Address>,
}

/// The state of the invoice-liquidity protocol. The invoice with id `n` is stored at `n - 1`.
pub struct InvoiceLiquidity {
    /// The protocol's own account, which holds funds in transit.
    pub contract_address: Address,
    pub settings: Settings,
    pub stats: ContractStats,
    /// Reentrancy guard.
    pub locked: bool,
    pub multisig: MultisigState,
    pub invoices: Vec<Invoice>,
    /// Contributions of each LP to each invoice, by invoice id.
    pub funders: HashMap<u64, Vec<(Address, i128)>>,
    /// LPs queued to fund each invoice, by invoice id.
    pub fund_queues: HashMap<u64, Vec<LpFundRequest>>,
    /// The LP the queue selected, by invoice id.
    pub queue_resolutions: HashMap<u64, Address>,
    pub appeals: HashMap<u64, AppealRecord>,
    /// The payer's score just before a default, by invoice id.
    pub pre_default_scores: HashMap<u64, u32>,
    pub disputes: HashMap<u64, DisputeRecord>,
    pub nfts: NftRegistry,
    pub reputation: ReputationBook,
    pub lp_stats: HashMap<Address, LPStats>,
    /// Invoice ids by submitting freelancer.
    pub submitter_invoices: HashMap<Address, Vec<u64>>,
    /// Invoice ids by funding LP.
    pub lp_invoices: HashMap<Address, Vec<u64>>,
    pub tokens: TokenRegistry,
    /// The referral code of each submission that named one, in order.
    pub referrals: Vec<Hash32>,
}

/// The ids other than `x`.
pub open spec fn other_than(x: u64) -> spec_fn(u64) -> bool {
    |y: u64| y != x
}

/// The ids of `s` other than `x` stay within `1..=hi` when those of `s` do.
pub proof fn lemma_filter_ids(s: Seq<u64>, x: u64, hi: int)
    requires
        forall|k: int| 0 <= k < s.len() ==> 1 <= #[trigger] s[k] <= hi,
    ensures
        forall|k: int| 0 <= k < s.filter(other_than(x)).len() ==> 1 <= #[trigger] s.filter(other_than(x))[k] <= hi,
    decreases s.len(),
{
    reveal_with_fuel(Seq::filter, 1);
    if s.len() > 0 {
        let d = s.drop_last();
        assert forall|k: int| 0 <= k < d.len() implies 1 <= #[trigger] d[k] <= hi by {
            assert(d[k] == s[k]);
        }
        lemma_filter_ids(d, x, hi);
        let f = s.filter(other_than(x));
        let fd = d.filter(other_than(x));
        assert(f == if other_than(x)(s.last()) { fd.push(s.last()) } else { fd });
        assert forall|k: int| 0 <= k < f.len() implies 1 <= #[trigger] f[k] <= hi by {
            if k < fd.len() {
                assert(f[k] == fd[k]);
            }
        }
    }
}

/// An invoice whose amounts are consistent.
pub open spec fn invoice_ok(inv: Invoice) -> bool {
    &&& inv.amount >= MIN_INVOICE_AMOUNT
    &&& 0 <= inv.amount_funded <= inv.amount
    &&& 0 <= inv.amount_paid <= inv.amount
    &&& inv.status == InvoiceStatus::Pending ==> inv.amount_funded == 0 && inv.amount_paid == 0
    &&& inv.status == InvoiceStatus::PartiallyFunded ==> inv.amount_funded < inv.amount
    &&& inv.amount_paid > 0 ==> inv.amount_funded == inv.amount
    &&& inv.status == InvoiceStatus::Funded ==> inv.amount_funded == inv.amount
}

/// The configuration installed at initialisation.
pub open spec fn initial_config(usdc: Address, eurc: Address, xlm: Address) -> Config {
    Config {
        high_rep_threshold: 70,
        bonus_bps: 100,
        min_discount_rate_bps: 100,
        decay_rate_bps: 50,
        decay_period_ledgers: 10000,
        dispute_timeout_ledgers: 10000,
        xlm_sac_address: xlm,
        usdc_sac_address: usdc,
        eurc_sac_address: eurc,
        price_oracle: None,
        max_oracle_age_ledgers: DEFAULT_MAX_ORACLE_AGE_LEDGERS,
    }
}

impl InvoiceLiquidity {
    /// An invoice with `id` exists.
    pub open spec fn has_invoice(&self, id: u64) -> bool {
        1 <= id <= self.invoices@.len()
    }

    /// The invoice with `id`.
    pub open spec fn inv(&self, id: u64) -> Invoice {
        self.invoices@[id - 1]
    }

    /// The contributions to the invoice with `id`.
    pub open spec fn funders_of(&self, id: u64) -> Seq<(Address, i128)> {
        if self.funders@.contains_key(id) { self.funders@[id]@ } else { Seq::empty() }
    }

    /// Invoices may use `token`: its approval flag is set, or it has no flag and is one of the
    /// configured tokens. A withdrawn approval holds for a configured token too.
    pub open spec fn approved(&self, token: Address) -> bool {
        if self.tokens.approved@.contains_key(token) {
            self.tokens.approved@[token]
        } else {
            self.settings.config matches Some(c) && (token == c.usdc_sac_address
                || token == c.eurc_sac_address || token == c.xlm_sac_address)
        }
    }

    /// The ids of the invoices that `a` has submitted, in order.
    pub open spec fn submitter_ids(&self, a: Address) -> Seq<u64> {
        if self.submitter_invoices@.contains_key(a) { self.submitter_invoices@[a]@ } else { Seq::empty() }
    }

    /// The ids of the invoices that `a` has funded, in order.
    pub open spec fn lp_ids(&self, a: Address) -> Seq<u64> {
        if self.lp_invoices@.contains_key(a) { self.lp_invoices@[a]@ } else { Seq::empty() }
    }

    /// Every id in the submitter and LP indexes names an invoice.
    pub open spec fn indexes_ok(&self) -> bool {
        &&& forall|a: Address, k: int| 0 <= k < self.submitter_ids(a).len()
            ==> 1 <= #[trigger] self.submitter_ids(a)[k] <= self.invoices@.len()
        &&& forall|a: Address, k: int| 0 <= k < self.lp_ids(a).len()
            ==> 1 <= #[trigger] self.lp_ids(a)[k] <= self.invoices@.len()
    }

    /// The state is consistent.
    pub open spec fn wf(&self) -> bool {
        &&& self.invoices@.len() < u64::MAX
        &&& forall|i: int| 0 <= i < self.invoices@.len() ==> #[trigger] self.invoices@[i].id == i + 1
        &&& forall|i: int| 0 <= i < self.invoices@.len() ==> invoice_ok(#[trigger] self.invoices@[i])
        &&& forall|k: u64| #[trigger] self.funders@.contains_key(k) ==> 1 <= k <= self.invoices@.len()
        &&& forall|id: u64| #[trigger] self.has_invoice(id) ==> {
            &&& sum_amounts(self.funders_of(id)) == self.inv(id).amount_funded
            &&& all_nonneg(self.funders_of(id))
        }
        &&& self.stats.total_invoices == self.invoices@.len()
        &&& self.stats.total_funded == count_where(self.invoices@, fully_funded())
        &&& self.stats.total_paid == count_where(self.invoices@, in_state(InvoiceStatus::Paid))
        &&& self.reputation.wf()
        &&& self.multisig.wf()
        &&& self.settings.fee_rate > 0 ==> self.settings.admin is Some
        &&& self.settings.protocol_fee_bps <= 100
        &&& self.indexes_ok()
        &&& self.referrals@.len() <= self.invoices@.len()
        &&& forall|k: u64| #[trigger] self.nfts.view_map().contains_key(k) ==> 1 <= k <= self.invoices@.len()
    }

    /// The parts of the state that `wf` speaks of, other than the admin, are those of `other`.
    pub open spec fn same_books(&self, other: &Self) -> bool {
        &&& self.invoices == other.invoices
        &&& self.funders == other.funders
        &&& self.stats.total_invoices == other.stats.total_invoices
        &&& self.stats.total_funded == other.stats.total_funded
        &&& self.stats.total_paid == other.stats.total_paid
        &&& self.reputation == other.reputation
        &&& self.referrals == other.referrals
        &&& self.nfts == other.nfts
        &&& self.submitter_invoices == other.submitter_invoices
        &&& self.lp_invoices == other.lp_invoices
    }

    pub proof fn lemma_wf_frame(&self, other: &Self)
        requires
            other.wf(),
            self.same_books(other),
            self.multisig.wf(),
            self.settings.fee_rate > 0 ==> self.settings.admin is Some,
            self.settings.protocol_fee_bps <= 100,
        ensures
            self.wf(),
    {
        self.lemma_indexes_frame(other);
        assert forall|id: u64| #[trigger] self.has_invoice(id) implies {
            &&& sum_amounts(self.funders_of(id)) == self.inv(id).amount_funded
            &&& all_nonneg(self.funders_of(id))
        } by {
            assert(other.has_invoice(id));
        }
    }

    /// A change of the reputation book alone that keeps it consistent keeps the state
    /// consistent.
    pub proof fn lemma_wf_frame_reputation(&self, other: &Self)
        requires
            other.wf(),
            self.reputation.wf(),
            *self == (InvoiceLiquidity { reputation: self.reputation, ..*other }),
        ensures
            self.wf(),
    {
        self.lemma_indexes_frame(other);
        assert forall|id: u64| #[trigger] self.has_invoice(id) implies {
            &&& sum_amounts(self.funders_of(id)) == self.inv(id).amount_funded
            &&& all_nonneg(self.funders_of(id))
        } by {
            assert(other.has_invoice(id));
        }
    }

    /// Unchanged indexes stay valid while no invoice disappears.
    pub proof fn lemma_indexes_frame(&self, other: &Self)
        requires
            other.indexes_ok(),
            self.submitter_invoices == other.submitter_invoices,
            self.lp_invoices == other.lp_invoices,
            self.invoices@.len() >= other.invoices@.len(),
        ensures
            self.indexes_ok(),
    {
        assert forall|a: Address, k: int| 0 <= k < self.submitter_ids(a).len() implies 1 <= #[trigger] self.submitter_ids(a)[k]
            <= self.invoices@.len() by {
            assert(other.submitter_ids(a) == self.submitter_ids(a));
        }
        assert forall|a: Address, k: int| 0 <= k < self.lp_ids(a).len() implies 1 <= #[trigger] self.lp_ids(a)[k]
            <= self.invoices@.len() by {
            assert(other.lp_ids(a) == self.lp_ids(a));
        }
    }

    /// Editing one invoice in a way that keeps its id, its funding and whether it is paid, and
    /// leaves the rest of the books alone, keeps the state consistent.
    pub proof fn lemma_wf_edit(&self, other: &Self, i: int)
        requires
            other.wf(),
            0 <= i < other.invoices@.len(),
            self.invoices@ == other.invoices@.update(i, self.invoices@[i]),
            self.invoices@[i].id == other.invoices@[i].id,
            invoice_ok(self.invoices@[i]),
            self.invoices@[i].amount_funded == other.invoices@[i].amount_funded,
            (self.invoices@[i].amount_funded == self.invoices@[i].amount) == (other.invoices@[i].amount_funded
                == other.invoices@[i].amount),
            (self.invoices@[i].status == InvoiceStatus::Paid) == (other.invoices@[i].status == InvoiceStatus::Paid),
            self.funders == other.funders,
            self.stats == other.stats,
            self.reputation.wf(),
            self.multisig.wf(),
            self.settings == other.settings,
            self.submitter_invoices == other.submitter_invoices,
            self.lp_invoices == other.lp_invoices,
            self.referrals@.len() <= other.referrals@.len(),
            forall|k: u64| #[trigger] self.nfts.view_map().contains_key(k) ==> 1 <= k <= self.invoices@.len(),
        ensures
            self.wf(),
    {
        self.lemma_indexes_frame(other);
        let x = self.invoices@[i];
        lemma_count_update(other.invoices@, i, x, fully_funded());
        lemma_count_update(other.invoices@, i, x, in_state(InvoiceStatus::Paid));
        assert forall|id: u64| #[trigger] self.has_invoice(id) implies {
            &&& sum_amounts(self.funders_of(id)) == self.inv(id).amount_funded
            &&& all_nonneg(self.funders_of(id))
        } by {
            assert(other.has_invoice(id));
        }
    }

    /// A protocol with no state, whose own account is `contract_address`.
    pub fn new(contract_address: Address) -> (r: Self)
        ensures
            r.wf(),
            r.contract_address == contract_address,
            !r.settings.initialized,
            r.settings == (Settings {
                initialized: false,
                admin: None,
                config: None,
                fee_rate: 0,
                protocol_fee_bps: 0,
                treasury: None,
                max_discount_rate: MAX_DISCOUNT_RATE,
                distribution_contract: None,
                paused: false,
                min_payer_reputation: 0,
            }),
            r.stats == (ContractStats {
                total_invoices: 0,
                total_funded: 0,
                total_paid: 0,
                total_volume_usdc: 0,
                total_volume_eurc: 0,
                total_volume_xlm: 0,
                total_volume_usd_normalized: 0,
            }),
            !r.locked,
            r.multisig.admin is None,
            r.multisig.proposals@.len() == 0,
            r.invoices@.len() == 0,
            r.funders@ == Map::<u64, Vec<(Address, i128)>>::empty(),
            r.fund_queues@ == Map::<u64, Vec<LpFundRequest>>::empty(),
            r.queue_resolutions@ == Map::<u64, Address>::empty(),
            r.appeals@ == Map::<u64, AppealRecord>::empty(),
            r.pre_default_scores@ == Map::<u64, u32>::empty(),
            r.disputes@ == Map::<u64, DisputeRecord>::empty(),
            r.nfts.view_map() == Map::<u64, InvoiceNftMetadata>::empty(),
            r.reputation.payer_scores@ == Map::<Address, ReputationScore>::empty(),
            r.reputation.profiles@ == Map::<Address, ReputationProfile>::empty(),
            r.reputation.lp_scores@ == Map::<Address, u32>::empty(),
            r.reputation.top_payers@.len() == 0,
            r.lp_stats@ == Map::<Address, LPStats>::empty(),
            r.submitter_invoices@ == Map::<Address, Vec<u64>>::empty(),
            r.lp_invoices@ == Map::<Address, Vec<u64>>::empty(),
            r.tokens.list@.len() == 0,
            r.tokens.approved@ == Map::<Address, bool>::empty(),
            r.referrals@.len() == 0,
    {
        InvoiceLiquidity {
            contract_address,
            settings: Settings {
                initialized: false,
                admin: None,
                config: None,
                fee_rate: 0,
                protocol_fee_bps: 0,
                treasury: None,
                max_discount_rate: MAX_DISCOUNT_RATE,
                distribution_contract: None,
                paused: false,
                min_payer_reputation: 0,
            },
            stats: ContractStats {
                total_invoices: 0,
                total_funded: 0,
                total_paid: 0,
                total_volume_usdc: 0,
                total_volume_eurc: 0,
                total_volume_xlm: 0,
                total_volume_usd_normalized: 0,
            },
            locked: false,
            multisig: MultisigState::new(),
            invoices: Vec::new(),
            funders: HashMap::new(),
            fund_queues: HashMap::new(),
            queue_resolutions: HashMap::new(),
            appeals: HashMap::new(),
            pre_default_scores: HashMap::new(),
            disputes: HashMap::new(),
            nfts: NftRegistry::new(),
            reputation: ReputationBook::new(),
            lp_stats: HashMap::new(),
            submitter_invoices: HashMap::new(),
            lp_invoices: HashMap::new(),
            tokens: TokenRegistry { approved: HashMap::new(), list: Vec::new() },
            referrals: Vec::new(),
        }
    }

    /// Sets the admin, the default configuration and the three initial tokens.
    pub fn initialize(&mut self, admin: Address, usdc_token: Address, eurc_token: Address, xlm_token: Address)
        -> (r: Result<(), ContractError>)
        requires
            old(self).wf(),
        ensures
            final(self).wf(),
            old(self).settings.initialized ==> r == Err::<(), ContractError>(ContractError::AlreadyInitialized)
                && *final(self) == *old(self),
            !old(self).settings.initialized ==> {
                &&& r is Ok
                &&& final(self).settings == Settings {
                    initialized: true,
                    admin: Some(admin),
                    config: Some(initial_config(usdc_token, eurc_token, xlm_token)),
                    fee_rate: 0,
                    max_discount_rate: MAX_DISCOUNT_RATE,
                    ..old(self).settings
                }
                &&& final(self).tokens.approved@ == old(self).tokens.approved@.insert(usdc_token, true).insert(
                    eurc_token,
                    true,
                ).insert(xlm_token, true)
                &&& final(self).tokens.list@ == seq![usdc_token, xlm_token, eurc_token]
                &&& *final(self) == (InvoiceLiquidity {
                    settings: final(self).settings,
                    tokens: final(self).tokens,
                    ..*old(self)
                })
            },
    {
        if self.settings.initialized {
            return Err(ContractError::AlreadyInitialized);
        }
        self.settings.initialized = true;
        self.settings.admin = Some(admin);
        self.settings.fee_rate = 0;
        self.settings.max_discount_rate = MAX_DISCOUNT_RATE;
        self.settings.config = Some(Config {
            high_rep_threshold: 70,
            bonus_bps: 100,
            min_discount_rate_bps: 100,
            decay_rate_bps: 50,
            decay_period_ledgers: 10000,
            dispute_timeout_ledgers: 10000,
            xlm_sac_address: xlm_token,
            usdc_sac_address: usdc_token,
            eurc_sac_address: eurc_token,
            price_oracle: None,
            max_oracle_age_ledgers: DEFAULT_MAX_ORACLE_AGE_LEDGERS,
        });
        self.tokens.approved.insert(usdc_token, true);
        self.tokens.approved.insert(eurc_token, true);
        self.tokens.approved.insert(xlm_token, true);
        let mut list: Vec<Address> = Vec::new();
        list.push(usdc_token);
        list.push(xlm_token);
        list.push(eurc_token);
        self.tokens.list = list;
        proof {
            self.lemma_wf_frame(old(self));
        }
        Ok(())
    }
}

} // verus!

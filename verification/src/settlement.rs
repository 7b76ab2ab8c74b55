use vstd::prelude::*;
use std::collections::HashMap;
use crate::constants::DEFAULT_PAYER_SCORE;
use crate::contract::{invoice_ok, InvoiceLiquidity};
use crate::nft::InvoiceNftMetadata;
use crate::counting::{all_nonneg, fully_funded, in_state, lemma_count_le_len, lemma_count_update, sum_amounts};
use crate::errors::ContractError;
use crate::invoice::{transfer, treasury_fee_transfer, Action, Address, ContractStats, Invoice, InvoiceStatus, LPStats, Ledger, ReputationProfile};
use crate::reputation::{profile_in, store_profile};
use crate::lifecycle::{outcome, refunds, refund_of};
use crate::rate_logic::{discount_amount, discount_spec, sat_sub};

verus! {

broadcast use vstd::std_specs::hash::group_hash_axioms;

/// `a * b`, or zero when the product does not fit in `i128`.
pub open spec fn checked_prod(a: int, b: int) -> int {
    if i128::MIN <= a * b <= i128::MAX { a * b } else { 0 }
}

/// `p / d` rounded toward zero.
pub open spec fn trunc_div(p: int, d: int) -> int {
    if p >= 0 { p / d } else { -((-p) / d) }
}

/// `x` clamped to the range of `i128`.
pub open spec fn clamp_i128(x: int) -> int {
    if x > i128::MAX { i128::MAX as int } else if x < i128::MIN { i128::MIN as int } else { x }
}

/// The share of `distribute` that a contribution of `amt` to an invoice of `amount` earns.
pub open spec fn share_of(distribute: int, amt: int, amount: int) -> int {
    trunc_div(checked_prod(distribute, amt), amount)
}

/// What an LP that paid in for a contribution of `amt` at discount `rate` gains from `share`.
pub open spec fn earned_of(share: int, amt: int, rate: u32) -> int {
    clamp_i128(share - (amt - discount_spec(amt, rate as int)))
}

/// The treasury's cut of `earned`: `bps` basis points of a gain, when a treasury is set.
pub open spec fn treasury_fee(earned: int, bps: u32, treasury: Option<Address>) -> int {
    if earned > 0 && bps > 0 && treasury is Some { checked_prod(earned, bps as int) / 10_000 } else { 0 }
}

/// The payouts of the contributions `fs` on settlement: the treasury's cut of each gain, then
/// the rest of each share to its LP.
pub open spec fn payouts(
    fs: Seq<(Address, i128)>,
    token: Address,
    from: Address,
    distribute: int,
    amount: int,
    rate: u32,
    bps: u32,
    treasury: Option<Address>,
) -> Seq<Action>
    decreases fs.len(),
{
    if fs.len() == 0 {
        Seq::empty()
    } else {
        let (a, amt) = fs.last();
        let share = share_of(distribute, amt as int, amount);
        let fee = treasury_fee(earned_of(share, amt as int, rate), bps, treasury);
        let to_treasury = if fee > 0 { seq![treasury_fee_transfer(token, from, treasury.unwrap(), fee as i128)] } else { Seq::empty() };
        let to_lp = if share - fee > 0 { seq![transfer(token, from, a, (share - fee) as i128)] } else { Seq::empty() };
        payouts(fs.drop_last(), token, from, distribute, amount, rate, bps, treasury) + to_treasury + to_lp
    }
}

/// The statistics of `a` in `m`.
pub open spec fn stats_in(m: Map<Address, LPStats>, a: Address) -> LPStats {
    if m.contains_key(a) {
        m[a]
    } else {
        LPStats { total_funded: 0, total_earned: 0, active_positions: 0, total_positions: 0, avg_yield_bps: 0 }
    }
}

/// The LP statistics after the contributions `fs` are settled: each LP's net gain is added to
/// its earnings and one of its active positions closes.
pub open spec fn settled_stats(
    m: Map<Address, LPStats>,
    fs: Seq<(Address, i128)>,
    distribute: int,
    amount: int,
    rate: u32,
    bps: u32,
    treasury: Option<Address>,
) -> Map<Address, LPStats>
    decreases fs.len(),
{
    if fs.len() == 0 {
        m
    } else {
        let prev = settled_stats(m, fs.drop_last(), distribute, amount, rate, bps, treasury);
        let (a, amt) = fs.last();
        let earned = earned_of(share_of(distribute, amt as int, amount), amt as int, rate);
        let net = earned - treasury_fee(earned, bps, treasury);
        let s = stats_in(prev, a);
        prev.insert(
            a,
            LPStats {
                total_earned: if i128::MIN <= s.total_earned + net <= i128::MAX {
                    (s.total_earned + net) as i128
                } else {
                    s.total_earned
                },
                active_positions: if s.active_positions > 0 { (s.active_positions - 1) as u32 } else { 0 },
                ..s
            },
        )
    }
}

/// `p / d` rounded toward zero.
pub fn trunc_div_i128(p: i128, d: i128) -> (q: i128)
    requires
        d > 1,
    ensures
        q == trunc_div(p as int, d as int),
{
    if p >= 0 {
        p / d
    } else if p > i128::MIN {
        let n = -p;
        -(n / d)
    } else {
        let n = -(p + d);
        proof {
            let ni = n as int;
            let di = d as int;
            assert((ni + di) / di == ni / di + 1) by (nonlinear_arith)
                requires di > 0, ni >= 0;
        }
        -(n / d + 1)
    }
}

/// `a - b`, clamped to the range of `i128`.
pub fn sat_sub_i128(a: i128, b: i128) -> (r: i128)
    ensures
        r == clamp_i128(a - b),
{
    if b >= 0 {
        if a >= i128::MIN + b { a - b } else { i128::MIN }
    } else {
        if a <= i128::MAX + b { a - b } else { i128::MAX }
    }
}

/// `a * b`, or zero when the product does not fit in `i128`.
pub fn checked_prod_i128(a: i128, b: i128) -> (p: i128)
    ensures
        p == checked_prod(a as int, b as int),
{
    match a.checked_mul(b) {
        Some(v) => v,
        None => 0,
    }
}


/// `m` with one more paid invoice counted for `a`.
pub open spec fn paid_counted(m: Map<Address, ReputationProfile>, a: Address) -> Map<Address, ReputationProfile> {
    store_profile(m, ReputationProfile { invoices_paid: (profile_in(m, a).invoices_paid + 1) as u32, ..profile_in(m, a) })
}

/// Why an invoice in state `st` cannot be settled, if it cannot.
pub open spec fn not_payable_error(st: InvoiceStatus) -> Option<ContractError> {
    match st {
        InvoiceStatus::Funded => None,
        InvoiceStatus::Pending | InvoiceStatus::PartiallyFunded => Some(ContractError::NotFunded),
        InvoiceStatus::Paid => Some(ContractError::AlreadyPaid),
        InvoiceStatus::Defaulted => Some(ContractError::InvoiceDefaulted),
        InvoiceStatus::Appealed => Some(ContractError::InvoiceAppealed),
        InvoiceStatus::Disputed => Some(ContractError::InvoiceDisputed),
        InvoiceStatus::Expired => Some(ContractError::InvoiceExpired),
        InvoiceStatus::Cancelled => Some(ContractError::AlreadyCancelled),
    }
}

/// Refuses every state but `Funded`, with the error that names the state.
pub fn check_payable(st: InvoiceStatus) -> (r: Result<(), ContractError>)
    ensures
        r == outcome(not_payable_error(st)),
{
    match st {
        InvoiceStatus::Funded => Ok(()),
        InvoiceStatus::Pending | InvoiceStatus::PartiallyFunded => Err(ContractError::NotFunded),
        InvoiceStatus::Paid => Err(ContractError::AlreadyPaid),
        InvoiceStatus::Defaulted => Err(ContractError::InvoiceDefaulted),
        InvoiceStatus::Appealed => Err(ContractError::InvoiceAppealed),
        InvoiceStatus::Disputed => Err(ContractError::InvoiceDisputed),
        InvoiceStatus::Expired => Err(ContractError::InvoiceExpired),
        InvoiceStatus::Cancelled => Err(ContractError::AlreadyCancelled),
    }
}

/// What settling an invoice pays its first LP, as the settlement announces it.
#[derive(Copy, Clone, Debug, PartialEq, Eq, Structural)]
pub struct SettlementSummary {
    /// The LP that contributed first.
    pub lp: Address,
    /// What that LP receives: its share less the treasury's cut.
    pub lp_payout: i128,
    /// What that LP gains over what it paid in, after the treasury's cut.
    pub lp_earned: i128,
    /// The settlement comes no later than the due date.
    pub paid_on_time: bool,
}

impl InvoiceLiquidity {
    /// Why `mark_paid` refuses a payment of `amount`, if it does.
    pub open spec fn payment_error(&self, invoice_id: u64, amount: i128) -> Option<ContractError> {
        let inv = self.inv(invoice_id);
        if self.locked {
            Some(ContractError::Reentrancy)
        } else if self.settings.paused {
            Some(ContractError::ContractPaused)
        } else if amount <= 0 {
            Some(ContractError::InvalidAmount)
        } else if !self.has_invoice(invoice_id) {
            Some(ContractError::InvoiceNotFound)
        } else if not_payable_error(inv.status) is Some {
            not_payable_error(inv.status)
        } else if amount > inv.amount - inv.amount_paid {
            Some(ContractError::OverpaymentRejected)
        } else if self.funders_of(invoice_id).len() == 0 {
            Some(ContractError::NotFunded)
        } else {
            None
        }
    }

    /// The part of the invoice amount that goes to the LPs once the admin's fee is taken.
    pub open spec fn distributable(&self, invoice_id: u64) -> int {
        let inv = self.inv(invoice_id);
        inv.amount - discount_spec(inv.amount as int, self.settings.fee_rate as int)
    }

    /// The transfers and notice of the settlement of the invoice `invoice_id` at `now`: the
    /// admin's fee, the LPs' shares and the treasury's cut, and the notice to the distribution
    /// contract.
    pub open spec fn settlement_actions(&self, invoice_id: u64, now: u64) -> Seq<Action> {
        let inv = self.inv(invoice_id);
        let me = self.contract_address;
        let fee = discount_spec(inv.amount as int, self.settings.fee_rate as int);
        let to_admin = if fee > 0 {
            seq![transfer(inv.token, me, self.settings.admin.unwrap(), fee as i128)]
        } else {
            Seq::empty()
        };
        let notice = match self.settings.distribution_contract {
            Some(d) => seq![Action::AccrueSettlement { contract: d, freelancer: inv.freelancer, payer: inv.payer, on_time: now <= inv.due_date }],
            None => Seq::empty(),
        };
        to_admin + payouts(
            self.funders_of(invoice_id),
            inv.token,
            me,
            self.distributable(invoice_id),
            inv.amount as int,
            inv.discount_rate,
            self.settings.protocol_fee_bps,
            self.settings.treasury,
        ) + notice
    }

    /// Checks a payment without changing anything.
    fn check_payment(&self, invoice_id: u64, amount: i128) -> (r: Result<(), ContractError>)
        requires
            self.wf(),
        ensures
            r == outcome(self.payment_error(invoice_id, amount)),
    {
        if self.locked {
            return Err(ContractError::Reentrancy);
        }
        if self.settings.paused {
            return Err(ContractError::ContractPaused);
        }
        if amount <= 0 {
            return Err(ContractError::InvalidAmount);
        }
        if invoice_id == 0 || invoice_id > self.invoices.len() as u64 {
            return Err(ContractError::InvoiceNotFound);
        }
        let i = (invoice_id - 1) as usize;
        match check_payable(self.invoices[i].status) {
            Err(e) => {
                return Err(e);
            },
            Ok(()) => {},
        }
        if amount > self.invoices[i].amount - self.invoices[i].amount_paid {
            return Err(ContractError::OverpaymentRejected);
        }
        let empty = match self.funders.get(&invoice_id) {
            Some(v) => v.len() == 0,
            None => true,
        };
        if empty {
            return Err(ContractError::NotFunded);
        }
        Ok(())
    }

    /// Records the settlement of the invoice `invoice_id` in its LPs' statistics.
    fn settle_lp_stats(&mut self, invoice_id: u64)
        requires
            old(self).wf(),
            old(self).has_invoice(invoice_id),
        ensures
            final(self).wf(),
            final(self).lp_stats@ == settled_stats(
                old(self).lp_stats@,
                old(self).funders_of(invoice_id),
                old(self).distributable(invoice_id),
                old(self).inv(invoice_id).amount as int,
                old(self).inv(invoice_id).discount_rate,
                old(self).settings.protocol_fee_bps,
                old(self).settings.treasury,
            ),
            *final(self) == (InvoiceLiquidity { lp_stats: final(self).lp_stats, ..*old(self) }),
    {
        let n = self.invoices.len();
        let i = (invoice_id - 1) as usize;
        assert(i as int == invoice_id - 1 && i < n);
        let amount = self.invoices[i].amount;
        let rate = self.invoices[i].discount_rate;
        let bps = self.settings.protocol_fee_bps;
        let treasury = self.settings.treasury;
        proof {
            assert(invoice_ok(self.invoices@[i as int]));
        }
        let fee = discount_amount(amount, self.settings.fee_rate);
        let distribute = amount - fee;
        let empty: Vec<(Address, i128)> = Vec::new();
        let fs = match self.funders.get(&invoice_id) {
            Some(v) => v,
            None => &empty,
        };
        proof {
            assert(old(self).has_invoice(invoice_id));
            assert(fs@ == old(self).funders_of(invoice_id));
        }
        let mut k: usize = 0;
        while k < fs.len()
            invariant
                k <= fs@.len(),
                bps <= 100,
                *self == (InvoiceLiquidity { lp_stats: self.lp_stats, ..*old(self) }),
                fs@ == old(self).funders_of(invoice_id),
                all_nonneg(fs@),
                amount >= 1_000_000,
                self.lp_stats@ == settled_stats(old(self).lp_stats@, fs@.take(k as int), distribute as int, amount as int, rate, bps, treasury),
            decreases fs@.len() - k,
        {
            let (a, amt) = fs[k];
            proof {
                assert(fs@[k as int].1 >= 0);
                assert(fs@.take(k + 1).drop_last() =~= fs@.take(k as int));
                assert(fs@.take(k + 1).last() == (a, amt));
            }
            let share = trunc_div_i128(checked_prod_i128(distribute, amt), amount);
            let cost = amt - discount_amount(amt, rate);
            let earned = sat_sub_i128(share, cost);
            let tfee = if earned > 0 && bps > 0 && treasury.is_some() {
                checked_prod_i128(earned, bps as i128) / 10_000
            } else {
                0
            };
            proof {
                if earned > 0 && bps > 0 {
                    assert(checked_prod(earned as int, bps as int) <= earned as int * 100) by (nonlinear_arith)
                        requires earned > 0, 0 < bps <= 100;
                    assert(checked_prod(earned as int, bps as int) >= 0) by (nonlinear_arith)
                        requires earned > 0, 0 < bps;
                }
            }
            let net = earned - tfee;
            let s = match self.lp_stats.get(&a) {
                Some(v) => *v,
                None => LPStats { total_funded: 0, total_earned: 0, active_positions: 0, total_positions: 0, avg_yield_bps: 0 },
            };
            let total_earned = match s.total_earned.checked_add(net) {
                Some(v) => v,
                None => s.total_earned,
            };
            let active = if s.active_positions > 0 { s.active_positions - 1 } else { 0 };
            self.lp_stats.insert(a, LPStats { total_earned, active_positions: active, ..s });
            k = k + 1;
        }
        proof {
            assert(fs@.take(k as int) =~= fs@);
        }
        proof {
            self.lemma_wf_frame(old(self));
        }
    }

    /// `self` is `old` after the payer of the invoice `invoice_id` paid `amount` at `ledger`. A
    /// payment that completes the amount settles the invoice: it is paid, its NFT burnt, the
    /// LPs' statistics and the paid counter updated, the payer's score raised by one and a paid
    /// invoice counted for the payer and the freelancer.
    pub open spec fn records_payment(&self, old: &Self, invoice_id: u64, amount: i128, ledger: Ledger) -> bool {
        let i = invoice_id - 1;
        let inv = old.inv(invoice_id);
        let cfg = old.settings.config;
        if inv.amount_paid + amount < inv.amount {
            &&& self.invoices@ == old.invoices@.update(i, Invoice { amount_paid: (inv.amount_paid + amount) as i128, ..inv })
            &&& *self == (InvoiceLiquidity { invoices: self.invoices, ..*old })
        } else {
            let target = old.reputation.payer_score_at(cfg, ledger.sequence, inv.payer) + 1;
            &&& self.invoices@ == old.invoices@.update(
                i,
                Invoice { amount_paid: inv.amount, status: InvoiceStatus::Paid, ..inv },
            )
            &&& self.lp_stats@ == settled_stats(
                old.lp_stats@,
                old.funders_of(invoice_id),
                old.distributable(invoice_id),
                inv.amount as int,
                inv.discount_rate,
                old.settings.protocol_fee_bps,
                old.settings.treasury,
            )
            &&& self.nfts.view_map() == old.nfts.view_map().remove(invoice_id)
            &&& self.stats == (ContractStats { total_paid: (old.stats.total_paid + 1) as u64, ..old.stats })
            &&& self.reputation.scores_changed(&old.reputation, cfg, ledger.sequence, inv.payer, target)
            &&& self.reputation.profiles@ == paid_counted(
                paid_counted(old.reputation.changed_profiles(cfg, ledger.sequence, inv.payer, target), inv.payer),
                inv.freelancer,
            )
            &&& *self == (InvoiceLiquidity {
                invoices: self.invoices,
                lp_stats: self.lp_stats,
                nfts: self.nfts,
                stats: self.stats,
                reputation: self.reputation,
                ..*old
            })
        }
    }

    /// Marks a settled invoice paid, burns its NFT and counts it.
    fn mark_settled(&mut self, invoice_id: u64)
        requires
            old(self).wf(),
            old(self).has_invoice(invoice_id),
            old(self).inv(invoice_id).status == InvoiceStatus::Funded,
        ensures
            final(self).wf(),
            ({
                let inv = old(self).inv(invoice_id);
                &&& final(self).invoices@ == old(self).invoices@.update(
                    invoice_id - 1,
                    Invoice { amount_paid: inv.amount, status: InvoiceStatus::Paid, ..inv },
                )
                &&& final(self).nfts.view_map() == old(self).nfts.view_map().remove(invoice_id)
                &&& final(self).stats == (ContractStats { total_paid: (old(self).stats.total_paid + 1) as u64, ..old(self).stats })
                &&& *final(self) == (InvoiceLiquidity {
                    invoices: final(self).invoices,
                    nfts: final(self).nfts,
                    stats: final(self).stats,
                    ..*old(self)
                })
            }),
    {
        let ghost g = *self;
        let n = self.invoices.len();
        let i = (invoice_id - 1) as usize;
        assert(i as int == invoice_id - 1 && i < n);
        let amount = self.invoices[i].amount;
        proof {
            lemma_count_le_len(g.invoices@, in_state(InvoiceStatus::Paid));
            assert(invoice_ok(g.invoices@[i as int]));
        }
        self.invoices[i].amount_paid = amount;
        self.invoices[i].status = InvoiceStatus::Paid;
        self.stats.total_paid = self.stats.total_paid + 1;
        match self.nfts.get_invoice_nft_owner(invoice_id) {
            Some(owner) => {
                let _ = self.nfts.burn_invoice_nft(invoice_id, owner);
            },
            None => {
                proof {
                    assert(self.nfts.view_map().remove(invoice_id) =~= self.nfts.view_map());
                }
            },
        }
        proof {
            self.lemma_indexes_frame(&g);
            let x = self.invoices@[i as int];
            assert(self.invoices@ =~= g.invoices@.update(i as int, x));
            lemma_count_update(g.invoices@, i as int, x, fully_funded());
            lemma_count_update(g.invoices@, i as int, x, in_state(InvoiceStatus::Paid));
            assert forall|k: u64| #[trigger] self.has_invoice(k) implies {
                &&& sum_amounts(self.funders_of(k)) == self.inv(k).amount_funded
                &&& all_nonneg(self.funders_of(k))
            } by {
                assert(g.has_invoice(k));
            }
        }
    }

    /// Raises `payer`'s score by one and counts a paid invoice for `payer` and `freelancer`.
    #[verifier::spinoff_prover]
    #[verifier::rlimit(40)]
    fn count_settlement(&mut self, payer: Address, freelancer: Address, ledger: Ledger)
        requires
            old(self).wf(),
            old(self).reputation.profile_of(payer).invoices_paid < u32::MAX - 1,
            old(self).reputation.profile_of(freelancer).invoices_paid < u32::MAX - 1,
        ensures
            final(self).wf(),
            ({
                let cfg = old(self).settings.config;
                let target = old(self).reputation.payer_score_at(cfg, ledger.sequence, payer) + 1;
                &&& final(self).reputation.scores_changed(&old(self).reputation, cfg, ledger.sequence, payer, target)
                &&& final(self).reputation.profiles@ == paid_counted(
                    paid_counted(old(self).reputation.changed_profiles(cfg, ledger.sequence, payer, target), payer),
                    freelancer,
                )
                &&& *final(self) == (InvoiceLiquidity { reputation: final(self).reputation, ..*old(self) })
            }),
    {
        let ghost g = *self;
        let cfg = self.settings.config;
        self.reputation.reward_payer(cfg, ledger.sequence, payer);
        proof {
            g.reputation.lemma_change_keeps_counts(
                cfg,
                ledger.sequence,
                payer,
                g.reputation.payer_score_at(cfg, ledger.sequence, payer) + 1,
            );
        }
        self.reputation.increment_invoices_paid(payer);
        self.reputation.increment_invoices_paid(freelancer);
        proof {
            self.lemma_indexes_frame(&g);
            assert forall|k: u64| #[trigger] self.has_invoice(k) implies {
                &&& sum_amounts(self.funders_of(k)) == self.inv(k).amount_funded
                &&& all_nonneg(self.funders_of(k))
            } by {
                assert(g.has_invoice(k));
            }
        }
    }

    /// The payer of the invoice `invoice_id` pays `amount` of it. A payment that completes the
    /// amount settles the invoice. Returns the transfers and notice to carry out: the payment in,
    /// then, on settlement, the admin's fee, the LPs' shares, the treasury's cuts and the notice.
    pub fn mark_paid(&mut self, invoice_id: u64, amount: i128, ledger: Ledger) -> (r: Result<Vec<Action>, ContractError>)
        requires
            old(self).wf(),
            old(self).has_invoice(invoice_id) ==> old(self).reputation.profile_of(
                old(self).inv(invoice_id).payer,
            ).invoices_paid < u32::MAX - 1 && old(self).reputation.profile_of(
                old(self).inv(invoice_id).freelancer,
            ).invoices_paid < u32::MAX - 1,
        ensures
            final(self).wf(),
            ({
                let e = old(self).payment_error(invoice_id, amount);
                &&& (r is Err <==> e is Some)
                &&& (r is Err ==> r == Err::<Vec<Action>, ContractError>(e.unwrap()) && *final(self) == *old(self))
            }),
            r is Ok ==> {
                let inv = old(self).inv(invoice_id);
                let pay_in = seq![transfer(inv.token, inv.payer, old(self).contract_address, amount)];
                &&& r->Ok_0@ == (if inv.amount_paid + amount < inv.amount {
                    pay_in
                } else {
                    pay_in + old(self).settlement_actions(invoice_id, ledger.timestamp)
                })
                &&& final(self).records_payment(old(self), invoice_id, amount, ledger)
            },
    {
        match self.check_payment(invoice_id, amount) {
            Err(e) => {
                return Err(e);
            },
            Ok(()) => {},
        }
        let ghost g = *self;
        let n = self.invoices.len();
        let i = (invoice_id - 1) as usize;
        assert(i as int == invoice_id - 1 && i < n);
        let token = self.invoices[i].token;
        let payer = self.invoices[i].payer;
        let paid = self.invoices[i].amount_paid;
        let total = self.invoices[i].amount;
        let mut actions: Vec<Action> = Vec::new();
        actions.push(Action::Transfer { token, from: payer, to: self.contract_address, amount });
        if paid + amount < total {
            self.invoices[i].amount_paid = paid + amount;
            proof {
                assert(self.invoices@ =~= g.invoices@.update(i as int, self.invoices@[i as int]));
                self.lemma_wf_edit(&g, i as int);
            }
            return Ok(actions);
        }
        let mut more = self.settlement_actions_of(invoice_id, ledger.timestamp);
        actions.append(&mut more);
        self.settle_lp_stats(invoice_id);
        let freelancer = self.invoices[i].freelancer;
        self.mark_settled(invoice_id);
        self.count_settlement(payer, freelancer, ledger);
        Ok(actions)
    }

    /// What `claim_yield` answers for the invoice `invoice_id`.
    pub open spec fn yield_of(&self, invoice_id: u64) -> Result<i128, ContractError> {
        let inv = self.inv(invoice_id);
        if !self.has_invoice(invoice_id) {
            Err(ContractError::InvoiceNotFound)
        } else if inv.funder is None {
            Err(ContractError::NothingToClaim)
        } else {
            match inv.status {
                InvoiceStatus::Pending | InvoiceStatus::PartiallyFunded | InvoiceStatus::Funded => Ok(0),
                InvoiceStatus::Paid => Ok(discount_spec(inv.amount as int, inv.discount_rate as int) as i128),
                InvoiceStatus::Defaulted => Err(ContractError::InvoiceDefaulted),
                InvoiceStatus::Appealed => Err(ContractError::InvoiceAppealed),
                InvoiceStatus::Disputed => Err(ContractError::InvoiceDisputed),
                InvoiceStatus::Expired => Err(ContractError::InvoiceExpired),
                InvoiceStatus::Cancelled => Err(ContractError::AlreadyCancelled),
            }
        }
    }

    /// The yield of the funding LP on the invoice: its discount once the invoice is paid, zero
    /// before.
    pub fn claim_yield(&self, invoice_id: u64) -> (r: Result<i128, ContractError>)
        requires
            self.wf(),
        ensures
            r == self.yield_of(invoice_id),
    {
        if invoice_id == 0 || invoice_id > self.invoices.len() as u64 {
            return Err(ContractError::InvoiceNotFound);
        }
        let i = (invoice_id - 1) as usize;
        let inv = &self.invoices[i];
        if inv.funder.is_none() {
            return Err(ContractError::NothingToClaim);
        }
        proof {
            assert(invoice_ok(self.invoices@[i as int]));
        }
        match inv.status {
            InvoiceStatus::Pending | InvoiceStatus::PartiallyFunded | InvoiceStatus::Funded => Ok(0),
            InvoiceStatus::Paid => Ok(discount_amount(inv.amount, inv.discount_rate)),
            InvoiceStatus::Defaulted => Err(ContractError::InvoiceDefaulted),
            InvoiceStatus::Appealed => Err(ContractError::InvoiceAppealed),
            InvoiceStatus::Disputed => Err(ContractError::InvoiceDisputed),
            InvoiceStatus::Expired => Err(ContractError::InvoiceExpired),
            InvoiceStatus::Cancelled => Err(ContractError::AlreadyCancelled),
        }
    }

    /// Why `claim_default` refuses `funder`'s claim at time `now`, if it does.
    pub open spec fn default_error(&self, funder: Address, invoice_id: u64, now: u64) -> Option<ContractError> {
        let inv = self.inv(invoice_id);
        if self.locked {
            Some(ContractError::Reentrancy)
        } else if self.settings.paused {
            Some(ContractError::ContractPaused)
        } else if !self.has_invoice(invoice_id) {
            Some(ContractError::InvoiceNotFound)
        } else if !(exists|k: int| 0 <= k < self.funders_of(invoice_id).len() && #[trigger] self.funders_of(invoice_id)[k].0 == funder) {
            Some(ContractError::Unauthorized)
        } else if now < inv.due_date {
            Some(ContractError::NotYetDefaulted)
        } else {
            not_payable_error(inv.status)
        }
    }

    /// The refunds of every contribution to the invoice `invoice_id`: what each LP paid in.
    pub(crate) fn refund_actions_of(&self, invoice_id: u64) -> (actions: Vec<Action>)
        requires
            self.wf(),
            self.has_invoice(invoice_id),
        ensures
            actions@ == refunds(
                self.funders_of(invoice_id),
                self.inv(invoice_id).token,
                self.contract_address,
                self.inv(invoice_id).discount_rate,
            ),
    {
        let n = self.invoices.len();
        let i = (invoice_id - 1) as usize;
        assert(i as int == invoice_id - 1 && i < n);
        let token = self.invoices[i].token;
        let rate = self.invoices[i].discount_rate;
        let me = self.contract_address;
        let empty: Vec<(Address, i128)> = Vec::new();
        let fs = match self.funders.get(&invoice_id) {
            Some(v) => v,
            None => &empty,
        };
        proof {
            assert(self.has_invoice(invoice_id));
            assert(fs@ == self.funders_of(invoice_id));
        }
        let mut actions: Vec<Action> = Vec::new();
        let mut k: usize = 0;
        while k < fs.len()
            invariant
                k <= fs@.len(),
                all_nonneg(fs@),
                actions@ == refunds(fs@.take(k as int), token, me, rate),
            decreases fs@.len() - k,
        {
            let (a, amt) = fs[k];
            proof {
                assert(fs@[k as int].1 >= 0);
            }
            let d = discount_amount(amt, rate);
            actions.push(Action::Transfer { token, from: me, to: a, amount: amt - d });
            proof {
                assert(fs@.take(k + 1) =~= fs@.take(k as int).push(fs@[k as int]));
                assert(refunds(fs@.take(k + 1), token, me, rate) =~= refunds(fs@.take(k as int), token, me, rate).push(
                    transfer(token, me, a, refund_of(amt, rate)),
                ));
            }
            k = k + 1;
        }
        proof {
            assert(fs@.take(k as int) =~= fs@);
        }
        actions
    }

    /// Whether `funder` contributed to the invoice `invoice_id`.
    fn is_funder_of(&self, funder: Address, invoice_id: u64) -> (b: bool)
        requires
            self.wf(),
            self.has_invoice(invoice_id),
        ensures
            b == exists|k: int| 0 <= k < self.funders_of(invoice_id).len() && #[trigger] self.funders_of(invoice_id)[k].0
                == funder,
    {
        let empty: Vec<(Address, i128)> = Vec::new();
        let fs = match self.funders.get(&invoice_id) {
            Some(v) => v,
            None => &empty,
        };
        proof {
            assert(fs@ == self.funders_of(invoice_id));
        }
        let mut k: usize = 0;
        while k < fs.len()
            invariant
                k <= fs@.len(),
                fs@ == self.funders_of(invoice_id),
                forall|j: int| 0 <= j < k ==> fs@[j].0 != funder,
            decreases fs@.len() - k,
        {
            if fs[k].0 == funder {
                proof {
                    assert(fs@[k as int].0 == funder);
                }
                return true;
            }
            k = k + 1;
        }
        false
    }

    /// Records a default: the invoice defaulted, the payer's score noted and lowered by 5, and
    /// a default counted for the payer.
    fn record_default(&mut self, invoice_id: u64, ledger: Ledger)
        requires
            old(self).wf(),
            old(self).has_invoice(invoice_id),
            old(self).inv(invoice_id).status == InvoiceStatus::Funded,
            old(self).reputation.profile_of(old(self).inv(invoice_id).payer).invoices_defaulted < u32::MAX,
        ensures
            final(self).wf(),
            ({
                let inv = old(self).inv(invoice_id);
                let cfg = old(self).settings.config;
                let before = old(self).reputation.payer_score_at(cfg, ledger.sequence, inv.payer);
                let profiles = old(self).reputation.changed_profiles(cfg, ledger.sequence, inv.payer, sat_sub(before as int, 5));
                &&& final(self).invoices@ == old(self).invoices@.update(
                    invoice_id - 1,
                    Invoice { status: InvoiceStatus::Defaulted, ..inv },
                )
                &&& final(self).pre_default_scores@ == old(self).pre_default_scores@.insert(invoice_id, before)
                &&& final(self).reputation.scores_changed(&old(self).reputation, cfg, ledger.sequence, inv.payer, sat_sub(before as int, 5))
                &&& final(self).reputation.profiles@ == store_profile(
                    profiles,
                    ReputationProfile {
                        invoices_defaulted: (profile_in(profiles, inv.payer).invoices_defaulted + 1) as u32,
                        ..profile_in(profiles, inv.payer)
                    },
                )
                &&& *final(self) == (InvoiceLiquidity {
                    invoices: final(self).invoices,
                    pre_default_scores: final(self).pre_default_scores,
                    reputation: final(self).reputation,
                    ..*old(self)
                })
            }),
    {
        let ghost g = *self;
        let n = self.invoices.len();
        let i = (invoice_id - 1) as usize;
        assert(i as int == invoice_id - 1 && i < n);
        let payer = self.invoices[i].payer;
        self.invoices[i].status = InvoiceStatus::Defaulted;
        proof {
            assert(self.invoices@ =~= g.invoices@.update(i as int, self.invoices@[i as int]));
            self.lemma_wf_edit(&g, i as int);
        }
        let ghost edited = *self;
        let cfg = self.settings.config;
        let before = self.reputation.peek_payer_score(cfg, ledger.sequence, payer);
        self.pre_default_scores.insert(invoice_id, before);
        self.reputation.penalize_payer(cfg, ledger.sequence, payer, 5);
        proof {
            g.reputation.lemma_change_keeps_counts(cfg, ledger.sequence, payer, sat_sub(before as int, 5));
        }
        self.reputation.increment_invoices_defaulted(payer);
        proof {
            self.lemma_indexes_frame(&edited);
            assert forall|k: u64| #[trigger] self.has_invoice(k) implies {
                &&& sum_amounts(self.funders_of(k)) == self.inv(k).amount_funded
                &&& all_nonneg(self.funders_of(k))
            } by {
                assert(edited.has_invoice(k));
            }
        }
    }

    /// Marks the invoice defaulted on the claim of one of its LPs once it is due and unpaid:
    /// every LP gets back what it paid in, and the payer's score, noted first, drops by 5.
    /// Returns the refunds to carry out.
    pub fn claim_default(&mut self, funder: Address, invoice_id: u64, ledger: Ledger) -> (r: Result<Vec<Action>, ContractError>)
        requires
            old(self).wf(),
            old(self).has_invoice(invoice_id) ==> old(self).reputation.profile_of(
                old(self).inv(invoice_id).payer,
            ).invoices_defaulted < u32::MAX,
        ensures
            final(self).wf(),
            ({
                let e = old(self).default_error(funder, invoice_id, ledger.timestamp);
                &&& (r is Err <==> e is Some)
                &&& (r is Err ==> r == Err::<Vec<Action>, ContractError>(e.unwrap()) && *final(self) == *old(self))
            }),
            r is Ok ==> {
                let inv = old(self).inv(invoice_id);
                let cfg = old(self).settings.config;
                let before = old(self).reputation.payer_score_at(cfg, ledger.sequence, inv.payer);
                let profiles = old(self).reputation.changed_profiles(cfg, ledger.sequence, inv.payer, sat_sub(before as int, 5));
                &&& r->Ok_0@ == refunds(old(self).funders_of(invoice_id), inv.token, old(self).contract_address, inv.discount_rate)
                &&& final(self).invoices@ == old(self).invoices@.update(
                    invoice_id - 1,
                    Invoice { status: InvoiceStatus::Defaulted, ..inv },
                )
                &&& final(self).pre_default_scores@ == old(self).pre_default_scores@.insert(invoice_id, before)
                &&& final(self).reputation.scores_changed(&old(self).reputation, cfg, ledger.sequence, inv.payer, sat_sub(before as int, 5))
                &&& final(self).reputation.profiles@ == store_profile(
                    profiles,
                    ReputationProfile {
                        invoices_defaulted: (profile_in(profiles, inv.payer).invoices_defaulted + 1) as u32,
                        ..profile_in(profiles, inv.payer)
                    },
                )
                &&& *final(self) == (InvoiceLiquidity {
                    invoices: final(self).invoices,
                    pre_default_scores: final(self).pre_default_scores,
                    reputation: final(self).reputation,
                    ..*old(self)
                })
            },
    {
        if self.locked {
            return Err(ContractError::Reentrancy);
        }
        if self.settings.paused {
            return Err(ContractError::ContractPaused);
        }
        if invoice_id == 0 || invoice_id > self.invoices.len() as u64 {
            return Err(ContractError::InvoiceNotFound);
        }
        let i = (invoice_id - 1) as usize;
        if !self.is_funder_of(funder, invoice_id) {
            return Err(ContractError::Unauthorized);
        }
        if ledger.timestamp < self.invoices[i].due_date as u64 {
            return Err(ContractError::NotYetDefaulted);
        }
        match check_payable(self.invoices[i].status) {
            Err(e) => {
                return Err(e);
            },
            Ok(()) => {},
        }
        let actions = self.refund_actions_of(invoice_id);
        self.record_default(invoice_id, ledger);
        Ok(actions)
    }

    /// The summary of a settlement of `invoice_id` at `now`, for its first LP; `None` when the
    /// invoice does not exist or has no contributions.
    pub open spec fn summary_of(&self, invoice_id: u64, now: u64) -> Option<SettlementSummary> {
        let fs = self.funders_of(invoice_id);
        if !self.has_invoice(invoice_id) || fs.len() == 0 {
            None
        } else {
            let inv = self.inv(invoice_id);
            let (a, amt) = fs[0];
            let share = share_of(self.distributable(invoice_id), amt as int, inv.amount as int);
            let earned = earned_of(share, amt as int, inv.discount_rate);
            let fee = treasury_fee(earned, self.settings.protocol_fee_bps, self.settings.treasury);
            Some(SettlementSummary {
                lp: a,
                lp_payout: (share - fee) as i128,
                lp_earned: (earned - fee) as i128,
                paid_on_time: now <= inv.due_date,
            })
        }
    }

    /// What a settlement of `invoice_id` at `now` would pay its first LP.
    pub fn settlement_summary(&self, invoice_id: u64, now: u64) -> (r: Option<SettlementSummary>)
        requires
            self.wf(),
        ensures
            r == self.summary_of(invoice_id, now),
    {
        if invoice_id == 0 || invoice_id > self.invoices.len() as u64 {
            return None;
        }
        let n = self.invoices.len();
        let i = (invoice_id - 1) as usize;
        assert(i as int == invoice_id - 1 && i < n);
        proof {
            assert(invoice_ok(self.invoices@[i as int]));
        }
        let fs = match self.funders.get(&invoice_id) {
            Some(v) => v,
            None => {
                return None;
            },
        };
        proof {
            assert(fs@ == self.funders_of(invoice_id));
        }
        if fs.len() == 0 {
            return None;
        }
        let amount = self.invoices[i].amount;
        let rate = self.invoices[i].discount_rate;
        let bps = self.settings.protocol_fee_bps;
        let treasury = self.settings.treasury;
        let fee_rate_cut = discount_amount(amount, self.settings.fee_rate);
        let distribute = amount - fee_rate_cut;
        let (a, amt) = fs[0];
        proof {
            assert(fs@[0].1 >= 0);
        }
        let share = trunc_div_i128(checked_prod_i128(distribute, amt), amount);
        let cost = amt - discount_amount(amt, rate);
        let earned = sat_sub_i128(share, cost);
        let fee = if earned > 0 && bps > 0 && treasury.is_some() {
            checked_prod_i128(earned, bps as i128) / 10_000
        } else {
            0
        };
        Some(SettlementSummary {
            lp: a,
            lp_payout: share - fee,
            lp_earned: earned - fee,
            paid_on_time: now <= self.invoices[i].due_date as u64,
        })
    }

    /// The transfers and notice of a settlement.
    fn settlement_actions_of(&self, invoice_id: u64, now: u64) -> (actions: Vec<Action>)
        requires
            self.wf(),
            self.has_invoice(invoice_id),
        ensures
            actions@ == self.settlement_actions(invoice_id, now),
    {
        let n = self.invoices.len();
        let i = (invoice_id - 1) as usize;
        assert(i as int == invoice_id - 1 && i < n);
        let token = self.invoices[i].token;
        let amount = self.invoices[i].amount;
        let rate = self.invoices[i].discount_rate;
        let me = self.contract_address;
        let bps = self.settings.protocol_fee_bps;
        let treasury = self.settings.treasury;
        proof {
            assert(invoice_ok(self.invoices@[i as int]));
        }
        let fee = discount_amount(amount, self.settings.fee_rate);
        let mut actions: Vec<Action> = Vec::new();
        if fee > 0 {
            proof {
                if self.settings.fee_rate == 0 {
                    assert(amount as int * 0 == 0);
                }
            }
            let admin = self.settings.admin.unwrap();
            actions.push(Action::Transfer { token, from: me, to: admin, amount: fee });
        }
        let distribute = amount - fee;
        let empty: Vec<(Address, i128)> = Vec::new();
        let fs = match self.funders.get(&invoice_id) {
            Some(v) => v,
            None => &empty,
        };
        proof {
            assert(self.has_invoice(invoice_id));
            assert(fs@ == self.funders_of(invoice_id));
        }
        let ghost head = actions@;
        let mut k: usize = 0;
        while k < fs.len()
            invariant
                k <= fs@.len(),
                all_nonneg(fs@),
                amount >= 1_000_000,
                actions@ == head + payouts(fs@.take(k as int), token, me, distribute as int, amount as int, rate, bps, treasury),
            decreases fs@.len() - k,
        {
            let (a, amt) = fs[k];
            proof {
                assert(fs@[k as int].1 >= 0);
                assert(fs@.take(k + 1).drop_last() =~= fs@.take(k as int));
                assert(fs@.take(k + 1).last() == (a, amt));
            }
            let share = trunc_div_i128(checked_prod_i128(distribute, amt), amount);
            let cost = amt - discount_amount(amt, rate);
            let earned = sat_sub_i128(share, cost);
            let fee = if earned > 0 && bps > 0 && treasury.is_some() {
                checked_prod_i128(earned, bps as i128) / 10_000
            } else {
                0
            };
            let ghost before = actions@;
            if fee > 0 {
                actions.push(Action::TreasuryFee { token, from: me, to: treasury.unwrap(), amount: fee });
            }
            if share - fee > 0 {
                actions.push(Action::Transfer { token, from: me, to: a, amount: share - fee });
            }
            proof {
                let to_treasury = if fee > 0 { seq![treasury_fee_transfer(token, me, treasury.unwrap(), fee as i128)] } else { Seq::<Action>::empty() };
                let to_lp = if share - fee > 0 { seq![transfer(token, me, a, (share - fee) as i128)] } else { Seq::<Action>::empty() };
                assert(actions@ =~= before + to_treasury + to_lp);
            }
            k = k + 1;
        }
        proof {
            assert(fs@.take(k as int) =~= fs@);
        }
        match self.settings.distribution_contract {
            Some(d) => {
                let inv = &self.invoices[i];
                actions.push(
                    Action::AccrueSettlement {
                        contract: d,
                        freelancer: inv.freelancer,
                        payer: inv.payer,
                        on_time: now <= inv.due_date as u64,
                    },
                );
            },
            None => {},
        }
        proof {
            assert(actions@ =~= self.settlement_actions(invoice_id, now));
        }
        actions
    }
}

} // verus!

use vstd::prelude::*;
use std::collections::HashMap;
use crate::constants::{DEFAULT_LP_SCORE, DEFAULT_MAX_ORACLE_AGE_LEDGERS, SECONDS_PER_HOUR};
use crate::contract::{invoice_ok, lemma_filter_ids, other_than, InvoiceLiquidity};
use crate::counting::{
    all_nonneg, fully_funded, in_state, lemma_count_le_len, lemma_count_update, lemma_part_le_sum, lemma_sum_push, lemma_sum_update,
    sum_amounts,
};
use crate::errors::ContractError;
use crate::invoice::{
    transfer, Action, Address, Config, ContractStats, Invoice, InvoiceStatus, LPStats, Ledger, LpFundRequest,
    OracleVerificationResponse,
};
use crate::nft::InvoiceNftMetadata;
use crate::rate_logic::{auction_rate_spec, calculate_auction_rate, discount_amount, discount_spec, hours_elapsed_spec, min_int, sat_sub};

verus! {

broadcast use vstd::std_specs::hash::group_hash_axioms;

/// Why an invoice in state `st` takes no more funding, if it does not.
pub open spec fn not_fundable_error(st: InvoiceStatus) -> Option<ContractError> {
    match st {
        InvoiceStatus::Pending | InvoiceStatus::PartiallyFunded => None,
        InvoiceStatus::Funded => Some(ContractError::AlreadyFunded),
        InvoiceStatus::Paid => Some(ContractError::AlreadyPaid),
        InvoiceStatus::Defaulted => Some(ContractError::InvoiceDefaulted),
        InvoiceStatus::Appealed => Some(ContractError::InvoiceAppealed),
        InvoiceStatus::Disputed => Some(ContractError::InvoiceDisputed),
        InvoiceStatus::Expired => Some(ContractError::InvoiceExpired),
        InvoiceStatus::Cancelled => Some(ContractError::AlreadyCancelled),
    }
}

/// Refuses the states in which an invoice takes no more funding.
pub fn check_fundable(st: InvoiceStatus) -> (r: Result<(), ContractError>)
    ensures
        r == crate::lifecycle::outcome(not_fundable_error(st)),
{
    match st {
        InvoiceStatus::Pending | InvoiceStatus::PartiallyFunded => Ok(()),
        InvoiceStatus::Funded => Err(ContractError::AlreadyFunded),
        InvoiceStatus::Paid => Err(ContractError::AlreadyPaid),
        InvoiceStatus::Defaulted => Err(ContractError::InvoiceDefaulted),
        InvoiceStatus::Appealed => Err(ContractError::InvoiceAppealed),
        InvoiceStatus::Disputed => Err(ContractError::InvoiceDisputed),
        InvoiceStatus::Expired => Err(ContractError::InvoiceExpired),
        InvoiceStatus::Cancelled => Err(ContractError::AlreadyCancelled),
    }
}

/// The request with the highest score in `q`; the earliest one among equals.
pub open spec fn best_request(q: Seq<LpFundRequest>) -> LpFundRequest
    recommends
        q.len() > 0,
    decreases q.len(),
{
    if q.len() <= 1 {
        q[0]
    } else {
        let b = best_request(q.drop_last());
        if q.last().score > b.score { q.last() } else { b }
    }
}

/// `best_request` is a request of the queue that no request outscores, and every request
/// before it scores strictly lower: the earliest of the highest.
pub proof fn lemma_best_request(q: Seq<LpFundRequest>)
    requires
        q.len() > 0,
    ensures
        exists|i: int|
            0 <= i < q.len() && q[i] == best_request(q) && (forall|j: int| 0 <= j < q.len() ==> #[trigger] q[j].score
                <= q[i].score) && (forall|j: int| 0 <= j < i ==> #[trigger] q[j].score < q[i].score),
    decreases q.len(),
{
    if q.len() == 1 {
        assert(q[0] == best_request(q));
        assert forall|j: int| 0 <= j < q.len() implies #[trigger] q[j].score <= q[0].score by {
            assert(j == 0);
        }
    } else {
        let d = q.drop_last();
        lemma_best_request(d);
        let i0 = choose|i: int|
            0 <= i < d.len() && d[i] == best_request(d) && (forall|j: int| 0 <= j < d.len() ==> #[trigger] d[j].score
                <= d[i].score) && (forall|j: int| 0 <= j < i ==> #[trigger] d[j].score < d[i].score);
        let n = q.len() - 1;
        assert forall|j: int| 0 <= j < n implies #[trigger] q[j] == d[j] by {}
        if q.last().score > best_request(d).score {
            assert forall|j: int| 0 <= j < q.len() implies #[trigger] q[j].score <= q[n].score by {
                if j < n {
                    assert(q[j] == d[j]);
                }
            }
            assert forall|j: int| 0 <= j < n implies #[trigger] q[j].score < q[n].score by {
                assert(q[j] == d[j]);
            }
        } else {
            assert(q[i0] == d[i0]);
            assert forall|j: int| 0 <= j < q.len() implies #[trigger] q[j].score <= q[i0].score by {
                if j < n {
                    assert(q[j] == d[j]);
                }
            }
            assert forall|j: int| 0 <= j < i0 implies #[trigger] q[j].score < q[i0].score by {
                assert(q[j] == d[j]);
            }
        }
    }
}

/// Position of the first contribution of `a` in `fs`, or -1.
pub open spec fn funder_index(fs: Seq<(Address, i128)>, a: Address) -> int
    decreases fs.len(),
{
    if fs.len() == 0 {
        -1
    } else {
        let j = funder_index(fs.drop_last(), a);
        if j >= 0 { j } else if fs.last().0 == a { fs.len() - 1 } else { -1 }
    }
}

proof fn lemma_funder_index(fs: Seq<(Address, i128)>, a: Address)
    ensures
        -1 <= funder_index(fs, a) < fs.len(),
        funder_index(fs, a) >= 0 ==> fs[funder_index(fs, a)].0 == a,
        funder_index(fs, a) >= 0 ==> forall|k: int| 0 <= k < funder_index(fs, a) ==> fs[k].0 != a,
        funder_index(fs, a) < 0 ==> forall|k: int| 0 <= k < fs.len() ==> fs[k].0 != a,
    decreases fs.len(),
{
    if fs.len() > 0 {
        let d = fs.drop_last();
        lemma_funder_index(d, a);
        let j = funder_index(d, a);
        assert forall|k: int| 0 <= k < d.len() implies d[k] == fs[k] by {}
        if j < 0 && fs.last().0 != a {
            assert forall|k: int| 0 <= k < fs.len() implies fs[k].0 != a by {
                if k < d.len() {
                    assert(d[k] == fs[k]);
                }
            }
        }
    }
}

/// Position of the first contribution of `a` in `fs`, if any.
fn find_funder(fs: &Vec<(Address, i128)>, a: Address) -> (r: Option<usize>)
    ensures
        r is Some <==> funder_index(fs@, a) >= 0,
        r matches Some(k) ==> k == funder_index(fs@, a),
{
    proof {
        lemma_funder_index(fs@, a);
    }
    let mut k: usize = 0;
    while k < fs.len()
        invariant
            k <= fs@.len(),
            forall|j: int| 0 <= j < k ==> fs@[j].0 != a,
            -1 <= funder_index(fs@, a) < fs@.len(),
            funder_index(fs@, a) >= 0 ==> fs@[funder_index(fs@, a)].0 == a,
            funder_index(fs@, a) >= 0 ==> forall|j: int| 0 <= j < funder_index(fs@, a) ==> fs@[j].0 != a,
            funder_index(fs@, a) < 0 ==> forall|j: int| 0 <= j < fs@.len() ==> fs@[j].0 != a,
        decreases fs@.len() - k,
    {
        if fs[k].0 == a {
            return Some(k);
        }
        k = k + 1;
    }
    None
}

/// Whether `lp` is queued in `q`.
fn queue_has(q: &Vec<LpFundRequest>, lp: Address) -> (b: bool)
    ensures
        b == exists|k: int| 0 <= k < q@.len() && #[trigger] q@[k].lp == lp,
{
    let mut k: usize = 0;
    while k < q.len()
        invariant
            k <= q@.len(),
            forall|j: int| 0 <= j < k ==> q@[j].lp != lp,
        decreases q@.len() - k,
    {
        if q[k].lp == lp {
            return true;
        }
        k = k + 1;
    }
    false
}

/// `fs` with `amount` added to the contribution of `a`, or a new contribution of `a` appended.
pub open spec fn with_contribution(fs: Seq<(Address, i128)>, a: Address, amount: i128) -> Seq<(Address, i128)> {
    let j = funder_index(fs, a);
    if j >= 0 { fs.update(j, (a, (fs[j].1 + amount) as i128)) } else { fs.push((a, amount)) }
}

/// `o`'s value, or `d` when there is none.
pub open spec fn or_u32(o: Option<u32>, d: u32) -> u32 {
    match o {
        Some(v) => v,
        None => d,
    }
}

/// The rate at which funding of `inv` is priced at time `now`: the current auction rate for an
/// auction invoice, its discount rate otherwise.
pub open spec fn funding_rate(inv: Invoice, now: u64) -> u32 {
    if inv.is_auction {
        auction_rate_spec(
            now,
            or_u32(inv.auction_started_at, 0) as u64,
            or_u32(inv.auction_start_rate, 0),
            or_u32(inv.auction_min_rate, 0),
            or_u32(inv.auction_rate_decay_per_hour, 0),
        ) as u32
    } else {
        inv.discount_rate
    }
}

/// The oracle registered in `config`, if any.
pub open spec fn oracle_of(config: Option<Config>) -> Option<Address> {
    match config {
        Some(c) => c.price_oracle,
        None => None,
    }
}

/// The largest accepted age of oracle data, in ledgers, under `config`.
pub open spec fn max_oracle_age(config: Option<Config>) -> u64 {
    match config {
        Some(c) => c.max_oracle_age_ledgers,
        None => DEFAULT_MAX_ORACLE_AGE_LEDGERS,
    }
}

/// Why the oracle's answer `resp`, read at ledger `sequence`, refuses funding, if it does: data
/// at least `max_age` ledgers old is stale (a zero `max_age` accepts any age), and an
/// unverified payer is refused.
pub open spec fn oracle_error(resp: OracleVerificationResponse, max_age: u64, sequence: u32) -> Option<ContractError> {
    if max_age > 0 && sat_sub(sequence as int, resp.timestamp as int) >= max_age {
        Some(ContractError::OracleDataStale)
    } else if !resp.is_verified {
        Some(ContractError::PayerUnverified)
    } else {
        None
    }
}

/// `stats` with `amount` added to the volume of `token`, when it is one of the configured tokens.
pub open spec fn with_volume(stats: ContractStats, config: Option<Config>, token: Address, amount: i128) -> ContractStats {
    match config {
        Some(c) => if token == c.usdc_sac_address {
            ContractStats { total_volume_usdc: (stats.total_volume_usdc + amount) as i128, ..stats }
        } else if token == c.eurc_sac_address {
            ContractStats { total_volume_eurc: (stats.total_volume_eurc + amount) as i128, ..stats }
        } else if token == c.xlm_sac_address {
            ContractStats { total_volume_xlm: (stats.total_volume_xlm + amount) as i128, ..stats }
        } else {
            stats
        },
        None => stats,
    }
}

/// Adding `amount` to the volume of `token` stays within `i128`.
pub open spec fn volume_fits(stats: ContractStats, config: Option<Config>, token: Address, amount: i128) -> bool {
    match config {
        Some(c) => if token == c.usdc_sac_address {
            stats.total_volume_usdc + amount <= i128::MAX
        } else if token == c.eurc_sac_address {
            stats.total_volume_eurc + amount <= i128::MAX
        } else if token == c.xlm_sac_address {
            stats.total_volume_xlm + amount <= i128::MAX
        } else {
            true
        },
        None => true,
    }
}

/// `x + 1`, saturating at `u32::MAX`.
pub open spec fn sat_inc(x: u32) -> u32 {
    if x < u32::MAX { (x + 1) as u32 } else { x }
}

/// The portfolio statistics of an LP after it funds `amount` of an invoice at discount `rate`:
/// a first contribution to the invoice opens a position and enters the running mean of rates,
/// which counts as active until the invoice settles.
pub open spec fn lp_stats_after_funding(s: LPStats, amount: i128, rate: u32, new_position: bool) -> LPStats {
    let total_funded = if s.total_funded + amount <= i128::MAX { (s.total_funded + amount) as i128 } else { s.total_funded };
    let positions = if new_position { sat_inc(s.total_positions) } else { s.total_positions };
    let avg = if new_position {
        ((s.avg_yield_bps as int * s.total_positions as int + rate as int) / positions as int) as u32
    } else {
        s.avg_yield_bps
    };
    LPStats {
        total_funded,
        total_earned: s.total_earned,
        active_positions: if new_position { sat_inc(s.active_positions) } else { s.active_positions },
        total_positions: positions,
        avg_yield_bps: avg,
    }
}

/// The LP score map after `lp`'s score is set to `score` (capped at 100; the default is not stored).
pub open spec fn lp_scores_after_set(m: Map<Address, u32>, lp: Address, score: int) -> Map<Address, u32> {
    let s = min_int(score, 100);
    if s == DEFAULT_LP_SCORE { m.remove(lp) } else { m.insert(lp, s as u32) }
}

/// Whether `a` is in `v`.
pub fn contains_address(v: &Vec<Address>, a: Address) -> (b: bool)
    ensures
        b == v@.contains(a),
{
    let mut k: usize = 0;
    while k < v.len()
        invariant
            k <= v@.len(),
            forall|j: int| 0 <= j < k ==> v@[j] != a,
        decreases v@.len() - k,
    {
        if v[k] == a {
            proof {
                assert(v@[k as int] == a);
            }
            return true;
        }
        k = k + 1;
    }
    false
}

/// `fs` with every contribution of `from` passed to `to`.
pub open spec fn reassigned(fs: Seq<(Address, i128)>, from: Address, to: Address) -> Seq<(Address, i128)> {
    fs.map_values(|p: (Address, i128)| if p.0 == from { (to, p.1) } else { p })
}

proof fn lemma_reassigned_sum(fs: Seq<(Address, i128)>, from: Address, to: Address)
    ensures
        sum_amounts(reassigned(fs, from, to)) == sum_amounts(fs),
        all_nonneg(fs) ==> all_nonneg(reassigned(fs, from, to)),
    decreases fs.len(),
{
    if fs.len() > 0 {
        lemma_reassigned_sum(fs.drop_last(), from, to);
        assert(reassigned(fs, from, to).drop_last() =~= reassigned(fs.drop_last(), from, to));
    }
}

impl InvoiceLiquidity {
    /// The LPs queued to fund the invoice `id`, in order.
    pub open spec fn queue_of(&self, id: u64) -> Seq<LpFundRequest> {
        if self.fund_queues@.contains_key(id) { self.fund_queues@[id]@ } else { Seq::empty() }
    }

    /// Why `join_fund_queue` refuses `lp`, if it does.
    pub open spec fn join_queue_error(&self, lp: Address, invoice_id: u64) -> Option<ContractError> {
        if !self.has_invoice(invoice_id) {
            Some(ContractError::InvoiceNotFound)
        } else if self.queue_resolutions@.contains_key(invoice_id) {
            Some(ContractError::NotApprovedFunder)
        } else if not_fundable_error(self.inv(invoice_id).status) is Some {
            not_fundable_error(self.inv(invoice_id).status)
        } else if exists|k: int| 0 <= k < self.queue_of(invoice_id).len() && #[trigger] self.queue_of(invoice_id)[k].lp == lp {
            Some(ContractError::AlreadyInQueue)
        } else {
            None
        }
    }

    /// Queues `lp` to fund the invoice, with its current LP score.
    pub fn join_fund_queue(&mut self, lp: Address, invoice_id: u64) -> (r: Result<(), ContractError>)
        requires
            old(self).wf(),
        ensures
            final(self).wf(),
            r == crate::lifecycle::outcome(old(self).join_queue_error(lp, invoice_id)),
            r is Err ==> *final(self) == *old(self),
            r is Ok ==> {
                &&& final(self).queue_of(invoice_id) == old(self).queue_of(invoice_id).push(
                    LpFundRequest { lp, score: old(self).reputation.lp_score_of(lp) },
                )
                &&& forall|k: u64| k != invoice_id ==> #[trigger] final(self).queue_of(k) == old(self).queue_of(k)
                &&& *final(self) == (InvoiceLiquidity { fund_queues: final(self).fund_queues, ..*old(self) })
            },
    {
        if invoice_id == 0 || invoice_id > self.invoices.len() as u64 {
            return Err(ContractError::InvoiceNotFound);
        }
        if self.queue_resolutions.contains_key(&invoice_id) {
            return Err(ContractError::NotApprovedFunder);
        }
        let i = (invoice_id - 1) as usize;
        match check_fundable(self.invoices[i].status) {
            Err(e) => {
                return Err(e);
            },
            Ok(()) => {},
        }
        let empty: Vec<LpFundRequest> = Vec::new();
        let present = match self.fund_queues.get(&invoice_id) {
            Some(q) => {
                proof {
                    assert(q@ == self.queue_of(invoice_id));
                }
                queue_has(q, lp)
            },
            None => {
                proof {
                    assert(empty@ =~= self.queue_of(invoice_id));
                }
                queue_has(&empty, lp)
            },
        };
        if present {
            return Err(ContractError::AlreadyInQueue);
        }
        let mut queue = match self.fund_queues.remove(&invoice_id) {
            Some(q) => q,
            None => Vec::new(),
        };
        proof {
            assert(queue@ == old(self).queue_of(invoice_id));
        }
        let score = self.reputation.get_lp_score(lp);
        queue.push(LpFundRequest { lp, score });
        self.fund_queues.insert(invoice_id, queue);
        proof {
            self.lemma_wf_frame(old(self));
        }
        Ok(())
    }

    /// Picks the queued LP with the highest score (the earliest among equals) as the only one
    /// that may fund the invoice; once picked, the choice stands.
    pub fn resolve_fund_queue(&mut self, invoice_id: u64) -> (r: Result<Address, ContractError>)
        requires
            old(self).wf(),
        ensures
            final(self).wf(),
            !old(self).has_invoice(invoice_id) ==> r == Err::<Address, ContractError>(ContractError::InvoiceNotFound),
            old(self).has_invoice(invoice_id) && old(self).queue_resolutions@.contains_key(invoice_id) ==> r == Ok::<
                Address,
                ContractError,
            >(old(self).queue_resolutions@[invoice_id]),
            old(self).has_invoice(invoice_id) && !old(self).queue_resolutions@.contains_key(invoice_id)
                && old(self).queue_of(invoice_id).len() == 0 ==> r == Err::<Address, ContractError>(ContractError::NotFunded),
            r is Err <==> !old(self).has_invoice(invoice_id) || (!old(self).queue_resolutions@.contains_key(invoice_id)
                && old(self).queue_of(invoice_id).len() == 0),
            r is Err || old(self).queue_resolutions@.contains_key(invoice_id) ==> *final(self) == *old(self),
            r is Ok && !old(self).queue_resolutions@.contains_key(invoice_id) ==> {
                &&& old(self).has_invoice(invoice_id)
                &&& old(self).queue_of(invoice_id).len() > 0
                &&& r == Ok::<Address, ContractError>(best_request(old(self).queue_of(invoice_id)).lp)
                &&& final(self).queue_resolutions@ == old(self).queue_resolutions@.insert(invoice_id, r->Ok_0)
                &&& *final(self) == (InvoiceLiquidity { queue_resolutions: final(self).queue_resolutions, ..*old(self) })
            },
    {
        if invoice_id == 0 || invoice_id > self.invoices.len() as u64 {
            return Err(ContractError::InvoiceNotFound);
        }
        match self.queue_resolutions.get(&invoice_id) {
            Some(a) => {
                return Ok(*a);
            },
            None => {},
        }
        let empty: Vec<LpFundRequest> = Vec::new();
        let queue = match self.fund_queues.get(&invoice_id) {
            Some(q) => q,
            None => &empty,
        };
        if queue.len() == 0 {
            return Err(ContractError::NotFunded);
        }
        let ghost q = queue@;
        let mut best = queue[0];
        let mut k: usize = 1;
        while k < queue.len()
            invariant
                1 <= k <= queue@.len(),
                q == queue@,
                best == best_request(q.take(k as int)),
            decreases queue@.len() - k,
        {
            proof {
                assert(q.take(k + 1).drop_last() =~= q.take(k as int));
            }
            if queue[k].score > best.score {
                best = queue[k];
            }
            k = k + 1;
        }
        proof {
            assert(q.take(k as int) =~= q);
        }
        let lp = best.lp;
        self.queue_resolutions.insert(invoice_id, lp);
        proof {
            self.lemma_wf_frame(old(self));
        }
        Ok(lp)
    }

    /// The portfolio statistics of `lp`.
    pub open spec fn lp_stats_of(&self, lp: Address) -> LPStats {
        if self.lp_stats@.contains_key(lp) {
            self.lp_stats@[lp]
        } else {
            LPStats { total_funded: 0, total_earned: 0, active_positions: 0, total_positions: 0, avg_yield_bps: 0 }
        }
    }

    /// The portfolio statistics of `lp`.
    pub fn get_lp_portfolio_stats(&self, lp: Address) -> (s: LPStats)
        ensures
            s == self.lp_stats_of(lp),
    {
        match self.lp_stats.get(&lp) {
            Some(s) => *s,
            None => LPStats { total_funded: 0, total_earned: 0, active_positions: 0, total_positions: 0, avg_yield_bps: 0 },
        }
    }

    /// Appends `id` to the ids funded by `a`.
    fn index_lp(&mut self, a: Address, id: u64)
        ensures
            forall|b: Address| #[trigger] final(self).lp_ids(b) == if b == a {
                old(self).lp_ids(b).push(id)
            } else {
                old(self).lp_ids(b)
            },
            *final(self) == (InvoiceLiquidity { lp_invoices: final(self).lp_invoices, ..*old(self) }),
    {
        let mut ids = match self.lp_invoices.remove(&a) {
            Some(v) => v,
            None => Vec::new(),
        };
        ids.push(id);
        self.lp_invoices.insert(a, ids);
    }

    /// The oracle that must be asked about the payer before funding, when the caller asks for
    /// oracle verification and one is registered.
    pub fn oracle_to_consult(&self, require_oracle_verification: bool) -> (r: Option<Address>)
        ensures
            r == (if require_oracle_verification { oracle_of(self.settings.config) } else { None }),
    {
        if !require_oracle_verification {
            return None;
        }
        match self.settings.config {
            Some(c) => c.price_oracle,
            None => None,
        }
    }

    /// Why `fund_invoice` refuses whatever the oracle answers, if it does: the checks made before
    /// the oracle is consulted.
    pub open spec fn pre_oracle_error(&self, funder: Address, invoice_id: u64, ledger: Ledger) -> Option<ContractError> {
        let inv = self.inv(invoice_id);
        let min_rep = self.settings.min_payer_reputation;
        if self.locked {
            Some(ContractError::Reentrancy)
        } else if self.settings.paused {
            Some(ContractError::ContractPaused)
        } else if !self.has_invoice(invoice_id) {
            Some(ContractError::InvoiceNotFound)
        } else if self.queue_resolutions@.contains_key(invoice_id) && self.queue_resolutions@[invoice_id] != funder {
            Some(ContractError::NotApprovedFunder)
        } else if inv.allowed_lps matches Some(v) && v@.len() > 0 && !v@.contains(funder) {
            Some(ContractError::LPNotWhitelisted)
        } else if !self.approved(inv.token) {
            Some(ContractError::Unauthorized)
        } else if min_rep > 0 && self.reputation.payer_score_at(self.settings.config, ledger.sequence, inv.payer) < min_rep {
            Some(ContractError::PayerReputationTooLow)
        } else {
            None
        }
    }

    /// Why `fund_invoice` refuses, if it does; `resp` is the oracle's answer about the payer.
    pub open spec fn fund_error(
        &self,
        funder: Address,
        invoice_id: u64,
        fund_amount: i128,
        require_oracle_verification: bool,
        resp: Option<OracleVerificationResponse>,
        ledger: Ledger,
    ) -> Option<ContractError> {
        let inv = self.inv(invoice_id);
        let cfg = self.settings.config;
        if self.pre_oracle_error(funder, invoice_id, ledger) is Some {
            self.pre_oracle_error(funder, invoice_id, ledger)
        } else if require_oracle_verification && oracle_of(cfg) is Some
            && oracle_error(resp.unwrap(), max_oracle_age(cfg), ledger.sequence) is Some {
            oracle_error(resp.unwrap(), max_oracle_age(cfg), ledger.sequence)
        } else if inv.status == InvoiceStatus::Pending && ledger.timestamp > inv.due_date {
            Some(ContractError::InvoiceExpired)
        } else if not_fundable_error(inv.status) is Some {
            not_fundable_error(inv.status)
        } else if inv.amount_funded + fund_amount > inv.amount {
            Some(ContractError::OverfundingRejected)
        } else {
            None
        }
    }

    /// The transfers and notices a successful funding of `fund_amount` by `funder` asks for:
    /// the funder pays its discounted share in, a completed invoice pays the freelancer the
    /// discounted amount, and the distribution contract, if any, hears of the funding.
    pub open spec fn funding_actions(&self, funder: Address, invoice_id: u64, fund_amount: i128, now: u64) -> Seq<Action> {
        let inv = self.inv(invoice_id);
        let rate = funding_rate(inv, now);
        let me = self.contract_address;
        let pay_in = seq![transfer(inv.token, funder, me, (fund_amount - discount_spec(fund_amount as int, rate as int)) as i128)];
        let payout = if inv.amount_funded + fund_amount == inv.amount {
            seq![transfer(inv.token, me, inv.freelancer, (inv.amount - discount_spec(inv.amount as int, rate as int)) as i128)]
        } else {
            Seq::empty()
        };
        let notice = match self.settings.distribution_contract {
            Some(d) => seq![Action::AccrueLp { contract: d, lp: funder, amount: fund_amount }],
            None => Seq::empty(),
        };
        pay_in + payout + notice
    }

    /// `self` is `old` after `funder` funded `fund_amount` of the invoice `invoice_id` at `ledger`.
    pub open spec fn records_funding(&self, old: &Self, funder: Address, invoice_id: u64, fund_amount: i128, ledger: Ledger) -> bool {
        let i = invoice_id - 1;
        let inv = old.inv(invoice_id);
        let cfg = old.settings.config;
        let completes = inv.amount_funded + fund_amount == inv.amount;
        let nft = old.nfts.view_map();
        &&& self.invoices@ == old.invoices@.update(
            i,
            Invoice {
                amount_funded: (inv.amount_funded + fund_amount) as i128,
                status: if completes { InvoiceStatus::Funded } else { InvoiceStatus::PartiallyFunded },
                funded_at: if completes { Some(ledger.timestamp as u32) } else { inv.funded_at },
                funder: if completes { Some(funder) } else { inv.funder },
                ..inv
            },
        )
        &&& self.funders_of(invoice_id) == with_contribution(old.funders_of(invoice_id), funder, fund_amount)
        &&& forall|k: u64| k != invoice_id ==> #[trigger] self.funders_of(k) == old.funders_of(k)
        &&& self.reputation.payer_scores@ == if old.settings.min_payer_reputation > 0 {
            old.reputation.scores_after_read(cfg, ledger.sequence, inv.payer)
        } else {
            old.reputation.payer_scores@
        }
        &&& self.reputation.profiles@ == if old.settings.min_payer_reputation > 0 {
            old.reputation.profiles_after_read(cfg, ledger.sequence, inv.payer)
        } else {
            old.reputation.profiles@
        }
        &&& self.reputation.lp_scores@ == if completes {
            lp_scores_after_set(old.reputation.lp_scores@, funder, old.reputation.lp_score_of(funder) + 1)
        } else {
            old.reputation.lp_scores@
        }
        &&& self.reputation.top_payers == old.reputation.top_payers
        &&& self.nfts.view_map() == if completes && nft.contains_key(invoice_id) && nft[invoice_id].owner == inv.freelancer {
            nft.insert(invoice_id, InvoiceNftMetadata { owner: funder, ..nft[invoice_id] })
        } else {
            nft
        }
        &&& forall|b: Address| #[trigger] self.lp_ids(b) == if b == funder {
            old.lp_ids(b).push(invoice_id)
        } else {
            old.lp_ids(b)
        }
        &&& self.lp_stats@ == old.lp_stats@.insert(
            funder,
            lp_stats_after_funding(
                old.lp_stats_of(funder),
                fund_amount,
                inv.discount_rate,
                funder_index(old.funders_of(invoice_id), funder) < 0,
            ),
        )
        &&& self.stats == with_volume(
            ContractStats { total_funded: if completes { (old.stats.total_funded + 1) as u64 } else { old.stats.total_funded }, ..old.stats },
            cfg,
            inv.token,
            fund_amount,
        )
        &&& *self == (InvoiceLiquidity {
            invoices: self.invoices,
            funders: self.funders,
            reputation: self.reputation,
            nfts: self.nfts,
            lp_invoices: self.lp_invoices,
            lp_stats: self.lp_stats,
            stats: self.stats,
            ..*old
        })
    }

    /// The rate at which funding of the invoice at position `i` is priced at time `now`.
    /// The discount rate at which `invoice_id` is funded at `now` and, for an auction, the whole
    /// hours since the auction opened (zero otherwise).
    pub fn funding_terms(&self, invoice_id: u64, now: u64) -> (r: Result<(u32, u64), ContractError>)
        ensures
            !self.has_invoice(invoice_id) ==> r == Err::<(u32, u64), ContractError>(ContractError::InvoiceNotFound),
            self.has_invoice(invoice_id) ==> r == Ok::<(u32, u64), ContractError>((
                funding_rate(self.inv(invoice_id), now),
                if self.inv(invoice_id).is_auction {
                    hours_elapsed_spec(now, or_u32(self.inv(invoice_id).auction_started_at, 0) as u64) as u64
                } else {
                    0
                },
            )),
    {
        if invoice_id == 0 || invoice_id > self.invoices.len() as u64 {
            return Err(ContractError::InvoiceNotFound);
        }
        let n = self.invoices.len();
        let i = (invoice_id - 1) as usize;
        assert(i as int == invoice_id - 1 && i < n);
        let rate = self.funding_rate_at(i, now);
        let hours = if self.invoices[i].is_auction {
            let started = match self.invoices[i].auction_started_at {
                Some(v) => v,
                None => 0,
            };
            now.saturating_sub(started as u64) / SECONDS_PER_HOUR
        } else {
            0
        };
        Ok((rate, hours))
    }

    fn funding_rate_at(&self, i: usize, now: u64) -> (rate: u32)
        requires
            i < self.invoices@.len(),
        ensures
            rate == funding_rate(self.invoices@[i as int], now),
    {
        let inv = &self.invoices[i];
        if inv.is_auction {
            let started = match inv.auction_started_at {
                Some(v) => v,
                None => 0,
            };
            let start = match inv.auction_start_rate {
                Some(v) => v,
                None => 0,
            };
            let min = match inv.auction_min_rate {
                Some(v) => v,
                None => 0,
            };
            let decay = match inv.auction_rate_decay_per_hour {
                Some(v) => v,
                None => 0,
            };
            calculate_auction_rate(now, started as u64, start, min, decay)
        } else {
            inv.discount_rate
        }
    }

    /// Whether `funder` may fund the invoice at position `i`: it has no whitelist, an empty one,
    /// or one that names `funder`.
    fn whitelisted(&self, i: usize, funder: Address) -> (b: bool)
        requires
            i < self.invoices@.len(),
        ensures
            b == !(self.invoices@[i as int].allowed_lps matches Some(v) && v@.len() > 0 && !v@.contains(funder)),
    {
        match &self.invoices[i].allowed_lps {
            None => true,
            Some(v) => v.len() == 0 || contains_address(v, funder),
        }
    }

    /// Checks a funding request without changing anything.
    /// Why a funding of `invoice_id` by `funder` at `ledger` is refused whatever the oracle
    /// answers, if it is: the host need not consult the oracle then.
    pub fn funding_refusal_before_oracle(&self, funder: Address, invoice_id: u64, ledger: Ledger) -> (r: Option<ContractError>)
        requires
            self.wf(),
        ensures
            r == self.pre_oracle_error(funder, invoice_id, ledger),
            r is Some ==> forall|amount: i128, require: bool, resp: Option<OracleVerificationResponse>|
                #[trigger] self.fund_error(funder, invoice_id, amount, require, resp, ledger) == r,
    {
        if self.locked {
            return Some(ContractError::Reentrancy);
        }
        if self.settings.paused {
            return Some(ContractError::ContractPaused);
        }
        if invoice_id == 0 || invoice_id > self.invoices.len() as u64 {
            return Some(ContractError::InvoiceNotFound);
        }
        let i = (invoice_id - 1) as usize;
        match self.queue_resolutions.get(&invoice_id) {
            Some(a) => {
                if *a != funder {
                    return Some(ContractError::NotApprovedFunder);
                }
            },
            None => {},
        }
        if !self.whitelisted(i, funder) {
            return Some(ContractError::LPNotWhitelisted);
        }
        if !self.is_approved_token(self.invoices[i].token) {
            return Some(ContractError::Unauthorized);
        }
        let min_rep = self.settings.min_payer_reputation;
        if min_rep > 0 && self.reputation.peek_payer_score(self.settings.config, ledger.sequence, self.invoices[i].payer)
            < min_rep {
            return Some(ContractError::PayerReputationTooLow);
        }
        None
    }

    fn check_funding(
        &self,
        funder: Address,
        invoice_id: u64,
        fund_amount: i128,
        require_oracle_verification: bool,
        resp: Option<OracleVerificationResponse>,
        ledger: Ledger,
    ) -> (r: Result<(), ContractError>)
        requires
            self.wf(),
            fund_amount >= 0,
            require_oracle_verification && oracle_of(self.settings.config) is Some ==> resp is Some,
        ensures
            r == crate::lifecycle::outcome(
                self.fund_error(funder, invoice_id, fund_amount, require_oracle_verification, resp, ledger),
            ),
    {
        if let Some(e) = self.funding_refusal_before_oracle(funder, invoice_id, ledger) {
            return Err(e);
        }
        assert(self.has_invoice(invoice_id));
        let n = self.invoices.len();
        let i = (invoice_id - 1) as usize;
        assert(i as int == invoice_id - 1 && i < n);
        proof {
            assert(self.invoices@[i as int] == self.inv(invoice_id));
            assert(invoice_ok(self.invoices@[i as int]));
        }
        if require_oracle_verification {
            match self.settings.config {
                Some(c) => match c.price_oracle {
                    Some(_) => {
                        let r = resp.unwrap();
                        let max_age = c.max_oracle_age_ledgers;
                        if max_age > 0 {
                            let age = (ledger.sequence as u64).saturating_sub(r.timestamp as u64);
                            if age >= max_age {
                                return Err(ContractError::OracleDataStale);
                            }
                        }
                        if !r.is_verified {
                            return Err(ContractError::PayerUnverified);
                        }
                    },
                    None => {},
                },
                None => {},
            }
        }
        let st = self.invoices[i].status;
        if st == InvoiceStatus::Pending && ledger.timestamp > self.invoices[i].due_date as u64 {
            return Err(ContractError::InvoiceExpired);
        }
        match check_fundable(st) {
            Err(e) => {
                return Err(e);
            },
            Ok(()) => {},
        }
        if fund_amount > self.invoices[i].amount - self.invoices[i].amount_funded {
            return Err(ContractError::OverfundingRejected);
        }
        Ok(())
    }

    /// The transfers and notices of a funding request that `check_funding` accepted.
    fn funding_actions_of(&self, funder: Address, invoice_id: u64, fund_amount: i128, now: u64) -> (actions: Vec<Action>)
        requires
            self.has_invoice(invoice_id),
            fund_amount >= 0,
            self.inv(invoice_id).amount_funded >= 0,
            self.inv(invoice_id).amount_funded + fund_amount <= self.inv(invoice_id).amount,
        ensures
            actions@ == self.funding_actions(funder, invoice_id, fund_amount, now),
    {
        let n = self.invoices.len();
        let i = (invoice_id - 1) as usize;
        assert(i as int == invoice_id - 1 && i < n);
        let token = self.invoices[i].token;
        let amount = self.invoices[i].amount;
        let rate = self.funding_rate_at(i, now);
        let me = self.contract_address;
        let mut actions: Vec<Action> = Vec::new();
        let cost = fund_amount - discount_amount(fund_amount, rate);
        actions.push(Action::Transfer { token, from: funder, to: me, amount: cost });
        if self.invoices[i].amount_funded + fund_amount == amount {
            let payout = amount - discount_amount(amount, rate);
            actions.push(Action::Transfer { token, from: me, to: self.invoices[i].freelancer, amount: payout });
        }
        match self.settings.distribution_contract {
            Some(d) => {
                actions.push(Action::AccrueLp { contract: d, lp: funder, amount: fund_amount });
            },
            None => {},
        }
        proof {
            assert(actions@ =~= self.funding_actions(funder, invoice_id, fund_amount, now));
        }
        actions
    }

    /// Records a funding that `check_funding` accepted on the invoice, its contributors, the
    /// funder's LP score, the funded counter and the invoice NFT; returns whether the funder had
    /// contributed before.
    fn record_funding_on_invoice(&mut self, funder: Address, invoice_id: u64, fund_amount: i128, now: u64) -> (found: bool)
        requires
            old(self).wf(),
            old(self).has_invoice(invoice_id),
            fund_amount >= 0,
            now <= u32::MAX,
            old(self).inv(invoice_id).status == InvoiceStatus::Pending || old(self).inv(invoice_id).status
                == InvoiceStatus::PartiallyFunded,
            old(self).inv(invoice_id).amount_funded + fund_amount <= old(self).inv(invoice_id).amount,
        ensures
            final(self).wf(),
            found == (funder_index(old(self).funders_of(invoice_id), funder) >= 0),
            ({
                let inv = old(self).inv(invoice_id);
                let completes = inv.amount_funded + fund_amount == inv.amount;
                let nft = old(self).nfts.view_map();
                &&& final(self).invoices@ == old(self).invoices@.update(
                    invoice_id - 1,
                    Invoice {
                        amount_funded: (inv.amount_funded + fund_amount) as i128,
                        status: if completes { InvoiceStatus::Funded } else { InvoiceStatus::PartiallyFunded },
                        funded_at: if completes { Some(now as u32) } else { inv.funded_at },
                        funder: if completes { Some(funder) } else { inv.funder },
                        ..inv
                    },
                )
                &&& final(self).funders_of(invoice_id) == with_contribution(old(self).funders_of(invoice_id), funder, fund_amount)
                &&& forall|k: u64| k != invoice_id ==> #[trigger] final(self).funders_of(k) == old(self).funders_of(k)
                &&& final(self).reputation.lp_scores@ == if completes {
                    lp_scores_after_set(old(self).reputation.lp_scores@, funder, old(self).reputation.lp_score_of(funder) + 1)
                } else {
                    old(self).reputation.lp_scores@
                }
                &&& final(self).reputation.payer_scores == old(self).reputation.payer_scores
                &&& final(self).reputation.profiles == old(self).reputation.profiles
                &&& final(self).reputation.top_payers == old(self).reputation.top_payers
                &&& final(self).nfts.view_map() == if completes && nft.contains_key(invoice_id) && nft[invoice_id].owner
                    == inv.freelancer {
                    nft.insert(invoice_id, InvoiceNftMetadata { owner: funder, ..nft[invoice_id] })
                } else {
                    nft
                }
                &&& final(self).stats == (ContractStats {
                    total_funded: if completes { (old(self).stats.total_funded + 1) as u64 } else { old(self).stats.total_funded },
                    ..old(self).stats
                })
                &&& *final(self) == (InvoiceLiquidity {
                    invoices: final(self).invoices,
                    funders: final(self).funders,
                    reputation: final(self).reputation,
                    nfts: final(self).nfts,
                    stats: final(self).stats,
                    ..*old(self)
                })
            }),
    {
        let ghost g = *self;
        let n = self.invoices.len();
        let i = (invoice_id - 1) as usize;
        assert(i as int == invoice_id - 1 && i < n);
        let freelancer = self.invoices[i].freelancer;
        let amount = self.invoices[i].amount;
        let funded_before = self.invoices[i].amount_funded;
        let completes = funded_before + fund_amount == amount;
        let found = self.add_contribution(invoice_id, funder, fund_amount);
        let ghost contributed = *self;
        self.invoices[i].amount_funded = funded_before + fund_amount;
        proof {
            lemma_count_le_len(g.invoices@, fully_funded());
        }
        if completes {
            self.invoices[i].status = InvoiceStatus::Funded;
            self.invoices[i].funded_at = Some(now as u32);
            self.invoices[i].funder = Some(funder);
            let current = self.reputation.get_lp_score(funder);
            self.reputation.set_lp_score(funder, current + 1);
            self.stats.total_funded = self.stats.total_funded + 1;
            match self.nfts.get_invoice_nft_owner(invoice_id) {
                Some(owner) => {
                    if owner == freelancer {
                        let _ = self.nfts.transfer_invoice_nft(invoice_id, freelancer, funder);
                    }
                },
                None => {},
            }
        } else {
            self.invoices[i].status = InvoiceStatus::PartiallyFunded;
        }
        proof {
            let x = self.invoices@[i as int];
            assert(self.invoices@ =~= g.invoices@.update(i as int, x));
            lemma_count_update(g.invoices@, i as int, x, fully_funded());
            lemma_count_update(g.invoices@, i as int, x, in_state(InvoiceStatus::Paid));
            assert forall|k: u64| k != invoice_id implies #[trigger] self.funders_of(k) == g.funders_of(k) by {
                assert(contributed.funders_of(k) == self.funders_of(k));
            }
            assert(self.funders_of(invoice_id) == contributed.funders_of(invoice_id));
            self.lemma_indexes_frame(&g);
            assert forall|k: u64| #[trigger] self.has_invoice(k) implies {
                &&& sum_amounts(self.funders_of(k)) == self.inv(k).amount_funded
                &&& all_nonneg(self.funders_of(k))
            } by {
                assert(g.has_invoice(k));
                assert(contributed.funders_of(k) == self.funders_of(k));
            }
        }
        found
    }

    /// Adds `amount` to the volume of `token`.
    fn add_volume(&mut self, token: Address, amount: i128)
        requires
            old(self).wf(),
            amount >= 0,
            volume_fits(old(self).stats, old(self).settings.config, token, amount),
        ensures
            final(self).wf(),
            final(self).stats == with_volume(old(self).stats, old(self).settings.config, token, amount),
            *final(self) == (InvoiceLiquidity { stats: final(self).stats, ..*old(self) }),
    {
        match self.settings.config {
            Some(c) => {
                if token == c.usdc_sac_address {
                    self.stats.total_volume_usdc = self.stats.total_volume_usdc + amount;
                } else if token == c.eurc_sac_address {
                    self.stats.total_volume_eurc = self.stats.total_volume_eurc + amount;
                } else if token == c.xlm_sac_address {
                    self.stats.total_volume_xlm = self.stats.total_volume_xlm + amount;
                }
            },
            None => {},
        }
        proof {
            self.lemma_wf_frame(old(self));
        }
    }

    /// Records in `funder`'s portfolio statistics a funding of `amount` at discount `rate`.
    fn record_lp_funding(&mut self, funder: Address, amount: i128, rate: u32, new_position: bool)
        requires
            old(self).wf(),
            amount >= 0,
        ensures
            final(self).wf(),
            final(self).lp_stats@ == old(self).lp_stats@.insert(
                funder,
                lp_stats_after_funding(old(self).lp_stats_of(funder), amount, rate, new_position),
            ),
            *final(self) == (InvoiceLiquidity { lp_stats: final(self).lp_stats, ..*old(self) }),
    {
        let s = self.get_lp_portfolio_stats(funder);
        let total_funded = match s.total_funded.checked_add(amount) {
            Some(v) => v,
            None => s.total_funded,
        };
        let mut positions = s.total_positions;
        let mut avg = s.avg_yield_bps;
        if new_position {
            let old_total = s.total_positions as u64;
            positions = s.total_positions.saturating_add(1);
            let new_total = positions as u64;
            assert(s.avg_yield_bps as u64 * old_total <= 0xffff_ffffu64 * 0xffff_ffffu64) by (nonlinear_arith)
                requires s.avg_yield_bps <= 0xffff_ffffu64, old_total <= 0xffff_ffffu64;
            let sum = s.avg_yield_bps as u64 * old_total + rate as u64;
            avg = #[verifier::truncate] ((sum / new_total) as u32);
        }
        let active = if new_position { s.active_positions.saturating_add(1) } else { s.active_positions };
        self.lp_stats.insert(
            funder,
            LPStats {
                total_funded,
                total_earned: s.total_earned,
                active_positions: active,
                total_positions: positions,
                avg_yield_bps: avg,
            },
        );
        proof {
            self.lemma_wf_frame(old(self));
        }
    }

    /// Carries out a funding request that `check_funding` accepted.
    fn apply_funding(&mut self, funder: Address, invoice_id: u64, fund_amount: i128, ledger: Ledger) -> (actions: Vec<Action>)
        requires
            old(self).wf(),
            old(self).has_invoice(invoice_id),
            fund_amount >= 0,
            ledger.timestamp <= u32::MAX,
            old(self).inv(invoice_id).status == InvoiceStatus::Pending || old(self).inv(invoice_id).status
                == InvoiceStatus::PartiallyFunded,
            old(self).inv(invoice_id).amount_funded + fund_amount <= old(self).inv(invoice_id).amount,
            volume_fits(old(self).stats, old(self).settings.config, old(self).inv(invoice_id).token, fund_amount),
        ensures
            final(self).wf(),
            actions@ == old(self).funding_actions(funder, invoice_id, fund_amount, ledger.timestamp),
            final(self).records_funding(old(self), funder, invoice_id, fund_amount, ledger),
    {
        let ghost g = *self;
        let n = self.invoices.len();
        let i = (invoice_id - 1) as usize;
        assert(i as int == invoice_id - 1 && i < n);
        let token = self.invoices[i].token;
        let payer = self.invoices[i].payer;
        let base_rate = self.invoices[i].discount_rate;
        let completes = self.invoices[i].amount_funded + fund_amount == self.invoices[i].amount;
        let actions = self.funding_actions_of(funder, invoice_id, fund_amount, ledger.timestamp);
        let found = self.record_funding_on_invoice(funder, invoice_id, fund_amount, ledger.timestamp);
        let ghost on_invoice = *self;
        self.index_lp(funder, invoice_id);
        let ghost indexed = *self;
        proof {
            assert forall|a: Address, k: int| 0 <= k < self.lp_ids(a).len() implies 1 <= #[trigger] self.lp_ids(a)[k]
                <= self.invoices@.len() by {
                if a == funder && k < on_invoice.lp_ids(a).len() {
                    assert(self.lp_ids(a)[k] == on_invoice.lp_ids(a)[k]);
                }
            }
            assert forall|a: Address, k: int| 0 <= k < self.submitter_ids(a).len() implies 1
                <= #[trigger] self.submitter_ids(a)[k] <= self.invoices@.len() by {
                assert(self.submitter_ids(a) == on_invoice.submitter_ids(a));
            }
            assert forall|k: u64| #[trigger] self.has_invoice(k) implies {
                &&& sum_amounts(self.funders_of(k)) == self.inv(k).amount_funded
                &&& all_nonneg(self.funders_of(k))
            } by {
                assert(on_invoice.has_invoice(k));
            }
        }
        self.record_lp_funding(funder, fund_amount, base_rate, !found);
        self.add_volume(token, fund_amount);
        let ghost before_read = *self;
        if self.settings.min_payer_reputation > 0 {
            self.reputation.get_payer_score(self.settings.config, ledger.sequence, payer);
        }
        proof {
            self.lemma_indexes_frame(&before_read);
            assert forall|b: Address| #[trigger] self.lp_ids(b) == if b == funder {
                g.lp_ids(b).push(invoice_id)
            } else {
                g.lp_ids(b)
            } by {
                assert(indexed.lp_ids(b) == self.lp_ids(b));
                assert(on_invoice.lp_ids(b) == g.lp_ids(b));
            }
            assert forall|k: u64| k != invoice_id implies #[trigger] self.funders_of(k) == g.funders_of(k) by {
                assert(on_invoice.funders_of(k) == self.funders_of(k));
            }
            assert(self.funders_of(invoice_id) == on_invoice.funders_of(invoice_id));
            assert forall|k: u64| #[trigger] self.has_invoice(k) implies {
                &&& sum_amounts(self.funders_of(k)) == self.inv(k).amount_funded
                &&& all_nonneg(self.funders_of(k))
            } by {
                assert(on_invoice.has_invoice(k));
                assert(on_invoice.funders_of(k) == self.funders_of(k));
            }
        }
        actions
    }

    /// `funder` funds `fund_amount` of the invoice `invoice_id`; `oracle_response` is the
    /// answer of the oracle named by `oracle_to_consult`, when there is one. Returns the
    /// transfers and notices to carry out.
    pub fn fund_invoice(
        &mut self,
        funder: Address,
        invoice_id: u64,
        fund_amount: i128,
        require_oracle_verification: bool,
        oracle_response: Option<OracleVerificationResponse>,
        ledger: Ledger,
    ) -> (r: Result<Vec<Action>, ContractError>)
        requires
            old(self).wf(),
            fund_amount >= 0,
            ledger.timestamp <= u32::MAX,
            require_oracle_verification && oracle_of(old(self).settings.config) is Some ==> oracle_response is Some,
            old(self).has_invoice(invoice_id) ==> volume_fits(
                old(self).stats,
                old(self).settings.config,
                old(self).inv(invoice_id).token,
                fund_amount,
            ),
        ensures
            final(self).wf(),
            ({
                let e = old(self).fund_error(funder, invoice_id, fund_amount, require_oracle_verification, oracle_response, ledger);
                &&& (r is Err <==> e is Some)
                &&& (r is Err ==> r == Err::<Vec<Action>, ContractError>(e.unwrap()) && *final(self) == *old(self))
            }),
            r is Ok ==> r->Ok_0@ == old(self).funding_actions(funder, invoice_id, fund_amount, ledger.timestamp)
                && final(self).records_funding(old(self), funder, invoice_id, fund_amount, ledger),
    {
        match self.check_funding(funder, invoice_id, fund_amount, require_oracle_verification, oracle_response, ledger) {
            Err(e) => {
                return Err(e);
            },
            Ok(()) => {},
        }
        let actions = self.apply_funding(funder, invoice_id, fund_amount, ledger);
        Ok(actions)
    }

    /// Removes every occurrence of `id` from the ids funded by `a`.
    fn unindex_lp(&mut self, a: Address, id: u64)
        ensures
            forall|b: Address| #[trigger] final(self).lp_ids(b) == if b == a {
                old(self).lp_ids(b).filter(other_than(id))
            } else {
                old(self).lp_ids(b)
            },
            final(self).lp_invoices@.contains_key(a) ==> final(self).lp_invoices@[a]@.len() > 0,
            *final(self) == (InvoiceLiquidity { lp_invoices: final(self).lp_invoices, ..*old(self) }),
    {
        let ids = match self.lp_invoices.remove(&a) {
            Some(v) => v,
            None => Vec::new(),
        };
        let mut kept: Vec<u64> = Vec::new();
        let mut i: usize = 0;
        while i < ids.len()
            invariant
                i <= ids@.len(),
                kept@ == ids@.take(i as int).filter(other_than(id)),
            decreases ids@.len() - i,
        {
            proof {
                reveal_with_fuel(Seq::filter, 1);
                assert(ids@.take(i + 1).drop_last() =~= ids@.take(i as int));
            }
            if ids[i] != id {
                kept.push(ids[i]);
            }
            i = i + 1;
        }
        assert(ids@.take(i as int) =~= ids@);
        if kept.len() > 0 {
            self.lp_invoices.insert(a, kept);
        }
    }

    /// Why `transfer_lp_position` refuses, if it does.
    pub open spec fn lp_transfer_error(&self, invoice_id: u64, new_lp: Address) -> Option<ContractError> {
        let inv = self.inv(invoice_id);
        let nft = self.nfts.view_map();
        if self.settings.paused {
            Some(ContractError::ContractPaused)
        } else if !self.has_invoice(invoice_id) {
            Some(ContractError::InvoiceNotFound)
        } else if crate::settlement::not_payable_error(inv.status) is Some {
            crate::settlement::not_payable_error(inv.status)
        } else if inv.funder is None || inv.funder == Some(new_lp) {
            Some(ContractError::Unauthorized)
        } else if !nft.contains_key(invoice_id) {
            Some(ContractError::InvoiceNftNotFound)
        } else if nft[invoice_id].owner != inv.funder.unwrap() {
            Some(ContractError::InvoiceNftNotOwned)
        } else {
            None
        }
    }

    /// The LP of a funded invoice hands its position over to `new_lp`: its contributions, the
    /// invoice's funder, the invoice NFT and the LP index follow.
    pub fn transfer_lp_position(&mut self, invoice_id: u64, new_lp: Address) -> (r: Result<(), ContractError>)
        requires
            old(self).wf(),
        ensures
            final(self).wf(),
            r == crate::lifecycle::outcome(old(self).lp_transfer_error(invoice_id, new_lp)),
            r is Err ==> *final(self) == *old(self),
            r is Ok ==> {
                let inv = old(self).inv(invoice_id);
                let current = inv.funder.unwrap();
                let nft = old(self).nfts.view_map();
                &&& final(self).invoices@ == old(self).invoices@.update(
                    invoice_id - 1,
                    Invoice { funder: Some(new_lp), ..inv },
                )
                &&& final(self).funders_of(invoice_id) == reassigned(old(self).funders_of(invoice_id), current, new_lp)
                &&& forall|k: u64| k != invoice_id ==> #[trigger] final(self).funders_of(k) == old(self).funders_of(k)
                &&& final(self).nfts.view_map() == nft.insert(invoice_id, InvoiceNftMetadata { owner: new_lp, ..nft[invoice_id] })
                &&& forall|b: Address| #[trigger] final(self).lp_ids(b) == if b == new_lp {
                    (if b == current {
                        old(self).lp_ids(b).filter(other_than(invoice_id))
                    } else {
                        old(self).lp_ids(b)
                    }).push(invoice_id)
                } else if b == current {
                    old(self).lp_ids(b).filter(other_than(invoice_id))
                } else {
                    old(self).lp_ids(b)
                }
                &&& *final(self) == (InvoiceLiquidity {
                    invoices: final(self).invoices,
                    funders: final(self).funders,
                    nfts: final(self).nfts,
                    lp_invoices: final(self).lp_invoices,
                    ..*old(self)
                })
            },
    {
        if self.settings.paused {
            return Err(ContractError::ContractPaused);
        }
        if invoice_id == 0 || invoice_id > self.invoices.len() as u64 {
            return Err(ContractError::InvoiceNotFound);
        }
        let ghost g = *self;
        let i = (invoice_id - 1) as usize;
        match crate::settlement::check_payable(self.invoices[i].status) {
            Err(e) => {
                return Err(e);
            },
            Ok(()) => {},
        }
        let current = match self.invoices[i].funder {
            None => {
                return Err(ContractError::Unauthorized);
            },
            Some(a) => a,
        };
        if current == new_lp {
            return Err(ContractError::Unauthorized);
        }
        match self.nfts.get_invoice_nft_owner(invoice_id) {
            None => {
                return Err(ContractError::InvoiceNftNotFound);
            },
            Some(owner) => {
                if owner != current {
                    return Err(ContractError::InvoiceNftNotOwned);
                }
            },
        }
        let mut fs = match self.funders.remove(&invoice_id) {
            Some(v) => v,
            None => Vec::new(),
        };
        let ghost f0 = fs@;
        proof {
            assert(g.has_invoice(invoice_id));
            assert(f0 == g.funders_of(invoice_id));
        }
        let mut k: usize = 0;
        while k < fs.len()
            invariant
                k <= fs@.len(),
                fs@.len() == f0.len(),
                forall|j: int| 0 <= j < k ==> fs@[j] == (if f0[j].0 == current { (new_lp, f0[j].1) } else { f0[j] }),
                forall|j: int| k <= j < fs@.len() ==> fs@[j] == f0[j],
            decreases fs@.len() - k,
        {
            let (a, amt) = fs[k];
            if a == current {
                fs.set(k, (new_lp, amt));
            }
            k = k + 1;
        }
        proof {
            assert(fs@ =~= reassigned(f0, current, new_lp));
            lemma_reassigned_sum(f0, current, new_lp);
        }
        self.funders.insert(invoice_id, fs);
        self.invoices[i].funder = Some(new_lp);
        let _ = self.nfts.transfer_invoice_nft(invoice_id, current, new_lp);
        let ghost moved = *self;
        self.unindex_lp(current, invoice_id);
        let ghost unindexed = *self;
        self.index_lp(new_lp, invoice_id);
        proof {
            let x = self.invoices@[i as int];
            assert(self.invoices@ =~= g.invoices@.update(i as int, x));
            crate::counting::lemma_count_update(g.invoices@, i as int, x, fully_funded());
            crate::counting::lemma_count_update(g.invoices@, i as int, x, in_state(InvoiceStatus::Paid));
            assert forall|k: u64| #[trigger] self.has_invoice(k) implies {
                &&& sum_amounts(self.funders_of(k)) == self.inv(k).amount_funded
                &&& all_nonneg(self.funders_of(k))
            } by {
                assert(g.has_invoice(k));
            }
            assert forall|b: Address| #[trigger] self.lp_ids(b) == if b == new_lp {
                (if b == current {
                    g.lp_ids(b).filter(other_than(invoice_id))
                } else {
                    g.lp_ids(b)
                }).push(invoice_id)
            } else if b == current {
                g.lp_ids(b).filter(other_than(invoice_id))
            } else {
                g.lp_ids(b)
            } by {
                assert(unindexed.lp_ids(b) == if b == current {
                    moved.lp_ids(b).filter(other_than(invoice_id))
                } else {
                    moved.lp_ids(b)
                });
                assert(moved.lp_ids(b) == g.lp_ids(b));
            }
            assert forall|a: Address, k: int| 0 <= k < self.lp_ids(a).len() implies 1 <= #[trigger] self.lp_ids(a)[k]
                <= self.invoices@.len() by {
                lemma_filter_ids(g.lp_ids(a), invoice_id, self.invoices@.len() as int);
                if a == new_lp {
                    let base = if a == current {
                        g.lp_ids(a).filter(other_than(invoice_id))
                    } else {
                        g.lp_ids(a)
                    };
                    if k < base.len() {
                        assert(self.lp_ids(a)[k] == base[k]);
                    }
                }
            }
            assert forall|a: Address, k: int| 0 <= k < self.submitter_ids(a).len() implies 1
                <= #[trigger] self.submitter_ids(a)[k] <= self.invoices@.len() by {
                assert(self.submitter_ids(a) == g.submitter_ids(a));
            }
        }
        Ok(())
    }

    /// Adds `amount` to `funder`'s contribution to the invoice `id`; returns whether `funder`
    /// had contributed before.
    fn add_contribution(&mut self, id: u64, funder: Address, amount: i128) -> (found: bool)
        requires
            old(self).wf(),
            old(self).has_invoice(id),
            amount >= 0,
            old(self).inv(id).amount_funded + amount <= old(self).inv(id).amount,
        ensures
            found == (funder_index(old(self).funders_of(id), funder) >= 0),
            final(self).funders_of(id) == with_contribution(old(self).funders_of(id), funder, amount),
            sum_amounts(final(self).funders_of(id)) == sum_amounts(old(self).funders_of(id)) + amount,
            all_nonneg(final(self).funders_of(id)),
            forall|k: u64| k != id ==> #[trigger] final(self).funders_of(k) == old(self).funders_of(k),
            forall|k: u64| #[trigger] final(self).funders@.contains_key(k) ==> k == id || old(self).funders@.contains_key(k),
            *final(self) == (InvoiceLiquidity { funders: final(self).funders, ..*old(self) }),
    {
        let mut fs = match self.funders.remove(&id) {
            Some(v) => v,
            None => Vec::new(),
        };
        let ghost f0 = fs@;
        proof {
            assert(f0 == old(self).funders_of(id));
            assert(old(self).has_invoice(id));
            lemma_funder_index(f0, funder);
        }
        let found = match find_funder(&fs, funder) {
            Some(k) => {
                let (a, amt) = fs[k];
                proof {
                    lemma_part_le_sum(f0, k as int);
                    lemma_sum_update(f0, k as int, (a, (amt + amount) as i128));
                }
                fs.set(k, (a, amt + amount));
                true
            },
            None => {
                proof {
                    lemma_sum_push(f0, (funder, amount));
                }
                fs.push((funder, amount));
                false
            },
        };
        self.funders.insert(id, fs);
        found
    }
}

} // verus!

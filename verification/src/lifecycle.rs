use vstd::prelude::*;
use crate::constants::{
    MAX_AUCTION_RATE, MAX_BATCH_SIZE, MAX_DISCOUNT_RATE, MAX_INVOICE_DURATION, MAX_WHITELIST_SIZE, MIN_INVOICE_AMOUNT, MIN_INVOICE_DURATION,
};
use crate::contract::{invoice_ok, lemma_filter_ids, other_than, InvoiceLiquidity};
use crate::counting::{fully_funded, in_state, lemma_count_push, sum_amounts, all_nonneg};
use crate::errors::ContractError;
use crate::invoice::{
    transfer, Action, Address, ContractStats, Hash32, Invoice, InvoiceParams, InvoiceStatus, Ledger, ReputationProfile,
};
use crate::rate_logic::{discount_amount, discount_spec};
use crate::nft::InvoiceNftMetadata;
use crate::reputation::{profile_in, store_profile};

verus! {

broadcast use vstd::std_specs::hash::group_hash_axioms;

/// Why the terms of a new or amended invoice are refused, if they are.
pub open spec fn terms_error(amount: i128, due_date: u64, discount_rate: u32, now: u64, max_rate: u32) -> Option<
    ContractError,
> {
    if amount < MIN_INVOICE_AMOUNT {
        Some(ContractError::InvalidAmount)
    } else if discount_rate == 0 || discount_rate > max_rate {
        Some(ContractError::InvalidDiscountRate)
    } else if due_date > u32::MAX || due_date <= now {
        Some(ContractError::InvalidDueDate)
    } else if due_date < now + MIN_INVOICE_DURATION {
        Some(ContractError::DueDateTooSoon)
    } else if due_date > now + MAX_INVOICE_DURATION {
        Some(ContractError::DueDateTooFar)
    } else {
        None
    }
}

/// The result a check that refuses with `e`, if any, gives.
pub open spec fn outcome(e: Option<ContractError>) -> Result<(), ContractError> {
    match e {
        Some(err) => Err(err),
        None => Ok(()),
    }
}

/// Checks the amount, the discount rate against `max_rate` and the due date against the ledger
/// time `now`: at least a day and at most a year ahead.
pub fn validate_invoice_terms(amount: i128, due_date: u64, discount_rate: u32, now: u64, max_rate: u32) -> (r: Result<
    (),
    ContractError,
>)
    ensures
        r == outcome(terms_error(amount, due_date, discount_rate, now, max_rate)),
{
    if amount < MIN_INVOICE_AMOUNT {
        return Err(ContractError::InvalidAmount);
    }
    if discount_rate == 0 || discount_rate > max_rate {
        return Err(ContractError::InvalidDiscountRate);
    }
    if due_date > 0xffff_ffffu64 || due_date <= now {
        return Err(ContractError::InvalidDueDate);
    }
    if due_date < now + MIN_INVOICE_DURATION {
        return Err(ContractError::DueDateTooSoon);
    }
    if due_date > now + MAX_INVOICE_DURATION {
        return Err(ContractError::DueDateTooFar);
    }
    Ok(())
}

/// Number of entries of `s` equal to `code`.
pub open spec fn count_code(s: Seq<Hash32>, code: Hash32) -> nat
    decreases s.len(),
{
    if s.len() == 0 {
        0
    } else {
        count_code(s.drop_last(), code) + (if s.last() == code { 1nat } else { 0nat })
    }
}

proof fn lemma_count_code_le(s: Seq<Hash32>, code: Hash32)
    ensures
        count_code(s, code) <= s.len(),
    decreases s.len(),
{
    if s.len() > 0 {
        lemma_count_code_le(s.drop_last(), code);
    }
}

/// Whether two hashes are equal.
pub fn hash_eq(a: &Hash32, b: &Hash32) -> (r: bool)
    ensures
        r == (*a == *b),
{
    broadcast use vstd::array::group_array_axioms;
    let mut i: usize = 0;
    while i < 32
        invariant
            i <= 32,
            forall|k: int| 0 <= k < i ==> a[k] == b[k],
        decreases 32 - i,
    {
        if a[i] != b[i] {
            return false;
        }
        i = i + 1;
    }
    assert(*a =~= *b);
    true
}

/// `s` with `code` appended when there is one.
pub open spec fn with_code(s: Seq<Hash32>, code: Option<Hash32>) -> Seq<Hash32> {
    match code {
        Some(c) => s.push(c),
        None => s,
    }
}

/// Why an invoice in state `st` can no longer be changed by its submitter, if it cannot.
pub open spec fn not_pending_error(st: InvoiceStatus) -> Option<ContractError> {
    match st {
        InvoiceStatus::Pending => None,
        InvoiceStatus::PartiallyFunded | InvoiceStatus::Funded => Some(ContractError::AlreadyFunded),
        InvoiceStatus::Paid => Some(ContractError::AlreadyPaid),
        InvoiceStatus::Defaulted => Some(ContractError::InvoiceDefaulted),
        InvoiceStatus::Appealed => Some(ContractError::InvoiceAppealed),
        InvoiceStatus::Disputed => Some(ContractError::InvoiceDisputed),
        InvoiceStatus::Expired => Some(ContractError::InvoiceExpired),
        InvoiceStatus::Cancelled => Some(ContractError::AlreadyCancelled),
    }
}

/// Refuses every state but `Pending`, with the error that names the state.
pub fn check_pending(st: InvoiceStatus) -> (r: Result<(), ContractError>)
    ensures
        r == outcome(not_pending_error(st)),
{
    match st {
        InvoiceStatus::Pending => Ok(()),
        InvoiceStatus::PartiallyFunded | InvoiceStatus::Funded => Err(ContractError::AlreadyFunded),
        InvoiceStatus::Paid => Err(ContractError::AlreadyPaid),
        InvoiceStatus::Defaulted => Err(ContractError::InvoiceDefaulted),
        InvoiceStatus::Appealed => Err(ContractError::InvoiceAppealed),
        InvoiceStatus::Disputed => Err(ContractError::InvoiceDisputed),
        InvoiceStatus::Expired => Err(ContractError::InvoiceExpired),
        InvoiceStatus::Cancelled => Err(ContractError::AlreadyCancelled),
    }
}

/// What a contributor of `amount` at discount `rate` gets back: the amount it paid in.
pub open spec fn refund_of(amount: i128, rate: u32) -> i128 {
    (amount - discount_spec(amount as int, rate as int)) as i128
}

/// The transfers that hand each contributor in `fs` its refund from `from`.
pub open spec fn refunds(fs: Seq<(Address, i128)>, token: Address, from: Address, rate: u32) -> Seq<Action> {
    fs.map_values(|p: (Address, i128)| transfer(token, from, p.0, refund_of(p.1, rate)))
}

/// The invoice with id `id` that the batch entry `p` describes, its freelancer's score being `rep`.
pub open spec fn params_invoice(p: InvoiceParams, id: u64, rep: u32) -> Invoice {
    Invoice {
        id,
        freelancer: p.freelancer,
        payer: p.payer,
        token: p.token,
        amount: p.amount,
        due_date: p.due_date as u32,
        discount_rate: p.discount_rate,
        status: InvoiceStatus::Pending,
        funder: None,
        funded_at: None,
        amount_funded: 0,
        amount_paid: 0,
        referral_code: p.referral_code,
        submitter_reputation: rep,
        is_auction: false,
        auction_start_rate: None,
        auction_min_rate: None,
        auction_rate_decay_per_hour: None,
        auction_started_at: None,
        allowed_lps: p.allowed_lps,
    }
}

/// The referral codes that the entries of `ps` name, in order.
pub open spec fn batch_codes(ps: Seq<InvoiceParams>) -> Seq<Hash32>
    decreases ps.len(),
{
    if ps.len() == 0 {
        Seq::empty()
    } else {
        with_code(batch_codes(ps.drop_last()), ps.last().referral_code)
    }
}

/// The ids, counted from `first`, of the entries of `ps` submitted by `a`.
pub open spec fn batch_ids_of(ps: Seq<InvoiceParams>, a: Address, first: int) -> Seq<u64>
    decreases ps.len(),
{
    if ps.len() == 0 {
        Seq::empty()
    } else if ps.last().freelancer == a {
        batch_ids_of(ps.drop_last(), a, first).push((first + ps.len() - 1) as u64)
    } else {
        batch_ids_of(ps.drop_last(), a, first)
    }
}

/// Number of entries of `ps` submitted by `a`.
pub open spec fn batch_count_of(ps: Seq<InvoiceParams>, a: Address) -> nat
    decreases ps.len(),
{
    if ps.len() == 0 {
        0
    } else {
        batch_count_of(ps.drop_last(), a) + (if ps.last().freelancer == a { 1nat } else { 0nat })
    }
}

proof fn lemma_batch_count_le(ps: Seq<InvoiceParams>, a: Address)
    ensures
        batch_count_of(ps, a) <= ps.len(),
    decreases ps.len(),
{
    if ps.len() > 0 {
        lemma_batch_count_le(ps.drop_last(), a);
    }
}

impl InvoiceLiquidity {
    /// `self` is `old` with the invoice `inv`, submitted at `ledger`, recorded: the invoice
    /// appended, the counters, the submitter index and the referral list advanced, the
    /// freelancer's submission count raised after the read of its score, and, when `mint`, the
    /// invoice NFT minted to the freelancer.
    pub open spec fn records_submission(&self, old: &Self, inv: Invoice, ledger: Ledger, mint: bool) -> bool {
        let cfg = old.settings.config;
        let f = inv.freelancer;
        let read = old.reputation.profiles_after_read(cfg, ledger.sequence, f);
        &&& self.invoices@ == old.invoices@.push(inv)
        &&& self.stats == (ContractStats { total_invoices: (old.stats.total_invoices + 1) as u64, ..old.stats })
        &&& forall|b: Address| #[trigger] self.submitter_ids(b) == if b == f {
            old.submitter_ids(b).push(inv.id)
        } else {
            old.submitter_ids(b)
        }
        &&& self.reputation.payer_scores@ == old.reputation.scores_after_read(cfg, ledger.sequence, f)
        &&& self.reputation.profiles@ == store_profile(
            read,
            ReputationProfile {
                invoices_submitted: (profile_in(read, f).invoices_submitted + 1) as u32,
                ..profile_in(read, f)
            },
        )
        &&& self.reputation.lp_scores == old.reputation.lp_scores
        &&& self.reputation.top_payers == old.reputation.top_payers
        &&& self.referrals@ == with_code(old.referrals@, inv.referral_code)
        &&& if mint {
            self.nfts.view_map() == old.nfts.view_map().insert(
                inv.id,
                InvoiceNftMetadata {
                    invoice_id: inv.id,
                    amount: inv.amount,
                    due_date: inv.due_date,
                    discount_rate: inv.discount_rate,
                    token: inv.token,
                    owner: f,
                    minted_at: ledger.timestamp as u32,
                },
            )
        } else {
            self.nfts == old.nfts
        }
        &&& *self == (InvoiceLiquidity {
            invoices: self.invoices,
            stats: self.stats,
            submitter_invoices: self.submitter_invoices,
            reputation: self.reputation,
            referrals: self.referrals,
            nfts: self.nfts,
            ..*old
        })
    }

    /// Records the new invoice `inv` (its submitter reputation is read here), submitted at
    /// `ledger`; mints its NFT when `mint`. Returns its id.
    fn record_submission(&mut self, inv: Invoice, ledger: Ledger, mint: bool) -> (id: u64)
        requires
            old(self).wf(),
            inv.id == old(self).invoices@.len() + 1,
            old(self).invoices@.len() + 1 < u64::MAX,
            invoice_ok(inv),
            inv.status == InvoiceStatus::Pending,
            inv.amount_funded == 0,
            inv.amount_paid == 0,
            old(self).reputation.profile_of(inv.freelancer).invoices_submitted < u32::MAX,
        ensures
            final(self).wf(),
            id == inv.id,
            final(self).records_submission(
                old(self),
                Invoice {
                    submitter_reputation: old(self).reputation.payer_score_at(
                        old(self).settings.config,
                        ledger.sequence,
                        inv.freelancer,
                    ),
                    ..inv
                },
                ledger,
                mint,
            ),
    {
        let mut inv = inv;
        let id = inv.id;
        let f = inv.freelancer;
        let ghost g = old(self);
        inv.submitter_reputation = self.reputation.get_payer_score(self.settings.config, ledger.sequence, f);
        if mint {
            let m = self.nfts.mint_invoice_nft(id, f, inv.amount, inv.due_date, inv.discount_rate, inv.token, ledger.timestamp);
            proof {
                assert(!g.nfts.view_map().contains_key(id));
            }
        }
        let code = inv.referral_code;
        proof {
            lemma_count_push(g.invoices@, inv, fully_funded());
            lemma_count_push(g.invoices@, inv, in_state(InvoiceStatus::Paid));
        }
        self.invoices.push(inv);
        self.stats.total_invoices = self.stats.total_invoices + 1;
        self.index_submitter(f, id);
        let ghost indexed = *self;
        self.reputation.increment_invoices_submitted(f);
        match code {
            Some(c) => self.referrals.push(c),
            None => {},
        }
        proof {
            assert forall|k: u64| #[trigger] self.has_invoice(k) implies {
                &&& sum_amounts(self.funders_of(k)) == self.inv(k).amount_funded
                &&& all_nonneg(self.funders_of(k))
            } by {
                if k == id {
                    assert(!self.funders@.contains_key(k));
                    assert(self.funders_of(k) =~= Seq::<(Address, i128)>::empty());
                } else {
                    assert(g.has_invoice(k));
                }
            }
        }
        proof {
            assert forall|b: Address| #[trigger] self.submitter_ids(b) == if b == f {
                g.submitter_ids(b).push(id)
            } else {
                g.submitter_ids(b)
            } by {
                assert(indexed.submitter_ids(b) == self.submitter_ids(b));
            }
            assert forall|a: Address, k: int| 0 <= k < self.submitter_ids(a).len() implies 1
                <= #[trigger] self.submitter_ids(a)[k] <= self.invoices@.len() by {
                if a == f && k < g.submitter_ids(a).len() {
                    assert(self.submitter_ids(a)[k] == g.submitter_ids(a)[k]);
                }
            }
            assert forall|a: Address, k: int| 0 <= k < self.lp_ids(a).len() implies 1 <= #[trigger] self.lp_ids(a)[k]
                <= self.invoices@.len() by {
                assert(self.lp_ids(a) == g.lp_ids(a));
            }
        }
        id
    }

    /// Why `submit_invoice` refuses these terms at time `now`, if it does.
    pub open spec fn submit_error(
        &self,
        freelancer: Address,
        payer: Address,
        amount: i128,
        due_date: u64,
        discount_rate: u32,
        token: Address,
        whitelist_len: Option<nat>,
        now: u64,
    ) -> Option<ContractError> {
        if self.settings.paused {
            Some(ContractError::ContractPaused)
        } else if freelancer == payer {
            Some(ContractError::SelfInvoice)
        } else if discount_rate == 0 || discount_rate > MAX_DISCOUNT_RATE {
            Some(ContractError::InvalidDiscountRate)
        } else if terms_error(amount, due_date, discount_rate, now, self.settings.max_discount_rate) is Some {
            terms_error(amount, due_date, discount_rate, now, self.settings.max_discount_rate)
        } else if !self.approved(token) {
            Some(ContractError::Unauthorized)
        } else if whitelist_len matches Some(n) && n > MAX_WHITELIST_SIZE {
            Some(ContractError::WhitelistTooLarge)
        } else if self.invoices@.len() + 2 > u64::MAX {
            Some(ContractError::ArithmeticOverflow)
        } else {
            None
        }
    }

    /// Submits an invoice from `freelancer` to `payer` and mints its NFT to the freelancer;
    /// returns the new invoice's id. `allowed_lps`, when given, are the only LPs that may fund it.
    pub fn submit_invoice(
        &mut self,
        freelancer: Address,
        payer: Address,
        amount: i128,
        due_date: u64,
        discount_rate: u32,
        token: Address,
        referral_code: Option<Hash32>,
        allowed_lps: Option<Vec<Address>>,
        ledger: Ledger,
    ) -> (r: Result<u64, ContractError>)
        requires
            old(self).wf(),
            old(self).reputation.profile_of(freelancer).invoices_submitted < u32::MAX,
        ensures
            final(self).wf(),
            ({
                let e = old(self).submit_error(
                    freelancer,
                    payer,
                    amount,
                    due_date,
                    discount_rate,
                    token,
                    match allowed_lps {
                        Some(v) => Some(v@.len()),
                        None => None,
                    },
                    ledger.timestamp,
                );
                &&& (r is Err <==> e is Some)
                &&& (r is Err ==> r == Err::<u64, ContractError>(e.unwrap()) && *final(self) == *old(self))
            }),
            r is Ok ==> r == Ok::<u64, ContractError>((old(self).invoices@.len() + 1) as u64) && final(self).records_submission(
                old(self),
                Invoice {
                    id: (old(self).invoices@.len() + 1) as u64,
                    freelancer,
                    payer,
                    token,
                    amount,
                    due_date: due_date as u32,
                    discount_rate,
                    status: InvoiceStatus::Pending,
                    funder: None,
                    funded_at: None,
                    amount_funded: 0,
                    amount_paid: 0,
                    referral_code,
                    submitter_reputation: old(self).reputation.payer_score_at(
                        old(self).settings.config,
                        ledger.sequence,
                        freelancer,
                    ),
                    is_auction: false,
                    auction_start_rate: None,
                    auction_min_rate: None,
                    auction_rate_decay_per_hour: None,
                    auction_started_at: None,
                    allowed_lps,
                },
                ledger,
                true,
            ),
    {
        if self.settings.paused {
            return Err(ContractError::ContractPaused);
        }
        if freelancer == payer {
            return Err(ContractError::SelfInvoice);
        }
        if discount_rate == 0 || discount_rate > MAX_DISCOUNT_RATE {
            return Err(ContractError::InvalidDiscountRate);
        }
        match validate_invoice_terms(amount, due_date, discount_rate, ledger.timestamp, self.settings.max_discount_rate) {
            Err(e) => {
                return Err(e);
            },
            Ok(()) => {},
        }
        if !self.is_approved_token(token) {
            return Err(ContractError::Unauthorized);
        }
        match &allowed_lps {
            Some(v) => {
                if v.len() > 10 {
                    return Err(ContractError::WhitelistTooLarge);
                }
            },
            None => {},
        }
        let count = self.invoices.len() as u64;
        if count >= u64::MAX - 1 {
            return Err(ContractError::ArithmeticOverflow);
        }
        let inv = Invoice {
            id: count + 1,
            freelancer,
            payer,
            token,
            amount,
            due_date: due_date as u32,
            discount_rate,
            status: InvoiceStatus::Pending,
            funder: None,
            funded_at: None,
            amount_funded: 0,
            amount_paid: 0,
            referral_code,
            submitter_reputation: 0,
            is_auction: false,
            auction_start_rate: None,
            auction_min_rate: None,
            auction_rate_decay_per_hour: None,
            auction_started_at: None,
            allowed_lps,
        };
        let id = self.record_submission(inv, ledger, true);
        Ok(id)
    }

    /// Why `submit_invoice_auction` refuses these terms at time `now`, if it does.
    pub open spec fn auction_error(
        &self,
        freelancer: Address,
        payer: Address,
        amount: i128,
        due_date: u64,
        start_rate: u32,
        min_rate: u32,
        rate_decay_per_hour: u32,
        token: Address,
        now: u64,
    ) -> Option<ContractError> {
        if self.settings.paused {
            Some(ContractError::ContractPaused)
        } else if freelancer == payer {
            Some(ContractError::SelfInvoice)
        } else if start_rate == 0 || start_rate > MAX_AUCTION_RATE || min_rate > start_rate
            || rate_decay_per_hour == 0 {
            Some(ContractError::InvalidAuctionParams)
        } else if terms_error(amount, due_date, start_rate, now, MAX_AUCTION_RATE) is Some {
            terms_error(amount, due_date, start_rate, now, MAX_AUCTION_RATE)
        } else if !self.approved(token) {
            Some(ContractError::Unauthorized)
        } else if self.invoices@.len() + 2 > u64::MAX {
            Some(ContractError::ArithmeticOverflow)
        } else {
            None
        }
    }

    /// Submits an invoice funded by Dutch auction: its rate starts at `start_rate` (at most
    /// 100%) and falls by `rate_decay_per_hour` each hour, down to `min_rate`. Returns the new
    /// invoice's id.
    pub fn submit_invoice_auction(
        &mut self,
        freelancer: Address,
        payer: Address,
        amount: i128,
        due_date: u64,
        start_rate: u32,
        min_rate: u32,
        rate_decay_per_hour: u32,
        token: Address,
        referral_code: Option<Hash32>,
        ledger: Ledger,
    ) -> (r: Result<u64, ContractError>)
        requires
            old(self).wf(),
            old(self).reputation.profile_of(freelancer).invoices_submitted < u32::MAX,
        ensures
            final(self).wf(),
            ({
                let e = old(self).auction_error(
                    freelancer,
                    payer,
                    amount,
                    due_date,
                    start_rate,
                    min_rate,
                    rate_decay_per_hour,
                    token,
                    ledger.timestamp,
                );
                &&& (r is Err <==> e is Some)
                &&& (r is Err ==> r == Err::<u64, ContractError>(e.unwrap()) && *final(self) == *old(self))
            }),
            r is Ok ==> r == Ok::<u64, ContractError>((old(self).invoices@.len() + 1) as u64) && final(self).records_submission(
                old(self),
                Invoice {
                    id: (old(self).invoices@.len() + 1) as u64,
                    freelancer,
                    payer,
                    token,
                    amount,
                    due_date: due_date as u32,
                    discount_rate: start_rate,
                    status: InvoiceStatus::Pending,
                    funder: None,
                    funded_at: None,
                    amount_funded: 0,
                    amount_paid: 0,
                    referral_code,
                    submitter_reputation: old(self).reputation.payer_score_at(
                        old(self).settings.config,
                        ledger.sequence,
                        freelancer,
                    ),
                    is_auction: true,
                    auction_start_rate: Some(start_rate),
                    auction_min_rate: Some(min_rate),
                    auction_rate_decay_per_hour: Some(rate_decay_per_hour),
                    auction_started_at: Some(ledger.timestamp as u32),
                    allowed_lps: None,
                },
                ledger,
                false,
            ),
    {
        if self.settings.paused {
            return Err(ContractError::ContractPaused);
        }
        if freelancer == payer {
            return Err(ContractError::SelfInvoice);
        }
        if start_rate == 0 || start_rate > MAX_AUCTION_RATE || min_rate > start_rate || rate_decay_per_hour == 0 {
            return Err(ContractError::InvalidAuctionParams);
        }
        match validate_invoice_terms(amount, due_date, start_rate, ledger.timestamp, MAX_AUCTION_RATE) {
            Err(e) => {
                return Err(e);
            },
            Ok(()) => {},
        }
        if !self.is_approved_token(token) {
            return Err(ContractError::Unauthorized);
        }
        let count = self.invoices.len() as u64;
        if count >= u64::MAX - 1 {
            return Err(ContractError::ArithmeticOverflow);
        }
        let inv = Invoice {
            id: count + 1,
            freelancer,
            payer,
            token,
            amount,
            due_date: due_date as u32,
            discount_rate: start_rate,
            status: InvoiceStatus::Pending,
            funder: None,
            funded_at: None,
            amount_funded: 0,
            amount_paid: 0,
            referral_code,
            submitter_reputation: 0,
            is_auction: true,
            auction_start_rate: Some(start_rate),
            auction_min_rate: Some(min_rate),
            auction_rate_decay_per_hour: Some(rate_decay_per_hour),
            auction_started_at: Some(ledger.timestamp as u32),
            allowed_lps: None,
        };
        let id = self.record_submission(inv, ledger, false);
        Ok(id)
    }

    /// Why `update_invoice` refuses, if it does.
    pub open spec fn update_error(
        &self,
        freelancer: Address,
        invoice_id: u64,
        amount: i128,
        due_date: u64,
        discount_rate: u32,
        now: u64,
    ) -> Option<ContractError> {
        let inv = self.inv(invoice_id);
        if self.settings.paused {
            Some(ContractError::ContractPaused)
        } else if !self.has_invoice(invoice_id) {
            Some(ContractError::InvoiceNotFound)
        } else if freelancer != inv.freelancer {
            Some(ContractError::Unauthorized)
        } else if inv.status == InvoiceStatus::Pending && now >= inv.due_date {
            Some(ContractError::InvoiceExpired)
        } else if not_pending_error(inv.status) is Some {
            not_pending_error(inv.status)
        } else {
            terms_error(amount, due_date, discount_rate, now, self.settings.max_discount_rate)
        }
    }

    /// Amends the amount, due date and discount rate of a pending invoice of `freelancer`.
    pub fn update_invoice(
        &mut self,
        freelancer: Address,
        invoice_id: u64,
        amount: i128,
        due_date: u64,
        discount_rate: u32,
        ledger: Ledger,
    ) -> (r: Result<(), ContractError>)
        requires
            old(self).wf(),
        ensures
            final(self).wf(),
            r == outcome(old(self).update_error(freelancer, invoice_id, amount, due_date, discount_rate, ledger.timestamp)),
            r is Err ==> *final(self) == *old(self),
            r is Ok ==> {
                let i = invoice_id - 1;
                &&& final(self).invoices@ == old(self).invoices@.update(
                    i,
                    Invoice { amount, due_date: due_date as u32, discount_rate, ..old(self).invoices@[i] },
                )
                &&& *final(self) == (InvoiceLiquidity { invoices: final(self).invoices, ..*old(self) })
            },
    {
        if self.settings.paused {
            return Err(ContractError::ContractPaused);
        }
        if invoice_id == 0 || invoice_id > self.invoices.len() as u64 {
            return Err(ContractError::InvoiceNotFound);
        }
        let i = (invoice_id - 1) as usize;
        if freelancer != self.invoices[i].freelancer {
            return Err(ContractError::Unauthorized);
        }
        let st = self.invoices[i].status;
        if st == InvoiceStatus::Pending && ledger.timestamp >= self.invoices[i].due_date as u64 {
            return Err(ContractError::InvoiceExpired);
        }
        match check_pending(st) {
            Err(e) => {
                return Err(e);
            },
            Ok(()) => {},
        }
        match validate_invoice_terms(amount, due_date, discount_rate, ledger.timestamp, self.settings.max_discount_rate) {
            Err(e) => {
                return Err(e);
            },
            Ok(()) => {},
        }
        self.invoices[i].amount = amount;
        self.invoices[i].due_date = due_date as u32;
        self.invoices[i].discount_rate = discount_rate;
        proof {
            assert(self.invoices@ =~= old(self).invoices@.update(i as int, self.invoices@[i as int]));
            self.lemma_wf_edit(old(self), i as int);
        }
        Ok(())
    }

    /// Why `convert_invoice_token` refuses, if it does.
    pub open spec fn convert_error(&self, freelancer: Address, invoice_id: u64, new_token: Address, now: u64) -> Option<
        ContractError,
    > {
        let inv = self.inv(invoice_id);
        if self.settings.paused {
            Some(ContractError::ContractPaused)
        } else if !self.has_invoice(invoice_id) {
            Some(ContractError::InvoiceNotFound)
        } else if freelancer != inv.freelancer {
            Some(ContractError::Unauthorized)
        } else if inv.status == InvoiceStatus::PartiallyFunded || inv.status == InvoiceStatus::Funded {
            Some(ContractError::AlreadyFunded)
        } else if inv.status == InvoiceStatus::Paid {
            Some(ContractError::AlreadyPaid)
        } else if inv.status != InvoiceStatus::Pending {
            Some(ContractError::Unauthorized)
        } else if now >= inv.due_date {
            Some(ContractError::InvoiceExpired)
        } else if !self.approved(new_token) {
            Some(ContractError::Unauthorized)
        } else {
            None
        }
    }

    /// Switches a pending invoice of `freelancer` to another approved token.
    pub fn convert_invoice_token(&mut self, freelancer: Address, invoice_id: u64, new_token: Address, ledger: Ledger) -> (r:
        Result<(), ContractError>)
        requires
            old(self).wf(),
        ensures
            final(self).wf(),
            r == outcome(old(self).convert_error(freelancer, invoice_id, new_token, ledger.timestamp)),
            r is Err ==> *final(self) == *old(self),
            r is Ok ==> {
                let i = invoice_id - 1;
                &&& final(self).invoices@ == old(self).invoices@.update(
                    i,
                    Invoice { token: new_token, ..old(self).invoices@[i] },
                )
                &&& *final(self) == (InvoiceLiquidity { invoices: final(self).invoices, ..*old(self) })
            },
    {
        if self.settings.paused {
            return Err(ContractError::ContractPaused);
        }
        if invoice_id == 0 || invoice_id > self.invoices.len() as u64 {
            return Err(ContractError::InvoiceNotFound);
        }
        let i = (invoice_id - 1) as usize;
        if freelancer != self.invoices[i].freelancer {
            return Err(ContractError::Unauthorized);
        }
        let st = self.invoices[i].status;
        if st == InvoiceStatus::PartiallyFunded || st == InvoiceStatus::Funded {
            return Err(ContractError::AlreadyFunded);
        }
        if st == InvoiceStatus::Paid {
            return Err(ContractError::AlreadyPaid);
        }
        if st != InvoiceStatus::Pending {
            return Err(ContractError::Unauthorized);
        }
        if ledger.timestamp >= self.invoices[i].due_date as u64 {
            return Err(ContractError::InvoiceExpired);
        }
        if !self.is_approved_token(new_token) {
            return Err(ContractError::Unauthorized);
        }
        self.invoices[i].token = new_token;
        proof {
            assert(self.invoices@ =~= old(self).invoices@.update(i as int, self.invoices@[i as int]));
            self.lemma_wf_edit(old(self), i as int);
        }
        Ok(())
    }

    /// Why `transfer_invoice` refuses, if it does.
    pub open spec fn transfer_error(&self, invoice_id: u64) -> Option<ContractError> {
        if self.settings.paused {
            Some(ContractError::ContractPaused)
        } else if !self.has_invoice(invoice_id) {
            Some(ContractError::InvoiceNotFound)
        } else {
            not_pending_error(self.inv(invoice_id).status)
        }
    }

    /// Hands a pending invoice over to `new_freelancer`, who will receive its liquidity.
    pub fn transfer_invoice(&mut self, invoice_id: u64, new_freelancer: Address) -> (r: Result<(), ContractError>)
        requires
            old(self).wf(),
        ensures
            final(self).wf(),
            r == outcome(old(self).transfer_error(invoice_id)),
            r is Err ==> *final(self) == *old(self),
            r is Ok ==> {
                let i = invoice_id - 1;
                let prev = old(self).invoices@[i].freelancer;
                &&& final(self).invoices@ == old(self).invoices@.update(
                    i,
                    Invoice { freelancer: new_freelancer, ..old(self).invoices@[i] },
                )
                &&& forall|b: Address| #[trigger] final(self).submitter_ids(b) == if b == new_freelancer {
                    (if b == prev {
                        old(self).submitter_ids(b).filter(other_than(invoice_id))
                    } else {
                        old(self).submitter_ids(b)
                    }).push(invoice_id)
                } else if b == prev {
                    old(self).submitter_ids(b).filter(other_than(invoice_id))
                } else {
                    old(self).submitter_ids(b)
                }
                &&& *final(self) == (InvoiceLiquidity {
                    invoices: final(self).invoices,
                    submitter_invoices: final(self).submitter_invoices,
                    ..*old(self)
                })
            },
    {
        if self.settings.paused {
            return Err(ContractError::ContractPaused);
        }
        if invoice_id == 0 || invoice_id > self.invoices.len() as u64 {
            return Err(ContractError::InvoiceNotFound);
        }
        let i = (invoice_id - 1) as usize;
        match check_pending(self.invoices[i].status) {
            Err(e) => {
                return Err(e);
            },
            Ok(()) => {},
        }
        let prev = self.invoices[i].freelancer;
        self.invoices[i].freelancer = new_freelancer;
        proof {
            assert(self.invoices@ =~= old(self).invoices@.update(i as int, self.invoices@[i as int]));
            self.lemma_wf_edit(old(self), i as int);
        }
        let ghost edited = *self;
        self.unindex_submitter(prev, invoice_id);
        let ghost unindexed = *self;
        self.index_submitter(new_freelancer, invoice_id);
        proof {
            assert forall|b: Address| #[trigger] self.submitter_ids(b) == if b == new_freelancer {
                (if b == prev {
                    old(self).submitter_ids(b).filter(other_than(invoice_id))
                } else {
                    old(self).submitter_ids(b)
                }).push(invoice_id)
            } else if b == prev {
                old(self).submitter_ids(b).filter(other_than(invoice_id))
            } else {
                old(self).submitter_ids(b)
            } by {
                assert(unindexed.submitter_ids(b) == if b == prev {
                    edited.submitter_ids(b).filter(other_than(invoice_id))
                } else {
                    edited.submitter_ids(b)
                });
                assert(edited.submitter_ids(b) == old(self).submitter_ids(b));
            }
            assert forall|a: Address, k: int| 0 <= k < self.submitter_ids(a).len() implies 1
                <= #[trigger] self.submitter_ids(a)[k] <= self.invoices@.len() by {
                lemma_filter_ids(old(self).submitter_ids(a), invoice_id, self.invoices@.len() as int);
                if a == new_freelancer {
                    let base = if a == prev {
                        old(self).submitter_ids(a).filter(other_than(invoice_id))
                    } else {
                        old(self).submitter_ids(a)
                    };
                    if k < base.len() {
                        assert(self.submitter_ids(a)[k] == base[k]);
                    }
                }
            }
            assert forall|a: Address, k: int| 0 <= k < self.lp_ids(a).len() implies 1 <= #[trigger] self.lp_ids(a)[k]
                <= self.invoices@.len() by {
                assert(self.lp_ids(a) == old(self).lp_ids(a));
            }
            assert forall|id: u64| #[trigger] self.has_invoice(id) implies {
                &&& sum_amounts(self.funders_of(id)) == self.inv(id).amount_funded
                &&& all_nonneg(self.funders_of(id))
            } by {
                assert(edited.has_invoice(id));
            }
        }
        Ok(())
    }

    /// Why `cancel_invoice` refuses, if it does.
    pub open spec fn cancel_error(&self, invoice_id: u64) -> Option<ContractError> {
        if self.locked {
            Some(ContractError::Reentrancy)
        } else if self.settings.paused {
            Some(ContractError::ContractPaused)
        } else if !self.has_invoice(invoice_id) {
            Some(ContractError::InvoiceNotFound)
        } else if self.inv(invoice_id).status == InvoiceStatus::PartiallyFunded {
            None
        } else {
            not_pending_error(self.inv(invoice_id).status)
        }
    }

    /// Cancels an invoice that is not yet fully funded; the LPs of a partly funded one get back
    /// what they paid in. Returns the refunds to carry out.
    pub fn cancel_invoice(&mut self, invoice_id: u64) -> (r: Result<Vec<Action>, ContractError>)
        requires
            old(self).wf(),
        ensures
            final(self).wf(),
            r is Err <==> old(self).cancel_error(invoice_id) is Some,
            r is Err ==> r == Err::<Vec<Action>, ContractError>(old(self).cancel_error(invoice_id).unwrap())
                && *final(self) == *old(self),
            r is Ok ==> {
                let i = invoice_id - 1;
                let inv = old(self).invoices@[i];
                &&& r->Ok_0@ == (if inv.status == InvoiceStatus::PartiallyFunded {
                    refunds(old(self).funders_of(invoice_id), inv.token, old(self).contract_address, inv.discount_rate)
                } else {
                    Seq::empty()
                })
                &&& final(self).invoices@ == old(self).invoices@.update(
                    i,
                    Invoice { status: InvoiceStatus::Cancelled, ..inv },
                )
                &&& *final(self) == (InvoiceLiquidity { invoices: final(self).invoices, ..*old(self) })
            },
    {
        if self.locked {
            return Err(ContractError::Reentrancy);
        }
        if self.settings.paused {
            return Err(ContractError::ContractPaused);
        }
        if invoice_id == 0 || invoice_id > self.invoices.len() as u64 {
            return Err(ContractError::InvoiceNotFound);
        }
        let i = (invoice_id - 1) as usize;
        let st = self.invoices[i].status;
        let mut actions: Vec<Action> = Vec::new();
        if st == InvoiceStatus::PartiallyFunded {
            actions = self.refund_actions_of(invoice_id);
        } else {
            match check_pending(st) {
                Err(e) => {
                    return Err(e);
                },
                Ok(()) => {},
            }
        }
        self.invoices[i].status = InvoiceStatus::Cancelled;
        proof {
            assert(self.invoices@ =~= old(self).invoices@.update(i as int, self.invoices@[i as int]));
            self.lemma_wf_edit(old(self), i as int);
        }
        Ok(actions)
    }

    /// Why `expire_invoice` refuses at time `now`, if it does.
    pub open spec fn expire_error(&self, invoice_id: u64, now: u64) -> Option<ContractError> {
        if !self.has_invoice(invoice_id) {
            Some(ContractError::InvoiceNotFound)
        } else if now <= self.inv(invoice_id).due_date {
            Some(ContractError::NotYetDefaulted)
        } else {
            not_pending_error(self.inv(invoice_id).status)
        }
    }

    /// Marks a pending invoice whose due date has passed as expired.
    pub fn expire_invoice(&mut self, invoice_id: u64, ledger: Ledger) -> (r: Result<(), ContractError>)
        requires
            old(self).wf(),
        ensures
            final(self).wf(),
            r == outcome(old(self).expire_error(invoice_id, ledger.timestamp)),
            r is Err ==> *final(self) == *old(self),
            r is Ok ==> {
                let i = invoice_id - 1;
                &&& final(self).invoices@ == old(self).invoices@.update(
                    i,
                    Invoice { status: InvoiceStatus::Expired, ..old(self).invoices@[i] },
                )
                &&& *final(self) == (InvoiceLiquidity { invoices: final(self).invoices, ..*old(self) })
            },
    {
        if invoice_id == 0 || invoice_id > self.invoices.len() as u64 {
            return Err(ContractError::InvoiceNotFound);
        }
        let i = (invoice_id - 1) as usize;
        if ledger.timestamp <= self.invoices[i].due_date as u64 {
            return Err(ContractError::NotYetDefaulted);
        }
        match check_pending(self.invoices[i].status) {
            Err(e) => {
                return Err(e);
            },
            Ok(()) => {},
        }
        self.invoices[i].status = InvoiceStatus::Expired;
        proof {
            assert(self.invoices@ =~= old(self).invoices@.update(i as int, self.invoices@[i as int]));
            self.lemma_wf_edit(old(self), i as int);
        }
        Ok(())
    }

    /// Why the entry `p`, the `k`-th of a batch, is refused at time `now`, if it is.
    pub open spec fn batch_entry_error(&self, p: InvoiceParams, k: int, now: u64) -> Option<ContractError> {
        if terms_error(p.amount, p.due_date, p.discount_rate, now, self.settings.max_discount_rate) is Some {
            terms_error(p.amount, p.due_date, p.discount_rate, now, self.settings.max_discount_rate)
        } else if !self.approved(p.token) {
            Some(ContractError::Unauthorized)
        } else if p.allowed_lps matches Some(v) && v@.len() > MAX_WHITELIST_SIZE {
            Some(ContractError::WhitelistTooLarge)
        } else if self.invoices@.len() + k + 2 > u64::MAX {
            Some(ContractError::ArithmeticOverflow)
        } else {
            None
        }
    }

    /// The error of the first refused entry of `ps` from the `k`-th on, if any.
    pub open spec fn batch_error_from(&self, ps: Seq<InvoiceParams>, k: int, now: u64) -> Option<ContractError>
        decreases ps.len() - k,
    {
        if k < 0 || k >= ps.len() {
            None
        } else if self.batch_entry_error(ps[k], k, now) is Some {
            self.batch_entry_error(ps[k], k, now)
        } else {
            self.batch_error_from(ps, k + 1, now)
        }
    }

    /// Why `submit_invoices_batch` refuses `ps` at time `now`, if it does.
    pub open spec fn batch_error(&self, ps: Seq<InvoiceParams>, now: u64) -> Option<ContractError> {
        if self.settings.paused {
            Some(ContractError::ContractPaused)
        } else if ps.len() > MAX_BATCH_SIZE {
            Some(ContractError::BatchTooLarge)
        } else {
            self.batch_error_from(ps, 0, now)
        }
    }

    proof fn lemma_batch_error_from(&self, ps: Seq<InvoiceParams>, k: int, now: u64)
        requires
            0 <= k <= ps.len(),
            forall|j: int| 0 <= j < k ==> self.batch_entry_error(#[trigger] ps[j], j, now) is None,
        ensures
            self.batch_error_from(ps, 0, now) == self.batch_error_from(ps, k, now),
        decreases k,
    {
        if k > 0 {
            self.lemma_batch_error_from(ps, k - 1, now);
        }
    }

    /// Submits every entry of `invoices`, in order, or none of them: the first entry refused
    /// refuses the batch. Returns the new ids.
    pub fn submit_invoices_batch(&mut self, invoices: Vec<InvoiceParams>, ledger: Ledger) -> (r: Result<Vec<u64>, ContractError>)
        requires
            old(self).wf(),
            forall|k: int| 0 <= k < invoices@.len() ==> old(self).reputation.profile_of(
                #[trigger] invoices@[k].freelancer,
            ).invoices_submitted + invoices@.len() < u32::MAX,
        ensures
            final(self).wf(),
            ({
                let e = old(self).batch_error(invoices@, ledger.timestamp);
                &&& (r is Err <==> e is Some)
                &&& (r is Err ==> r == Err::<Vec<u64>, ContractError>(e.unwrap()) && *final(self) == *old(self))
            }),
            r is Ok ==> {
                let n = old(self).invoices@.len();
                let ps = invoices@;
                let cfg = old(self).settings.config;
                &&& r->Ok_0@ == Seq::new(ps.len(), |k: int| (n + 1 + k) as u64)
                &&& final(self).invoices@ == old(self).invoices@ + Seq::new(
                    ps.len(),
                    |k: int| params_invoice(
                        ps[k],
                        (n + 1 + k) as u64,
                        old(self).reputation.payer_score_at(cfg, ledger.sequence, ps[k].freelancer),
                    ),
                )
                &&& final(self).stats == (ContractStats { total_invoices: (old(self).stats.total_invoices + ps.len()) as u64, ..old(self).stats })
                &&& final(self).referrals@ == old(self).referrals@ + batch_codes(ps)
                &&& forall|a: Address| #[trigger] final(self).submitter_ids(a) == old(self).submitter_ids(a) + batch_ids_of(ps, a, (n + 1) as int)
                &&& forall|a: Address| #[trigger] final(self).reputation.profile_of(a).invoices_submitted
                    == old(self).reputation.profile_of(a).invoices_submitted + batch_count_of(ps, a)
                &&& forall|q: Address| #[trigger] final(self).reputation.payer_score_at(cfg, ledger.sequence, q)
                    == old(self).reputation.payer_score_at(cfg, ledger.sequence, q)
                &&& final(self).reputation.lp_scores == old(self).reputation.lp_scores
                &&& final(self).reputation.top_payers == old(self).reputation.top_payers
                &&& *final(self) == (InvoiceLiquidity {
                    invoices: final(self).invoices,
                    stats: final(self).stats,
                    submitter_invoices: final(self).submitter_invoices,
                    reputation: final(self).reputation,
                    referrals: final(self).referrals,
                    ..*old(self)
                })
            },
    {
        if self.settings.paused {
            return Err(ContractError::ContractPaused);
        }
        if invoices.len() > 50 {
            return Err(ContractError::BatchTooLarge);
        }
        let count = self.invoices.len() as u64;
        let mut k: usize = 0;
        while k < invoices.len()
            invariant
                k <= invoices@.len() <= 50,
                *self == *old(self),
                !self.settings.paused,
                count == self.invoices@.len(),
                self.wf(),
                forall|j: int| 0 <= j < k ==> self.batch_entry_error(#[trigger] invoices@[j], j, ledger.timestamp) is None,
            decreases invoices@.len() - k,
        {
            let p = &invoices[k];
            match validate_invoice_terms(p.amount, p.due_date, p.discount_rate, ledger.timestamp, self.settings.max_discount_rate) {
                Err(e) => {
                    proof {
                        self.lemma_batch_error_from(invoices@, k as int, ledger.timestamp);
                    }
                    return Err(e);
                },
                Ok(()) => {},
            }
            if !self.is_approved_token(p.token) {
                proof {
                    self.lemma_batch_error_from(invoices@, k as int, ledger.timestamp);
                }
                return Err(ContractError::Unauthorized);
            }
            match &p.allowed_lps {
                Some(v) => {
                    if v.len() > 10 {
                        proof {
                            self.lemma_batch_error_from(invoices@, k as int, ledger.timestamp);
                        }
                        return Err(ContractError::WhitelistTooLarge);
                    }
                },
                None => {},
            }
            if count >= u64::MAX - 1 - k as u64 {
                proof {
                    self.lemma_batch_error_from(invoices@, k as int, ledger.timestamp);
                }
                return Err(ContractError::ArithmeticOverflow);
            }
            k = k + 1;
        }
        proof {
            self.lemma_batch_error_from(invoices@, k as int, ledger.timestamp);
        }
        let ghost g = *self;
        let ghost ps = invoices@;
        let ghost cfg = self.settings.config;
        let mut rest = invoices;
        let len = rest.len();
        let mut ids: Vec<u64> = Vec::new();
        let mut k: usize = 0;
        while k < len
            invariant
                len == ps.len(),
                k <= ps.len() <= 50,
                rest@ == ps.skip(k as int),
                g.wf(),
                self.wf(),
                cfg == self.settings.config,
                count == g.invoices@.len(),
                forall|j: int| 0 <= j < ps.len() ==> g.batch_entry_error(#[trigger] ps[j], j, ledger.timestamp) is None,
                forall|j: int| 0 <= j < ps.len() ==> g.reputation.profile_of(#[trigger] ps[j].freelancer).invoices_submitted
                    + ps.len() < u32::MAX,
                ids@ == Seq::new(k as nat, |j: int| (count + 1 + j) as u64),
                self.invoices@ == g.invoices@ + Seq::new(
                    k as nat,
                    |j: int| params_invoice(ps[j], (count + 1 + j) as u64, g.reputation.payer_score_at(cfg, ledger.sequence, ps[j].freelancer)),
                ),
                self.stats == (ContractStats { total_invoices: (g.stats.total_invoices + k) as u64, ..g.stats }),
                self.referrals@ == g.referrals@ + batch_codes(ps.take(k as int)),
                forall|a: Address| #[trigger] self.submitter_ids(a) == g.submitter_ids(a) + batch_ids_of(ps.take(k as int), a, count + 1),
                forall|a: Address| #[trigger] self.reputation.profile_of(a).invoices_submitted
                    == g.reputation.profile_of(a).invoices_submitted + batch_count_of(ps.take(k as int), a),
                forall|q: Address| #[trigger] self.reputation.payer_score_at(cfg, ledger.sequence, q)
                    == g.reputation.payer_score_at(cfg, ledger.sequence, q),
                self.reputation.lp_scores == g.reputation.lp_scores,
                self.reputation.top_payers == g.reputation.top_payers,
                *self == (InvoiceLiquidity {
                    invoices: self.invoices,
                    stats: self.stats,
                    submitter_invoices: self.submitter_invoices,
                    reputation: self.reputation,
                    referrals: self.referrals,
                    ..g
                }),
            decreases ps.len() - k,
        {
            let p = rest.remove(0);
            proof {
                assert(p == ps[k as int]);
                assert(rest@ =~= ps.skip(k + 1));
                assert(g.batch_entry_error(ps[k as int], k as int, ledger.timestamp) is None);
                lemma_batch_count_le(ps.take(k as int), p.freelancer);
                assert(self.reputation.profile_of(p.freelancer).invoices_submitted < u32::MAX);
            }
            let id = count + 1 + k as u64;
            let inv = Invoice {
                id,
                freelancer: p.freelancer,
                payer: p.payer,
                token: p.token,
                amount: p.amount,
                due_date: p.due_date as u32,
                discount_rate: p.discount_rate,
                status: InvoiceStatus::Pending,
                funder: None,
                funded_at: None,
                amount_funded: 0,
                amount_paid: 0,
                referral_code: p.referral_code,
                submitter_reputation: 0,
                is_auction: false,
                auction_start_rate: None,
                auction_min_rate: None,
                auction_rate_decay_per_hour: None,
                auction_started_at: None,
                allowed_lps: p.allowed_lps,
            };
            let ghost before = *self;
            self.record_submission(inv, ledger, false);
            proof {
                self.reputation.lemma_read_keeps_scores(&before.reputation, cfg, ledger.sequence, p.freelancer);
                before.reputation.lemma_read_keeps_counts(cfg, ledger.sequence, p.freelancer);
                let t = ps.take(k as int);
                let t1 = ps.take(k + 1);
                assert(t1.drop_last() =~= t);
                assert(t1.last() == p);
                assert(self.invoices@ =~= g.invoices@ + Seq::new(
                    (k + 1) as nat,
                    |j: int| params_invoice(ps[j], (count + 1 + j) as u64, g.reputation.payer_score_at(cfg, ledger.sequence, ps[j].freelancer)),
                ));
                assert(self.referrals@ =~= g.referrals@ + batch_codes(t1));
                assert forall|a: Address| #[trigger] self.submitter_ids(a) == g.submitter_ids(a) + batch_ids_of(t1, a, count + 1) by {
                    assert(before.submitter_ids(a) == g.submitter_ids(a) + batch_ids_of(t, a, count + 1));
                    if a == p.freelancer {
                        assert(self.submitter_ids(a) =~= g.submitter_ids(a) + batch_ids_of(t1, a, count + 1));
                    } else {
                        assert(self.submitter_ids(a) =~= g.submitter_ids(a) + batch_ids_of(t1, a, count + 1));
                    }
                }
                assert forall|a: Address| #[trigger] self.reputation.profile_of(a).invoices_submitted
                    == g.reputation.profile_of(a).invoices_submitted + batch_count_of(t1, a) by {
                    assert(before.reputation.profile_of(a).invoices_submitted
                        == g.reputation.profile_of(a).invoices_submitted + batch_count_of(t, a));
                    assert(profile_in(before.reputation.profiles_after_read(cfg, ledger.sequence, p.freelancer), a).invoices_submitted
                        == before.reputation.profile_of(a).invoices_submitted);
                }
                assert forall|q: Address| #[trigger] self.reputation.payer_score_at(cfg, ledger.sequence, q)
                    == g.reputation.payer_score_at(cfg, ledger.sequence, q) by {
                    assert(before.reputation.payer_score_at(cfg, ledger.sequence, q)
                        == g.reputation.payer_score_at(cfg, ledger.sequence, q));
                }
            }
            ids.push(id);
            proof {
                assert(ids@ =~= Seq::new((k + 1) as nat, |j: int| (count + 1 + j) as u64));
            }
            k = k + 1;
        }
        proof {
            assert(ps.take(k as int) =~= ps);
        }
        Ok(ids)
    }

    /// Number of submissions that named the referral `code`.
    pub fn get_referral_stats(&self, code: Hash32) -> (n: u64)
        requires
            self.wf(),
        ensures
            n == count_code(self.referrals@, code),
    {
        let mut n: u64 = 0;
        let mut i: usize = 0;
        while i < self.referrals.len()
            invariant
                self.wf(),
                i <= self.referrals@.len(),
                n == count_code(self.referrals@.take(i as int), code),
            decreases self.referrals@.len() - i,
        {
            proof {
                assert(self.referrals@.take(i + 1).drop_last() =~= self.referrals@.take(i as int));
                lemma_count_code_le(self.referrals@.take(i as int), code);
            }
            if hash_eq(&self.referrals[i], &code) {
                n = n + 1;
            }
            i = i + 1;
        }
        assert(self.referrals@.take(i as int) =~= self.referrals@);
        n
    }

    /// Appends `id` to the ids submitted by `a`.
    fn index_submitter(&mut self, a: Address, id: u64)
        ensures
            forall|b: Address| #[trigger] final(self).submitter_ids(b) == if b == a {
                old(self).submitter_ids(b).push(id)
            } else {
                old(self).submitter_ids(b)
            },
            *final(self) == (InvoiceLiquidity { submitter_invoices: final(self).submitter_invoices, ..*old(self) }),
    {
        let mut ids = match self.submitter_invoices.remove(&a) {
            Some(v) => v,
            None => Vec::new(),
        };
        ids.push(id);
        self.submitter_invoices.insert(a, ids);
    }

    /// Removes every occurrence of `id` from the ids submitted by `a`.
    fn unindex_submitter(&mut self, a: Address, id: u64)
        ensures
            forall|b: Address| #[trigger] final(self).submitter_ids(b) == if b == a {
                old(self).submitter_ids(b).filter(other_than(id))
            } else {
                old(self).submitter_ids(b)
            },
            final(self).submitter_invoices@.contains_key(a) ==> final(self).submitter_invoices@[a]@.len() > 0,
            *final(self) == (InvoiceLiquidity { submitter_invoices: final(self).submitter_invoices, ..*old(self) }),
    {
        let ids = match self.submitter_invoices.remove(&a) {
            Some(v) => v,
            None => Vec::new(),
        };
        let ghost old_ids = ids@;
        let mut kept: Vec<u64> = Vec::new();
        let mut i: usize = 0;
        while i < ids.len()
            invariant
                i <= ids@.len(),
                old_ids == ids@,
                kept@ == ids@.take(i as int).filter(other_than(id)),
            decreases ids@.len() - i,
        {
            proof {
                reveal_with_fuel(Seq::filter, 1);
                assert(ids@.take(i + 1).drop_last() =~= ids@.take(i as int));
            }
            if ids[i] != id {
                kept.push(ids[i]);
            }
            i = i + 1;
        }
        assert(ids@.take(i as int) =~= ids@);
        if kept.len() > 0 {
            self.submitter_invoices.insert(a, kept);
        }
    }
}

} // verus!

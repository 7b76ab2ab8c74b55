use vstd::prelude::*;
use crate::contract::{invoice_ok, InvoiceLiquidity};
use crate::counting::{count_where, in_state, lemma_count_le_len, lemma_count_push};
use crate::errors::ContractError;
use crate::invoice::{Address, ContractStats, Invoice, InvoiceStatus, Ledger, ReputationProfile, TopPayerEntry};
use crate::multisig::copy_addresses;
use crate::nft::InvoiceNftMetadata;
use crate::rate_logic::{min_int, suggested_rate_for_score, suggested_rate_spec};
use crate::top_payers::is_top_selection;

verus! {

broadcast use vstd::std_specs::hash::group_hash_axioms;

/// The whitelist of an invoice, as a sequence.
pub open spec fn lps_view(o: Option<Vec<Address>>) -> Option<Seq<Address>> {
    match o {
        Some(v) => Some(v@),
        None => None,
    }
}

/// `a` and `b` hold the same invoice.
pub open spec fn same_invoice(a: Invoice, b: Invoice) -> bool {
    &&& (Invoice { allowed_lps: None, ..a }) == (Invoice { allowed_lps: None, ..b })
    &&& lps_view(a.allowed_lps) == lps_view(b.allowed_lps)
}

/// A copy of `inv`.
pub fn copy_invoice(inv: &Invoice) -> (r: Invoice)
    ensures
        same_invoice(r, *inv),
{
    let allowed_lps = match &inv.allowed_lps {
        Some(v) => Some(copy_addresses(v)),
        None => None,
    };
    Invoice {
        id: inv.id,
        freelancer: inv.freelancer,
        payer: inv.payer,
        token: inv.token,
        amount: inv.amount,
        due_date: inv.due_date,
        discount_rate: inv.discount_rate,
        status: inv.status,
        funder: inv.funder,
        funded_at: inv.funded_at,
        amount_funded: inv.amount_funded,
        amount_paid: inv.amount_paid,
        referral_code: inv.referral_code,
        submitter_reputation: inv.submitter_reputation,
        is_auction: inv.is_auction,
        auction_start_rate: inv.auction_start_rate,
        auction_min_rate: inv.auction_min_rate,
        auction_rate_decay_per_hour: inv.auction_rate_decay_per_hour,
        auction_started_at: inv.auction_started_at,
        allowed_lps,
    }
}

/// The window of a page: the entries of a list of `len` from `page * size` on, at most `size`
/// of them, where the size asked for is capped at 50.
pub open spec fn page_window(len: nat, page: u32, page_size: u32) -> (int, int) {
    let size = min_int(page_size as int, 50);
    let start = page as int * size;
    if start >= len { (0, 0) } else { (start, min_int(start + size, len as int)) }
}

impl InvoiceLiquidity {
    /// The invoice `invoice_id`.
    pub fn get_invoice(&self, invoice_id: u64) -> (r: Result<&Invoice, ContractError>)
        ensures
            !self.has_invoice(invoice_id) ==> r == Err::<&Invoice, ContractError>(ContractError::InvoiceNotFound),
            self.has_invoice(invoice_id) ==> r == Ok::<&Invoice, ContractError>(&self.inv(invoice_id)),
    {
        if invoice_id == 0 || invoice_id > self.invoices.len() as u64 {
            return Err(ContractError::InvoiceNotFound);
        }
        Ok(&self.invoices[(invoice_id - 1) as usize])
    }

    /// The number of invoices, or of those in state `state` when one is given.
    pub fn get_invoice_count(&self, state: Option<InvoiceStatus>) -> (n: u64)
        requires
            self.wf(),
        ensures
            n == match state {
                None => self.invoices@.len(),
                Some(st) => count_where(self.invoices@, in_state(st)),
            },
    {
        match state {
            None => self.stats.total_invoices,
            Some(st) => {
                let mut n: u64 = 0;
                let mut i: usize = 0;
                while i < self.invoices.len()
                    invariant
                        self.wf(),
                        i <= self.invoices@.len(),
                        n == count_where(self.invoices@.take(i as int), in_state(st)),
                    decreases self.invoices@.len() - i,
                {
                    proof {
                        lemma_count_push(self.invoices@.take(i as int), self.invoices@[i as int], in_state(st));
                        assert(self.invoices@.take(i + 1) =~= self.invoices@.take(i as int).push(self.invoices@[i as int]));
                        lemma_count_le_len(self.invoices@.take(i as int), in_state(st));
                    }
                    if self.invoices[i].status == st {
                        n = n + 1;
                    }
                    i = i + 1;
                }
                proof {
                    assert(self.invoices@.take(i as int) =~= self.invoices@);
                }
                n
            },
        }
    }

    /// Copies of the invoices named by the ids in `ids` that fall in the page window.
    fn page_of(&self, ids: &Vec<u64>, page: u32, page_size: u32) -> (r: Vec<Invoice>)
        requires
            self.wf(),
            page as int * min_int(page_size as int, 50) <= u32::MAX,
            forall|k: int| 0 <= k < ids@.len() ==> 1 <= #[trigger] ids@[k] <= self.invoices@.len(),
        ensures
            ({
                let (start, end) = page_window(ids@.len(), page, page_size);
                &&& r@.len() == end - start
                &&& forall|k: int| 0 <= k < r@.len() ==> same_invoice(#[trigger] r@[k], self.inv(ids@[start + k]))
            }),
    {
        let size: u32 = if page_size < 50 { page_size } else { 50 };
        let start = page as u64 * size as u64;
        let len = ids.len() as u64;
        let mut r: Vec<Invoice> = Vec::new();
        if start >= len {
            return r;
        }
        let end = if start + (size as u64) < len { start + size as u64 } else { len };
        let n = self.invoices.len();
        let mut i = start;
        while i < end
            invariant
                start <= i <= end <= len == ids@.len(),
                len == ids.len() as u64,
                n == self.invoices@.len(),
                r@.len() == i - start,
                forall|k: int| 0 <= k < ids@.len() ==> 1 <= #[trigger] ids@[k] <= self.invoices@.len(),
                forall|k: int| 0 <= k < r@.len() ==> same_invoice(#[trigger] r@[k], self.inv(ids@[start + k])),
            decreases end - i,
        {
            let j = i as usize;
            assert(j as int == i as int);
            let id = ids[j];
            proof {
                assert(1 <= ids@[i as int] <= self.invoices@.len());
            }
            let p = (id - 1) as usize;
            assert(p as int == id - 1 && p < n);
            let inv = copy_invoice(&self.invoices[p]);
            let ghost before = r@;
            r.push(inv);
            proof {
                assert forall|k: int| 0 <= k < r@.len() implies same_invoice(#[trigger] r@[k], self.inv(ids@[start + k])) by {
                    if k < before.len() {
                        assert(r@[k] == before[k]);
                    }
                }
            }
            i = i + 1;
        }
        r
    }

    /// A page of the invoices `submitter` has submitted: `page_size` (at most 50) of them from
    /// the `page`-th page on.
    pub fn list_invoices_by_submitter(&self, submitter: Address, page: u32, page_size: u32) -> (r: Vec<Invoice>)
        requires
            self.wf(),
            page as int * min_int(page_size as int, 50) <= u32::MAX,
        ensures
            ({
                let ids = self.submitter_ids(submitter);
                let (start, end) = page_window(ids.len(), page, page_size);
                &&& r@.len() == end - start
                &&& forall|k: int| 0 <= k < r@.len() ==> same_invoice(#[trigger] r@[k], self.inv(ids[start + k]))
            }),
    {
        let empty: Vec<u64> = Vec::new();
        let ids = match self.submitter_invoices.get(&submitter) {
            Some(v) => v,
            None => &empty,
        };
        proof {
            assert(ids@ == self.submitter_ids(submitter));
            assert forall|k: int| 0 <= k < ids@.len() implies 1 <= #[trigger] ids@[k] <= self.invoices@.len() by {
                assert(ids@[k] == self.submitter_ids(submitter)[k]);
            }
        }
        self.page_of(ids, page, page_size)
    }

    /// A page of the invoices `lp` has funded: `page_size` (at most 50) of them from the
    /// `page`-th page on.
    pub fn list_invoices_by_lp(&self, lp: Address, page: u32, page_size: u32) -> (r: Vec<Invoice>)
        requires
            self.wf(),
            page as int * min_int(page_size as int, 50) <= u32::MAX,
        ensures
            ({
                let ids = self.lp_ids(lp);
                let (start, end) = page_window(ids.len(), page, page_size);
                &&& r@.len() == end - start
                &&& forall|k: int| 0 <= k < r@.len() ==> same_invoice(#[trigger] r@[k], self.inv(ids[start + k]))
            }),
    {
        let empty: Vec<u64> = Vec::new();
        let ids = match self.lp_invoices.get(&lp) {
            Some(v) => v,
            None => &empty,
        };
        proof {
            assert(ids@ == self.lp_ids(lp));
            assert forall|k: int| 0 <= k < ids@.len() implies 1 <= #[trigger] ids@[k] <= self.invoices@.len() by {
                assert(ids@[k] == self.lp_ids(lp)[k]);
            }
        }
        self.page_of(ids, page, page_size)
    }

    /// The score of `payer` at `ledger`; a decayed score is written back.
    pub fn payer_score(&mut self, payer: Address, ledger: Ledger) -> (s: u32)
        requires
            old(self).wf(),
        ensures
            final(self).wf(),
            s == old(self).reputation.payer_score_at(old(self).settings.config, ledger.sequence, payer),
            final(self).reputation.payer_scores@ == old(self).reputation.scores_after_read(
                old(self).settings.config,
                ledger.sequence,
                payer,
            ),
            final(self).reputation.profiles@ == old(self).reputation.profiles_after_read(
                old(self).settings.config,
                ledger.sequence,
                payer,
            ),
            final(self).reputation.lp_scores == old(self).reputation.lp_scores,
            final(self).reputation.top_payers == old(self).reputation.top_payers,
            *final(self) == (InvoiceLiquidity { reputation: final(self).reputation, ..*old(self) }),
    {
        let s = self.reputation.get_payer_score(self.settings.config, ledger.sequence, payer);
        proof {
            self.lemma_wf_frame_reputation(old(self));
        }
        s
    }

    /// The discount rate suggested for `payer` from its score at `ledger`; reading the score
    /// writes a decayed score back, as `payer_score` does.
    pub fn suggested_discount_rate(&mut self, payer: Address, ledger: Ledger) -> (rate: u32)
        requires
            old(self).wf(),
        ensures
            final(self).wf(),
            rate == suggested_rate_spec(
                old(self).reputation.payer_score_at(old(self).settings.config, ledger.sequence, payer),
            ),
            final(self).reputation.payer_scores@ == old(self).reputation.scores_after_read(
                old(self).settings.config,
                ledger.sequence,
                payer,
            ),
            final(self).reputation.profiles@ == old(self).reputation.profiles_after_read(
                old(self).settings.config,
                ledger.sequence,
                payer,
            ),
            final(self).reputation.lp_scores == old(self).reputation.lp_scores,
            final(self).reputation.top_payers == old(self).reputation.top_payers,
            *final(self) == (InvoiceLiquidity { reputation: final(self).reputation, ..*old(self) }),
    {
        let s = self.payer_score(payer, ledger);
        suggested_rate_for_score(s)
    }

    /// The LP score of `lp`.
    pub fn lp_score(&self, lp: Address) -> (s: u32)
        ensures
            s == self.reputation.lp_score_of(lp),
    {
        self.reputation.get_lp_score(lp)
    }

    /// The reputation profile of `address`; an unknown address has an empty one.
    pub fn get_reputation(&self, address: Address) -> (p: ReputationProfile)
        ensures
            p == self.reputation.profile_of(address),
    {
        self.reputation.get_reputation(address)
    }

    /// Up to `limit` of the payers with the highest scores, highest first.
    pub fn get_top_payers(&self, limit: u32) -> (r: Vec<TopPayerEntry>)
        ensures
            r@.len() == min_int(limit as int, self.reputation.top_payers@.len() as int),
            exists|idx: Seq<int>| is_top_selection(self.reputation.top_payers@, r@, idx),
            forall|a: int, b: int| 0 <= a < b < r@.len() ==> r@[a].score >= r@[b].score,
    {
        crate::top_payers::get_top_payers(&self.reputation.top_payers, limit)
    }

    /// The protocol-wide counters.
    pub fn get_contract_stats(&self) -> (s: ContractStats)
        ensures
            s == self.stats,
    {
        self.stats
    }

    /// The metadata of the NFT of the invoice `invoice_id`.
    pub fn get_invoice_nft_metadata(&self, invoice_id: u64) -> (r: Result<InvoiceNftMetadata, ContractError>)
        ensures
            r == (if self.nfts.view_map().contains_key(invoice_id) {
                Ok::<InvoiceNftMetadata, ContractError>(self.nfts.view_map()[invoice_id])
            } else {
                Err(ContractError::InvoiceNftNotFound)
            }),
    {
        match self.nfts.get_invoice_nft_metadata(invoice_id) {
            Some(m) => Ok(m),
            None => Err(ContractError::InvoiceNftNotFound),
        }
    }

    /// The holder of the NFT of the invoice `invoice_id`, if it exists.
    pub fn get_invoice_nft_owner(&self, invoice_id: u64) -> (r: Option<Address>)
        ensures
            r == (if self.nfts.view_map().contains_key(invoice_id) {
                Some(self.nfts.view_map()[invoice_id].owner)
            } else {
                None
            }),
    {
        self.nfts.get_invoice_nft_owner(invoice_id)
    }

    /// Whether the invoice `invoice_id` has an NFT.
    pub fn invoice_nft_exists(&self, invoice_id: u64) -> (b: bool)
        ensures
            b == self.nfts.view_map().contains_key(invoice_id),
    {
        self.nfts.invoice_nft_exists(invoice_id)
    }
}

} // verus!

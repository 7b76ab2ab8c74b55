use vstd::prelude::*;
use crate::constants::{APPEAL_WINDOW_SECONDS, DEFAULT_PAYER_SCORE};
use crate::contract::{invoice_ok, InvoiceLiquidity};
use crate::counting::{all_nonneg, sum_amounts};
use crate::errors::ContractError;
use crate::invoice::{
    Action, Address, AppealRecord, DisputeRecord, Hash32, Invoice, InvoiceStatus, Ledger, ReputationProfile,
    ReputationScore,
};
use crate::lifecycle::{outcome, refunds};
use crate::rate_logic::min_int;
use crate::reputation::{profile_in, store_profile};
use crate::top_payers::heap_updated;

verus! {

broadcast use vstd::std_specs::hash::group_hash_axioms;

/// The state a disputed invoice returns to when the dispute is rejected: by how much it is funded.
pub open spec fn restored_status(inv: Invoice) -> InvoiceStatus {
    if inv.amount_funded == inv.amount {
        InvoiceStatus::Funded
    } else if inv.amount_funded > 0 {
        InvoiceStatus::PartiallyFunded
    } else {
        InvoiceStatus::Pending
    }
}

/// Why an invoice in state `st` cannot be disputed, if it cannot.
pub open spec fn not_disputable_error(st: InvoiceStatus) -> Option<ContractError> {
    match st {
        InvoiceStatus::Pending | InvoiceStatus::PartiallyFunded | InvoiceStatus::Funded => None,
        InvoiceStatus::Paid => Some(ContractError::AlreadyPaid),
        InvoiceStatus::Defaulted => Some(ContractError::InvoiceDefaulted),
        InvoiceStatus::Appealed => Some(ContractError::InvoiceAppealed),
        InvoiceStatus::Expired => Some(ContractError::InvoiceExpired),
        InvoiceStatus::Cancelled => Some(ContractError::AlreadyCancelled),
        InvoiceStatus::Disputed => Some(ContractError::AlreadyDisputed),
    }
}

/// `x - 1`, not below zero.
pub open spec fn sat_dec(x: u32) -> u32 {
    if x > 0 { (x - 1) as u32 } else { 0 }
}

impl InvoiceLiquidity {
    /// Why `appeal_default` refuses at time `now`, if it does.
    pub open spec fn appeal_error(&self, invoice_id: u64, now: u64) -> Option<ContractError> {
        let inv = self.inv(invoice_id);
        if !self.has_invoice(invoice_id) {
            Some(ContractError::InvoiceNotFound)
        } else if self.appeals@.contains_key(invoice_id) {
            Some(ContractError::AlreadyAppealed)
        } else if inv.status != InvoiceStatus::Defaulted {
            Some(ContractError::NotDefaulted)
        } else if now > inv.due_date + APPEAL_WINDOW_SECONDS {
            Some(ContractError::AppealWindowClosed)
        } else {
            None
        }
    }

    /// The payer contests the default of the invoice within the appeal window, with a hash of
    /// its evidence; the score it had before the default is kept with the appeal.
    pub fn appeal_default(&mut self, invoice_id: u64, evidence_hash: Hash32, ledger: Ledger) -> (r: Result<(), ContractError>)
        requires
            old(self).wf(),
            ledger.timestamp <= u32::MAX,
        ensures
            final(self).wf(),
            r == outcome(old(self).appeal_error(invoice_id, ledger.timestamp)),
            r is Err ==> *final(self) == *old(self),
            r is Ok ==> {
                let inv = old(self).inv(invoice_id);
                let cfg = old(self).settings.config;
                let noted = old(self).pre_default_scores@.contains_key(invoice_id);
                let pre = if noted {
                    old(self).pre_default_scores@[invoice_id]
                } else {
                    old(self).reputation.payer_score_at(cfg, ledger.sequence, inv.payer)
                };
                &&& final(self).invoices@ == old(self).invoices@.update(
                    invoice_id - 1,
                    Invoice { status: InvoiceStatus::Appealed, ..inv },
                )
                &&& final(self).appeals@ == old(self).appeals@.insert(
                    invoice_id,
                    AppealRecord { evidence_hash, appealed_at: ledger.timestamp as u32, pre_default_score: pre },
                )
                &&& final(self).reputation.payer_scores@ == if noted {
                    old(self).reputation.payer_scores@
                } else {
                    old(self).reputation.scores_after_read(cfg, ledger.sequence, inv.payer)
                }
                &&& final(self).reputation.profiles@ == if noted {
                    old(self).reputation.profiles@
                } else {
                    old(self).reputation.profiles_after_read(cfg, ledger.sequence, inv.payer)
                }
                &&& final(self).reputation.lp_scores == old(self).reputation.lp_scores
                &&& final(self).reputation.top_payers == old(self).reputation.top_payers
                &&& *final(self) == (InvoiceLiquidity {
                    invoices: final(self).invoices,
                    appeals: final(self).appeals,
                    reputation: final(self).reputation,
                    ..*old(self)
                })
            },
    {
        if invoice_id == 0 || invoice_id > self.invoices.len() as u64 {
            return Err(ContractError::InvoiceNotFound);
        }
        let ghost g = *self;
        let i = (invoice_id - 1) as usize;
        if self.appeals.contains_key(&invoice_id) {
            return Err(ContractError::AlreadyAppealed);
        }
        if self.invoices[i].status != InvoiceStatus::Defaulted {
            return Err(ContractError::NotDefaulted);
        }
        if ledger.timestamp > self.invoices[i].due_date as u64 + APPEAL_WINDOW_SECONDS {
            return Err(ContractError::AppealWindowClosed);
        }
        let payer = self.invoices[i].payer;
        let pre = match self.pre_default_scores.get(&invoice_id) {
            Some(s) => *s,
            None => self.reputation.get_payer_score(self.settings.config, ledger.sequence, payer),
        };
        self.appeals.insert(
            invoice_id,
            AppealRecord { evidence_hash, appealed_at: ledger.timestamp as u32, pre_default_score: pre },
        );
        self.invoices[i].status = InvoiceStatus::Appealed;
        proof {
            assert(self.invoices@ =~= g.invoices@.update(i as int, self.invoices@[i as int]));
            self.lemma_wf_edit(&g, i as int);
        }
        Ok(())
    }

    /// Why `resolve_appeal` refuses, if it does.
    pub open spec fn resolve_appeal_error(&self, invoice_id: u64) -> Option<ContractError> {
        if !self.has_invoice(invoice_id) {
            Some(ContractError::InvoiceNotFound)
        } else if self.inv(invoice_id).status != InvoiceStatus::Appealed {
            Some(ContractError::NotDefaulted)
        } else if !self.appeals@.contains_key(invoice_id) {
            Some(ContractError::InvoiceNotFound)
        } else {
            None
        }
    }

    /// Rules on an appeal. Either way the invoice is defaulted again; an upheld appeal gives the
    /// payer back the score it had before the default and takes one default off its count.
    pub fn resolve_appeal(&mut self, invoice_id: u64, upheld: bool, ledger: Ledger) -> (r: Result<(), ContractError>)
        requires
            old(self).wf(),
        ensures
            final(self).wf(),
            r == outcome(old(self).resolve_appeal_error(invoice_id)),
            r is Err ==> *final(self) == *old(self),
            r is Ok ==> {
                let inv = old(self).inv(invoice_id);
                let cfg = old(self).settings.config;
                let book = old(self).reputation;
                let s = min_int(old(self).appeals@[invoice_id].pre_default_score as int, 100) as u32;
                let restored = store_profile(book.profiles@, ReputationProfile { score: s, ..book.profile_of(inv.payer) });
                &&& final(self).invoices@ == old(self).invoices@.update(
                    invoice_id - 1,
                    Invoice { status: InvoiceStatus::Defaulted, ..inv },
                )
                &&& upheld ==> {
                    &&& final(self).reputation.payer_scores@ == (if s == DEFAULT_PAYER_SCORE {
                        book.payer_scores@.remove(inv.payer)
                    } else {
                        book.payer_scores@.insert(inv.payer, ReputationScore { score: s, last_activity_ledger: ledger.sequence })
                    })
                    &&& final(self).reputation.profiles@ == store_profile(
                        restored,
                        ReputationProfile {
                            invoices_defaulted: sat_dec(profile_in(restored, inv.payer).invoices_defaulted),
                            ..profile_in(restored, inv.payer)
                        },
                    )
                    &&& book.payer_score_at(cfg, ledger.sequence, inv.payer) != s ==> heap_updated(
                        book.top_payers@,
                        final(self).reputation.top_payers@,
                        inv.payer,
                        s,
                    )
                    &&& book.payer_score_at(cfg, ledger.sequence, inv.payer) == s ==> final(self).reputation.top_payers
                        == book.top_payers
                    &&& final(self).reputation.lp_scores == book.lp_scores
                }
                &&& !upheld ==> final(self).reputation == book
                &&& *final(self) == (InvoiceLiquidity {
                    invoices: final(self).invoices,
                    reputation: final(self).reputation,
                    ..*old(self)
                })
            },
    {
        if invoice_id == 0 || invoice_id > self.invoices.len() as u64 {
            return Err(ContractError::InvoiceNotFound);
        }
        let ghost g = *self;
        let i = (invoice_id - 1) as usize;
        if self.invoices[i].status != InvoiceStatus::Appealed {
            return Err(ContractError::NotDefaulted);
        }
        let pre = match self.appeals.get(&invoice_id) {
            None => {
                return Err(ContractError::InvoiceNotFound);
            },
            Some(a) => a.pre_default_score,
        };
        let payer = self.invoices[i].payer;
        if upheld {
            self.reputation.set_payer_score(self.settings.config, ledger.sequence, payer, pre);
            let mut profile = self.reputation.get_reputation(payer);
            profile.invoices_defaulted = if profile.invoices_defaulted > 0 { profile.invoices_defaulted - 1 } else { 0 };
            self.reputation.set_reputation(profile);
        }
        self.invoices[i].status = InvoiceStatus::Defaulted;
        proof {
            assert(self.invoices@ =~= g.invoices@.update(i as int, self.invoices@[i as int]));
            self.lemma_wf_edit(&g, i as int);
        }
        Ok(())
    }

    /// Why `dispute_invoice` refuses, if it does.
    pub open spec fn dispute_error(&self, invoice_id: u64) -> Option<ContractError> {
        if self.settings.paused {
            Some(ContractError::ContractPaused)
        } else if !self.has_invoice(invoice_id) {
            Some(ContractError::InvoiceNotFound)
        } else if self.disputes@.contains_key(invoice_id) {
            Some(ContractError::AlreadyDisputed)
        } else {
            not_disputable_error(self.inv(invoice_id).status)
        }
    }

    /// The payer disputes an invoice before it is settled, with a hash of its reasons.
    pub fn dispute_invoice(&mut self, invoice_id: u64, reason_hash: Hash32, ledger: Ledger) -> (r: Result<(), ContractError>)
        requires
            old(self).wf(),
        ensures
            final(self).wf(),
            r == outcome(old(self).dispute_error(invoice_id)),
            r is Err ==> *final(self) == *old(self),
            r is Ok ==> {
                &&& final(self).invoices@ == old(self).invoices@.update(
                    invoice_id - 1,
                    Invoice { status: InvoiceStatus::Disputed, ..old(self).inv(invoice_id) },
                )
                &&& final(self).disputes@ == old(self).disputes@.insert(
                    invoice_id,
                    DisputeRecord { reason_hash, disputed_at: ledger.sequence },
                )
                &&& *final(self) == (InvoiceLiquidity {
                    invoices: final(self).invoices,
                    disputes: final(self).disputes,
                    ..*old(self)
                })
            },
    {
        if self.settings.paused {
            return Err(ContractError::ContractPaused);
        }
        if invoice_id == 0 || invoice_id > self.invoices.len() as u64 {
            return Err(ContractError::InvoiceNotFound);
        }
        let ghost g = *self;
        let i = (invoice_id - 1) as usize;
        if self.disputes.contains_key(&invoice_id) {
            return Err(ContractError::AlreadyDisputed);
        }
        match self.invoices[i].status {
            InvoiceStatus::Pending | InvoiceStatus::PartiallyFunded | InvoiceStatus::Funded => {},
            InvoiceStatus::Paid => {
                return Err(ContractError::AlreadyPaid);
            },
            InvoiceStatus::Defaulted => {
                return Err(ContractError::InvoiceDefaulted);
            },
            InvoiceStatus::Appealed => {
                return Err(ContractError::InvoiceAppealed);
            },
            InvoiceStatus::Expired => {
                return Err(ContractError::InvoiceExpired);
            },
            InvoiceStatus::Cancelled => {
                return Err(ContractError::AlreadyCancelled);
            },
            InvoiceStatus::Disputed => {
                return Err(ContractError::AlreadyDisputed);
            },
        }
        self.disputes.insert(invoice_id, DisputeRecord { reason_hash, disputed_at: ledger.sequence });
        self.invoices[i].status = InvoiceStatus::Disputed;
        proof {
            assert(self.invoices@ =~= g.invoices@.update(i as int, self.invoices@[i as int]));
            self.lemma_wf_edit(&g, i as int);
        }
        Ok(())
    }

    /// Puts a disputed invoice back in the state its funding gives it.
    fn restore_disputed(&mut self, invoice_id: u64)
        requires
            old(self).wf(),
            old(self).has_invoice(invoice_id),
            old(self).inv(invoice_id).status == InvoiceStatus::Disputed,
        ensures
            final(self).wf(),
            final(self).invoices@ == old(self).invoices@.update(
                invoice_id - 1,
                Invoice { status: restored_status(old(self).inv(invoice_id)), ..old(self).inv(invoice_id) },
            ),
            *final(self) == (InvoiceLiquidity { invoices: final(self).invoices, ..*old(self) }),
    {
        let ghost g = *self;
        let n = self.invoices.len();
        let i = (invoice_id - 1) as usize;
        assert(i as int == invoice_id - 1 && i < n);
        let st = if self.invoices[i].amount_funded == self.invoices[i].amount {
            InvoiceStatus::Funded
        } else if self.invoices[i].amount_funded > 0 {
            InvoiceStatus::PartiallyFunded
        } else {
            InvoiceStatus::Pending
        };
        self.invoices[i].status = st;
        proof {
            assert(invoice_ok(g.invoices@[i as int]));
            assert(self.invoices@ =~= g.invoices@.update(i as int, self.invoices@[i as int]));
            self.lemma_wf_edit(&g, i as int);
        }
    }

    /// Why `resolve_dispute` refuses the ruling `resolution`, if it does.
    pub open spec fn resolve_dispute_error(&self, invoice_id: u64, resolution: u32) -> Option<ContractError> {
        if self.settings.admin is None {
            Some(ContractError::Unauthorized)
        } else if !self.has_invoice(invoice_id) {
            Some(ContractError::InvoiceNotFound)
        } else if self.inv(invoice_id).status != InvoiceStatus::Disputed {
            Some(ContractError::NotDisputed)
        } else if resolution != 1 && resolution != 2 {
            Some(ContractError::Unauthorized)
        } else {
            None
        }
    }

    /// The admin rules on a dispute: 1 upholds it (the LPs are refunded and the invoice is
    /// cancelled), 2 rejects it (the invoice returns to the state its funding gives it). Returns
    /// the refunds to carry out.
    pub fn resolve_dispute(&mut self, invoice_id: u64, resolution_hash: Hash32, resolution: u32) -> (r: Result<
        Vec<Action>,
        ContractError,
    >)
        requires
            old(self).wf(),
        ensures
            final(self).wf(),
            old(self).resolve_dispute_error(invoice_id, resolution) is Some <==> r is Err,
            r is Err ==> r == Err::<Vec<Action>, ContractError>(old(self).resolve_dispute_error(invoice_id, resolution).unwrap())
                && *final(self) == *old(self),
            r is Ok && resolution == 1 ==> {
                let inv = old(self).inv(invoice_id);
                &&& r->Ok_0@ == refunds(old(self).funders_of(invoice_id), inv.token, old(self).contract_address, inv.discount_rate)
                &&& final(self).invoices@ == old(self).invoices@.update(
                    invoice_id - 1,
                    Invoice { status: InvoiceStatus::Cancelled, ..inv },
                )
                &&& *final(self) == (InvoiceLiquidity { invoices: final(self).invoices, ..*old(self) })
            },
            r is Ok && resolution == 2 ==> {
                let inv = old(self).inv(invoice_id);
                &&& r->Ok_0@.len() == 0
                &&& final(self).invoices@ == old(self).invoices@.update(
                    invoice_id - 1,
                    Invoice { status: restored_status(inv), ..inv },
                )
                &&& *final(self) == (InvoiceLiquidity { invoices: final(self).invoices, ..*old(self) })
            },
    {
        if self.settings.admin.is_none() {
            return Err(ContractError::Unauthorized);
        }
        if invoice_id == 0 || invoice_id > self.invoices.len() as u64 {
            return Err(ContractError::InvoiceNotFound);
        }
        let ghost g = *self;
        let i = (invoice_id - 1) as usize;
        if self.invoices[i].status != InvoiceStatus::Disputed {
            return Err(ContractError::NotDisputed);
        }
        if resolution == 1 {
            let actions = self.refund_actions_of(invoice_id);
            self.invoices[i].status = InvoiceStatus::Cancelled;
            proof {
                assert(self.invoices@ =~= g.invoices@.update(i as int, self.invoices@[i as int]));
                self.lemma_wf_edit(&g, i as int);
            }
            Ok(actions)
        } else if resolution == 2 {
            self.restore_disputed(invoice_id);
            Ok(Vec::new())
        } else {
            Err(ContractError::Unauthorized)
        }
    }

    /// Why `auto_resolve_dispute` refuses at ledger `sequence`, if it does.
    pub open spec fn auto_resolve_error(&self, invoice_id: u64, sequence: u32) -> Option<ContractError> {
        if !self.has_invoice(invoice_id) {
            Some(ContractError::InvoiceNotFound)
        } else if self.inv(invoice_id).status != InvoiceStatus::Disputed {
            Some(ContractError::NotDisputed)
        } else if !self.disputes@.contains_key(invoice_id) {
            Some(ContractError::InvoiceNotFound)
        } else if self.settings.config is None {
            Some(ContractError::Unauthorized)
        } else if sequence < self.disputes@[invoice_id].disputed_at + self.settings.config.unwrap().dispute_timeout_ledgers {
            Some(ContractError::Unauthorized)
        } else {
            None
        }
    }

    /// Rejects a dispute that has not been ruled on within the dispute timeout: the invoice
    /// returns to the state its funding gives it.
    pub fn auto_resolve_dispute(&mut self, invoice_id: u64, ledger: Ledger) -> (r: Result<(), ContractError>)
        requires
            old(self).wf(),
        ensures
            final(self).wf(),
            r == outcome(old(self).auto_resolve_error(invoice_id, ledger.sequence)),
            r is Err ==> *final(self) == *old(self),
            r is Ok ==> final(self).invoices@ == old(self).invoices@.update(
                invoice_id - 1,
                Invoice { status: restored_status(old(self).inv(invoice_id)), ..old(self).inv(invoice_id) },
            ) && *final(self) == (InvoiceLiquidity { invoices: final(self).invoices, ..*old(self) }),
    {
        if invoice_id == 0 || invoice_id > self.invoices.len() as u64 {
            return Err(ContractError::InvoiceNotFound);
        }
        let i = (invoice_id - 1) as usize;
        if self.invoices[i].status != InvoiceStatus::Disputed {
            return Err(ContractError::NotDisputed);
        }
        let disputed_at = match self.disputes.get(&invoice_id) {
            None => {
                return Err(ContractError::InvoiceNotFound);
            },
            Some(d) => d.disputed_at,
        };
        let timeout = match self.settings.config {
            None => {
                return Err(ContractError::Unauthorized);
            },
            Some(c) => c.dispute_timeout_ledgers,
        };
        if (ledger.sequence as u64) < (disputed_at as u64).saturating_add(timeout) {
            return Err(ContractError::Unauthorized);
        }
        proof {
            if disputed_at as int + timeout as int > u64::MAX {
                assert(false);
            }
        }
        self.restore_disputed(invoice_id);
        Ok(())
    }
}

} // verus!

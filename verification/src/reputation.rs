use vstd::prelude::*;
use std::collections::HashMap;
use crate::constants::{DEFAULT_LP_SCORE, DEFAULT_PAYER_SCORE, MAX_SCORE};
use crate::invoice::{Address, Config, ReputationProfile, ReputationScore, TopPayerEntry};
use crate::rate_logic::{min_int, sat_sub};
use crate::top_payers::{heap_updated, top_heap_ok, update_top_payers_on_score_change};

verus! {

broadcast use vstd::std_specs::hash::group_hash_axioms;

/// One decay step of a score: `rate_bps` basis points of it, at least one point while it is
/// positive, never below zero.
pub open spec fn decay_step(score: int, rate_bps: int) -> int {
    let d = score * rate_bps / 10_000;
    let d2 = if d == 0 && score > 0 { 1 } else { d };
    sat_sub(score, d2)
}

/// A score after `periods` decay steps.
pub open spec fn decay_steps(score: int, rate_bps: int, periods: nat) -> int
    decreases periods,
{
    if periods == 0 {
        score
    } else {
        decay_step(decay_steps(score, rate_bps, (periods - 1) as nat), rate_bps)
    }
}

pub proof fn lemma_decay_bounds(score: int, rate_bps: int, periods: nat)
    requires
        0 <= score,
        0 <= rate_bps,
    ensures
        0 <= decay_steps(score, rate_bps, periods) <= score,
    decreases periods,
{
    if periods > 0 {
        lemma_decay_bounds(score, rate_bps, (periods - 1) as nat);
        let prev = decay_steps(score, rate_bps, (periods - 1) as nat);
        assert(prev * rate_bps / 10_000 >= 0) by (nonlinear_arith)
            requires prev >= 0, rate_bps >= 0;
    }
}

proof fn lemma_decay_stays_zero(score: int, rate_bps: int, k: nat, n: nat)
    requires
        k <= n,
        decay_steps(score, rate_bps, k) == 0,
    ensures
        decay_steps(score, rate_bps, n) == 0,
    decreases n - k,
{
    if k < n {
        lemma_decay_stays_zero(score, rate_bps, k, (n - 1) as nat);
    }
}

/// Whether a stored score last changed at `last` has decayed by ledger `sequence`.
pub open spec fn decay_applies(config: Option<Config>, last: u32, sequence: u32) -> bool {
    config matches Some(c) && sat_sub(sequence as int, last as int) >= c.decay_period_ledgers
        && c.decay_period_ledgers > 0 && c.decay_rate_bps > 0
}

/// The decayed value of a stored score at ledger `sequence`, capped at 100.
pub open spec fn decayed_value(config: Option<Config>, rep: ReputationScore, sequence: u32) -> int {
    let c = config.unwrap();
    let periods = sat_sub(sequence as int, rep.last_activity_ledger as int) / (c.decay_period_ledgers as int);
    min_int(decay_steps(rep.score as int, c.decay_rate_bps as int, periods as nat), 100)
}

/// The profile of an address with no recorded activity.
pub open spec fn empty_profile(address: Address) -> ReputationProfile {
    ReputationProfile { address, invoices_submitted: 0, invoices_paid: 0, invoices_defaulted: 0, score: 0 }
}

/// The profile of `address` in the stored profiles `m`.
pub open spec fn profile_in(m: Map<Address, ReputationProfile>, address: Address) -> ReputationProfile {
    if m.contains_key(address) { m[address] } else { empty_profile(address) }
}

/// Profiles equal to the empty one are not stored.
pub open spec fn store_profile(m: Map<Address, ReputationProfile>, p: ReputationProfile) -> Map<Address, ReputationProfile> {
    if p == empty_profile(p.address) { m.remove(p.address) } else { m.insert(p.address, p) }
}

/// Reputation of payers, freelancers and LPs.
pub struct ReputationBook {
    /// Payer scores that differ from the default.
    pub payer_scores: HashMap<Address, ReputationScore>,
    /// Non-empty reputation profiles.
    pub profiles: HashMap<Address, ReputationProfile>,
    /// LP scores that differ from the default.
    pub lp_scores: HashMap<Address, u32>,
    /// The top payers by score.
    pub top_payers: Vec<TopPayerEntry>,
}

impl ReputationBook {
    pub open spec fn wf(&self) -> bool {
        &&& top_heap_ok(self.top_payers@)
        &&& forall|a: Address| #[trigger] self.payer_scores@.contains_key(a) ==> self.payer_scores@[a].score <= 100
        &&& forall|a: Address| #[trigger] self.profiles@.contains_key(a) ==> self.profiles@[a].address == a
        &&& forall|a: Address| #[trigger] self.lp_scores@.contains_key(a) ==> self.lp_scores@[a] <= 100
    }

    /// The profile of `address`, empty when none is stored.
    pub open spec fn profile_of(&self, address: Address) -> ReputationProfile {
        if self.profiles@.contains_key(address) { self.profiles@[address] } else { empty_profile(address) }
    }

    /// The LP score of `lp`.
    pub open spec fn lp_score_of(&self, lp: Address) -> u32 {
        if self.lp_scores@.contains_key(lp) { self.lp_scores@[lp] } else { DEFAULT_LP_SCORE }
    }

    /// The score of `payer` that a read at ledger `sequence` returns.
    pub open spec fn payer_score_at(&self, config: Option<Config>, sequence: u32, payer: Address) -> u32 {
        if !self.payer_scores@.contains_key(payer) {
            DEFAULT_PAYER_SCORE
        } else {
            let rep = self.payer_scores@[payer];
            if decay_applies(config, rep.last_activity_ledger, sequence) {
                decayed_value(config, rep, sequence) as u32
            } else {
                rep.score
            }
        }
    }

    /// A read at `sequence` writes the decayed score back.
    pub open spec fn read_writes_back(&self, config: Option<Config>, sequence: u32, payer: Address) -> bool {
        &&& self.payer_scores@.contains_key(payer)
        &&& decay_applies(config, self.payer_scores@[payer].last_activity_ledger, sequence)
        &&& decayed_value(config, self.payer_scores@[payer], sequence) != self.payer_scores@[payer].score
    }

    /// The stored payer scores after a read of `payer`'s score at ledger `sequence`.
    pub open spec fn scores_after_read(&self, config: Option<Config>, sequence: u32, payer: Address) -> Map<Address, ReputationScore> {
        if self.read_writes_back(config, sequence, payer) {
            self.payer_scores@.insert(
                payer,
                ReputationScore { score: self.payer_score_at(config, sequence, payer), last_activity_ledger: sequence },
            )
        } else {
            self.payer_scores@
        }
    }

    /// The stored profiles after a read of `payer`'s score at ledger `sequence`.
    pub open spec fn profiles_after_read(&self, config: Option<Config>, sequence: u32, payer: Address) -> Map<Address, ReputationProfile> {
        if self.read_writes_back(config, sequence, payer) {
            store_profile(
                self.profiles@,
                ReputationProfile { score: self.payer_score_at(config, sequence, payer), ..self.profile_of(payer) },
            )
        } else {
            self.profiles@
        }
    }

    /// Once `payer`'s score has been read at `sequence`, every score reads at `sequence` as it
    /// did before.
    pub proof fn lemma_read_keeps_scores(&self, before: &Self, config: Option<Config>, sequence: u32, payer: Address)
        requires
            self.payer_scores@ == before.scores_after_read(config, sequence, payer),
        ensures
            forall|q: Address| #[trigger] self.payer_score_at(config, sequence, q) == before.payer_score_at(config, sequence, q),
    {
    }

    /// A read of a score keeps every submission count.
    pub proof fn lemma_read_keeps_counts(&self, config: Option<Config>, sequence: u32, payer: Address)
        requires
            self.wf(),
        ensures
            forall|a: Address| #[trigger] profile_in(self.profiles_after_read(config, sequence, payer), a).invoices_submitted
                == self.profile_of(a).invoices_submitted,
    {
        assert forall|a: Address| #[trigger] profile_in(self.profiles_after_read(config, sequence, payer), a).invoices_submitted
            == self.profile_of(a).invoices_submitted by {
            if self.read_writes_back(config, sequence, payer) {
                let p = ReputationProfile { score: self.payer_score_at(config, sequence, payer), ..self.profile_of(payer) };
                if p == empty_profile(p.address) {
                    assert(self.profiles@.remove(payer) == self.profiles_after_read(config, sequence, payer));
                } else {
                    assert(self.profiles@.insert(payer, p) == self.profiles_after_read(config, sequence, payer));
                }
            }
        }
    }

    /// The stored profiles after `payer`'s score was read at `sequence` and then set to `target`
    /// (capped at 100).
    pub open spec fn changed_profiles(&self, config: Option<Config>, sequence: u32, payer: Address, target: int) -> Map<Address, ReputationProfile> {
        let profiles = self.profiles_after_read(config, sequence, payer);
        store_profile(profiles, ReputationProfile { score: min_int(target, 100) as u32, ..profile_in(profiles, payer) })
    }

    /// `self` is `old` after `payer`'s score was read at `sequence` and then set to `target`
    /// (capped at 100), the top-payers heap following the change; the profiles aside.
    pub open spec fn scores_changed(&self, old: &Self, config: Option<Config>, sequence: u32, payer: Address, target: int) -> bool {
        let s = min_int(target, 100) as u32;
        let scores = old.scores_after_read(config, sequence, payer);
        &&& self.payer_scores@ == (if s == DEFAULT_PAYER_SCORE {
            scores.remove(payer)
        } else {
            scores.insert(payer, ReputationScore { score: s, last_activity_ledger: sequence })
        })
        &&& old.payer_score_at(config, sequence, payer) != s ==> heap_updated(old.top_payers@, self.top_payers@, payer, s)
        &&& old.payer_score_at(config, sequence, payer) == s ==> self.top_payers == old.top_payers
        &&& self.lp_scores == old.lp_scores
    }

    /// `self` is `old` after `payer`'s score was read at `sequence` and then set to `target`.
    pub open spec fn score_changed(&self, old: &Self, config: Option<Config>, sequence: u32, payer: Address, target: int) -> bool {
        &&& self.scores_changed(old, config, sequence, payer, target)
        &&& self.profiles@ == old.changed_profiles(config, sequence, payer, target)
    }

    /// Changing a score keeps every invoice count.
    pub proof fn lemma_change_keeps_counts(&self, config: Option<Config>, sequence: u32, payer: Address, target: int)
        requires
            self.wf(),
        ensures
            forall|a: Address| {
                let p = #[trigger] profile_in(self.changed_profiles(config, sequence, payer, target), a);
                &&& p.invoices_submitted == self.profile_of(a).invoices_submitted
                &&& p.invoices_paid == self.profile_of(a).invoices_paid
                &&& p.invoices_defaulted == self.profile_of(a).invoices_defaulted
            },
    {
        assert forall|a: Address| {
            let p = #[trigger] profile_in(self.changed_profiles(config, sequence, payer, target), a);
            &&& p.invoices_submitted == self.profile_of(a).invoices_submitted
            &&& p.invoices_paid == self.profile_of(a).invoices_paid
            &&& p.invoices_defaulted == self.profile_of(a).invoices_defaulted
        } by {
            let m = self.profiles_after_read(config, sequence, payer);
            assert(profile_in(m, payer).address == payer);
            if self.read_writes_back(config, sequence, payer) {
                let p = ReputationProfile { score: self.payer_score_at(config, sequence, payer), ..self.profile_of(payer) };
                if p == empty_profile(p.address) {
                    assert(self.profiles@.remove(payer) == m);
                } else {
                    assert(self.profiles@.insert(payer, p) == m);
                }
            }
        }
    }

    /// Reads `payer`'s score at `sequence` and sets it to the value read plus one.
    pub fn reward_payer(&mut self, config: Option<Config>, sequence: u32, payer: Address)
        requires
            old(self).wf(),
        ensures
            final(self).wf(),
            final(self).score_changed(old(self), config, sequence, payer, old(self).payer_score_at(config, sequence, payer) + 1),
    {
        let ghost g = *self;
        let s = self.get_payer_score(config, sequence, payer);
        proof {
            self.lemma_read_keeps_scores(&g, config, sequence, payer);
        }
        self.set_payer_score(config, sequence, payer, s + 1);
    }

    /// Reads `payer`'s score at `sequence` and lowers it by `penalty`, not below zero.
    pub fn penalize_payer(&mut self, config: Option<Config>, sequence: u32, payer: Address, penalty: u32)
        requires
            old(self).wf(),
        ensures
            final(self).wf(),
            final(self).score_changed(
                old(self),
                config,
                sequence,
                payer,
                sat_sub(old(self).payer_score_at(config, sequence, payer) as int, penalty as int),
            ),
    {
        let ghost g = *self;
        let s = self.get_payer_score(config, sequence, payer);
        proof {
            self.lemma_read_keeps_scores(&g, config, sequence, payer);
        }
        self.set_payer_score(config, sequence, payer, s.saturating_sub(penalty));
    }

    pub fn new() -> (r: Self)
        ensures
            r.wf(),
            r.payer_scores@ == Map::<Address, ReputationScore>::empty(),
            r.profiles@ == Map::<Address, ReputationProfile>::empty(),
            r.lp_scores@ == Map::<Address, u32>::empty(),
            r.top_payers@.len() == 0,
    {
        ReputationBook {
            payer_scores: HashMap::new(),
            profiles: HashMap::new(),
            lp_scores: HashMap::new(),
            top_payers: Vec::new(),
        }
    }

    /// The reputation profile of `address`.
    pub fn get_reputation(&self, address: Address) -> (p: ReputationProfile)
        ensures
            p == self.profile_of(address),
    {
        match self.profiles.get(&address) {
            Some(p) => *p,
            None => ReputationProfile {
                address,
                invoices_submitted: 0,
                invoices_paid: 0,
                invoices_defaulted: 0,
                score: 0,
            },
        }
    }

    /// Stores `profile`, or forgets it when it is empty.
    pub fn set_reputation(&mut self, profile: ReputationProfile)
        ensures
            final(self).profiles@ == store_profile(old(self).profiles@, profile),
            final(self).payer_scores == old(self).payer_scores,
            final(self).lp_scores == old(self).lp_scores,
            final(self).top_payers == old(self).top_payers,
    {
        let is_empty = profile.invoices_submitted == 0 && profile.invoices_paid == 0
            && profile.invoices_defaulted == 0 && profile.score == 0;
        if is_empty {
            self.profiles.remove(&profile.address);
        } else {
            self.profiles.insert(profile.address, profile);
        }
    }

    /// Adds one to the submitted-invoice count of `address`.
    pub fn increment_invoices_submitted(&mut self, address: Address)
        requires
            old(self).profile_of(address).invoices_submitted < u32::MAX,
        ensures
            final(self).profiles@ == store_profile(
                old(self).profiles@,
                ReputationProfile {
                    invoices_submitted: (old(self).profile_of(address).invoices_submitted + 1) as u32,
                    ..old(self).profile_of(address)
                },
            ),
            final(self).payer_scores == old(self).payer_scores,
            final(self).lp_scores == old(self).lp_scores,
            final(self).top_payers == old(self).top_payers,
    {
        let mut p = self.get_reputation(address);
        p.invoices_submitted = p.invoices_submitted + 1;
        self.set_reputation(p);
    }

    /// Adds one to the paid-invoice count of `address`.
    pub fn increment_invoices_paid(&mut self, address: Address)
        requires
            old(self).profile_of(address).invoices_paid < u32::MAX,
        ensures
            final(self).profiles@ == store_profile(
                old(self).profiles@,
                ReputationProfile {
                    invoices_paid: (old(self).profile_of(address).invoices_paid + 1) as u32,
                    ..old(self).profile_of(address)
                },
            ),
            final(self).payer_scores == old(self).payer_scores,
            final(self).lp_scores == old(self).lp_scores,
            final(self).top_payers == old(self).top_payers,
    {
        let mut p = self.get_reputation(address);
        p.invoices_paid = p.invoices_paid + 1;
        self.set_reputation(p);
    }

    /// Adds one to the defaulted-invoice count of `address`.
    pub fn increment_invoices_defaulted(&mut self, address: Address)
        requires
            old(self).profile_of(address).invoices_defaulted < u32::MAX,
        ensures
            final(self).profiles@ == store_profile(
                old(self).profiles@,
                ReputationProfile {
                    invoices_defaulted: (old(self).profile_of(address).invoices_defaulted + 1) as u32,
                    ..old(self).profile_of(address)
                },
            ),
            final(self).payer_scores == old(self).payer_scores,
            final(self).lp_scores == old(self).lp_scores,
            final(self).top_payers == old(self).top_payers,
    {
        let mut p = self.get_reputation(address);
        p.invoices_defaulted = p.invoices_defaulted + 1;
        self.set_reputation(p);
    }

    /// The LP score of `lp` (default 50).
    pub fn get_lp_score(&self, lp: Address) -> (s: u32)
        ensures
            s == self.lp_score_of(lp),
    {
        match self.lp_scores.get(&lp) {
            Some(s) => *s,
            None => DEFAULT_LP_SCORE,
        }
    }

    /// Sets the LP score of `lp`, capped at 100; the default score is not stored.
    pub fn set_lp_score(&mut self, lp: Address, score: u32)
        ensures
            final(self).lp_scores@ == (if min_int(score as int, 100) == DEFAULT_LP_SCORE {
                old(self).lp_scores@.remove(lp)
            } else {
                old(self).lp_scores@.insert(lp, min_int(score as int, 100) as u32)
            }),
            final(self).payer_scores == old(self).payer_scores,
            final(self).profiles == old(self).profiles,
            final(self).top_payers == old(self).top_payers,
    {
        let s = if score < MAX_SCORE { score } else { MAX_SCORE };
        if s == DEFAULT_LP_SCORE {
            self.lp_scores.remove(&lp);
        } else {
            self.lp_scores.insert(lp, s);
        }
    }

    /// The score of `payer` at ledger `sequence`, decayed for every full period without
    /// activity; nothing is written.
    pub fn peek_payer_score(&self, config: Option<Config>, sequence: u32, payer: Address) -> (s: u32)
        requires
            self.wf(),
        ensures
            s == self.payer_score_at(config, sequence, payer),
            s <= 100,
    {
        let rep = match self.payer_scores.get(&payer) {
            None => {
                return DEFAULT_PAYER_SCORE;
            },
            Some(r) => *r,
        };
        let c = match config {
            None => {
                return rep.score;
            },
            Some(c) => c,
        };
        let since = sequence.saturating_sub(rep.last_activity_ledger) as u64;
        if !(since >= c.decay_period_ledgers && c.decay_period_ledgers > 0 && c.decay_rate_bps > 0) {
            return rep.score;
        }
        let periods = since / c.decay_period_ledgers;
        let rate = c.decay_rate_bps as u64;
        let mut decayed: u64 = rep.score as u64;
        let mut k: u64 = 0;
        proof {
            lemma_decay_bounds(rep.score as int, rate as int, 0);
        }
        while k < periods && decayed > 0
            invariant
                k <= periods,
                rep.score <= 100,
                decayed == decay_steps(rep.score as int, rate as int, k as nat),
                decayed <= 100,
                rate <= u32::MAX,
            decreases periods - k,
        {
            assert(decayed * rate <= 100 * 0xffff_ffffu64) by (nonlinear_arith)
                requires decayed <= 100, rate <= 0xffff_ffffu64;
            let mut decay_amount = (decayed * rate) / 10_000;
            if decay_amount == 0 && decayed > 0 {
                decay_amount = 1;
            }
            decayed = decayed.saturating_sub(decay_amount);
            k = k + 1;
            proof {
                lemma_decay_bounds(rep.score as int, rate as int, k as nat);
            }
        }
        proof {
            if k < periods {
                lemma_decay_stays_zero(rep.score as int, rate as int, k as nat, periods as nat);
            }
        }
        if decayed < 100 { decayed as u32 } else { 100 }
    }

    /// The score of `payer` at ledger `sequence`. When the score has decayed, the decayed value
    /// is written back, dated `sequence`, and copied into the payer's profile.
    pub fn get_payer_score(&mut self, config: Option<Config>, sequence: u32, payer: Address) -> (s: u32)
        requires
            old(self).wf(),
        ensures
            final(self).wf(),
            s == old(self).payer_score_at(config, sequence, payer),
            s <= 100,
            old(self).read_writes_back(config, sequence, payer) ==> {
                &&& final(self).payer_scores@ == old(self).payer_scores@.insert(
                    payer,
                    ReputationScore { score: s, last_activity_ledger: sequence },
                )
                &&& final(self).profiles@ == store_profile(
                    old(self).profiles@,
                    ReputationProfile { score: s, ..old(self).profile_of(payer) },
                )
            },
            !old(self).read_writes_back(config, sequence, payer) ==> {
                &&& final(self).payer_scores == old(self).payer_scores
                &&& final(self).profiles == old(self).profiles
            },
            final(self).lp_scores == old(self).lp_scores,
            final(self).top_payers == old(self).top_payers,
    {
        let s = self.peek_payer_score(config, sequence, payer);
        let stored = match self.payer_scores.get(&payer) {
            None => {
                return s;
            },
            Some(r) => r.score,
        };
        if s != stored {
            self.payer_scores.insert(payer, ReputationScore { score: s, last_activity_ledger: sequence });
            let mut profile = self.get_reputation(payer);
            profile.score = s;
            self.set_reputation(profile);
        }
        s
    }

    /// Sets the score of `payer`, capped at 100, dated `sequence`; the default score is not
    /// stored. The payer's profile takes the new score, and the top-payers heap follows a change.
    pub fn set_payer_score(&mut self, config: Option<Config>, sequence: u32, payer: Address, score: u32)
        requires
            old(self).wf(),
        ensures
            final(self).wf(),
            ({
                let s = min_int(score as int, 100) as u32;
                &&& final(self).payer_scores@ == (if s == DEFAULT_PAYER_SCORE {
                    old(self).payer_scores@.remove(payer)
                } else {
                    old(self).payer_scores@.insert(payer, ReputationScore { score: s, last_activity_ledger: sequence })
                })
                &&& final(self).profiles@ == store_profile(
                    old(self).profiles@,
                    ReputationProfile { score: s, ..old(self).profile_of(payer) },
                )
                &&& old(self).payer_score_at(config, sequence, payer) != s ==> heap_updated(
                    old(self).top_payers@,
                    final(self).top_payers@,
                    payer,
                    s,
                )
                &&& old(self).payer_score_at(config, sequence, payer) == s ==> final(self).top_payers
                    == old(self).top_payers
            }),
            final(self).lp_scores == old(self).lp_scores,
    {
        let s = if score < MAX_SCORE { score } else { MAX_SCORE };
        let ghost old_profile = self.profile_of(payer);
        let old_score = self.get_payer_score(config, sequence, payer);
        let ghost mid_scores = self.payer_scores@;
        if s == DEFAULT_PAYER_SCORE {
            self.payer_scores.remove(&payer);
        } else {
            self.payer_scores.insert(payer, ReputationScore { score: s, last_activity_ledger: sequence });
        }
        proof {
            let target = if s == DEFAULT_PAYER_SCORE {
                old(self).payer_scores@.remove(payer)
            } else {
                old(self).payer_scores@.insert(payer, ReputationScore { score: s, last_activity_ledger: sequence })
            };
            assert(self.payer_scores@ =~= target);
        }
        let mut profile = self.get_reputation(payer);
        assert(profile.invoices_submitted == old_profile.invoices_submitted);
        profile.score = s;
        self.set_reputation(profile);
        proof {
            let target = store_profile(old(self).profiles@, ReputationProfile { score: s, ..old_profile });
            assert(profile == ReputationProfile { score: s, ..old_profile });
            assert(self.profiles@ =~= target);
        }
        if old_score != s {
            update_top_payers_on_score_change(&mut self.top_payers, payer, s);
        }
    }
}

} // verus!

use vstd::prelude::*;
use crate::constants::{MAX_DISCOUNT_RATE, MIN_INVOICE_AMOUNT};
use crate::contract::InvoiceLiquidity;
use crate::funding::funding_rate;
use crate::lifecycle::refunds;
use crate::reputation::{decay_step, decay_steps, lemma_decay_bounds, ReputationBook};
use crate::counting::{all_nonneg, count_where, fully_funded, in_state, sum_amounts};
use crate::invoice::{transfer, treasury_fee_transfer, Action, Address, Config, Hash32, InvoiceStatus, LPStats, Ledger, OracleVerificationResponse};
use crate::lifecycle::{count_code, with_code};
use crate::rate_logic::{auction_rate_spec, discount_spec, hours_elapsed_spec};
use crate::settlement::{checked_prod, earned_of, payouts, settled_stats, share_of, stats_in, treasury_fee};

verus! {

/// An LP that funds a whole invoice at discount `rate` and is paid back the face value earns
/// exactly the discount, which is positive, and the freelancer gets the face value less the
/// discount: what the freelancer gets and the discount make up the invoice amount. This holds
/// while the products the contract forms fit in `i128`.
pub proof fn law_lp_earns_the_discount(amount: i128, rate: u32)
    requires
        MIN_INVOICE_AMOUNT <= amount,
        1 <= rate <= MAX_DISCOUNT_RATE,
        amount * amount <= i128::MAX,
    ensures
        ({
            let d = discount_spec(amount as int, rate as int);
            &&& d == amount * rate / 10_000
            &&& (amount - d) + d == amount
            &&& share_of(amount as int, amount as int, amount as int) == amount
            &&& earned_of(share_of(amount as int, amount as int, amount as int), amount as int, rate) == d
            &&& d > 0
        }),
{
    assert(amount * rate <= amount * amount) by (nonlinear_arith)
        requires 1 <= rate <= 5000, amount >= 1_000_000;
    assert(amount * rate >= 10_000) by (nonlinear_arith)
        requires 1 <= rate, amount >= 1_000_000;
    assert(amount * amount >= 0) by (nonlinear_arith);
    assert((amount * amount) / (amount as int) == amount) by (nonlinear_arith)
        requires amount >= 1_000_000;
    assert(amount * rate / 10_000 <= amount) by (nonlinear_arith)
        requires 1 <= rate <= 5000, amount >= 1_000_000;
}

/// Funding the whole of a pending invoice that is not auctioned, at once, takes the face
/// value less the discount from the LP and hands the same to the freelancer.
pub proof fn law_full_funding_pays_freelancer(s: &InvoiceLiquidity, lp: Address, invoice_id: u64, now: u64)
    requires
        s.wf(),
        s.has_invoice(invoice_id),
        s.inv(invoice_id).status == InvoiceStatus::Pending,
        !s.inv(invoice_id).is_auction,
        s.settings.distribution_contract is None,
    ensures
        ({
            let inv = s.inv(invoice_id);
            let net = (inv.amount - discount_spec(inv.amount as int, inv.discount_rate as int)) as i128;
            s.funding_actions(lp, invoice_id, inv.amount, now) == seq![
                transfer(inv.token, lp, s.contract_address, net),
                transfer(inv.token, s.contract_address, inv.freelancer, net),
            ]
        }),
{
    assert(s.invoices@[invoice_id - 1] == s.inv(invoice_id));
    let inv = s.inv(invoice_id);
    let net = (inv.amount - discount_spec(inv.amount as int, inv.discount_rate as int)) as i128;
    assert(s.funding_actions(lp, invoice_id, inv.amount, now) =~= seq![
        transfer(inv.token, lp, s.contract_address, net),
        transfer(inv.token, s.contract_address, inv.freelancer, net),
    ]);
}

/// Settling an invoice funded in full by a single LP, with no admin fee, no treasury cut and no
/// distribution contract, pays that LP back the face value and nothing else.
pub proof fn law_settlement_repays_sole_lp(s: &InvoiceLiquidity, lp: Address, invoice_id: u64, now: u64)
    requires
        s.wf(),
        s.has_invoice(invoice_id),
        s.funders_of(invoice_id) == seq![(lp, s.inv(invoice_id).amount)],
        s.settings.fee_rate == 0,
        s.settings.protocol_fee_bps == 0,
        s.settings.distribution_contract is None,
        s.inv(invoice_id).amount * s.inv(invoice_id).amount <= i128::MAX,
    ensures
        s.settlement_actions(invoice_id, now) == seq![transfer(s.inv(invoice_id).token, s.contract_address, lp, s.inv(invoice_id).amount)],
{
    let inv = s.inv(invoice_id);
    let a = inv.amount;
    assert(s.invoices@[invoice_id - 1] == inv);
    assert(crate::contract::invoice_ok(inv));
    assert(a as int * 0 == 0);
    assert(a * a >= 0) by (nonlinear_arith);
    assert((a * a) / (a as int) == a) by (nonlinear_arith)
        requires a >= 1_000_000;
    let fs = s.funders_of(invoice_id);
    assert(fs.drop_last() =~= Seq::<(Address, i128)>::empty());
    assert(discount_spec(a as int, 0) == 0);
    assert(s.distributable(invoice_id) == a);
    assert(share_of(a as int, a as int, a as int) == a);
    let me = s.contract_address;
    let p = payouts(fs, inv.token, me, a as int, a as int, inv.discount_rate, 0, s.settings.treasury);
    assert(payouts(fs.drop_last(), inv.token, me, a as int, a as int, inv.discount_rate, 0, s.settings.treasury)
        =~= Seq::empty());
    assert(fs.last() == (lp, a));
    assert(p =~= seq![transfer(inv.token, me, lp, a)]);
    assert(s.settlement_actions(invoice_id, now) =~= seq![transfer(inv.token, s.contract_address, lp, a)]);
}

/// Once paid, an invoice is settled for good: every call that could change it refuses.
pub proof fn law_paid_is_final(
    s: &InvoiceLiquidity,
    invoice_id: u64,
    who: Address,
    amount: i128,
    due_date: u64,
    rate: u32,
    require_oracle: bool,
    resp: Option<OracleVerificationResponse>,
    ledger: Ledger,
)
    requires
        s.has_invoice(invoice_id),
        s.inv(invoice_id).status == InvoiceStatus::Paid,
    ensures
        s.fund_error(who, invoice_id, amount, require_oracle, resp, ledger) is Some,
        s.payment_error(invoice_id, amount) is Some,
        s.cancel_error(invoice_id) is Some,
        s.expire_error(invoice_id, ledger.timestamp) is Some,
        s.update_error(who, invoice_id, amount, due_date, rate, ledger.timestamp) is Some,
        s.convert_error(who, invoice_id, who, ledger.timestamp) is Some,
        s.transfer_error(invoice_id) is Some,
        s.dispute_error(invoice_id) is Some,
        s.default_error(who, invoice_id, ledger.timestamp) is Some,
        s.lp_transfer_error(invoice_id, who) is Some,
        s.appeal_error(invoice_id, ledger.timestamp) is Some,
        s.resolve_appeal_error(invoice_id) is Some,
        s.resolve_dispute_error(invoice_id, rate) is Some,
        s.auto_resolve_error(invoice_id, ledger.sequence) is Some,
{
}

/// The Dutch-auction rate never rises as time goes on, and stays between the minimum and the
/// start rate.
pub proof fn law_auction_rate_falls(t1: u64, t2: u64, started_at: u64, start_rate: u32, min_rate: u32, decay_per_hour: u32)
    requires
        t1 <= t2,
        min_rate <= start_rate,
    ensures
        min_rate <= auction_rate_spec(t2, started_at, start_rate, min_rate, decay_per_hour),
        auction_rate_spec(t2, started_at, start_rate, min_rate, decay_per_hour) <= auction_rate_spec(
            t1,
            started_at,
            start_rate,
            min_rate,
            decay_per_hour,
        ),
        auction_rate_spec(t1, started_at, start_rate, min_rate, decay_per_hour) <= start_rate,
{
    let h1 = hours_elapsed_spec(t1, started_at);
    let h2 = hours_elapsed_spec(t2, started_at);
    let e1 = if t1 >= started_at { t1 - started_at } else { 0 };
    let e2 = if t2 >= started_at { t2 - started_at } else { 0 };
    assert(e1 <= e2);
    assert(e1 / 3600 <= e2 / 3600) by (nonlinear_arith)
        requires 0 <= e1 <= e2;
    assert(h1 >= 0) by (nonlinear_arith)
        requires h1 == e1 / 3600, e1 >= 0;
    assert(decay_per_hour as int * h1 <= decay_per_hour as int * h2) by (nonlinear_arith)
        requires h1 <= h2, decay_per_hour >= 0;
    assert(decay_per_hour as int * h1 >= 0) by (nonlinear_arith)
        requires h1 >= 0, decay_per_hour >= 0;
}

/// Every submission that names a referral code counts once for that code and for no other.
pub proof fn law_referral_counting(s: Seq<Hash32>, code: Option<Hash32>, c: Hash32)
    ensures
        count_code(with_code(s, code), c) == count_code(s, c) + (if code == Some(c) { 1int } else { 0int }),
{
    match code {
        Some(x) => {
            assert(s.push(x).drop_last() =~= s);
        },
        None => {},
    }
}

/// In a consistent state each invoice's contributions add up to what it has been funded, which
/// never exceeds its amount, and no more than its amount is ever paid.
pub proof fn law_funding_adds_up(s: &InvoiceLiquidity, invoice_id: u64)
    requires
        s.wf(),
        s.has_invoice(invoice_id),
    ensures
        sum_amounts(s.funders_of(invoice_id)) == s.inv(invoice_id).amount_funded,
        0 <= s.inv(invoice_id).amount_funded <= s.inv(invoice_id).amount,
        0 <= s.inv(invoice_id).amount_paid <= s.inv(invoice_id).amount,
{
    assert(s.invoices@[invoice_id - 1] == s.inv(invoice_id));
}

/// In a consistent state the protocol counters agree with the invoices: all of them, those
/// funded in full, and those paid.
pub proof fn law_counters_match(s: &InvoiceLiquidity)
    requires
        s.wf(),
    ensures
        s.stats.total_invoices == s.invoices@.len(),
        s.stats.total_funded == count_where(s.invoices@, fully_funded()),
        s.stats.total_paid == count_where(s.invoices@, in_state(InvoiceStatus::Paid)),
{
}

/// The total that the transfers and treasury fees among `acts` move out of `from`.
pub open spec fn paid_out(acts: Seq<Action>, from: Address) -> int
    decreases acts.len(),
{
    if acts.len() == 0 {
        0
    } else {
        paid_out(acts.drop_last(), from) + match acts.last() {
            Action::Transfer { from: f, amount, .. } => if f == from { amount as int } else { 0 },
            Action::TreasuryFee { from: f, amount, .. } => if f == from { amount as int } else { 0 },
            _ => 0,
        }
    }
}

proof fn lemma_paid_out_append(a: Seq<Action>, b: Seq<Action>, from: Address)
    ensures
        paid_out(a + b, from) == paid_out(a, from) + paid_out(b, from),
    decreases b.len(),
{
    if b.len() == 0 {
        assert(a + b =~= a);
    } else {
        assert((a + b).drop_last() =~= a + b.drop_last());
        assert((a + b).last() == b.last());
        lemma_paid_out_append(a, b.drop_last(), from);
    }
}

/// What the payouts of the contributions `fs` move out of `me`, times the invoice amount, is at
/// most `distribute` times what the contributions add up to.
proof fn lemma_payouts_bounded(
    fs: Seq<(Address, i128)>,
    token: Address,
    me: Address,
    distribute: int,
    amount: int,
    rate: u32,
    bps: u32,
    treasury: Option<Address>,
)
    requires
        all_nonneg(fs),
        0 <= distribute,
        0 < amount,
        rate <= 10_000,
        bps <= 100,
    ensures
        paid_out(payouts(fs, token, me, distribute, amount, rate, bps, treasury), me) * amount <= distribute
            * sum_amounts(fs),
    decreases fs.len(),
{
    if fs.len() > 0 {
        let rest = fs.drop_last();
        assert forall|k: int| 0 <= k < rest.len() implies #[trigger] rest[k].1 >= 0 by {
            assert(rest[k] == fs[k]);
        }
        lemma_payouts_bounded(rest, token, me, distribute, amount, rate, bps, treasury);
        let (a, amt) = fs.last();
        assert(amt >= 0) by {
            assert(fs[fs.len() - 1].1 >= 0);
        }
        let p = checked_prod(distribute, amt as int);
        assert(distribute * amt >= 0) by (nonlinear_arith)
            requires distribute >= 0, amt >= 0;
        assert(0 <= p <= distribute * amt);
        assert(p <= i128::MAX);
        let share = share_of(distribute, amt as int, amount);
        assert(share == p / amount);
        assert(0 <= share <= p && share * amount <= p) by (nonlinear_arith)
            requires share == p / amount, p >= 0, amount > 0;
        assert(discount_spec(amt as int, rate as int) <= amt) by (nonlinear_arith)
            requires amt >= 0, rate <= 10_000, 0 <= rate;
        assert(discount_spec(amt as int, rate as int) >= 0) by (nonlinear_arith)
            requires amt >= 0, 0 <= rate;
        let earned = earned_of(share, amt as int, rate);
        assert(earned <= share);
        let fee = treasury_fee(earned, bps, treasury);
        assert(0 <= fee <= share) by {
            if earned > 0 && bps > 0 && treasury is Some {
                assert(earned * bps >= 0 && earned * bps <= earned * 100) by (nonlinear_arith)
                    requires earned > 0, 0 < bps <= 100;
                assert(checked_prod(earned, bps as int) / 10_000 <= earned) by (nonlinear_arith)
                    requires 0 <= checked_prod(earned, bps as int) <= earned * 100, earned > 0;
                assert(checked_prod(earned, bps as int) / 10_000 >= 0) by (nonlinear_arith)
                    requires 0 <= checked_prod(earned, bps as int);
            }
        }
        let to_treasury = if fee > 0 { seq![treasury_fee_transfer(token, me, treasury.unwrap(), fee as i128)] } else { Seq::empty() };
        let to_lp = if share - fee > 0 { seq![transfer(token, me, a, (share - fee) as i128)] } else { Seq::empty() };
        let before = payouts(rest, token, me, distribute, amount, rate, bps, treasury);
        assert(payouts(fs, token, me, distribute, amount, rate, bps, treasury) == before + to_treasury + to_lp);
        lemma_paid_out_append(before + to_treasury, to_lp, me);
        lemma_paid_out_append(before, to_treasury, me);
        reveal_with_fuel(paid_out, 2);
        if fee > 0 {
            assert(to_treasury.drop_last() =~= Seq::<Action>::empty());
            assert(paid_out(to_treasury, me) == fee);
        } else {
            assert(paid_out(to_treasury, me) == 0);
        }
        if share - fee > 0 {
            assert(to_lp.drop_last() =~= Seq::<Action>::empty());
            assert(paid_out(to_lp, me) == share - fee);
        } else {
            assert(paid_out(to_lp, me) == 0);
        }
        assert(paid_out(to_treasury, me) + paid_out(to_lp, me) <= share);
        let x = paid_out(before, me);
        let y = paid_out(to_treasury, me) + paid_out(to_lp, me);
        assert((x + y) * amount <= distribute * sum_amounts(rest) + distribute * amt) by (nonlinear_arith)
            requires
                x * amount <= distribute * sum_amounts(rest),
                y <= share,
                share * amount <= p,
                p <= distribute * amt,
                amount > 0;
        assert(distribute * sum_amounts(rest) + distribute * amt == distribute * sum_amounts(fs)) by (nonlinear_arith)
            requires sum_amounts(fs) == sum_amounts(rest) + amt;
    }
}

/// Settling an invoice never pays out of the protocol's account more than the invoice amount
/// that the payer has paid in: the admin's fee, the LPs' shares and the treasury's cuts
/// together stay within it. This holds while the invoice's discount rate and the admin fee rate
/// are at most 100%.
pub proof fn law_settlement_is_covered(s: &InvoiceLiquidity, invoice_id: u64, now: u64)
    requires
        s.wf(),
        s.has_invoice(invoice_id),
        s.inv(invoice_id).discount_rate <= 10_000,
        s.settings.fee_rate <= 10_000,
    ensures
        paid_out(s.settlement_actions(invoice_id, now), s.contract_address) <= s.inv(invoice_id).amount,
{
    let inv = s.inv(invoice_id);
    let me = s.contract_address;
    assert(s.invoices@[invoice_id - 1] == inv);
    assert(crate::contract::invoice_ok(inv));
    let a = inv.amount as int;
    let fee = discount_spec(a, s.settings.fee_rate as int);
    assert(0 <= fee <= a) by (nonlinear_arith)
        requires a >= 0, s.settings.fee_rate <= 10_000, fee == discount_spec(a, s.settings.fee_rate as int);
    let d = s.distributable(invoice_id);
    assert(d == a - fee);
    let fs = s.funders_of(invoice_id);
    lemma_payouts_bounded(fs, inv.token, me, d, a, inv.discount_rate, s.settings.protocol_fee_bps, s.settings.treasury);
    let outs = payouts(fs, inv.token, me, d, a, inv.discount_rate, s.settings.protocol_fee_bps, s.settings.treasury);
    let x = paid_out(outs, me);
    assert(sum_amounts(fs) <= a);
    assert(x <= d) by (nonlinear_arith)
        requires x * a <= d * sum_amounts(fs), sum_amounts(fs) <= a, d >= 0, a > 0, sum_amounts(fs) >= 0;
    let to_admin = if fee > 0 { seq![transfer(inv.token, me, s.settings.admin.unwrap(), fee as i128)] } else { Seq::empty() };
    let notice = match s.settings.distribution_contract {
        Some(dc) => seq![Action::AccrueSettlement { contract: dc, freelancer: inv.freelancer, payer: inv.payer, on_time: now <= inv.due_date }],
        None => Seq::empty(),
    };
    assert(s.settlement_actions(invoice_id, now) == to_admin + outs + notice);
    lemma_paid_out_append(to_admin + outs, notice, me);
    lemma_paid_out_append(to_admin, outs, me);
    reveal_with_fuel(paid_out, 2);
    if fee > 0 {
        assert(to_admin.drop_last() =~= Seq::<Action>::empty());
        assert(paid_out(to_admin, me) == fee);
    } else {
        assert(paid_out(to_admin, me) == 0);
    }
    if notice.len() > 0 {
        assert(notice.drop_last() =~= Seq::<Action>::empty());
    }
    assert(paid_out(notice, me) == 0);
}

/// Each further decay period takes `decay_rate_bps` basis points off a payer's score, at least
/// one point while it is positive, and never takes it below zero: a read one period later than
/// another gives the earlier score less that cut.
pub proof fn law_each_decay_period_takes_its_share(
    book: &ReputationBook,
    config: Option<Config>,
    payer: Address,
    seq1: u32,
    seq2: u32,
)
    requires
        book.wf(),
        book.payer_scores@.contains_key(payer),
        config matches Some(c) && c.decay_period_ledgers > 0 && c.decay_rate_bps > 0,
        seq1 >= book.payer_scores@[payer].last_activity_ledger,
        seq2 == seq1 + config.unwrap().decay_period_ledgers,
    ensures
        ({
            let x = book.payer_score_at(config, seq1, payer) as int;
            let r = config.unwrap().decay_rate_bps as int;
            let cut = if x * r / 10_000 > 1 { x * r / 10_000 } else { 1 };
            book.payer_score_at(config, seq2, payer) == if x > cut { x - cut } else { 0 }
        }),
{
    let c = config.unwrap();
    let rep = book.payer_scores@[payer];
    let s = rep.score as int;
    let r = c.decay_rate_bps as int;
    let p = c.decay_period_ledgers as int;
    let e1 = seq1 as int - rep.last_activity_ledger as int;
    let k1 = e1 / p;
    assert((e1 + p) / p == k1 + 1) by (nonlinear_arith)
        requires p > 0, e1 >= 0, k1 == e1 / p;
    assert(k1 >= 0) by (nonlinear_arith)
        requires p > 0, e1 >= 0, k1 == e1 / p;
    assert(s <= 100);
    lemma_decay_bounds(s, r, k1 as nat);
    lemma_decay_bounds(s, r, (k1 + 1) as nat);
    let x0 = decay_steps(s, r, k1 as nat);
    assert(decay_steps(s, r, (k1 + 1) as nat) == decay_step(x0, r));
    if e1 < p {
        assert(k1 == 0) by (nonlinear_arith)
            requires p > 0, 0 <= e1 < p, k1 == e1 / p;
        assert(x0 == s);
        assert(book.payer_score_at(config, seq1, payer) == rep.score);
    } else {
        assert(book.payer_score_at(config, seq1, payer) as int == x0);
    }
    let x = x0;
    assert(book.payer_score_at(config, seq2, payer) as int == decay_step(x, r));
    assert(x * r / 10_000 >= 0) by (nonlinear_arith)
        requires x >= 0, r >= 0;
}

/// Claiming a default refunds every contribution: one transfer per contribution, in order, from
/// the protocol to that contribution's LP, of what the LP paid in for it (the contribution less
/// its discount).
pub proof fn law_default_refunds_every_contribution(s: &InvoiceLiquidity, invoice_id: u64)
    requires
        s.wf(),
        s.has_invoice(invoice_id),
        s.inv(invoice_id).amount * s.inv(invoice_id).discount_rate <= i128::MAX,
    ensures
        ({
            let inv = s.inv(invoice_id);
            let fs = s.funders_of(invoice_id);
            let acts = refunds(fs, inv.token, s.contract_address, inv.discount_rate);
            &&& acts.len() == fs.len()
            &&& forall|k: int| 0 <= k < fs.len() ==> #[trigger] acts[k] == Action::Transfer {
                token: inv.token,
                from: s.contract_address,
                to: fs[k].0,
                amount: (fs[k].1 - fs[k].1 * inv.discount_rate / 10_000) as i128,
            }
        }),
{
    let inv = s.inv(invoice_id);
    let fs = s.funders_of(invoice_id);
    assert(s.invoices@[invoice_id - 1] == inv);
    assert(crate::contract::invoice_ok(inv));
    assert forall|k: int| 0 <= k < fs.len() implies fs[k].1 * inv.discount_rate <= i128::MAX by {
        crate::counting::lemma_part_le_sum(fs, k);
        assert(fs[k].1 * inv.discount_rate <= inv.amount * inv.discount_rate) by (nonlinear_arith)
            requires 0 <= fs[k].1 <= inv.amount, inv.discount_rate >= 0;
    }
}

/// A funding that completes an invoice pays the freelancer the invoice amount less the discount
/// at the funding rate, however large the last tranche; the funder pays in its own tranche less
/// the discount on it. A funding that leaves the invoice incomplete pays nobody out of the
/// protocol.
pub proof fn law_completing_funding_pays_the_whole_discounted_amount(
    s: &InvoiceLiquidity,
    funder: Address,
    invoice_id: u64,
    fund_amount: i128,
    now: u64,
)
    requires
        s.wf(),
        s.has_invoice(invoice_id),
        0 <= fund_amount,
        funder != s.contract_address,
        s.inv(invoice_id).amount_funded + fund_amount <= s.inv(invoice_id).amount,
        s.inv(invoice_id).amount * funding_rate(s.inv(invoice_id), now) <= i128::MAX,
    ensures
        ({
            let inv = s.inv(invoice_id);
            let rate = funding_rate(inv, now) as int;
            let acts = s.funding_actions(funder, invoice_id, fund_amount, now);
            &&& acts[0] == Action::Transfer {
                token: inv.token,
                from: funder,
                to: s.contract_address,
                amount: (fund_amount - fund_amount * rate / 10_000) as i128,
            }
            &&& inv.amount_funded + fund_amount == inv.amount ==> acts[1] == Action::Transfer {
                token: inv.token,
                from: s.contract_address,
                to: inv.freelancer,
                amount: (inv.amount - inv.amount * rate / 10_000) as i128,
            }
            &&& inv.amount_funded + fund_amount < inv.amount ==> forall|k: int|
                0 <= k < acts.len() ==> !(#[trigger] acts[k] is Transfer)
                    || acts[k]->Transfer_from != s.contract_address
        }),
{
    let inv = s.inv(invoice_id);
    let rate = funding_rate(inv, now) as int;
    assert(s.invoices@[invoice_id - 1] == inv);
    assert(crate::contract::invoice_ok(inv));
    assert(fund_amount * rate <= inv.amount * rate) by (nonlinear_arith)
        requires 0 <= fund_amount <= inv.amount, rate >= 0;
    assert(fund_amount * rate >= 0) by (nonlinear_arith)
        requires 0 <= fund_amount, rate >= 0;
    let me = s.contract_address;
    let pay_in = seq![transfer(inv.token, funder, me, (fund_amount - discount_spec(fund_amount as int, rate)) as i128)];
    let payout = if inv.amount_funded + fund_amount == inv.amount {
        seq![transfer(inv.token, me, inv.freelancer, (inv.amount - discount_spec(inv.amount as int, rate)) as i128)]
    } else {
        Seq::empty()
    };
    let notice = match s.settings.distribution_contract {
        Some(d) => seq![Action::AccrueLp { contract: d, lp: funder, amount: fund_amount }],
        None => Seq::empty(),
    };
    let acts = s.funding_actions(funder, invoice_id, fund_amount, now);
    assert(acts == pay_in + payout + notice);
    assert(acts[0] == pay_in[0]);
    if inv.amount_funded + fund_amount == inv.amount {
        assert(acts[1] == payout[0]);
    } else {
        assert forall|k: int| 0 <= k < acts.len() implies !(#[trigger] acts[k] is Transfer)
            || acts[k]->Transfer_from != me by {
            if k == 0 {
            } else {
                assert(acts[k] == notice[k - 1]);
            }
        }
    }
}

/// What settling pays each LP out of the protocol, less what the LP paid in for its
/// contribution, is exactly what is added to that LP's recorded earnings; so the earnings
/// credited never exceed what the LPs gain. It holds for contributions of distinct LPs, with
/// discount rates and treasury rates of at most 100%, while the recorded total stays in range.
pub proof fn law_settlement_credits_each_lp_its_own_gain(
    m: Map<Address, LPStats>,
    fs: Seq<(Address, i128)>,
    token: Address,
    me: Address,
    distribute: int,
    amount: int,
    rate: u32,
    bps: u32,
    treasury: Option<Address>,
    k: int,
)
    requires
        all_nonneg(fs),
        forall|i: int, j: int| 0 <= i < j < fs.len() ==> #[trigger] fs[i].0 != #[trigger] fs[j].0,
        forall|i: int| 0 <= i < fs.len() ==> #[trigger] fs[i].1 * rate <= i128::MAX,
        0 <= distribute,
        0 < amount,
        rate <= 10_000,
        bps <= 100,
        0 <= k < fs.len(),
        i128::MIN <= stats_in(m, fs[k].0).total_earned + received(
            payouts(fs, token, me, distribute, amount, rate, bps, treasury),
            fs[k].0,
        ) - (fs[k].1 - fs[k].1 * rate / 10_000) <= i128::MAX,
    ensures
        stats_in(settled_stats(m, fs, distribute, amount, rate, bps, treasury), fs[k].0).total_earned
            == stats_in(m, fs[k].0).total_earned + received(
            payouts(fs, token, me, distribute, amount, rate, bps, treasury),
            fs[k].0,
        ) - (fs[k].1 - fs[k].1 * rate / 10_000),
    decreases fs.len(),
{
    let n = fs.len() - 1;
    let rest = fs.drop_last();
    let a = fs[k].0;
    let (last_a, amt) = fs.last();
    assert forall|i: int| 0 <= i < rest.len() implies #[trigger] rest[i].1 >= 0 by {
        assert(rest[i] == fs[i]);
    }
    lemma_settle_one(token, me, last_a, amt, distribute, amount, rate, bps, treasury);
    let share = share_of(distribute, amt as int, amount);
    let earned = earned_of(share, amt as int, rate);
    let fee = treasury_fee(earned, bps, treasury);
    let to_treasury = if fee > 0 { seq![treasury_fee_transfer(token, me, treasury.unwrap(), fee as i128)] } else { Seq::empty() };
    let to_lp = if share - fee > 0 { seq![transfer(token, me, last_a, (share - fee) as i128)] } else { Seq::empty() };
    let before = payouts(rest, token, me, distribute, amount, rate, bps, treasury);
    assert(payouts(fs, token, me, distribute, amount, rate, bps, treasury) == before + to_treasury + to_lp);
    lemma_received_append(before + to_treasury, to_lp, a);
    lemma_received_append(before, to_treasury, a);
    let prev = settled_stats(m, rest, distribute, amount, rate, bps, treasury);
    reveal_with_fuel(received, 2);
    if fee > 0 {
        assert(to_treasury.drop_last() =~= Seq::<Action>::empty());
    }
    if share - fee > 0 {
        assert(to_lp.drop_last() =~= Seq::<Action>::empty());
    }
    assert(received(to_treasury, a) == 0);
    if k == n {
        assert forall|i: int| 0 <= i < rest.len() implies #[trigger] rest[i].0 != a by {
            assert(rest[i] == fs[i]);
        }
        lemma_settle_absent(m, rest, token, me, distribute, amount, rate, bps, treasury, a);
        assert(last_a == a);
        assert(stats_in(prev, a) == stats_in(m, a));
        assert(received(before, a) == 0);
    } else {
        assert(last_a != a);
        assert(received(to_lp, a) == 0);
        assert(received(payouts(fs, token, me, distribute, amount, rate, bps, treasury), a) == received(before, a));
        assert(stats_in(settled_stats(m, fs, distribute, amount, rate, bps, treasury), a) == stats_in(prev, a));
        assert(last_a != a);
        assert(rest[k] == fs[k]);
        assert forall|i: int, j: int| 0 <= i < j < rest.len() implies #[trigger] rest[i].0 != #[trigger] rest[j].0 by {
            assert(rest[i] == fs[i] && rest[j] == fs[j]);
        }
        assert forall|i: int| 0 <= i < rest.len() implies #[trigger] rest[i].1 * rate <= i128::MAX by {
            assert(rest[i] == fs[i]);
        }
        law_settlement_credits_each_lp_its_own_gain(m, rest, token, me, distribute, amount, rate, bps, treasury, k);
    }
}

/// The total that the transfers among `acts` (not the treasury fees) move to `to`.
pub open spec fn received(acts: Seq<Action>, to: Address) -> int
    decreases acts.len(),
{
    if acts.len() == 0 {
        0
    } else {
        received(acts.drop_last(), to) + match acts.last() {
            Action::Transfer { to: t, amount, .. } => if t == to { amount as int } else { 0 },
            _ => 0,
        }
    }
}

proof fn lemma_received_append(a: Seq<Action>, b: Seq<Action>, to: Address)
    ensures
        received(a + b, to) == received(a, to) + received(b, to),
    decreases b.len(),
{
    if b.len() == 0 {
        assert(a + b =~= a);
    } else {
        assert((a + b).drop_last() =~= a + b.drop_last());
        assert((a + b).last() == b.last());
        lemma_received_append(a, b.drop_last(), to);
    }
}

/// The payout of one contribution `amt` of `a`: what it sends `a`, less what `a` paid in, is the
/// contribution's net gain as settlement records it.
proof fn lemma_settle_one(
    token: Address,
    me: Address,
    a: Address,
    amt: i128,
    distribute: int,
    amount: int,
    rate: u32,
    bps: u32,
    treasury: Option<Address>,
)
    requires
        0 <= amt,
        amt * rate <= i128::MAX,
        0 <= distribute,
        0 < amount,
        rate <= 10_000,
        bps <= 100,
    ensures
        ({
            let share = share_of(distribute, amt as int, amount);
            let earned = earned_of(share, amt as int, rate);
            let fee = treasury_fee(earned, bps, treasury);
            let to_treasury = if fee > 0 { seq![treasury_fee_transfer(token, me, treasury.unwrap(), fee as i128)] } else { Seq::empty() };
            let to_lp = if share - fee > 0 { seq![transfer(token, me, a, (share - fee) as i128)] } else { Seq::empty() };
            &&& forall|b: Address| #[trigger] received(to_treasury, b) == 0
            &&& received(to_lp, a) - (amt - amt * rate / 10_000) == earned - fee
            &&& forall|b: Address| b != a ==> #[trigger] received(to_lp, b) == 0
        }),
{
    reveal_with_fuel(received, 2);
    let p = checked_prod(distribute, amt as int);
    assert(distribute * amt >= 0) by (nonlinear_arith)
        requires distribute >= 0, amt >= 0;
    let share = share_of(distribute, amt as int, amount);
    assert(share == p / amount);
    assert(0 <= share <= p) by (nonlinear_arith)
        requires share == p / amount, p >= 0, amount > 0;
    assert(discount_spec(amt as int, rate as int) == amt * rate / 10_000);
    assert(0 <= amt * rate / 10_000 <= amt) by (nonlinear_arith)
        requires amt >= 0, 0 <= rate <= 10_000;
    let cost = amt - amt * rate / 10_000;
    let earned = earned_of(share, amt as int, rate);
    assert(earned == share - cost);
    let fee = treasury_fee(earned, bps, treasury);
    if earned > 0 && bps > 0 && treasury is Some {
        assert(earned * bps >= 0 && earned * bps <= earned * 100) by (nonlinear_arith)
            requires earned > 0, 0 < bps <= 100;
        assert(checked_prod(earned, bps as int) / 10_000 <= earned / 100) by (nonlinear_arith)
            requires 0 <= checked_prod(earned, bps as int) <= earned * 100, earned > 0;
        assert(checked_prod(earned, bps as int) / 10_000 >= 0) by (nonlinear_arith)
            requires 0 <= checked_prod(earned, bps as int);
        assert(earned / 100 < earned) by (nonlinear_arith)
            requires earned > 0;
    }
    assert(0 <= fee);
    assert(fee == 0 || fee < earned);
    let to_treasury = if fee > 0 { seq![treasury_fee_transfer(token, me, treasury.unwrap(), fee as i128)] } else { Seq::empty() };
    let to_lp = if share - fee > 0 { seq![transfer(token, me, a, (share - fee) as i128)] } else { Seq::empty() };
    if fee > 0 {
        assert(to_treasury.drop_last() =~= Seq::<Action>::empty());
    }
    if share - fee > 0 {
        assert(to_lp.drop_last() =~= Seq::<Action>::empty());
        assert(received(to_lp, a) == share - fee);
    } else {
        assert(share == 0 && fee == 0);
        assert(received(to_lp, a) == 0);
    }
    assert forall|b: Address| b != a implies #[trigger] received(to_lp, b) == 0 by {
        if share - fee > 0 {
            assert(to_lp.drop_last() =~= Seq::<Action>::empty());
        }
    }
    assert forall|b: Address| #[trigger] received(to_treasury, b) == 0 by {
        if fee > 0 {
            assert(to_treasury.drop_last() =~= Seq::<Action>::empty());
        }
    }
}

/// An LP without a contribution among `fs` gets nothing from their payouts and keeps its
/// recorded statistics.
proof fn lemma_settle_absent(
    m: Map<Address, LPStats>,
    fs: Seq<(Address, i128)>,
    token: Address,
    me: Address,
    distribute: int,
    amount: int,
    rate: u32,
    bps: u32,
    treasury: Option<Address>,
    a: Address,
)
    requires
        all_nonneg(fs),
        forall|i: int| 0 <= i < fs.len() ==> #[trigger] fs[i].0 != a,
        forall|i: int| 0 <= i < fs.len() ==> #[trigger] fs[i].1 * rate <= i128::MAX,
        0 <= distribute,
        0 < amount,
        rate <= 10_000,
        bps <= 100,
    ensures
        stats_in(settled_stats(m, fs, distribute, amount, rate, bps, treasury), a) == stats_in(m, a),
        received(payouts(fs, token, me, distribute, amount, rate, bps, treasury), a) == 0,
    decreases fs.len(),
{
    if fs.len() > 0 {
        let rest = fs.drop_last();
        assert forall|i: int| 0 <= i < rest.len() implies #[trigger] rest[i].1 >= 0 by {
            assert(rest[i] == fs[i]);
        }
        assert forall|i: int| 0 <= i < rest.len() implies #[trigger] rest[i].0 != a by {
            assert(rest[i] == fs[i]);
        }
        assert forall|i: int| 0 <= i < rest.len() implies #[trigger] rest[i].1 * rate <= i128::MAX by {
            assert(rest[i] == fs[i]);
        }
        lemma_settle_absent(m, rest, token, me, distribute, amount, rate, bps, treasury, a);
        let (last_a, amt) = fs.last();
        assert(fs[fs.len() - 1].0 != a);
        assert(amt >= 0) by {
            assert(fs[fs.len() - 1].1 >= 0);
        }
        assert(fs[fs.len() - 1].1 * rate <= i128::MAX);
        lemma_settle_one(token, me, last_a, amt, distribute, amount, rate, bps, treasury);
        let share = share_of(distribute, amt as int, amount);
        let earned = earned_of(share, amt as int, rate);
        let fee = treasury_fee(earned, bps, treasury);
        let to_treasury = if fee > 0 { seq![treasury_fee_transfer(token, me, treasury.unwrap(), fee as i128)] } else { Seq::empty() };
        let to_lp = if share - fee > 0 { seq![transfer(token, me, last_a, (share - fee) as i128)] } else { Seq::empty() };
        let before = payouts(rest, token, me, distribute, amount, rate, bps, treasury);
        assert(payouts(fs, token, me, distribute, amount, rate, bps, treasury) == before + to_treasury + to_lp);
        lemma_received_append(before + to_treasury, to_lp, a);
        lemma_received_append(before, to_treasury, a);
        reveal_with_fuel(received, 2);
        if fee > 0 {
            assert(to_treasury.drop_last() =~= Seq::<Action>::empty());
        }
        assert(received(to_treasury, a) == 0);
        assert(received(to_lp, a) == 0);
    }
}

} // verus!

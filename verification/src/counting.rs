use vstd::prelude::*;
use crate::invoice::{Address, Invoice, InvoiceStatus};

verus! {

/// Number of invoices in `s` that satisfy `p`.
pub open spec fn count_where(s: Seq<Invoice>, p: spec_fn(Invoice) -> bool) -> nat
    decreases s.len(),
{
    if s.len() == 0 {
        0
    } else {
        count_where(s.drop_last(), p) + (if p(s.last()) { 1nat } else { 0nat })
    }
}

/// The invoice is in state `st`.
pub open spec fn in_state(st: InvoiceStatus) -> spec_fn(Invoice) -> bool {
    |i: Invoice| i.status == st
}

/// The invoice has been funded in full.
pub open spec fn fully_funded() -> spec_fn(Invoice) -> bool {
    |i: Invoice| i.amount_funded == i.amount
}

pub proof fn lemma_count_push(s: Seq<Invoice>, x: Invoice, p: spec_fn(Invoice) -> bool)
    ensures
        count_where(s.push(x), p) == count_where(s, p) + (if p(x) { 1nat } else { 0nat }),
{
    assert(s.push(x).drop_last() =~= s);
}

pub proof fn lemma_count_update(s: Seq<Invoice>, i: int, x: Invoice, p: spec_fn(Invoice) -> bool)
    requires
        0 <= i < s.len(),
    ensures
        count_where(s.update(i, x), p) + (if p(s[i]) { 1nat } else { 0nat }) == count_where(s, p) + (
        if p(x) { 1nat } else { 0nat }),
    decreases s.len(),
{
    let t = s.update(i, x);
    if i == s.len() - 1 {
        assert(t.drop_last() =~= s.drop_last());
    } else {
        assert(t.drop_last() =~= s.drop_last().update(i, x));
        lemma_count_update(s.drop_last(), i, x, p);
    }
}

pub proof fn lemma_count_le_len(s: Seq<Invoice>, p: spec_fn(Invoice) -> bool)
    ensures
        count_where(s, p) <= s.len(),
    decreases s.len(),
{
    if s.len() > 0 {
        lemma_count_le_len(s.drop_last(), p);
    }
}

/// Sum of the amounts in a list of (address, amount) pairs.
pub open spec fn sum_amounts(s: Seq<(Address, i128)>) -> int
    decreases s.len(),
{
    if s.len() == 0 {
        0
    } else {
        sum_amounts(s.drop_last()) + s.last().1
    }
}

pub proof fn lemma_sum_push(s: Seq<(Address, i128)>, x: (Address, i128))
    ensures
        sum_amounts(s.push(x)) == sum_amounts(s) + x.1,
{
    assert(s.push(x).drop_last() =~= s);
}

pub proof fn lemma_sum_update(s: Seq<(Address, i128)>, i: int, x: (Address, i128))
    requires
        0 <= i < s.len(),
    ensures
        sum_amounts(s.update(i, x)) == sum_amounts(s) - s[i].1 + x.1,
    decreases s.len(),
{
    let t = s.update(i, x);
    if i == s.len() - 1 {
        assert(t.drop_last() =~= s.drop_last());
    } else {
        assert(t.drop_last() =~= s.drop_last().update(i, x));
        lemma_sum_update(s.drop_last(), i, x);
    }
}

/// Every amount in `s` is non-negative.
pub open spec fn all_nonneg(s: Seq<(Address, i128)>) -> bool {
    forall|k: int| 0 <= k < s.len() ==> #[trigger] s[k].1 >= 0
}

pub proof fn lemma_part_le_sum(s: Seq<(Address, i128)>, i: int)
    requires
        0 <= i < s.len(),
        all_nonneg(s),
    ensures
        s[i].1 <= sum_amounts(s),
        sum_amounts(s) >= 0,
    decreases s.len(),
{
    lemma_sum_nonneg(s.drop_last());
    if i < s.len() - 1 {
        lemma_part_le_sum(s.drop_last(), i);
    }
}

pub proof fn lemma_sum_nonneg(s: Seq<(Address, i128)>)
    requires
        all_nonneg(s),
    ensures
        sum_amounts(s) >= 0,
    decreases s.len(),
{
    if s.len() > 0 {
        lemma_sum_nonneg(s.drop_last());
    }
}

} // verus!

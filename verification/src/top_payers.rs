use vstd::prelude::*;
use vstd::multiset::Multiset;
use crate::constants::TOP_PAYERS_CAPACITY;
use crate::invoice::{Address, TopPayerEntry};

verus! {

broadcast use {
    vstd::seq_lib::group_to_multiset_ensures,
    vstd::multiset::group_multiset_axioms,
    vstd::multiset::group_multiset_properties,
};

/// Index of the parent of a non-root heap slot.
pub open spec fn parent_of(i: int) -> int {
    (i - 1) / 2
}

/// `s` is a min-heap on scores: no entry scores below its parent.
pub open spec fn heap_ok(s: Seq<TopPayerEntry>) -> bool {
    forall|i: int| 0 < i < s.len() ==> s[parent_of(i)].score <= #[trigger] s[i].score
}

/// No payer occurs twice in `s`.
pub open spec fn distinct_payers(s: Seq<TopPayerEntry>) -> bool {
    forall|i: int, j: int|
        0 <= i < s.len() && 0 <= j < s.len() && i != j ==> #[trigger] s[i].address
            != #[trigger] s[j].address
}

/// The heap property holds everywhere except, possibly, between slot `k` and its parent; and the
/// parent of `k` does not score above the children of `k`.
pub open spec fn heap_ok_except_up(s: Seq<TopPayerEntry>, k: int) -> bool {
    &&& forall|i: int| 0 < i < s.len() && i != k ==> s[parent_of(i)].score <= #[trigger] s[i].score
    &&& k > 0 ==> forall|c: int|
        0 < c < s.len() && parent_of(c) == k ==> s[parent_of(k)].score <= #[trigger] s[c].score
}

/// The heap property holds everywhere except, possibly, between slot `k` and its children; and
/// the parent of `k` does not score above the children of `k`.
pub open spec fn heap_ok_except_down(s: Seq<TopPayerEntry>, k: int) -> bool {
    &&& forall|i: int|
        0 < i < s.len() && parent_of(i) != k ==> s[parent_of(i)].score <= #[trigger] s[i].score
    &&& k > 0 ==> forall|c: int|
        0 < c < s.len() && parent_of(c) == k ==> s[parent_of(k)].score <= #[trigger] s[c].score
}

/// `s` with slots `i` and `j` exchanged.
pub open spec fn swapped(s: Seq<TopPayerEntry>, i: int, j: int) -> Seq<TopPayerEntry> {
    s.update(i, s[j]).update(j, s[i])
}

/// `s` after the entry at slot `k` has moved towards the root, swapping with its parent while it
/// scores below it.
pub open spec fn sifted_up(s: Seq<TopPayerEntry>, k: int) -> Seq<TopPayerEntry>
    decreases k,
{
    if k <= 0 || k >= s.len() || s[k].score >= s[parent_of(k)].score {
        s
    } else {
        sifted_up(swapped(s, parent_of(k), k), parent_of(k))
    }
}

/// The child of slot `k` that the entry there swaps with when it moves away from the root: the
/// lower-scoring child that scores below it (the left one on a tie), or `k` itself when none does.
pub open spec fn down_pick(s: Seq<TopPayerEntry>, k: int) -> int {
    let l = 2 * k + 1;
    let r = 2 * k + 2;
    let m = if l < s.len() && s[l].score < s[k].score { l } else { k };
    if r < s.len() && s[r].score < s[m].score { r } else { m }
}

/// `s` after the entry at slot `k` has moved away from the root, swapping with `down_pick` until
/// no child scores below it.
pub open spec fn sifted_down(s: Seq<TopPayerEntry>, k: int) -> Seq<TopPayerEntry>
    decreases s.len() - k,
{
    if k < 0 || k >= s.len() || down_pick(s, k) == k {
        s
    } else {
        sifted_down(swapped(s, k, down_pick(s, k)), down_pick(s, k))
    }
}

proof fn lemma_swap_keeps_contents(s: Seq<TopPayerEntry>, i: int, j: int)
    requires
        0 <= i < s.len(),
        0 <= j < s.len(),
    ensures
        swapped(s, i, j).to_multiset() == s.to_multiset(),
        swapped(s, i, j).len() == s.len(),
        distinct_payers(s) ==> distinct_payers(swapped(s, i, j)),
{
    let s1 = s.update(i, s[j]);
    assert(s1.to_multiset() == s.to_multiset().insert(s[j]).remove(s[i]));
    assert(swapped(s, i, j).to_multiset() == s1.to_multiset().insert(s[i]).remove(s1[j]));
    if i == j {
        assert(swapped(s, i, j) =~= s);
    } else {
        assert(s1[j] == s[j]);
        assert(swapped(s, i, j).to_multiset() =~= s.to_multiset());
    }
    if distinct_payers(s) {
        let t = swapped(s, i, j);
        assert forall|a: int, b: int|
            0 <= a < t.len() && 0 <= b < t.len() && a != b implies #[trigger] t[a].address
                != #[trigger] t[b].address by {
            let sa = if a == i { j } else if a == j { i } else { a };
            let sb = if b == i { j } else if b == j { i } else { b };
            assert(t[a] == s[sa]);
            assert(t[b] == s[sb]);
            assert(s[sa].address != s[sb].address);
        }
    }
}

/// Index of the parent of heap slot `index` (the root is its own parent).
pub fn parent_index(index: u32) -> (p: u32)
    ensures
        index > 0 ==> p == parent_of(index as int),
        index == 0 ==> p == 0,
{
    (index.saturating_sub(1)) / 2
}

/// Index of the left child of heap slot `index`.
pub fn left_child(index: u32) -> (c: u32)
    requires
        index * 2 + 1 <= u32::MAX,
    ensures
        c == index * 2 + 1,
{
    index * 2 + 1
}

/// Index of the right child of heap slot `index`.
pub fn right_child(index: u32) -> (c: u32)
    requires
        index * 2 + 2 <= u32::MAX,
    ensures
        c == index * 2 + 2,
{
    index * 2 + 2
}

/// The score by which the heap is ordered.
pub fn entry_score(entry: &TopPayerEntry) -> (s: u32)
    ensures
        s == entry.score,
{
    entry.score
}

fn swap_entries(heap: &mut Vec<TopPayerEntry>, i: usize, j: usize)
    requires
        i < old(heap).len(),
        j < old(heap).len(),
    ensures
        final(heap)@ == swapped(old(heap)@, i as int, j as int),
{
    let a = heap[i];
    let b = heap[j];
    heap[i] = b;
    heap[j] = a;
}

proof fn lemma_sift_up_step(before: Seq<TopPayerEntry>, k: int)
    requires
        0 < k < before.len(),
        heap_ok_except_up(before, k),
        before[k].score < before[parent_of(k)].score,
    ensures
        heap_ok_except_up(swapped(before, parent_of(k), k), parent_of(k)),
{
    let p = parent_of(k);
    let s = swapped(before, p, k);
    assert(s[p] == before[k]);
    assert(s[k] == before[p]);
    assert forall|i: int| 0 < i < s.len() && i != p implies s[parent_of(i)].score
        <= #[trigger] s[i].score by {
        if i == k {
        } else if parent_of(i) == k {
            assert(before[parent_of(k)].score <= before[i].score);
        } else if parent_of(i) == p {
            assert(before[p].score <= before[i].score);
        } else {
            assert(before[parent_of(i)].score <= before[i].score);
        }
    }
    if p > 0 {
        assert forall|c: int| 0 < c < s.len() && parent_of(c) == p implies s[parent_of(
            p,
        )].score <= #[trigger] s[c].score by {
            assert(before[parent_of(p)].score <= before[p].score);
            if c != k {
                assert(before[p].score <= before[c].score);
            }
        }
    }
}

proof fn lemma_sift_up_done(s: Seq<TopPayerEntry>, k: int)
    requires
        0 <= k < s.len(),
        heap_ok_except_up(s, k),
        k > 0 ==> s[k].score >= s[parent_of(k)].score,
    ensures
        heap_ok(s),
{
}

/// Moves the entry at `index` towards the root until the heap property holds.
pub fn sift_up(heap: &mut Vec<TopPayerEntry>, index: u32)
    requires
        (index as int) < old(heap).len() < 0x7fff_ffff,
        heap_ok_except_up(old(heap)@, index as int),
    ensures
        heap_ok(final(heap)@),
        distinct_payers(old(heap)@) ==> distinct_payers(final(heap)@),
        final(heap)@.to_multiset() == old(heap)@.to_multiset(),
        final(heap)@.len() == old(heap)@.len(),
        final(heap)@ == sifted_up(old(heap)@, index as int),
{
    let mut index = index;
    let ghost start = heap@;
    let ghost start_index = index as int;
    loop
        invariant
            (index as int) < heap.len() < 0x7fff_ffff,
            heap_ok_except_up(heap@, index as int),
            distinct_payers(start) ==> distinct_payers(heap@),
            heap@.to_multiset() == start.to_multiset(),
            heap@.len() == start.len(),
            sifted_up(heap@, index as int) == sifted_up(start, start_index),
        ensures
            heap_ok(heap@),
            distinct_payers(start) ==> distinct_payers(heap@),
            heap@.to_multiset() == start.to_multiset(),
            heap@.len() == start.len(),
            heap@ == sifted_up(start, start_index),
        decreases index,
    {
        if index == 0 {
            proof {
                lemma_sift_up_done(heap@, 0);
            }
            break;
        }
        let parent = parent_index(index);
        let current = heap[index as usize];
        let parent_entry = heap[parent as usize];
        if entry_score(&current) >= entry_score(&parent_entry) {
            proof {
                lemma_sift_up_done(heap@, index as int);
            }
            break;
        }
        let ghost before = heap@;
        proof {
            lemma_swap_keeps_contents(before, parent as int, index as int);
            lemma_sift_up_step(before, index as int);
        }
        swap_entries(heap, parent as usize, index as usize);
        index = parent;
    }
}

proof fn lemma_sift_down_step(s0: Seq<TopPayerEntry>, k: int, m: int)
    requires
        0 <= k < m < s0.len(),
        parent_of(m) == k,
        heap_ok_except_down(s0, k),
        s0[m].score < s0[k].score,
        forall|c: int| 0 < c < s0.len() && parent_of(c) == k ==> s0[m].score <= #[trigger] s0[c].score,
    ensures
        heap_ok_except_down(swapped(s0, k, m), m),
{
    let s = swapped(s0, k, m);
    assert(s[k] == s0[m]);
    assert(s[m] == s0[k]);
    assert forall|i: int| 0 < i < s.len() && parent_of(i) != m implies s[parent_of(i)].score
        <= #[trigger] s[i].score by {
        if i == m {
        } else if i == k {
            assert(s0[parent_of(k)].score <= s0[m].score);
        } else if parent_of(i) == k {
            assert(s0[m].score <= s0[i].score);
        } else {
            assert(s0[parent_of(i)].score <= s0[i].score);
        }
    }
    assert forall|c: int| 0 < c < s.len() && parent_of(c) == m implies s[parent_of(m)].score
        <= #[trigger] s[c].score by {
        assert(s0[m].score <= s0[c].score);
    }
}

proof fn lemma_sift_down_done(s: Seq<TopPayerEntry>, k: int)
    requires
        0 <= k < s.len(),
        heap_ok_except_down(s, k),
        forall|c: int| 0 < c < s.len() && parent_of(c) == k ==> s[k].score <= #[trigger] s[c].score,
    ensures
        heap_ok(s),
{
    assert forall|i: int| 0 < i < s.len() implies s[parent_of(i)].score <= #[trigger] s[i].score by {
        if parent_of(i) == k {
        }
    }
}

/// `down_pick` is `k` or a child of `k`, and no child of `k` scores below it.
proof fn lemma_down_pick(s: Seq<TopPayerEntry>, k: int)
    requires
        0 <= k < s.len(),
    ensures
        k <= down_pick(s, k) < s.len(),
        down_pick(s, k) != k ==> parent_of(down_pick(s, k)) == k,
        forall|c: int| 0 < c < s.len() && parent_of(c) == k ==> s[down_pick(s, k)].score <= #[trigger] s[c].score,
{
    assert forall|c: int| 0 < c < s.len() && parent_of(c) == k implies s[down_pick(s, k)].score
        <= #[trigger] s[c].score by {
        assert(c == 2 * k + 1 || c == 2 * k + 2);
    }
}

/// Moves the entry at `index` away from the root until the heap property holds.
pub fn sift_down(heap: &mut Vec<TopPayerEntry>, index: u32)
    requires
        (index as int) < old(heap).len() < 0x3fff_ffff,
        heap_ok_except_down(old(heap)@, index as int),
    ensures
        heap_ok(final(heap)@),
        distinct_payers(old(heap)@) ==> distinct_payers(final(heap)@),
        final(heap)@.to_multiset() == old(heap)@.to_multiset(),
        final(heap)@.len() == old(heap)@.len(),
        final(heap)@ == sifted_down(old(heap)@, index as int),
{
    let len = heap.len() as u32;
    let mut index = index;
    let ghost start = heap@;
    let ghost start_index = index as int;
    loop
        invariant
            len == heap.len(),
            (index as int) < heap.len() < 0x3fff_ffff,
            heap_ok_except_down(heap@, index as int),
            distinct_payers(start) ==> distinct_payers(heap@),
            heap@.to_multiset() == start.to_multiset(),
            heap@.len() == start.len(),
            sifted_down(heap@, index as int) == sifted_down(start, start_index),
        ensures
            heap_ok(heap@),
            distinct_payers(start) ==> distinct_payers(heap@),
            heap@.to_multiset() == start.to_multiset(),
            heap@.len() == start.len(),
            heap@ == sifted_down(start, start_index),
        decreases len - index,
    {
        let left = left_child(index);
        let right = right_child(index);
        let mut smallest = index;
        if left < len {
            let left_entry = heap[left as usize];
            let smallest_entry = heap[smallest as usize];
            if entry_score(&left_entry) < entry_score(&smallest_entry) {
                smallest = left;
            }
        }
        if right < len {
            let right_entry = heap[right as usize];
            let smallest_entry = heap[smallest as usize];
            if entry_score(&right_entry) < entry_score(&smallest_entry) {
                smallest = right;
            }
        }
        let ghost s0 = heap@;
        let ghost k = index as int;
        proof {
            assert(smallest as int == down_pick(s0, k));
            lemma_down_pick(s0, k);
        }
        if smallest == index {
            proof {
                lemma_sift_down_done(s0, k);
            }
            break;
        }
        proof {
            lemma_swap_keeps_contents(s0, k, smallest as int);
            lemma_sift_down_step(s0, k, smallest as int);
        }
        swap_entries(heap, index as usize, smallest as usize);
        index = smallest;
    }
}

/// `payer` has an entry in `s`.
pub open spec fn contains_payer(s: Seq<TopPayerEntry>, payer: Address) -> bool {
    exists|i: int| 0 <= i < s.len() && #[trigger] s[i].address == payer
}

/// The entries of `s` other than that of `payer`.
pub open spec fn without_payer(s: Seq<TopPayerEntry>, payer: Address) -> Multiset<TopPayerEntry> {
    if contains_payer(s, payer) {
        let i = choose|i: int| 0 <= i < s.len() && #[trigger] s[i].address == payer;
        s.to_multiset().remove(s[i])
    } else {
        s.to_multiset()
    }
}

/// The slot of `payer`'s entry in `s`.
pub open spec fn slot_of(s: Seq<TopPayerEntry>, payer: Address) -> int {
    choose|i: int| 0 <= i < s.len() && #[trigger] s[i].address == payer
}

/// `s` after `payer`'s entry is taken out: the last entry fills its slot, then moves towards the
/// root if it scores below its new parent, and away from it otherwise.
pub open spec fn heap_without(s: Seq<TopPayerEntry>, payer: Address) -> Seq<TopPayerEntry> {
    if !contains_payer(s, payer) {
        s
    } else {
        let i = slot_of(s, payer);
        let t = s.update(i, s[s.len() - 1]).drop_last();
        if i == s.len() - 1 {
            s.drop_last()
        } else if i > 0 && t[i].score < t[parent_of(i)].score {
            sifted_up(t, i)
        } else {
            sifted_down(t, i)
        }
    }
}

/// `s` after `payer` enters with `score`: appended and moved towards the root while there is
/// room; in a full heap, put in place of the lowest entry and moved away from the root if it
/// beats that entry, and left out otherwise.
pub open spec fn heap_with(s: Seq<TopPayerEntry>, payer: Address, score: u32) -> Seq<TopPayerEntry> {
    let e = TopPayerEntry { address: payer, score };
    if s.len() < TOP_PAYERS_CAPACITY {
        sifted_up(s.push(e), s.len() as int)
    } else if score <= s[0].score {
        s
    } else {
        sifted_down(s.update(0, e), 0)
    }
}

/// Number of entries of `s` other than that of `payer`.
pub open spec fn len_without_payer(s: Seq<TopPayerEntry>, payer: Address) -> int {
    if contains_payer(s, payer) { s.len() - 1 } else { s.len() as int }
}

proof fn lemma_same_contents_same_elements(s: Seq<TopPayerEntry>, t: Seq<TopPayerEntry>, i: int)
    requires
        s.to_multiset() == t.to_multiset(),
        0 <= i < t.len(),
    ensures
        s.contains(t[i]),
{
    assert(t.contains(t[i]));
    assert(t.to_multiset().count(t[i]) > 0);
    assert(s.to_multiset().count(t[i]) > 0);
}

proof fn lemma_fill_hole(old_s: Seq<TopPayerEntry>, idx: int)
    requires
        heap_ok(old_s),
        distinct_payers(old_s),
        0 <= idx < old_s.len() - 1,
    ensures
        ({
            let t = old_s.update(idx, old_s[old_s.len() - 1]).drop_last();
            &&& t.to_multiset() == old_s.to_multiset().remove(old_s[idx])
            &&& distinct_payers(t)
            &&& forall|j: int| 0 <= j < t.len() ==> #[trigger] t[j].address != old_s[idx].address
            &&& (idx > 0 && t[idx].score < t[parent_of(idx)].score) ==> heap_ok_except_up(t, idx)
            &&& !(idx > 0 && t[idx].score < t[parent_of(idx)].score) ==> heap_ok_except_down(t, idx)
        }),
{
    let last = old_s.len() - 1;
    let u = old_s.update(idx, old_s[last]);
    let t = u.drop_last();
    assert(u.to_multiset() == old_s.to_multiset().insert(old_s[last]).remove(old_s[idx]));
    assert(t =~= u.remove(last));
    assert(t.to_multiset() == u.to_multiset().remove(u[last]));
    assert(u[last] == old_s[last]);
    assert(t.to_multiset() =~= old_s.to_multiset().remove(old_s[idx]));
    assert forall|a: int, b: int|
        0 <= a < t.len() && 0 <= b < t.len() && a != b implies #[trigger] t[a].address
            != #[trigger] t[b].address by {
        let sa = if a == idx { last } else { a };
        let sb = if b == idx { last } else { b };
        assert(t[a] == old_s[sa]);
        assert(t[b] == old_s[sb]);
    }
    assert forall|j: int| 0 <= j < t.len() implies #[trigger] t[j].address != old_s[idx].address by {
        let sj = if j == idx { last } else { j };
        assert(t[j] == old_s[sj]);
    }
    if idx > 0 && t[idx].score < t[parent_of(idx)].score {
        assert forall|i: int| 0 < i < t.len() && i != idx implies t[parent_of(i)].score
            <= #[trigger] t[i].score by {
            assert(old_s[parent_of(i)].score <= old_s[i].score);
            if parent_of(i) == idx {
                assert(old_s[parent_of(idx)].score <= old_s[idx].score);
            }
        }
        assert forall|c: int| 0 < c < t.len() && parent_of(c) == idx implies t[parent_of(idx)].score
            <= #[trigger] t[c].score by {
            assert(old_s[parent_of(idx)].score <= old_s[idx].score);
            assert(old_s[idx].score <= old_s[c].score);
        }
    } else {
        assert forall|i: int| 0 < i < t.len() && parent_of(i) != idx implies t[parent_of(i)].score
            <= #[trigger] t[i].score by {
            assert(old_s[parent_of(i)].score <= old_s[i].score);
        }
        if idx > 0 {
            assert forall|c: int| 0 < c < t.len() && parent_of(c) == idx implies t[parent_of(
                idx,
            )].score <= #[trigger] t[c].score by {
                assert(old_s[parent_of(idx)].score <= old_s[idx].score);
                assert(old_s[idx].score <= old_s[c].score);
            }
        }
    }
}

/// Slot of `payer`'s entry in the heap, if it has one.
fn find_payer(heap: &Vec<TopPayerEntry>, payer: Address) -> (r: Option<usize>)
    ensures
        r is None ==> !contains_payer(heap@, payer),
        r matches Some(i) ==> i < heap@.len() && heap@[i as int].address == payer,
{
    let len = heap.len();
    let mut i: usize = 0;
    while i < len
        invariant
            len == heap.len(),
            i <= len,
            forall|j: int| 0 <= j < i ==> #[trigger] heap@[j].address != payer,
        decreases len - i,
    {
        if heap[i].address == payer {
            return Some(i);
        }
        i = i + 1;
    }
    None
}

/// Removes the entry of `payer` from the heap, if it has one, keeping the heap property.
pub fn remove_payer_from_heap(heap: &mut Vec<TopPayerEntry>, payer: Address)
    requires
        old(heap).len() < 0x3fff_ffff,
        heap_ok(old(heap)@),
        distinct_payers(old(heap)@),
    ensures
        heap_ok(final(heap)@),
        distinct_payers(final(heap)@),
        !contains_payer(final(heap)@, payer),
        final(heap)@.to_multiset() == without_payer(old(heap)@, payer),
        final(heap)@.len() == len_without_payer(old(heap)@, payer),
        final(heap)@ == heap_without(old(heap)@, payer),
{
    let len = heap.len();
    let index = match find_payer(heap, payer) {
        None => {
            return;
        },
        Some(index) => index,
    };
    let ghost old_s = heap@;
    proof {
        assert(old_s[index as int].address == payer);
        assert(contains_payer(old_s, payer));
        let c = choose|c: int| 0 <= c < old_s.len() && #[trigger] old_s[c].address == payer;
        assert(c == index);
    }
    let last_index = len - 1;
    if index != last_index {
        proof {
            lemma_fill_hole(old_s, index as int);
        }
        let last = heap[last_index];
        heap[index] = last;
        heap.pop();
        assert(heap@ =~= old_s.update(index as int, old_s[last_index as int]).drop_last());
        let ghost t = heap@;
        let current = heap[index];
        let mut go_up = false;
        if index > 0 {
            let parent = parent_index(index as u32);
            let parent_entry = heap[parent as usize];
            if entry_score(&current) < entry_score(&parent_entry) {
                go_up = true;
            }
        }
        if go_up {
            sift_up(heap, index as u32);
        } else {
            sift_down(heap, index as u32);
        }
        proof {
            assert forall|j: int| 0 <= j < heap@.len() implies #[trigger] heap@[j].address != payer by {
                lemma_same_contents_same_elements(t, heap@, j);
            }
        }
    } else {
        heap.pop();
        proof {
            assert(heap@ =~= old_s.remove(index as int));
            assert forall|i: int| 0 < i < heap@.len() implies heap@[parent_of(i)].score
                <= #[trigger] heap@[i].score by {
                assert(old_s[parent_of(i)].score <= old_s[i].score);
            }
            assert forall|j: int| 0 <= j < heap@.len() implies #[trigger] heap@[j].address != payer by {
                assert(heap@[j] == old_s[j]);
            }
        }
    }
}

/// Adds `payer` with `score` to a heap that holds no entry for it. When the heap is full the
/// entry replaces the lowest score, and only if it beats it.
pub fn insert_into_heap(heap: &mut Vec<TopPayerEntry>, payer: Address, score: u32)
    requires
        old(heap).len() <= TOP_PAYERS_CAPACITY,
        heap_ok(old(heap)@),
        distinct_payers(old(heap)@),
        !contains_payer(old(heap)@, payer),
    ensures
        heap_ok(final(heap)@),
        distinct_payers(final(heap)@),
        final(heap)@.len() <= TOP_PAYERS_CAPACITY,
        old(heap)@.len() < TOP_PAYERS_CAPACITY ==> final(heap)@.to_multiset()
            == old(heap)@.to_multiset().insert(TopPayerEntry { address: payer, score }),
        old(heap)@.len() >= TOP_PAYERS_CAPACITY && score <= old(heap)@[0].score ==> final(heap)@
            == old(heap)@,
        old(heap)@.len() >= TOP_PAYERS_CAPACITY && score > old(heap)@[0].score
            ==> final(heap)@.to_multiset() == old(heap)@.to_multiset().remove(old(heap)@[0]).insert(
            TopPayerEntry { address: payer, score },
        ),
        final(heap)@ == heap_with(old(heap)@, payer, score),
{
    let entry = TopPayerEntry { address: payer, score };
    let ghost old_s = heap@;
    if heap.len() < TOP_PAYERS_CAPACITY as usize {
        heap.push(entry);
        proof {
            let t = heap@;
            assert(t == old_s.push(entry));
            let k = t.len() - 1;
            assert forall|i: int| 0 < i < t.len() && i != k implies t[parent_of(i)].score
                <= #[trigger] t[i].score by {
                assert(old_s[parent_of(i)].score <= old_s[i].score);
            }
            assert forall|a: int, b: int|
                0 <= a < t.len() && 0 <= b < t.len() && a != b implies #[trigger] t[a].address
                    != #[trigger] t[b].address by {
                if a == k {
                    assert(old_s[b].address != payer);
                } else if b == k {
                    assert(old_s[a].address != payer);
                }
            }
        }
        let last = heap.len() - 1;
        sift_up(heap, last as u32);
        return;
    }
    let min_entry = heap[0];
    if score <= min_entry.score {
        return;
    }
    heap[0] = entry;
    proof {
        let t = heap@;
        assert(t == old_s.update(0, entry));
        assert(t.to_multiset() == old_s.to_multiset().insert(entry).remove(old_s[0]));
        assert(t.to_multiset() =~= old_s.to_multiset().remove(old_s[0]).insert(entry));
        assert forall|i: int| 0 < i < t.len() && parent_of(i) != 0 implies t[parent_of(i)].score
            <= #[trigger] t[i].score by {
            assert(old_s[parent_of(i)].score <= old_s[i].score);
        }
        assert forall|a: int, b: int|
            0 <= a < t.len() && 0 <= b < t.len() && a != b implies #[trigger] t[a].address
                != #[trigger] t[b].address by {
            if a == 0 {
                assert(old_s[b].address != payer);
            } else if b == 0 {
                assert(old_s[a].address != payer);
            }
        }
    }
    sift_down(heap, 0);
}

/// A well-formed top-payers heap: a min-heap of at most `TOP_PAYERS_CAPACITY` distinct payers.
pub open spec fn top_heap_ok(s: Seq<TopPayerEntry>) -> bool {
    &&& heap_ok(s)
    &&& distinct_payers(s)
    &&& s.len() <= TOP_PAYERS_CAPACITY
}

/// `new` is `old` after `payer`'s score became `score`: the payer's old entry leaves; the new
/// entry joins when there is room, or replaces the lowest entry when it beats it.
pub open spec fn heap_updated(old: Seq<TopPayerEntry>, new: Seq<TopPayerEntry>, payer: Address, score: u32) -> bool {
    let e = TopPayerEntry { address: payer, score };
    &&& new == heap_with(heap_without(old, payer), payer, score)
    &&& top_heap_ok(new)
    &&& len_without_payer(old, payer) < TOP_PAYERS_CAPACITY ==> new.to_multiset() == without_payer(old, payer).insert(e)
    &&& len_without_payer(old, payer) >= TOP_PAYERS_CAPACITY && score <= old[0].score ==> new == old
    &&& len_without_payer(old, payer) >= TOP_PAYERS_CAPACITY && score > old[0].score
        ==> new.to_multiset() == old.to_multiset().remove(old[0]).insert(e)
}

/// Keeps the top-payers heap in step with a change of `payer`'s score: its old entry leaves,
/// and the new score enters as `insert_into_heap` decides.
pub fn update_top_payers_on_score_change(heap: &mut Vec<TopPayerEntry>, payer: Address, new_score: u32)
    requires
        top_heap_ok(old(heap)@),
    ensures
        heap_updated(old(heap)@, final(heap)@, payer, new_score),
{
    remove_payer_from_heap(heap, payer);
    insert_into_heap(heap, payer, new_score);
}

/// The `k`-th pick of `get_top_payers`: the highest score among the entries not yet picked,
/// the earliest slot among equal scores.
pub open spec fn is_kth_pick(heap: Seq<TopPayerEntry>, idx: Seq<int>, k: int) -> bool {
    &&& 0 <= idx[k] < heap.len()
    &&& !idx.take(k).contains(idx[k])
    &&& forall|j: int|
        0 <= j < heap.len() && !idx.take(k).contains(j) ==> {
            &&& #[trigger] heap[j].score <= heap[idx[k]].score
            &&& heap[j].score == heap[idx[k]].score ==> j >= idx[k]
        }
}

/// `r` is the selection that `get_top_payers` makes from `heap` through the slots `idx`.
pub open spec fn is_top_selection(heap: Seq<TopPayerEntry>, r: Seq<TopPayerEntry>, idx: Seq<int>) -> bool {
    &&& idx.len() == r.len()
    &&& forall|k: int| 0 <= k < r.len() ==> #[trigger] is_kth_pick(heap, idx, k)
    &&& forall|k: int| 0 <= k < r.len() ==> #[trigger] r[k] == heap[idx[k]]
}

/// Returns up to `limit` top payers from the heap, highest score first; among equal scores the
/// entry stored earlier in the heap comes first.
pub fn get_top_payers(heap: &Vec<TopPayerEntry>, limit: u32) -> (r: Vec<TopPayerEntry>)
    ensures
        r@.len() == if (limit as int) < heap@.len() { limit as int } else { heap@.len() as int },
        exists|idx: Seq<int>| is_top_selection(heap@, r@, idx),
        forall|a: int, b: int| 0 <= a < b < r@.len() ==> r@[a].score >= r@[b].score,
{
    let heap_len = heap.len();
    let take: usize = if (limit as usize) < heap_len { limit as usize } else { heap_len };
    let mut selected: Vec<TopPayerEntry> = Vec::new();
    let mut used: Vec<bool> = Vec::new();
    let mut z: usize = 0;
    while z < heap_len
        invariant
            z <= heap_len == heap.len(),
            used@.len() == z,
            forall|j: int| 0 <= j < z ==> !#[trigger] used@[j],
        decreases heap_len - z,
    {
        used.push(false);
        z = z + 1;
    }
    let ghost mut idx: Seq<int> = Seq::empty();
    let mut n: usize = 0;
    while n < take
        invariant
            take <= heap_len == heap.len(),
            n <= take,
            used@.len() == heap_len,
            selected@.len() == n,
            idx.len() == n,
            forall|j: int| 0 <= j < heap_len ==> (#[trigger] used@[j] <==> idx.contains(j)),
            forall|k: int| 0 <= k < n ==> #[trigger] is_kth_pick(heap@, idx, k),
            forall|k: int| 0 <= k < n ==> #[trigger] selected@[k] == heap@[idx[k]],
            forall|a: int, b: int| 0 <= a < b < n ==> selected@[a].score >= selected@[b].score,
            forall|k: int, j: int|
                #![trigger heap@[j], selected@[k]]
                0 <= k < n && 0 <= j < heap_len && !idx.contains(j) ==> heap@[j].score
                    <= selected@[k].score,
        decreases take - n,
    {
        let mut best: Option<usize> = None;
        let mut i: usize = 0;
        while i < heap_len
            invariant
                take <= heap_len == heap.len(),
                n < take,
                used@.len() == heap_len,
                i <= heap_len,
                forall|j: int| 0 <= j < heap_len ==> (#[trigger] used@[j] <==> idx.contains(j)),
                best.is_none() ==> forall|j: int| 0 <= j < i ==> #[trigger] used@[j],
                best.is_some() ==> {
                    let b = best.unwrap() as int;
                    &&& 0 <= b < i
                    &&& !used@[b]
                    &&& forall|j: int|
                        0 <= j < i && !used@[j] ==> {
                            &&& #[trigger] heap@[j].score <= heap@[b].score
                            &&& heap@[j].score == heap@[b].score ==> j >= b
                        }
                },
            decreases heap_len - i,
        {
            if !used[i] {
                match best {
                    None => {
                        best = Some(i);
                    },
                    Some(b) => {
                        if heap[i].score > heap[b].score {
                            best = Some(i);
                        }
                    },
                }
            }
            i = i + 1;
        }
        proof {
            if best.is_none() {
                // more slots remain unused than have been picked
                assert(idx.len() == n);
                assert forall|j: int| 0 <= j < heap_len implies idx.contains(j) by {
                    assert(used@[j]);
                }
                lemma_picks_cover(idx, heap_len as int);
                assert(false);
            }
        }
        let b = best.unwrap();
        let ghost old_idx = idx;
        proof {
            assert forall|k: int| 0 <= k < n implies old_idx[k] != b by {
                assert(old_idx.contains(old_idx[k]));
            }
            idx = idx.push(b as int);
            assert(idx.take(n as int) =~= old_idx);
            assert forall|k: int| 0 <= k < n implies #[trigger] is_kth_pick(heap@, idx, k) by {
                assert(idx.take(k) =~= old_idx.take(k));
                assert(idx[k] == old_idx[k]);
                assert(is_kth_pick(heap@, old_idx, k));
            }
        }
        let e = heap[b];
        selected.push(e);
        used.set(b, true);
        proof {
            assert forall|j: int| 0 <= j < heap_len implies (#[trigger] used@[j] <==> idx.contains(j)) by {
                if j == b as int {
                    assert(idx[n as int] == j);
                } else {
                    if idx.contains(j) {
                        let w = choose|w: int| 0 <= w < idx.len() && idx[w] == j;
                        assert(w < n);
                        assert(old_idx.contains(j));
                    }
                    if old_idx.contains(j) {
                        let w = choose|w: int| 0 <= w < old_idx.len() && old_idx[w] == j;
                        assert(idx[w] == j);
                    }
                }
            }
            assert(!old_idx.contains(b as int));
            assert(is_kth_pick(heap@, idx, n as int));
            assert forall|a: int, c: int| 0 <= a < c < n + 1 implies selected@[a].score
                >= selected@[c].score by {
                if c == n {
                    assert(!old_idx.contains(b as int));
                }
            }
            assert forall|k: int, j: int|
                #![trigger heap@[j], selected@[k]]
                0 <= k < n + 1 && 0 <= j < heap_len && !idx.contains(j) implies heap@[j].score
                    <= selected@[k].score by {
                assert(!old_idx.contains(j)) by {
                    if old_idx.contains(j) {
                        let w = choose|w: int| 0 <= w < old_idx.len() && old_idx[w] == j;
                        assert(idx[w] == j);
                    }
                }
                if k == n {
                    assert(!used@[j] || j == b);
                }
            }
        }
        n = n + 1;
    }
    proof {
        assert(is_top_selection(heap@, selected@, idx));
    }
    selected
}

/// A sequence of `n` distinct slots below `bound` cannot cover all `bound` slots when `n < bound`.
proof fn lemma_picks_cover(idx: Seq<int>, bound: int)
    requires
        0 <= bound,
        forall|j: int| 0 <= j < bound ==> idx.contains(j),
    ensures
        idx.len() >= bound,
    decreases bound,
{
    if bound > 0 {
        assert(idx.contains(bound - 1));
        let w = choose|w: int| 0 <= w < idx.len() && idx[w] == bound - 1;
        let rest = idx.remove(w);
        assert forall|j: int| 0 <= j < bound - 1 implies rest.contains(j) by {
            assert(idx.contains(j));
            let v = choose|v: int| 0 <= v < idx.len() && idx[v] == j;
            assert(idx[v] != idx[w]);
            if v < w {
                assert(rest[v] == j);
            } else {
                assert(rest[v - 1] == j);
            }
        }
        lemma_picks_cover(rest, bound - 1);
    }
}

} // verus!

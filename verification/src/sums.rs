use vstd::prelude::*;

use crate::rule::{Slot, SlotKind};
use crate::search::{group_sum, slot_amount, total_from};

verus! {

/// `f(0) + f(1) + ... + f(hi - 1)`.
pub open spec fn sum_upto(f: spec_fn(int) -> int, hi: int) -> int
    decreases hi,
{
    if hi <= 0 {
        0
    } else {
        sum_upto(f, hi - 1) + f(hi - 1)
    }
}

pub proof fn lemma_sum_ext(f: spec_fn(int) -> int, g: spec_fn(int) -> int, hi: int)
    requires
        forall|i: int| 0 <= i < hi ==> #[trigger] f(i) == g(i),
    ensures
        sum_upto(f, hi) == sum_upto(g, hi),
    decreases hi,
{
    if hi > 0 {
        lemma_sum_ext(f, g, hi - 1);
    }
}

pub proof fn lemma_sum_add(f: spec_fn(int) -> int, g: spec_fn(int) -> int, h: spec_fn(int) -> int, hi: int)
    requires
        forall|i: int| 0 <= i < hi ==> #[trigger] h(i) == f(i) + g(i),
    ensures
        sum_upto(h, hi) == sum_upto(f, hi) + sum_upto(g, hi),
    decreases hi,
{
    if hi > 0 {
        lemma_sum_add(f, g, h, hi - 1);
    }
}

pub proof fn lemma_sum_point(f: spec_fn(int) -> int, b: int, hi: int)
    requires
        forall|i: int| 0 <= i < hi && i != b ==> #[trigger] f(i) == 0,
    ensures
        sum_upto(f, hi) == if 0 <= b < hi {
            f(b)
        } else {
            0
        },
    decreases hi,
{
    if hi > 0 {
        lemma_sum_point(f, b, hi - 1);
    }
}

pub proof fn lemma_sum_mono(f: spec_fn(int) -> int, g: spec_fn(int) -> int, hi: int)
    requires
        forall|i: int| 0 <= i < hi ==> #[trigger] f(i) <= g(i),
    ensures
        sum_upto(f, hi) <= sum_upto(g, hi),
    decreases hi,
{
    if hi > 0 {
        lemma_sum_mono(f, g, hi - 1);
    }
}

/// What slot `i` adds to the total of `kind` when it is on.
pub open spec fn contribution(slots: Seq<Slot>, bits: Seq<bool>, kind: SlotKind, i: int) -> int {
    if bits[i] {
        slot_amount(slots[i], kind)
    } else {
        0
    }
}

/// A total from a position is the sum of the contributions of the positions from there on.
pub proof fn lemma_total_from_sum(slots: Seq<Slot>, bits: Seq<bool>, kind: SlotKind, lo: int)
    requires
        0 <= lo <= slots.len(),
    ensures
        total_from(slots, bits, kind, lo) == sum_upto(
            |i: int| contribution(slots, bits, kind, i),
            slots.len() as int,
        ) - sum_upto(|i: int| contribution(slots, bits, kind, i), lo),
    decreases slots.len() - lo,
{
    if lo < slots.len() {
        lemma_total_from_sum(slots, bits, kind, lo + 1);
    }
}

/// What slot `i` adds to a group's sum.
pub open spec fn group_contribution(slots: Seq<Slot>, group: Seq<int>, bits: Seq<bool>, i: int) -> int {
    if group.contains(i) && bits[i] {
        slots[i].count as int
    } else {
        0
    }
}

/// A group sum over all positions is the sum of what each position adds to it.
pub proof fn lemma_group_sum_as_sum(slots: Seq<Slot>, group: Seq<int>, bits: Seq<bool>, n: int)
    requires
        group.no_duplicates(),
        forall|k: int| 0 <= k < group.len() ==> 0 <= #[trigger] group[k] < n,
    ensures
        group_sum(slots, group, bits, n) == sum_upto(
            |i: int| group_contribution(slots, group, bits, i),
            n,
        ),
    decreases group.len(),
{
    if group.len() == 0 {
        lemma_sum_point(|i: int| group_contribution(slots, group, bits, i), -1, n);
    } else {
        let p = group.drop_last();
        let b = group.last();
        assert(p.no_duplicates());
        assert(p.push(b) =~= group);
        lemma_group_sum_as_sum(slots, p, bits, n);
        assert(!p.contains(b)) by {
            if p.contains(b) {
                let i = choose|i: int| 0 <= i < p.len() && p[i] == b;
                assert(group[i] == group[group.len() - 1]);
            }
        }
        let fp = |i: int| group_contribution(slots, p, bits, i);
        let fb = |i: int|
            if i == b && bits[i] {
                slots[i].count as int
            } else {
                0
            };
        let fg = |i: int| group_contribution(slots, group, bits, i);
        assert forall|i: int| 0 <= i < n implies #[trigger] fg(i) == fp(i) + fb(i) by {
            crate::rule::lemma_push_contains(p, b, i);
        }
        lemma_sum_add(fp, fb, fg, n);
        lemma_sum_point(fb, b, n);
    }
}

} // verus!

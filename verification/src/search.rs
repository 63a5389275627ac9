use vstd::prelude::*;

use crate::model::CodeRule;
use crate::rule::{
    compiled_from, compiled_wf, group_count, group_of, slots_of, Checks, CompiledRule, Slot,
    SlotKind,
};

verus! {

/// What a slot adds to the total of `kind` when it is on.
pub open spec fn slot_amount(s: Slot, kind: SlotKind) -> int {
    if s.kind == kind {
        s.count as int
    } else {
        0
    }
}

/// The total of `kind` that the switched-on slots at positions `lo..` add.
pub open spec fn total_from(slots: Seq<Slot>, bits: Seq<bool>, kind: SlotKind, lo: int) -> int
    decreases slots.len() - lo,
{
    if 0 <= lo < slots.len() {
        (if bits[lo] {
            slot_amount(slots[lo], kind)
        } else {
            0
        }) + total_from(slots, bits, kind, lo + 1)
    } else {
        0
    }
}

/// The total of `kind` that all slots at positions `lo..` add.
pub open spec fn kind_sum_from(slots: Seq<Slot>, kind: SlotKind, lo: int) -> int
    decreases slots.len() - lo,
{
    if 0 <= lo < slots.len() {
        slot_amount(slots[lo], kind) + kind_sum_from(slots, kind, lo + 1)
    } else {
        0
    }
}

/// The sum of the counts of the switched-on slots of a group (positions from 0) below `limit`.
pub open spec fn group_sum(slots: Seq<Slot>, group: Seq<int>, bits: Seq<bool>, limit: int) -> int
    decreases group.len(),
{
    if group.len() == 0 {
        0
    } else {
        group_sum(slots, group.drop_last(), bits, limit) + (if 0 <= group.last() < limit
            && bits[group.last()] {
            slots[group.last()].count as int
        } else {
            0
        })
    }
}

/// The slots of cap group `g` of a rule, numbered from 0.
pub open spec fn rule_group(rule: &CodeRule, g: int) -> Seq<int> {
    group_of(rule, g).map_values(|b: usize| b as int - 1)
}

/// The sum of the counts of the switched-on slots of cap group `g`.
pub open spec fn group_total(rule: &CodeRule, bits: Seq<bool>, g: int) -> int {
    group_sum(slots_of(rule), rule_group(rule, g), bits, slots_of(rule).len() as int)
}

/// Whether every cap group of a code stays within its cap.
pub open spec fn within_caps(rule: &CodeRule, bits: Seq<bool>) -> bool {
    forall|g: int| 0 <= g < group_count(rule) ==> #[trigger] group_total(rule, bits, g)
        <= rule.extra.caps@[g].cap
}

/// The total of `kind` that a code's switched-on slots add, caps left aside.
pub open spec fn code_total(rule: &CodeRule, bits: Seq<bool>, kind: SlotKind) -> int {
    total_from(slots_of(rule), bits, kind, 0)
}

/// Whether a code fits the rule, stays within every cap, and its slots add up to the given
/// red, blue and direction totals.
pub open spec fn exact_code(rule: &CodeRule, bits: Seq<bool>, red: int, blue: int, direction: int) -> bool {
    &&& bits.len() == slots_of(rule).len()
    &&& within_caps(rule, bits)
    &&& code_total(rule, bits, SlotKind::Red) == red
    &&& code_total(rule, bits, SlotKind::Blue) == blue
    &&& code_total(rule, bits, SlotKind::Direction) == direction
}

/// Whether `a` comes after `b` or equals it at positions `lo..`, an on slot counting above an off one.
pub open spec fn lex_geq_from(a: Seq<bool>, b: Seq<bool>, lo: int, n: int) -> bool
    decreases n - lo,
{
    if 0 <= lo < n {
        if a[lo] == b[lo] {
            lex_geq_from(a, b, lo + 1, n)
        } else {
            a[lo]
        }
    } else {
        true
    }
}

/// The red, blue and direction totals still to be reached.
#[derive(Debug, Clone, Copy)]
pub struct Remaining {
    pub red: u64,
    pub blue: u64,
    pub direction: u64,
}

/// Whether the slots at positions `lo..` of `bits` add exactly the remaining totals.
pub open spec fn reaches_from(slots: Seq<Slot>, bits: Seq<bool>, lo: int, rem: Remaining) -> bool {
    &&& total_from(slots, bits, SlotKind::Red, lo) == rem.red
    &&& total_from(slots, bits, SlotKind::Blue, lo) == rem.blue
    &&& total_from(slots, bits, SlotKind::Direction, lo) == rem.direction
}

pub proof fn lemma_total_from_bounds(slots: Seq<Slot>, bits: Seq<bool>, kind: SlotKind, lo: int)
    requires
        0 <= lo,
    ensures
        0 <= total_from(slots, bits, kind, lo) <= kind_sum_from(slots, kind, lo),
    decreases slots.len() - lo,
{
    if 0 <= lo < slots.len() {
        lemma_total_from_bounds(slots, bits, kind, lo + 1);
    }
}

pub proof fn lemma_total_from_frame(slots: Seq<Slot>, a: Seq<bool>, b: Seq<bool>, kind: SlotKind, lo: int)
    requires
        0 <= lo,
        a.len() == slots.len(),
        b.len() == slots.len(),
        forall|i: int| lo <= i < slots.len() ==> a[i] == b[i],
    ensures
        total_from(slots, a, kind, lo) == total_from(slots, b, kind, lo),
    decreases slots.len() - lo,
{
    if 0 <= lo < slots.len() {
        lemma_total_from_frame(slots, a, b, kind, lo + 1);
    }
}

pub proof fn lemma_kind_sum_bound(slots: Seq<Slot>, kind: SlotKind, lo: int)
    requires
        0 <= lo <= slots.len(),
    ensures
        0 <= kind_sum_from(slots, kind, lo) <= (slots.len() - lo) * 0xffff_ffff_ffff_ffffint,
    decreases slots.len() - lo,
{
    if lo < slots.len() {
        lemma_kind_sum_bound(slots, kind, lo + 1);
    }
}

/// A group sum depends only on the switches below its limit.
pub proof fn lemma_group_sum_frame(slots: Seq<Slot>, group: Seq<int>, a: Seq<bool>, b: Seq<bool>, limit: int)
    requires
        forall|i: int| 0 <= i < limit ==> a[i] == b[i],
    ensures
        group_sum(slots, group, a, limit) == group_sum(slots, group, b, limit),
    decreases group.len(),
{
    if group.len() > 0 {
        lemma_group_sum_frame(slots, group.drop_last(), a, b, limit);
    }
}

/// Raising a group's limit by one adds the count at that position when it is in the group and on.
pub proof fn lemma_group_sum_step(slots: Seq<Slot>, group: Seq<int>, bits: Seq<bool>, limit: int)
    requires
        0 <= limit,
        group.no_duplicates(),
    ensures
        group_sum(slots, group, bits, limit + 1) == group_sum(slots, group, bits, limit) + (if group.contains(
            limit,
        ) && bits[limit] {
            slots[limit].count as int
        } else {
            0
        }),
    decreases group.len(),
{
    if group.len() > 0 {
        let p = group.drop_last();
        assert(p.no_duplicates());
        lemma_group_sum_step(slots, p, bits, limit);
        crate::rule::lemma_push_contains(p, group.last(), limit);
        assert(p.push(group.last()) =~= group);
        if group.last() == limit {
            assert(!p.contains(limit)) by {
                if p.contains(limit) {
                    let i = choose|i: int| 0 <= i < p.len() && p[i] == limit;
                    assert(group[i] == group[group.len() - 1]);
                }
            }
        }
    }
}

/// A group sum does not shrink when its limit grows.
pub proof fn lemma_group_sum_mono(slots: Seq<Slot>, group: Seq<int>, bits: Seq<bool>, lo: int, hi: int)
    requires
        lo <= hi,
    ensures
        group_sum(slots, group, bits, lo) <= group_sum(slots, group, bits, hi),
    decreases group.len(),
{
    if group.len() > 0 {
        lemma_group_sum_mono(slots, group.drop_last(), bits, lo, hi);
    }
}

/// The sums of a compiled group and of the rule's group are the same.
pub proof fn lemma_compiled_group(c: CompiledRule, rule: &CodeRule, g: int)
    requires
        compiled_from(c, rule),
        0 <= g < group_count(rule),
    ensures
        c.caps@[g].bits@.map_values(|b: usize| b as int) == rule_group(rule, g),
{
    assert(c.caps@[g].bits@.map_values(|b: usize| b as int) =~= rule_group(rule, g));
}

/// For each kind, the totals of all slots from each position on, for positions `0..=n`.
pub fn build_suffix_sums(slots: &Vec<Slot>) -> (sums: (Vec<u128>, Vec<u128>, Vec<u128>))
    ensures
        sums.0@.len() == slots@.len() + 1,
        sums.1@.len() == slots@.len() + 1,
        sums.2@.len() == slots@.len() + 1,
        forall|i: int|
            0 <= i <= slots@.len() ==> {
                &&& #[trigger] sums.0@[i] == kind_sum_from(slots@, SlotKind::Red, i)
                &&& sums.1@[i] == kind_sum_from(slots@, SlotKind::Blue, i)
                &&& sums.2@[i] == kind_sum_from(slots@, SlotKind::Direction, i)
            },
{
    let len = slots.len();
    let mut red: Vec<u128> = Vec::new();
    let mut blue: Vec<u128> = Vec::new();
    let mut direction: Vec<u128> = Vec::new();
    while red.len() <= len
        invariant
            red@.len() == blue@.len(),
            red@.len() == direction@.len(),
            red@.len() <= len + 1,
            forall|i: int| 0 <= i < red@.len() ==> #[trigger] red@[i] == 0 && blue@[i] == 0 && direction@[i] == 0,
        decreases len + 1 - red@.len(),
    {
        red.push(0);
        blue.push(0);
        direction.push(0);
    }
    let mut idx: usize = len;
    assert(red@[len as int] == kind_sum_from(slots@, SlotKind::Red, len as int));
    assert(blue@[len as int] == kind_sum_from(slots@, SlotKind::Blue, len as int));
    assert(direction@[len as int] == kind_sum_from(slots@, SlotKind::Direction, len as int));
    while idx > 0
        invariant
            len == slots@.len(),
            idx <= len,
            red@.len() == len + 1,
            blue@.len() == len + 1,
            direction@.len() == len + 1,
            forall|i: int|
                idx <= i <= len ==> {
                    &&& #[trigger] red@[i] == kind_sum_from(slots@, SlotKind::Red, i)
                    &&& blue@[i] == kind_sum_from(slots@, SlotKind::Blue, i)
                    &&& direction@[i] == kind_sum_from(slots@, SlotKind::Direction, i)
                },
        decreases idx,
    {
        idx = idx - 1;
        proof {
            lemma_kind_sum_bound(slots@, SlotKind::Red, idx as int);
            lemma_kind_sum_bound(slots@, SlotKind::Blue, idx as int);
            lemma_kind_sum_bound(slots@, SlotKind::Direction, idx as int);
            assert((slots@.len() - idx) * 0xffff_ffff_ffff_ffffint <= 0xffff_ffff_ffff_ffffint
                * 0xffff_ffff_ffff_ffffint) by (nonlinear_arith)
                requires
                    slots@.len() - idx <= 0xffff_ffff_ffff_ffffint,
                    0 <= slots@.len() - idx,
            ;
        }
        let r = red[idx + 1];
        let b = blue[idx + 1];
        let d = direction[idx + 1];
        let count = slots[idx].count as u128;
        match slots[idx].kind {
            SlotKind::Red => {
                red.set(idx, r + count);
                blue.set(idx, b);
                direction.set(idx, d);
            },
            SlotKind::Blue => {
                red.set(idx, r);
                blue.set(idx, b + count);
                direction.set(idx, d);
            },
            SlotKind::Direction => {
                red.set(idx, r);
                blue.set(idx, b);
                direction.set(idx, d + count);
            },
        }
        assert(red@[idx as int] == kind_sum_from(slots@, SlotKind::Red, idx as int));
        assert(blue@[idx as int] == kind_sum_from(slots@, SlotKind::Blue, idx as int));
        assert(direction@[idx as int] == kind_sum_from(slots@, SlotKind::Direction, idx as int));
    }
    (red, blue, direction)
}


/// The sum of the counts of the switched-on slots of cap group `g` at positions `lo..`.
pub open spec fn group_total_from(rule: &CodeRule, bits: Seq<bool>, g: int, lo: int) -> int {
    group_total(rule, bits, g) - group_sum(slots_of(rule), rule_group(rule, g), bits, lo)
}

/// Whether every cap group stays within its cap when the switched-on slots of `bits` at
/// positions `lo..` add their counts to the usage `used` that the groups already have.
pub open spec fn fits_from(rule: &CodeRule, used: Seq<u64>, bits: Seq<bool>, lo: int) -> bool {
    forall|g: int|
        0 <= g < group_count(rule) ==> used[g] + #[trigger] group_total_from(rule, bits, g, lo)
            <= rule.extra.caps@[g].cap
}

/// Whether a usage has one counter per cap group, each within its cap.
pub open spec fn usage_within(rule: &CodeRule, used: Seq<u64>) -> bool {
    &&& used.len() == group_count(rule)
    &&& forall|g: int| 0 <= g < group_count(rule) ==> #[trigger] used[g] <= rule.extra.caps@[g].cap
}

/// Whether `s` has the length of `bits` and agrees with it below `idx`.
pub open spec fn completes(s: Seq<bool>, bits: Seq<bool>, idx: int) -> bool {
    &&& s.len() == bits.len()
    &&& forall|i: int| 0 <= i < idx ==> s[i] == bits[i]
}

/// The facts about a rule's cap group that compiling it shows.
pub proof fn lemma_group_facts(c: CompiledRule, rule: &CodeRule, checks: Checks, g: int)
    requires
        compiled_from(c, rule),
        compiled_wf(c, checks),
        0 <= g < group_count(rule),
    ensures
        rule_group(rule, g).no_duplicates(),
        forall|k: int|
            0 <= k < rule_group(rule, g).len() ==> 0 <= #[trigger] rule_group(rule, g)[k] < slots_of(
                rule,
            ).len(),
        forall|i: int|
            0 <= i < slots_of(rule).len() ==> (rule_group(rule, g).contains(i)
                <==> c.caps@[g].bits@.contains(i as usize)),
{
    lemma_compiled_group(c, rule, g);
    let bs = c.caps@[g].bits@;
    let f = |b: usize| b as int;
    bs.lemma_no_duplicates_injective(f);
    assert forall|k: int| 0 <= k < rule_group(rule, g).len() implies 0 <= #[trigger] rule_group(
        rule,
        g,
    )[k] < slots_of(rule).len() by {
        assert(rule_group(rule, g)[k] == bs[k] as int);
    }
    assert forall|i: int| 0 <= i < slots_of(rule).len() implies (rule_group(rule, g).contains(i)
        <==> bs.contains(i as usize)) by {
        if rule_group(rule, g).contains(i) {
            let k = choose|k: int| 0 <= k < rule_group(rule, g).len() && rule_group(rule, g)[k] == i;
            assert(bs[k] == i as usize);
        }
        if bs.contains(i as usize) {
            let k = choose|k: int| 0 <= k < bs.len() && bs[k] == i as usize;
            assert(rule_group(rule, g)[k] == bs[k] as int);
            assert(rule_group(rule, g)[k] == i);
        }
    }
}


/// Whether `result` is the switches that a search from `idx` with cap usage `used` found: it
/// completes `bits`, adds to no group beyond its cap, reaches the remaining totals, and comes first
/// among all such completions.
pub open spec fn search_found(rule: &CodeRule, used: Seq<u64>, bits: Seq<bool>, result: Seq<bool>, idx: int, rem: Remaining) -> bool {
    &&& completes(result, bits, idx)
    &&& fits_from(rule, used, result, idx)
    &&& reaches_from(slots_of(rule), result, idx, rem)
    &&& forall|s: Seq<bool>|
        completes(s, bits, idx) && fits_from(rule, used, s, idx) && #[trigger] reaches_from(
            slots_of(rule),
            s,
            idx,
            rem,
        ) ==> lex_geq_from(result, s, idx, slots_of(rule).len() as int)
}

/// Whether no completion of `bits` from `idx` that keeps the groups, from usage `used`, within
/// their caps reaches the remaining totals.
pub open spec fn search_failed(rule: &CodeRule, used: Seq<u64>, bits: Seq<bool>, idx: int, rem: Remaining) -> bool {
    forall|s: Seq<bool>|
        completes(s, bits, idx) && fits_from(rule, used, s, idx) ==> !#[trigger] reaches_from(
            slots_of(rule),
            s,
            idx,
            rem,
        )
}

/// Whether no such completion with slot `idx` on reaches the remaining totals.
pub open spec fn on_excluded(rule: &CodeRule, used: Seq<u64>, bits: Seq<bool>, idx: int, rem: Remaining) -> bool {
    forall|s: Seq<bool>|
        completes(s, bits, idx) && fits_from(rule, used, s, idx) && s[idx] ==> !#[trigger] reaches_from(
            slots_of(rule),
            s,
            idx,
            rem,
        )
}

/// The remaining totals once a slot is taken, if its count fits.
pub open spec fn take_slot(rem: Remaining, slot: Slot) -> Option<Remaining> {
    match slot.kind {
        SlotKind::Red => if slot.count <= rem.red {
            Some(Remaining { red: (rem.red - slot.count) as u64, blue: rem.blue, direction: rem.direction })
        } else {
            None
        },
        SlotKind::Blue => if slot.count <= rem.blue {
            Some(Remaining { red: rem.red, blue: (rem.blue - slot.count) as u64, direction: rem.direction })
        } else {
            None
        },
        SlotKind::Direction => if slot.count <= rem.direction {
            Some(Remaining { red: rem.red, blue: rem.blue, direction: (rem.direction - slot.count) as u64 })
        } else {
            None
        },
    }
}

/// Reaching totals from `idx` with slot `idx` off is reaching them from `idx + 1`.
pub proof fn lemma_reaches_off(slots: Seq<Slot>, s: Seq<bool>, idx: int, rem: Remaining)
    requires
        0 <= idx < slots.len(),
        !s[idx],
    ensures
        reaches_from(slots, s, idx, rem) <==> reaches_from(slots, s, idx + 1, rem),
{
}

/// Reaching totals from `idx` with slot `idx` on is reaching what is left once it is taken.
pub proof fn lemma_reaches_on(slots: Seq<Slot>, s: Seq<bool>, idx: int, rem: Remaining)
    requires
        0 <= idx < slots.len(),
        s[idx],
    ensures
        reaches_from(slots, s, idx, rem) ==> take_slot(rem, slots[idx]) is Some,
        take_slot(rem, slots[idx]) matches Some(next) ==> (reaches_from(slots, s, idx, rem)
            <==> reaches_from(slots, s, idx + 1, next)),
{
    lemma_total_from_bounds(slots, s, SlotKind::Red, idx + 1);
    lemma_total_from_bounds(slots, s, SlotKind::Blue, idx + 1);
    lemma_total_from_bounds(slots, s, SlotKind::Direction, idx + 1);
}


/// The groups that a compiled slot lists are the rule's groups that hold it.
proof fn lemma_slot_groups(c: CompiledRule, rule: &CodeRule, checks: Checks, idx: int, g: int)
    requires
        compiled_from(c, rule),
        compiled_wf(c, checks),
        0 <= idx < slots_of(rule).len(),
        0 <= g < group_count(rule),
    ensures
        c.slot_to_caps@[idx]@.contains(g as usize) <==> rule_group(rule, g).contains(idx),
        c.slots@[idx] == slots_of(rule)[idx],
        c.caps@[g].cap == rule.extra.caps@[g].cap,
{
    lemma_group_facts(c, rule, checks, g);
    assert(c.slot_to_caps@[idx]@.no_duplicates());
    assert(c.caps@[g].cap == rule.extra.caps@[g].cap);
}

/// A group's sum from `idx` is what slot `idx` adds to it, then its sum from `idx + 1`.
proof fn lemma_from_step(c: CompiledRule, rule: &CodeRule, checks: Checks, s: Seq<bool>, g: int, idx: int)
    requires
        compiled_from(c, rule),
        compiled_wf(c, checks),
        0 <= idx < slots_of(rule).len(),
        0 <= g < group_count(rule),
    ensures
        group_total_from(rule, s, g, idx) == (if rule_group(rule, g).contains(idx) && s[idx] {
            slots_of(rule)[idx].count as int
        } else {
            0
        }) + group_total_from(rule, s, g, idx + 1),
{
    lemma_group_facts(c, rule, checks, g);
    lemma_group_sum_step(slots_of(rule), rule_group(rule, g), s, idx);
}

/// A group's sum from a position is never negative.
proof fn lemma_from_nonneg(rule: &CodeRule, s: Seq<bool>, g: int, lo: int)
    requires
        0 <= lo <= slots_of(rule).len(),
    ensures
        group_total_from(rule, s, g, lo) >= 0,
{
    lemma_group_sum_mono(slots_of(rule), rule_group(rule, g), s, lo, slots_of(rule).len() as int);
}

/// With slot `idx` off, fitting from `idx` is fitting from `idx + 1`.
proof fn lemma_fits_off(c: CompiledRule, rule: &CodeRule, checks: Checks, used: Seq<u64>, s: Seq<bool>, idx: int)
    requires
        compiled_from(c, rule),
        compiled_wf(c, checks),
        0 <= idx < slots_of(rule).len(),
        !s[idx],
    ensures
        fits_from(rule, used, s, idx) <==> fits_from(rule, used, s, idx + 1),
{
    if fits_from(rule, used, s, idx) {
        assert forall|g: int| 0 <= g < group_count(rule) implies used[g] + #[trigger] group_total_from(
            rule,
            s,
            g,
            idx + 1,
        ) <= rule.extra.caps@[g].cap by {
            lemma_from_step(c, rule, checks, s, g, idx);
        }
    }
    if fits_from(rule, used, s, idx + 1) {
        assert forall|g: int| 0 <= g < group_count(rule) implies used[g] + #[trigger] group_total_from(
            rule,
            s,
            g,
            idx,
        ) <= rule.extra.caps@[g].cap by {
            lemma_from_step(c, rule, checks, s, g, idx);
        }
    }
}

/// Whether `raised` is `used` with the count of slot `idx` added to each group that holds it.
pub open spec fn raised_by(rule: &CodeRule, used: Seq<u64>, raised: Seq<u64>, idx: int) -> bool {
    &&& raised.len() == used.len()
    &&& forall|g: int|
        0 <= g < group_count(rule) ==> #[trigger] raised[g] == used[g] + (if rule_group(
            rule,
            g,
        ).contains(idx) {
            slots_of(rule)[idx].count as int
        } else {
            0
        })
}

/// With slot `idx` on, fitting from `idx` with usage `used` is fitting from `idx + 1` once the
/// slot's groups have its count added.
proof fn lemma_fits_on(c: CompiledRule, rule: &CodeRule, checks: Checks, used: Seq<u64>, raised: Seq<u64>, s: Seq<bool>, idx: int)
    requires
        compiled_from(c, rule),
        compiled_wf(c, checks),
        0 <= idx < slots_of(rule).len(),
        s[idx],
        raised_by(rule, used, raised, idx),
    ensures
        fits_from(rule, used, s, idx) <==> fits_from(rule, raised, s, idx + 1),
{
    if fits_from(rule, used, s, idx) {
        assert forall|g: int| 0 <= g < group_count(rule) implies raised[g] + #[trigger] group_total_from(
            rule,
            s,
            g,
            idx + 1,
        ) <= rule.extra.caps@[g].cap by {
            lemma_from_step(c, rule, checks, s, g, idx);
        }
    }
    if fits_from(rule, raised, s, idx + 1) {
        assert forall|g: int| 0 <= g < group_count(rule) implies used[g] + #[trigger] group_total_from(
            rule,
            s,
            g,
            idx,
        ) <= rule.extra.caps@[g].cap by {
            lemma_from_step(c, rule, checks, s, g, idx);
            assert(raised[g] + group_total_from(rule, s, g, idx + 1) <= rule.extra.caps@[g].cap);
        }
    }
}

/// A slot whose count exceeds what remains of its kind cannot be on.
proof fn lemma_count_excluded(rule: &CodeRule, used: Seq<u64>, bits: Seq<bool>, idx: int, rem: Remaining)
    requires
        0 <= idx < slots_of(rule).len(),
        take_slot(rem, slots_of(rule)[idx]) is None,
    ensures
        on_excluded(rule, used, bits, idx, rem),
{
    assert forall|s: Seq<bool>|
        completes(s, bits, idx) && fits_from(rule, used, s, idx) && s[idx] implies !#[trigger] reaches_from(
        slots_of(rule),
        s,
        idx,
        rem,
    ) by {
        lemma_reaches_on(slots_of(rule), s, idx, rem);
    }
}

/// A slot whose group would go beyond its cap cannot be on.
proof fn lemma_cap_blocked(
    rule: &CodeRule,
    c: CompiledRule,
    checks: Checks,
    used: Seq<u64>,
    bits: Seq<bool>,
    idx: int,
    g: int,
    rem: Remaining,
)
    requires
        compiled_from(c, rule),
        compiled_wf(c, checks),
        0 <= idx < slots_of(rule).len(),
        0 <= g < group_count(rule),
        c.slot_to_caps@[idx]@.contains(g as usize),
        used[g] + c.slots@[idx].count > c.caps@[g].cap,
    ensures
        on_excluded(rule, used, bits, idx, rem),
{
    lemma_slot_groups(c, rule, checks, idx, g);
    assert forall|s: Seq<bool>|
        completes(s, bits, idx) && fits_from(rule, used, s, idx) && s[idx] implies !#[trigger] reaches_from(
        slots_of(rule),
        s,
        idx,
        rem,
    ) by {
        lemma_from_step(c, rule, checks, s, g, idx);
        lemma_from_nonneg(rule, s, g, idx + 1);
        assert(used[g] + group_total_from(rule, s, g, idx) <= rule.extra.caps@[g].cap);
    }
}

/// When the search with slot `idx` on fails, no completion with that slot on reaches the totals.
proof fn lemma_first_failed(
    c: CompiledRule,
    rule: &CodeRule,
    checks: Checks,
    used: Seq<u64>,
    raised: Seq<u64>,
    bits: Seq<bool>,
    on_bits: Seq<bool>,
    idx: int,
    rem: Remaining,
    next: Remaining,
)
    requires
        compiled_from(c, rule),
        compiled_wf(c, checks),
        0 <= idx < slots_of(rule).len(),
        bits.len() == slots_of(rule).len(),
        on_bits == bits.update(idx, true),
        take_slot(rem, slots_of(rule)[idx]) == Some(next),
        raised_by(rule, used, raised, idx),
        search_failed(rule, raised, on_bits, idx + 1, next),
    ensures
        on_excluded(rule, used, bits, idx, rem),
{
    assert forall|s: Seq<bool>|
        completes(s, bits, idx) && fits_from(rule, used, s, idx) && s[idx] implies !#[trigger] reaches_from(
        slots_of(rule),
        s,
        idx,
        rem,
    ) by {
        lemma_reaches_on(slots_of(rule), s, idx, rem);
        lemma_fits_on(c, rule, checks, used, raised, s, idx);
        assert(completes(s, on_bits, idx + 1));
        assert(!reaches_from(slots_of(rule), s, idx + 1, next));
    }
}

/// When the search with slot `idx` on succeeds, its result is what the search from `idx` finds,
/// and the usage it leaves is the usage from `idx`.
proof fn lemma_on_found(
    c: CompiledRule,
    rule: &CodeRule,
    checks: Checks,
    used: Seq<u64>,
    raised: Seq<u64>,
    final_used: Seq<u64>,
    bits: Seq<bool>,
    on_bits: Seq<bool>,
    result: Seq<bool>,
    idx: int,
    rem: Remaining,
    next: Remaining,
)
    requires
        compiled_from(c, rule),
        compiled_wf(c, checks),
        0 <= idx < slots_of(rule).len(),
        bits.len() == slots_of(rule).len(),
        on_bits == bits.update(idx, true),
        take_slot(rem, slots_of(rule)[idx]) == Some(next),
        raised_by(rule, used, raised, idx),
        search_found(rule, raised, on_bits, result, idx + 1, next),
        forall|g: int|
            0 <= g < group_count(rule) ==> #[trigger] final_used[g] == raised[g] + group_total_from(
                rule,
                result,
                g,
                idx + 1,
            ),
    ensures
        search_found(rule, used, bits, result, idx, rem),
        forall|g: int|
            0 <= g < group_count(rule) ==> #[trigger] final_used[g] == used[g] + group_total_from(
                rule,
                result,
                g,
                idx,
            ),
{
    assert(result[idx]);
    lemma_reaches_on(slots_of(rule), result, idx, rem);
    lemma_fits_on(c, rule, checks, used, raised, result, idx);
    assert forall|s: Seq<bool>|
        completes(s, bits, idx) && fits_from(rule, used, s, idx) && #[trigger] reaches_from(
            slots_of(rule),
            s,
            idx,
            rem,
        ) implies lex_geq_from(result, s, idx, slots_of(rule).len() as int) by {
        if s[idx] {
            lemma_reaches_on(slots_of(rule), s, idx, rem);
            lemma_fits_on(c, rule, checks, used, raised, s, idx);
            assert(completes(s, on_bits, idx + 1));
            assert(reaches_from(slots_of(rule), s, idx + 1, next));
        }
    }
    assert forall|g: int| 0 <= g < group_count(rule) implies #[trigger] final_used[g] == used[g]
        + group_total_from(rule, result, g, idx) by {
        lemma_from_step(c, rule, checks, result, g, idx);
    }
}

/// With slot `idx` ruled out as on, the search from `idx + 1` with it off decides the search from
/// `idx`, and the usage it leaves is the usage from `idx`.
proof fn lemma_off_step(
    c: CompiledRule,
    rule: &CodeRule,
    checks: Checks,
    used: Seq<u64>,
    final_used: Seq<u64>,
    bits: Seq<bool>,
    result: Seq<bool>,
    idx: int,
    rem: Remaining,
    found: bool,
)
    requires
        compiled_from(c, rule),
        compiled_wf(c, checks),
        0 <= idx < slots_of(rule).len(),
        bits.len() == slots_of(rule).len(),
        !bits[idx],
        on_excluded(rule, used, bits, idx, rem),
        found ==> search_found(rule, used, bits, result, idx + 1, rem),
        !found ==> search_failed(rule, used, bits, idx + 1, rem),
        found ==> forall|g: int|
            0 <= g < group_count(rule) ==> #[trigger] final_used[g] == used[g] + group_total_from(
                rule,
                result,
                g,
                idx + 1,
            ),
    ensures
        found ==> search_found(rule, used, bits, result, idx, rem),
        !found ==> search_failed(rule, used, bits, idx, rem),
        found ==> forall|g: int|
            0 <= g < group_count(rule) ==> #[trigger] final_used[g] == used[g] + group_total_from(
                rule,
                result,
                g,
                idx,
            ),
{
    if found {
        assert(!result[idx]);
        lemma_reaches_off(slots_of(rule), result, idx, rem);
        lemma_fits_off(c, rule, checks, used, result, idx);
        assert forall|s: Seq<bool>|
            completes(s, bits, idx) && fits_from(rule, used, s, idx) && #[trigger] reaches_from(
                slots_of(rule),
                s,
                idx,
                rem,
            ) implies lex_geq_from(result, s, idx, slots_of(rule).len() as int) by {
            assert(!s[idx]);
            lemma_reaches_off(slots_of(rule), s, idx, rem);
            lemma_fits_off(c, rule, checks, used, s, idx);
            assert(completes(s, bits, idx + 1));
        }
        assert forall|g: int| 0 <= g < group_count(rule) implies #[trigger] final_used[g] == used[g]
            + group_total_from(rule, result, g, idx) by {
            lemma_from_step(c, rule, checks, result, g, idx);
        }
    } else {
        assert forall|s: Seq<bool>|
            completes(s, bits, idx) && fits_from(rule, used, s, idx) implies !#[trigger] reaches_from(
            slots_of(rule),
            s,
            idx,
            rem,
        ) by {
            if !s[idx] {
                lemma_reaches_off(slots_of(rule), s, idx, rem);
                lemma_fits_off(c, rule, checks, used, s, idx);
                assert(completes(s, bits, idx + 1));
            }
        }
    }
}

/// Searches for switches at positions `idx..` that add up exactly to `remaining` while every cap
/// group, from the usage `cap_used` it already has, stays within its cap; a slot is tried on
/// before it is tried off. On success `cap_used` holds each group's usage with the switches found.
fn dfs_exact(
    rule: &CodeRule,
    c: &CompiledRule,
    checks: Checks,
    suffix_red: &Vec<u128>,
    suffix_blue: &Vec<u128>,
    suffix_direction: &Vec<u128>,
    idx: usize,
    remaining: Remaining,
    cap_used: &mut Vec<u64>,
    bits: &mut Vec<bool>,
) -> (found: bool)
    requires
        compiled_from(*c, rule),
        compiled_wf(*c, checks),
        suffix_red@.len() == c.slots@.len() + 1,
        suffix_blue@.len() == c.slots@.len() + 1,
        suffix_direction@.len() == c.slots@.len() + 1,
        forall|i: int|
            0 <= i <= c.slots@.len() ==> {
                &&& #[trigger] suffix_red@[i] == kind_sum_from(c.slots@, SlotKind::Red, i)
                &&& suffix_blue@[i] == kind_sum_from(c.slots@, SlotKind::Blue, i)
                &&& suffix_direction@[i] == kind_sum_from(c.slots@, SlotKind::Direction, i)
            },
        idx <= c.slots@.len(),
        old(bits)@.len() == c.slots@.len(),
        forall|i: int| idx <= i < c.slots@.len() ==> !(#[trigger] old(bits)@[i]),
        usage_within(rule, old(cap_used)@),
    ensures
        found ==> search_found(rule, old(cap_used)@, old(bits)@, final(bits)@, idx as int, remaining),
        found ==> final(cap_used)@.len() == old(cap_used)@.len(),
        found ==> forall|g: int|
            0 <= g < group_count(rule) ==> {
                &&& #[trigger] final(cap_used)@[g] == old(cap_used)@[g] + group_total_from(
                    rule,
                    final(bits)@,
                    g,
                    idx as int,
                )
                &&& final(cap_used)@[g] <= rule.extra.caps@[g].cap
            },
        !found ==> final(bits)@ == old(bits)@,
        !found ==> final(cap_used)@ == old(cap_used)@,
        !found ==> search_failed(rule, old(cap_used)@, old(bits)@, idx as int, remaining),
    decreases c.slots@.len() - idx,
{
    let n = c.slots.len();
    let ghost slots = c.slots@;
    if remaining.red as u128 > suffix_red[idx] || remaining.blue as u128 > suffix_blue[idx]
        || remaining.direction as u128 > suffix_direction[idx] {
        assert forall|s: Seq<bool>|
            completes(s, old(bits)@, idx as int) && fits_from(rule, old(cap_used)@, s, idx as int) implies !#[trigger] reaches_from(
            slots_of(rule),
            s,
            idx as int,
            remaining,
        ) by {
            lemma_total_from_bounds(slots, s, SlotKind::Red, idx as int);
            lemma_total_from_bounds(slots, s, SlotKind::Blue, idx as int);
            lemma_total_from_bounds(slots, s, SlotKind::Direction, idx as int);
        }
        return false;
    }
    if idx == n {
        let found = remaining.red == 0 && remaining.blue == 0 && remaining.direction == 0;
        proof {
            assert forall|g: int| 0 <= g < group_count(rule) implies cap_used@[g]
                + #[trigger] group_total_from(rule, bits@, g, idx as int) <= rule.extra.caps@[g].cap
                && cap_used@[g] == old(cap_used)@[g] + group_total_from(rule, bits@, g, idx as int) by {
                assert(cap_used@[g] <= rule.extra.caps@[g].cap);
            }
            assert forall|s: Seq<bool>|
                completes(s, old(bits)@, idx as int) && fits_from(rule, old(cap_used)@, s, idx as int) && #[trigger] reaches_from(
                    slots_of(rule),
                    s,
                    idx as int,
                    remaining,
                ) implies lex_geq_from(bits@, s, idx as int, n as int) by {}
            if !found {
                assert forall|s: Seq<bool>|
                    completes(s, old(bits)@, idx as int) && fits_from(rule, old(cap_used)@, s, idx as int) implies !#[trigger] reaches_from(
                    slots_of(rule),
                    s,
                    idx as int,
                    remaining,
                ) by {}
            }
        }
        return found;
    }
    let slot = c.slots[idx];
    let count = slot.count;
    let next: Option<Remaining> = match slot.kind {
        SlotKind::Red => match remaining.red.checked_sub(count) {
            Some(v) => Some(Remaining { red: v, blue: remaining.blue, direction: remaining.direction }),
            None => None,
        },
        SlotKind::Blue => match remaining.blue.checked_sub(count) {
            Some(v) => Some(Remaining { red: remaining.red, blue: v, direction: remaining.direction }),
            None => None,
        },
        SlotKind::Direction => match remaining.direction.checked_sub(count) {
            Some(v) => Some(Remaining { red: remaining.red, blue: remaining.blue, direction: v }),
            None => None,
        },
    };
    assert(next == take_slot(remaining, slot));
    let next_remaining = match next {
        Some(r) => r,
        None => {
            let found = dfs_exact(
                rule,
                c,
                checks,
                suffix_red,
                suffix_blue,
                suffix_direction,
                idx + 1,
                remaining,
                cap_used,
                bits,
            );
            proof {
                lemma_count_excluded(rule, old(cap_used)@, old(bits)@, idx as int, remaining);
                lemma_off_step(*c, rule, checks, old(cap_used)@, cap_used@, old(bits)@, bits@, idx as int, remaining, found);
            }
            return found;
        },
    };
    let list = &c.slot_to_caps[idx];
    let list_len = list.len();
    let mut caps_ok = true;
    let mut x: usize = 0;
    while x < list_len && caps_ok
        invariant
            compiled_from(*c, rule),
            *list == c.slot_to_caps@[idx as int],
            list_len == list@.len(),
            idx < c.slots@.len(),
            x <= list_len,
            cap_used@.len() == c.caps@.len(),
            caps_ok ==> forall|y: int|
                0 <= y < x ==> cap_used@[#[trigger] list@[y] as int] + count <= c.caps@[list@[y] as int].cap,
            !caps_ok ==> exists|y: int|
                0 <= y < list_len && cap_used@[#[trigger] list@[y] as int] + count > c.caps@[list@[y] as int].cap,
        decreases list_len - x + (if caps_ok { 1int } else { 0int }),
    {
        let g = list[x];
        if cap_used[g] as u128 + count as u128 > c.caps[g].cap as u128 {
            caps_ok = false;
        } else {
            x = x + 1;
        }
    }
    if caps_ok {
        let ghost before_used = cap_used@;
        let mut y: usize = 0;
        while y < list_len
            invariant
                compiled_from(*c, rule),
                *list == c.slot_to_caps@[idx as int],
                list_len == list@.len(),
                idx < c.slots@.len(),
                y <= list_len,
                list@.no_duplicates(),
                cap_used@.len() == c.caps@.len(),
                before_used.len() == c.caps@.len(),
                forall|z: int|
                    0 <= z < list_len ==> before_used[#[trigger] list@[z] as int] + count <= c.caps@[list@[z] as int].cap,
                forall|g: int|
                    0 <= g < c.caps@.len() ==> #[trigger] cap_used@[g] == before_used[g] + (if list@.subrange(
                        0,
                        y as int,
                    ).contains(g as usize) {
                        count as int
                    } else {
                        0
                    }),
            decreases list_len - y,
        {
            let g = list[y];
            proof {
                crate::rule::lemma_push_contains(list@.subrange(0, y as int), g, g);
                assert(!list@.subrange(0, y as int).contains(g)) by {
                    if list@.subrange(0, y as int).contains(g) {
                        let z = choose|z: int| 0 <= z < y && list@.subrange(0, y as int)[z] == g;
                        assert(list@[z] == list@[y as int]);
                    }
                }
            }
            let ghost prev_used = cap_used@;
            assert(prev_used[g as int] == before_used[g as int]);
            assert(list@[y as int] == g);
            cap_used[g] = cap_used[g] + count;
            y = y + 1;
            proof {
                assert(list@.subrange(0, y as int) =~= list@.subrange(0, (y - 1) as int).push(g));
                assert forall|g2: int| 0 <= g2 < c.caps@.len() implies #[trigger] cap_used@[g2] == before_used[g2]
                    + (if list@.subrange(0, y as int).contains(g2 as usize) {
                    count as int
                } else {
                    0
                }) by {
                    crate::rule::lemma_push_contains(list@.subrange(0, (y - 1) as int), g, g2 as usize);
                    if g2 != g as int {
                        assert(cap_used@[g2] == prev_used[g2]);
                    }
                }
            }
        }
        assert(list@.subrange(0, list_len as int) =~= list@);
        let ghost mid_bits = bits@;
        bits.set(idx, true);
        let ghost raised_used = cap_used@;
        proof {
            assert forall|g: int| 0 <= g < group_count(rule) implies #[trigger] raised_used[g]
                == before_used[g] + (if rule_group(rule, g).contains(idx as int) {
                slots_of(rule)[idx as int].count as int
            } else {
                0
            }) && raised_used[g] <= rule.extra.caps@[g].cap by {
                lemma_slot_groups(*c, rule, checks, idx as int, g);
                assert(before_used[g] <= rule.extra.caps@[g].cap);
                if list@.contains(g as usize) {
                    let z = choose|z: int| 0 <= z < list_len && list@[z] == g as usize;
                    assert(before_used[list@[z] as int] + count <= c.caps@[list@[z] as int].cap);
                }
            }
            assert(raised_by(rule, before_used, raised_used, idx as int));
        }
        let found = dfs_exact(
            rule,
            c,
            checks,
            suffix_red,
            suffix_blue,
            suffix_direction,
            idx + 1,
            next_remaining,
            cap_used,
            bits,
        );
        if found {
            proof {
                lemma_on_found(
                    *c,
                    rule,
                    checks,
                    old(cap_used)@,
                    raised_used,
                    cap_used@,
                    old(bits)@,
                    mid_bits.update(idx as int, true),
                    bits@,
                    idx as int,
                    remaining,
                    next_remaining,
                );
            }
            return true;
        }
        proof {
            lemma_first_failed(
                *c,
                rule,
                checks,
                old(cap_used)@,
                raised_used,
                old(bits)@,
                mid_bits.update(idx as int, true),
                idx as int,
                remaining,
                next_remaining,
            );
        }
        bits.set(idx, false);
        assert(bits@ =~= old(bits)@);
        let mut z: usize = 0;
        while z < list_len
            invariant
                compiled_from(*c, rule),
                *list == c.slot_to_caps@[idx as int],
                list_len == list@.len(),
                idx < c.slots@.len(),
                z <= list_len,
                list@.no_duplicates(),
                cap_used@.len() == c.caps@.len(),
                before_used.len() == c.caps@.len(),
                forall|g: int|
                    0 <= g < c.caps@.len() ==> #[trigger] raised_used[g] == before_used[g] + (if list@.contains(
                        g as usize,
                    ) {
                        count as int
                    } else {
                        0
                    }),
                forall|g: int|
                    0 <= g < c.caps@.len() ==> #[trigger] cap_used@[g] == before_used[g] + (if list@.subrange(
                        z as int,
                        list_len as int,
                    ).contains(g as usize) {
                        count as int
                    } else {
                        0
                    }),
            decreases list_len - z,
        {
            let g = list[z];
            proof {
                assert(list@.subrange(z as int, list_len as int)[0] == g);
                assert(list@.subrange(z as int, list_len as int).contains(g));
            }
            let ghost prev_used = cap_used@;
            cap_used[g] = cap_used[g] - count;
            z = z + 1;
            proof {
                let rest = list@.subrange(z as int, list_len as int);
                assert(!rest.contains(g)) by {
                    if rest.contains(g) {
                        let w = choose|w: int| 0 <= w < rest.len() && rest[w] == g;
                        assert(list@[z + w] == list@[z - 1]);
                    }
                }
                assert forall|g2: int| 0 <= g2 < c.caps@.len() implies #[trigger] cap_used@[g2] == before_used[g2]
                    + (if list@.subrange(z as int, list_len as int).contains(g2 as usize) {
                    count as int
                } else {
                    0
                }) by {
                    let whole = list@.subrange((z - 1) as int, list_len as int);
                    assert(whole =~= seq![g].add(rest));
                    if whole.contains(g2 as usize) && g2 as usize != g {
                        let w = choose|w: int| 0 <= w < whole.len() && whole[w] == g2 as usize;
                        assert(rest[w - 1] == g2 as usize);
                    }
                    if rest.contains(g2 as usize) {
                        let w = choose|w: int| 0 <= w < rest.len() && rest[w] == g2 as usize;
                        assert(whole[w + 1] == g2 as usize);
                    }
                    if g2 != g as int {
                        assert(cap_used@[g2] == prev_used[g2]);
                    } else {
                        assert(whole.contains(g2 as usize)) by {
                            assert(whole[0] == g);
                        }
                    }
                }
            }
        }
        assert(cap_used@ =~= before_used) by {
            assert forall|g: int| 0 <= g < c.caps@.len() implies #[trigger] cap_used@[g] == before_used[g] by {
                assert(list@.subrange(list_len as int, list_len as int).len() == 0);
            }
        }
    }
    if !caps_ok {
        proof {
            let y = choose|y: int|
                0 <= y < list_len && cap_used@[#[trigger] list@[y] as int] + count > c.caps@[list@[y] as int].cap;
            assert(list@.contains(list@[y]));
            lemma_cap_blocked(rule, *c, checks, cap_used@, old(bits)@, idx as int, list@[y] as int, remaining);
        }
    }
    let found = dfs_exact(
        rule,
        c,
        checks,
        suffix_red,
        suffix_blue,
        suffix_direction,
        idx + 1,
        remaining,
        cap_used,
        bits,
    );
    proof {
        lemma_off_step(*c, rule, checks, old(cap_used)@, cap_used@, old(bits)@, bits@, idx as int, remaining, found);
    }
    found
}



/// A group sum with limit 0 is 0.
pub proof fn lemma_group_sum_zero(slots: Seq<Slot>, group: Seq<int>, bits: Seq<bool>)
    ensures
        group_sum(slots, group, bits, 0) == 0,
    decreases group.len(),
{
    if group.len() > 0 {
        lemma_group_sum_zero(slots, group.drop_last(), bits);
    }
}

/// From no usage at all, fitting from the first slot is staying within every cap.
proof fn lemma_fits_from_start(rule: &CodeRule, zeros: Seq<u64>, s: Seq<bool>)
    requires
        zeros.len() == group_count(rule),
        forall|g: int| 0 <= g < zeros.len() ==> #[trigger] zeros[g] == 0,
    ensures
        fits_from(rule, zeros, s, 0) <==> within_caps(rule, s),
{
    assert forall|g: int| 0 <= g < group_count(rule) implies #[trigger] group_total_from(rule, s, g, 0)
        == group_total(rule, s, g) by {
        lemma_group_sum_zero(slots_of(rule), rule_group(rule, g), s);
    }
    if fits_from(rule, zeros, s, 0) {
        assert forall|g: int| 0 <= g < group_count(rule) implies #[trigger] group_total(rule, s, g)
            <= rule.extra.caps@[g].cap by {
            assert(zeros[g] + group_total_from(rule, s, g, 0) <= rule.extra.caps@[g].cap);
        }
    }
    if within_caps(rule, s) {
        assert forall|g: int| 0 <= g < group_count(rule) implies zeros[g] + #[trigger] group_total_from(
            rule,
            s,
            g,
            0,
        ) <= rule.extra.caps@[g].cap by {
            assert(group_total(rule, s, g) <= rule.extra.caps@[g].cap);
        }
    }
}

/// Looks for the code that reaches the given totals exactly within every cap; of all such codes
/// it returns the one that comes first when an on slot counts above an off one, position by position.
pub fn find_code(rule: &CodeRule, c: &CompiledRule, checks: Checks, red: u64, blue: u64, direction: u64) -> (res: Option<Vec<bool>>)
    requires
        compiled_from(*c, rule),
        compiled_wf(*c, checks),
    ensures
        res matches Some(bits) ==> exact_code(rule, bits@, red as int, blue as int, direction as int),
        res matches Some(bits) ==> forall|s: Seq<bool>|
            #[trigger] exact_code(rule, s, red as int, blue as int, direction as int) ==> lex_geq_from(
                bits@,
                s,
                0,
                slots_of(rule).len() as int,
            ),
        res is None ==> forall|s: Seq<bool>| !#[trigger] exact_code(rule, s, red as int, blue as int, direction as int),
{
    let (suffix_red, suffix_blue, suffix_direction) = build_suffix_sums(&c.slots);
    let mut cap_used: Vec<u64> = Vec::new();
    while cap_used.len() < c.caps.len()
        invariant
            cap_used@.len() <= c.caps@.len(),
            forall|g: int| 0 <= g < cap_used@.len() ==> #[trigger] cap_used@[g] == 0,
        decreases c.caps@.len() - cap_used@.len(),
    {
        cap_used.push(0);
    }
    let mut bits = crate::rule::all_false(c.slots.len());
    let ghost zeros = cap_used@;
    let ghost start = bits@;
    proof {
        assert(usage_within(rule, zeros));
        assert forall|s: Seq<bool>| #[trigger] fits_from(rule, zeros, s, 0) <==> within_caps(rule, s) by {
            lemma_fits_from_start(rule, zeros, s);
        }
    }
    let remaining = Remaining { red, blue, direction };
    let found = dfs_exact(
        rule,
        c,
        checks,
        &suffix_red,
        &suffix_blue,
        &suffix_direction,
        0,
        remaining,
        &mut cap_used,
        &mut bits,
    );
    if found {
        proof {
            assert forall|s: Seq<bool>|
                #[trigger] exact_code(rule, s, red as int, blue as int, direction as int) implies lex_geq_from(
                bits@,
                s,
                0,
                slots_of(rule).len() as int,
            ) by {
                assert(completes(s, start, 0));
                assert(fits_from(rule, zeros, s, 0));
                assert(reaches_from(slots_of(rule), s, 0, remaining));
            }
            assert(fits_from(rule, zeros, bits@, 0));
        }
        Some(bits)
    } else {
        proof {
            assert forall|s: Seq<bool>| !#[trigger] exact_code(rule, s, red as int, blue as int, direction as int) by {
                if exact_code(rule, s, red as int, blue as int, direction as int) {
                    assert(completes(s, start, 0));
                    assert(fits_from(rule, zeros, s, 0));
                    assert(reaches_from(slots_of(rule), s, 0, remaining));
                }
            }
        }
        None
    }
}

} // verus!

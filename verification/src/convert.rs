//! Encoding and decoding of codes under a rule whose cap groups may overlap: before a code is
//! decoded, every group over its cap is thinned out, keeping its slots of highest count first.
use vstd::prelude::*;

use crate::model::{CodeRule, TNTNumCode, TNTNumRB, RB};
use crate::rule::{
    compile_rule, compiled_from, compiled_wf, group_count, group_of, is_first_error, rule_valid,
    slots_of, Checks, CompiledRule, RuleError, Slot, SlotKind,
};
use crate::codec::{encodes, first_encoding};
use crate::search::{
    code_total, find_code, group_sum, group_total, lex_geq_from, rule_group, within_caps,
};
use crate::sums::{contribution, sum_upto};

verus! {

/// Why a code cannot be normalized or decoded, or counts cannot be encoded.
#[derive(Debug, Clone, Copy, PartialEq, Eq, Structural)]
pub enum ConvertError {
    CodeLengthMismatch { expected: usize, actual: usize },
    InvalidCapBit { bit: usize, max: usize },
    DuplicateCapBit { bit: usize },
    DirectionOutOfRange { value: u64 },
    ValueOverflow,
    NoExactEncoding { rb: RB },
}

/// The checks a rule goes through here: slot numbers in range and not repeated within a group.
pub open spec fn lenient() -> Checks {
    Checks { overlap: false, kinds: false }
}

/// The slots of cap group `g` of a rule, numbered from 0.
pub open spec fn group_slots(rule: &CodeRule, g: int) -> Seq<usize> {
    group_of(rule, g).map_values(|b: usize| (b - 1) as usize)
}

/// The switched-on slots of a group, in the group's order.
pub open spec fn enabled_in(group: Seq<usize>, s: Seq<bool>) -> Seq<usize>
    decreases group.len(),
{
    if group.len() == 0 {
        Seq::empty()
    } else {
        let p = enabled_in(group.drop_last(), s);
        if s[group.last() as int] {
            p.push(group.last())
        } else {
            p
        }
    }
}

/// The sum of the counts of the listed slots.
pub open spec fn counts_sum(slots: Seq<Slot>, list: Seq<usize>) -> int
    decreases list.len(),
{
    if list.len() == 0 {
        0
    } else {
        counts_sum(slots, list.drop_last()) + slots[list.last() as int].count
    }
}

/// Whether slot `a` is kept before slot `b`: a higher count first, then a lower position.
pub open spec fn kept_before(slots: Seq<Slot>, a: usize, b: usize) -> bool {
    slots[a as int].count > slots[b as int].count || (slots[a as int].count == slots[b as int].count
        && a < b)
}

/// The position in `rest` of the slot that is kept first.
pub open spec fn best_index(slots: Seq<Slot>, rest: Seq<usize>) -> int
    decreases rest.len(),
{
    if rest.len() <= 1 {
        0
    } else {
        let m = best_index(slots, rest.drop_last());
        if kept_before(slots, rest.last(), rest[m]) {
            rest.len() - 1
        } else {
            m
        }
    }
}

pub proof fn lemma_best_index_range(slots: Seq<Slot>, rest: Seq<usize>)
    requires
        rest.len() > 0,
    ensures
        0 <= best_index(slots, rest) < rest.len(),
    decreases rest.len(),
{
    if rest.len() > 1 {
        lemma_best_index_range(slots, rest.drop_last());
    }
}

/// Takes the listed slots in the order they are kept: each stays on while the kept total stays
/// within `cap`, and is switched off otherwise.
pub open spec fn greedy_keep(slots: Seq<Slot>, rest: Seq<usize>, cap: int, kept: int, s: Seq<bool>) -> Seq<bool>
    decreases rest.len(),
{
    if rest.len() == 0 {
        s
    } else {
        let m = best_index(slots, rest);
        let b = rest[m];
        let others = rest.remove(m);
        proof {
            lemma_best_index_range(slots, rest);
        }
        if kept + slots[b as int].count <= cap {
            greedy_keep(slots, others, cap, kept + slots[b as int].count, s)
        } else {
            greedy_keep(slots, others, cap, kept, if (b as int) < s.len() {
                s.update(b as int, false)
            } else {
                s
            })
        }
    }
}

/// A code with one group thinned out: unchanged when its switched-on slots stay within the cap.
pub open spec fn thin_group(slots: Seq<Slot>, group: Seq<usize>, cap: int, s: Seq<bool>) -> Seq<bool> {
    let e = enabled_in(group, s);
    if counts_sum(slots, e) <= cap {
        s
    } else {
        greedy_keep(slots, e, cap, 0, s)
    }
}

/// A code with the first `m` groups of a rule thinned out, one after the other.
pub open spec fn thin_pass(rule: &CodeRule, s: Seq<bool>, m: int) -> Seq<bool>
    decreases m,
{
    if m <= 0 {
        s
    } else {
        thin_group(
            slots_of(rule),
            group_slots(rule, m - 1),
            rule.extra.caps@[m - 1].cap as int,
            thin_pass(rule, s, m - 1),
        )
    }
}

/// The number of switched-on slots.
pub open spec fn popcount(s: Seq<bool>) -> nat
    decreases s.len(),
{
    if s.len() == 0 {
        0
    } else {
        popcount(s.drop_last()) + if s.last() {
            1nat
        } else {
            0nat
        }
    }
}

/// Whether every slot on in `t` is on in `s`.
pub open spec fn only_off(s: Seq<bool>, t: Seq<bool>) -> bool {
    &&& t.len() == s.len()
    &&& forall|i: int| 0 <= i < s.len() && #[trigger] t[i] ==> s[i]
}

pub proof fn lemma_greedy_only_off(slots: Seq<Slot>, rest: Seq<usize>, cap: int, kept: int, s: Seq<bool>)
    ensures
        only_off(s, greedy_keep(slots, rest, cap, kept, s)),
    decreases rest.len(),
{
    if rest.len() > 0 {
        let m = best_index(slots, rest);
        let b = rest[m];
        let others = rest.remove(m);
        lemma_best_index_range(slots, rest);
        if kept + slots[b as int].count <= cap {
            lemma_greedy_only_off(slots, others, cap, kept + slots[b as int].count, s);
        } else {
            let s2 = if (b as int) < s.len() {
                s.update(b as int, false)
            } else {
                s
            };
            lemma_greedy_only_off(slots, others, cap, kept, s2);
        }
    }
}

/// Thinning out groups only switches slots off.
pub proof fn lemma_pass_only_off(rule: &CodeRule, s: Seq<bool>, m: int)
    ensures
        only_off(s, thin_pass(rule, s, m)),
    decreases m,
{
    if m > 0 {
        lemma_pass_only_off(rule, s, m - 1);
        let prev = thin_pass(rule, s, m - 1);
        let e = enabled_in(group_slots(rule, m - 1), prev);
        lemma_greedy_only_off(slots_of(rule), e, rule.extra.caps@[m - 1].cap as int, 0, prev);
    }
}

/// Switching slots off, and at least one, lowers the number of switched-on slots.
pub proof fn lemma_popcount_drop(s: Seq<bool>, t: Seq<bool>)
    requires
        only_off(s, t),
    ensures
        popcount(t) <= popcount(s),
        t != s ==> popcount(t) < popcount(s),
    decreases s.len(),
{
    if s.len() == 0 {
        assert(t =~= s);
    } else {
        lemma_popcount_drop(s.drop_last(), t.drop_last());
        assert(t.last() ==> s.last());
        if t.drop_last() =~= s.drop_last() && t.last() == s.last() {
            assert forall|i: int| 0 <= i < s.len() implies t[i] == s[i] by {
                if i < s.len() - 1 {
                    assert(t.drop_last()[i] == s.drop_last()[i]);
                }
            }
            assert(t =~= s);
        }
    }
}

/// A code with every group thinned out, pass after pass, until a pass changes nothing.
pub open spec fn normalized(rule: &CodeRule, s: Seq<bool>) -> Seq<bool>
    decreases popcount(s),
{
    let t = thin_pass(rule, s, group_count(rule));
    if t == s {
        s
    } else {
        proof {
            lemma_pass_only_off(rule, s, group_count(rule));
            lemma_popcount_drop(s, t);
        }
        normalized(rule, t)
    }
}


/// The compiled slots of group `g` are the rule's, numbered from 0.
proof fn lemma_compiled_slots(c: CompiledRule, rule: &CodeRule, g: int)
    requires
        compiled_from(c, rule),
        compiled_wf(c, lenient()),
        0 <= g < group_count(rule),
    ensures
        c.caps@[g].bits@ == group_slots(rule, g),
{
    assert forall|k: int| 0 <= k < c.caps@[g].bits@.len() implies c.caps@[g].bits@[k] == group_slots(rule, g)[k] by {
        assert(c.caps@[g].bits@[k] == group_of(rule, g)[k] - 1);
    }
    assert(c.caps@[g].bits@ =~= group_slots(rule, g));
}

/// The position in `list` of the slot kept first.
fn best_position(c: &CompiledRule, list: &Vec<usize>) -> (m: usize)
    requires
        list@.len() > 0,
        forall|k: int| 0 <= k < list@.len() ==> #[trigger] list@[k] < c.slots@.len(),
    ensures
        m == best_index(c.slots@, list@),
        m < list@.len(),
{
    let len = list.len();
    let mut m: usize = 0;
    let mut j: usize = 1;
    while j < len
        invariant
            len == list@.len(),
            1 <= j <= len,
            m < j,
            m == best_index(c.slots@, list@.take(j as int)),
            forall|k: int| 0 <= k < list@.len() ==> #[trigger] list@[k] < c.slots@.len(),
        decreases len - j,
    {
        let a = list[j];
        let b = list[m];
        let ca = c.slots[a].count;
        let cb = c.slots[b].count;
        assert(list@.take(j + 1).drop_last() =~= list@.take(j as int));
        assert(list@.take(j + 1)[m as int] == b);
        if ca > cb || (ca == cb && a < b) {
            m = j;
        }
        j = j + 1;
    }
    assert(list@.take(len as int) =~= list@);
    m
}

/// Thins out group `g`, reporting whether a slot was switched off.
fn thin_group_exec(rule: &CodeRule, c: &CompiledRule, g: usize, bits: &mut Vec<bool>) -> (changed: bool)
    requires
        compiled_from(*c, rule),
        compiled_wf(*c, lenient()),
        g < c.caps@.len(),
        old(bits)@.len() == c.slots@.len(),
    ensures
        final(bits)@ == thin_group(
            slots_of(rule),
            group_slots(rule, g as int),
            rule.extra.caps@[g as int].cap as int,
            old(bits)@,
        ),
        only_off(old(bits)@, final(bits)@),
        changed <==> exists|i: int| 0 <= i < old(bits)@.len() && old(bits)@[i] && !final(bits)@[i],
{
    proof {
        lemma_compiled_slots(*c, rule, g as int);
    }
    let ghost slots = c.slots@;
    let ghost gs = group_slots(rule, g as int);
    let ghost start = bits@;
    let cap = c.caps[g].cap;
    let group = &c.caps[g].bits;
    let nb = group.len();
    let n = c.slots.len();
    let mut enabled: Vec<usize> = Vec::new();
    let mut k: usize = 0;
    while k < nb
        invariant
            compiled_from(*c, rule),
            compiled_wf(*c, lenient()),
            g < c.caps@.len(),
            *group == c.caps@[g as int].bits,
            group@ == gs,
            nb == gs.len(),
            n == slots.len(),
            slots == c.slots@,
            bits@ == start,
            start.len() == n,
            k <= nb,
            enabled@ == enabled_in(gs.take(k as int), start),
            forall|x: int| 0 <= x < enabled@.len() ==> #[trigger] enabled@[x] < n,
        decreases nb - k,
    {
        let b = group[k];
        assert(gs.take(k + 1).drop_last() =~= gs.take(k as int));
        assert(gs.take(k + 1).last() == b);
        assert(b < n);
        if bits[b] {
            enabled.push(b);
        }
        k = k + 1;
    }
    assert(gs.take(nb as int) =~= gs);
    let ne = enabled.len();
    let mut sum: u128 = 0;
    let mut j: usize = 0;
    while j < ne
        invariant
            ne == enabled@.len(),
            n == slots.len(),
            slots == c.slots@,
            j <= ne,
            forall|x: int| 0 <= x < enabled@.len() ==> #[trigger] enabled@[x] < n,
            sum == counts_sum(slots, enabled@.take(j as int)),
            sum <= j * 0xffff_ffff_ffff_ffffint,
        decreases ne - j,
    {
        assert(enabled@.take(j + 1).drop_last() =~= enabled@.take(j as int));
        sum = sum + c.slots[enabled[j]].count as u128;
        j = j + 1;
    }
    assert(enabled@.take(ne as int) =~= enabled@);
    if sum <= cap as u128 {
        assert(only_off(start, bits@));
        return false;
    }
    let ghost target = greedy_keep(slots, enabled@, cap as int, 0, start);
    let mut rest = enabled;
    let mut kept: u128 = 0;
    let mut changed = false;
    while rest.len() > 0
        invariant
            n == slots.len(),
            slots == c.slots@,
            bits@.len() == n,
            forall|x: int| 0 <= x < rest@.len() ==> #[trigger] rest@[x] < n,
            greedy_keep(slots, rest@, cap as int, kept as int, bits@) == target,
            only_off(start, bits@),
            changed <==> exists|i: int| 0 <= i < start.len() && start[i] && !bits@[i],
            kept <= cap,
        decreases rest@.len(),
    {
        let ghost before = bits@;
        let ghost rest_before = rest@;
        let m = best_position(c, &rest);
        let b = rest.remove(m);
        let count = c.slots[b].count as u128;
        assert(rest@ == rest_before.remove(m as int));
        assert forall|x: int| 0 <= x < rest@.len() implies #[trigger] rest@[x] < n by {
            if x < m {
                assert(rest@[x] == rest_before[x]);
            } else {
                assert(rest@[x] == rest_before[x + 1]);
            }
        }
        if kept + count <= cap as u128 {
            kept = kept + count;
        } else if bits[b] {
            bits.set(b, false);
            changed = true;
            assert(start[b as int] && !bits@[b as int]);
        } else {
            assert(before.update(b as int, false) =~= before);
        }
        assert forall|i: int| 0 <= i < start.len() && #[trigger] bits@[i] implies start[i] by {
            assert(before[i]);
        }
        assert(changed ==> exists|i: int| 0 <= i < start.len() && start[i] && !bits@[i]) by {
            if changed {
                if exists|i: int| 0 <= i < start.len() && start[i] && !before[i] {
                    let i = choose|i: int| 0 <= i < start.len() && start[i] && !before[i];
                    assert(!bits@[i]);
                }
            }
        }
        assert((exists|i: int| 0 <= i < start.len() && start[i] && !bits@[i]) ==> changed) by {
            if exists|i: int| 0 <= i < start.len() && start[i] && !bits@[i] {
                let i = choose|i: int| 0 <= i < start.len() && start[i] && !bits@[i];
                if i != b as int {
                    assert(!before[i]);
                }
            }
        }
    }
    changed
}

/// Thins out every group of a rule, pass after pass, until a pass changes nothing.
fn normalize_bits(rule: &CodeRule, c: &CompiledRule, bits: &mut Vec<bool>)
    requires
        compiled_from(*c, rule),
        compiled_wf(*c, lenient()),
        old(bits)@.len() == c.slots@.len(),
    ensures
        final(bits)@ == normalized(rule, old(bits)@),
{
    let ncaps = c.caps.len();
    let mut done = false;
    while !done
        invariant
            compiled_from(*c, rule),
            compiled_wf(*c, lenient()),
            ncaps == c.caps@.len(),
            bits@.len() == c.slots@.len(),
            normalized(rule, bits@) == normalized(rule, old(bits)@),
            done ==> bits@ == normalized(rule, old(bits)@),
        decreases popcount(bits@) + if done { 0nat } else { 1nat },
    {
        let ghost before = bits@;
        let mut changed = false;
        let mut g: usize = 0;
        while g < ncaps
            invariant
                compiled_from(*c, rule),
                compiled_wf(*c, lenient()),
                ncaps == c.caps@.len(),
                g <= ncaps,
                bits@.len() == c.slots@.len(),
                before.len() == c.slots@.len(),
                bits@ == thin_pass(rule, before, g as int),
                only_off(before, bits@),
                changed <==> exists|i: int| 0 <= i < before.len() && before[i] && !bits@[i],
            decreases ncaps - g,
        {
            let ghost mid = bits@;
            let step = thin_group_exec(rule, c, g, bits);
            changed = step || changed;
            g = g + 1;
            proof {
                assert forall|i: int| 0 <= i < before.len() && #[trigger] bits@[i] implies before[i] by {
                    assert(mid[i]);
                }
                if step {
                    let i = choose|i: int| 0 <= i < mid.len() && mid[i] && !bits@[i];
                    assert(before[i]);
                }
                if exists|i: int| 0 <= i < before.len() && before[i] && !bits@[i] {
                    let i = choose|i: int| 0 <= i < before.len() && before[i] && !bits@[i];
                    if mid[i] {
                        assert(step);
                    }
                }
            }
        }
        if !changed {
            assert(bits@ =~= before);
            done = true;
        } else {
            proof {
                let i = choose|i: int| 0 <= i < before.len() && before[i] && !bits@[i];
                assert(bits@ != before);
                lemma_popcount_drop(before, bits@);
            }
        }
    }
}


/// Whether `res` reports the first check that the rule's caps fail.
pub open spec fn reports_rule_error<T>(rule: &CodeRule, res: Result<T, ConvertError>) -> bool {
    exists|e: RuleError|
        is_first_error(rule, lenient(), e) && match e {
            RuleError::InvalidCapBit { bit, max } => res == Err::<T, ConvertError>(
                ConvertError::InvalidCapBit { bit, max },
            ),
            RuleError::DuplicateCapBit { bit } => res == Err::<T, ConvertError>(
                ConvertError::DuplicateCapBit { bit },
            ),
            _ => false,
        }
}

/// Reports a refused rule; the checks here refuse a slot number only for its range or a repeat.
fn lenient_error<T>(rule: &CodeRule, e: RuleError) -> (res: Result<T, ConvertError>)
    requires
        is_first_error(rule, lenient(), e),
    ensures
        reports_rule_error(rule, res),
{
    proof {
        let (i, j) = choose|i: int, j: int|
            {
                &&& crate::rule::is_cap_pos(rule, i, j)
                &&& #[trigger] crate::rule::bit_error(rule, lenient(), i, j) == Some(e)
                &&& forall|i2: int, j2: int|
                    crate::rule::is_cap_pos(rule, i2, j2) && crate::rule::pos_before(i2, j2, i, j)
                        ==> #[trigger] crate::rule::bit_error(rule, lenient(), i2, j2) is None
            };
        assert(crate::rule::bit_error(rule, lenient(), i, j) == Some(e));
    }
    match e {
        RuleError::InvalidCapBit { bit, max } => Err(ConvertError::InvalidCapBit { bit, max }),
        RuleError::DuplicateCapBit { bit } => Err(ConvertError::DuplicateCapBit { bit }),
        RuleError::OverlappingCapBit { bit } => Err(ConvertError::DuplicateCapBit { bit }),
        RuleError::MixedCapKinds => Err(ConvertError::ValueOverflow),
    }
}

/// A code with every cap group thinned out until it stays within its cap, slots of higher
/// count (then of lower position) kept first.
pub fn normalize_code(rule: &CodeRule, code: TNTNumCode) -> (res: Result<TNTNumCode, ConvertError>)
    ensures
        !rule_valid(rule, lenient()) ==> reports_rule_error(rule, res),
        rule_valid(rule, lenient()) && code.0@.len() != slots_of(rule).len() ==> res == Err::<
            TNTNumCode,
            ConvertError,
        >(ConvertError::CodeLengthMismatch { expected: slots_of(rule).len() as usize, actual: code.0@.len() as usize }),
        rule_valid(rule, lenient()) && code.0@.len() == slots_of(rule).len() ==> (res matches Ok(
            out,
        ) && out.0@ == normalized(rule, code.0@)),
{
    let compiled = match compile_rule(rule, Checks { overlap: false, kinds: false }) {
        Ok(c) => c,
        Err(e) => return lenient_error(rule, e),
    };
    let n = compiled.slots.len();
    if n != code.0.len() {
        return Err(ConvertError::CodeLengthMismatch { expected: n, actual: code.0.len() });
    }
    let mut bits = code.0;
    normalize_bits(rule, &compiled, &mut bits);
    Ok(TNTNumCode(bits))
}

/// What a code of the right length decodes to under a rule that passes the checks: the totals
/// of its switched-on slots once it is normalized.
pub open spec fn decode_normalized(rule: &CodeRule, bits: Seq<bool>) -> Result<RB, ConvertError> {
    let t = normalized(rule, bits);
    let r = code_total(rule, t, SlotKind::Red);
    let b = code_total(rule, t, SlotKind::Blue);
    let d = code_total(rule, t, SlotKind::Direction);
    if r > u64::MAX || b > u64::MAX || d > u64::MAX {
        Err(ConvertError::ValueOverflow)
    } else if d > 3 {
        Err(ConvertError::DirectionOutOfRange { value: d as u64 })
    } else {
        Ok(RB { num: TNTNumRB { red: r as u64, blue: b as u64 }, direction: d as usize })
    }
}

proof fn lemma_contribution_prefix(slots: Seq<Slot>, bits: Seq<bool>, kind: SlotKind, lo: int)
    requires
        0 <= lo <= slots.len(),
    ensures
        sum_upto(|i: int| contribution(slots, bits, kind, i), lo) <= code_total_of(slots, bits, kind),
{
    let f = |i: int| contribution(slots, bits, kind, i);
    crate::sums::lemma_total_from_sum(slots, bits, kind, 0);
    assert forall|i: int| 0 <= i < slots.len() implies 0 <= #[trigger] f(i) by {}
    crate::codec::lemma_sum_prefix(f, lo, slots.len() as int);
}

/// The total of `kind` of all switched-on slots.
pub open spec fn code_total_of(slots: Seq<Slot>, bits: Seq<bool>, kind: SlotKind) -> int {
    crate::search::total_from(slots, bits, kind, 0)
}

/// Normalizing only switches slots off.
pub proof fn lemma_normalized_only_off(rule: &CodeRule, s: Seq<bool>)
    ensures
        only_off(s, normalized(rule, s)),
    decreases popcount(s),
{
    let t = thin_pass(rule, s, group_count(rule));
    if t != s {
        lemma_pass_only_off(rule, s, group_count(rule));
        lemma_popcount_drop(s, t);
        lemma_normalized_only_off(rule, t);
    }
}

/// The counts and direction a code stands for once it is normalized.
pub fn code_to_rb(rule: &CodeRule, code: TNTNumCode) -> (res: Result<RB, ConvertError>)
    ensures
        !rule_valid(rule, lenient()) ==> reports_rule_error(rule, res),
        rule_valid(rule, lenient()) && code.0@.len() != slots_of(rule).len() ==> res == Err::<
            RB,
            ConvertError,
        >(ConvertError::CodeLengthMismatch { expected: slots_of(rule).len() as usize, actual: code.0@.len() as usize }),
        rule_valid(rule, lenient()) && code.0@.len() == slots_of(rule).len() ==> res
            == decode_normalized(rule, code.0@),
{
    let compiled = match compile_rule(rule, Checks { overlap: false, kinds: false }) {
        Ok(c) => c,
        Err(e) => return lenient_error(rule, e),
    };
    let n = compiled.slots.len();
    if n != code.0.len() {
        return Err(ConvertError::CodeLengthMismatch { expected: n, actual: code.0.len() });
    }
    let ghost orig = code.0@;
    let mut bits = code.0;
    normalize_bits(rule, &compiled, &mut bits);
    let ghost t = bits@;
    proof {
        lemma_normalized_only_off(rule, orig);
    }
    let ghost slots = compiled.slots@;
    let ghost fr = |i: int| contribution(slots, t, SlotKind::Red, i);
    let ghost fb = |i: int| contribution(slots, t, SlotKind::Blue, i);
    let ghost fd = |i: int| contribution(slots, t, SlotKind::Direction, i);
    let mut red: u64 = 0;
    let mut blue: u64 = 0;
    let mut direction: u64 = 0;
    let mut idx: usize = 0;
    while idx < n
        invariant
            n == slots.len(),
            slots == compiled.slots@,
            slots == slots_of(rule),
            bits@ == t,
            t.len() == n,
            rule_valid(rule, lenient()),
            orig.len() == n,
            orig == code.0@,
            t == normalized(rule, orig),
            fr == (|i: int| contribution(slots, t, SlotKind::Red, i)),
            fb == (|i: int| contribution(slots, t, SlotKind::Blue, i)),
            fd == (|i: int| contribution(slots, t, SlotKind::Direction, i)),
            idx <= n,
            red == sum_upto(fr, idx as int),
            blue == sum_upto(fb, idx as int),
            direction == sum_upto(fd, idx as int),
        decreases n - idx,
    {
        assert(sum_upto(fr, idx + 1) == sum_upto(fr, idx as int) + fr(idx as int));
        assert(sum_upto(fb, idx + 1) == sum_upto(fb, idx as int) + fb(idx as int));
        assert(sum_upto(fd, idx + 1) == sum_upto(fd, idx as int) + fd(idx as int));
        if bits[idx] {
            let slot = compiled.slots[idx];
            let (r, b, d) = match slot.kind {
                SlotKind::Red => match red.checked_add(slot.count) {
                    Some(v) => (v, blue, direction),
                    None => {
                        proof {
                            lemma_contribution_prefix(slots, t, SlotKind::Red, idx + 1);
                        }
                        return Err(ConvertError::ValueOverflow);
                    },
                },
                SlotKind::Blue => match blue.checked_add(slot.count) {
                    Some(v) => (red, v, direction),
                    None => {
                        proof {
                            lemma_contribution_prefix(slots, t, SlotKind::Blue, idx + 1);
                        }
                        return Err(ConvertError::ValueOverflow);
                    },
                },
                SlotKind::Direction => match direction.checked_add(slot.count) {
                    Some(v) => (red, blue, v),
                    None => {
                        proof {
                            lemma_contribution_prefix(slots, t, SlotKind::Direction, idx + 1);
                        }
                        return Err(ConvertError::ValueOverflow);
                    },
                },
            };
            red = r;
            blue = b;
            direction = d;
        }
        idx = idx + 1;
    }
    proof {
        crate::sums::lemma_total_from_sum(slots, t, SlotKind::Red, 0);
        crate::sums::lemma_total_from_sum(slots, t, SlotKind::Blue, 0);
        crate::sums::lemma_total_from_sum(slots, t, SlotKind::Direction, 0);
    }
    if direction > 3 {
        return Err(ConvertError::DirectionOutOfRange { value: direction });
    }
    Ok(RB { num: TNTNumRB { red, blue }, direction: direction as usize })
}

/// The code for the given counts and direction: the first code, position by position with an on
/// slot above an off one, whose slots add up exactly to them within every cap.
pub fn rb_to_code(rule: &CodeRule, rb: RB) -> (res: Result<TNTNumCode, ConvertError>)
    ensures
        !rule_valid(rule, lenient()) ==> reports_rule_error(rule, res),
        rule_valid(rule, lenient()) && rb.direction > 3 ==> res == Err::<TNTNumCode, ConvertError>(
            ConvertError::DirectionOutOfRange { value: rb.direction as u64 },
        ),
        rule_valid(rule, lenient()) && rb.direction <= 3 ==> (res is Ok <==> exists|s: Seq<bool>|
            #[trigger] encodes(rule, s, rb)),
        rule_valid(rule, lenient()) && rb.direction <= 3 && res is Err ==> res == Err::<
            TNTNumCode,
            ConvertError,
        >(ConvertError::NoExactEncoding { rb }),
        res matches Ok(code) ==> first_encoding(rule, code.0@, rb),
{
    let compiled = match compile_rule(rule, Checks { overlap: false, kinds: false }) {
        Ok(c) => c,
        Err(e) => return lenient_error(rule, e),
    };
    let direction = rb.direction as u64;
    if direction > 3 {
        return Err(ConvertError::DirectionOutOfRange { value: direction });
    }
    match find_code(rule, &compiled, Checks { overlap: false, kinds: false }, rb.num.red, rb.num.blue, direction) {
        Some(bits) => {
            assert(encodes(rule, bits@, rb));
            Ok(TNTNumCode(bits))
        },
        None => {
            assert forall|s: Seq<bool>| !#[trigger] encodes(rule, s, rb) by {
                assert(!crate::search::exact_code(rule, s, rb.num.red as int, rb.num.blue as int, direction as int));
            }
            Err(ConvertError::NoExactEncoding { rb })
        },
    }
}


/// A normalized code is left unchanged by a further pass.
pub proof fn lemma_normalized_fixpoint(rule: &CodeRule, s: Seq<bool>)
    ensures
        thin_pass(rule, normalized(rule, s), group_count(rule)) == normalized(rule, s),
    decreases popcount(s),
{
    let t = thin_pass(rule, s, group_count(rule));
    if t != s {
        lemma_pass_only_off(rule, s, group_count(rule));
        lemma_popcount_drop(s, t);
        lemma_normalized_fixpoint(rule, t);
    }
}

/// Normalizing twice is normalizing once.
pub proof fn lemma_normalize_idempotent(rule: &CodeRule, s: Seq<bool>)
    ensures
        normalized(rule, normalized(rule, s)) == normalized(rule, s),
{
    lemma_normalized_fixpoint(rule, s);
}

/// A code decodes to what its normalized form decodes to: `code_to_rb` after `normalize_code`
/// gives what `code_to_rb` gives.
pub proof fn lemma_decode_after_normalize(rule: &CodeRule, s: Seq<bool>)
    ensures
        decode_normalized(rule, normalized(rule, s)) == decode_normalized(rule, s),
{
    lemma_normalize_idempotent(rule, s);
}

/// The counts of a group's switched-on slots add up to the group's sum.
proof fn lemma_enabled_sum(slots: Seq<Slot>, gs: Seq<usize>, gi: Seq<int>, s: Seq<bool>)
    requires
        gi.len() == gs.len(),
        forall|k: int| 0 <= k < gs.len() ==> #[trigger] gi[k] == gs[k] as int,
        forall|k: int| 0 <= k < gs.len() ==> (#[trigger] gs[k] as int) < slots.len(),
    ensures
        counts_sum(slots, enabled_in(gs, s)) == group_sum(slots, gi, s, slots.len() as int),
    decreases gs.len(),
{
    if gs.len() > 0 {
        lemma_enabled_sum(slots, gs.drop_last(), gi.drop_last(), s);
        let p = enabled_in(gs.drop_last(), s);
        if s[gs.last() as int] {
            assert(p.push(gs.last()).drop_last() =~= p);
        }
    }
}

/// A code within every cap is left unchanged by thinning the first `m` groups.
proof fn lemma_pass_within_caps(rule: &CodeRule, s: Seq<bool>, m: int)
    requires
        rule_valid(rule, lenient()),
        s.len() == slots_of(rule).len(),
        within_caps(rule, s),
        0 <= m <= group_count(rule),
    ensures
        thin_pass(rule, s, m) == s,
    decreases m,
{
    if m > 0 {
        lemma_pass_within_caps(rule, s, m - 1);
        let g = m - 1;
        let gs = group_slots(rule, g);
        let gi = rule_group(rule, g);
        assert forall|k: int| 0 <= k < gs.len() implies (#[trigger] gs[k] as int) < slots_of(rule).len() && gi[k] == gs[k] as int by {
            assert(crate::rule::is_cap_pos(rule, g, k));
            assert(crate::rule::bit_error(rule, lenient(), g, k) is None);
        }
        lemma_enabled_sum(slots_of(rule), gs, gi, s);
        assert(group_total(rule, s, g) <= rule.extra.caps@[g].cap);
    }
}

/// Decoding a code that encodes given counts and a direction in range gives back those counts
/// and that direction: what `rb_to_code` produces, `code_to_rb` turns back into what was asked for.
pub proof fn lemma_decode_encoded(rule: &CodeRule, rb: RB, bits: Seq<bool>)
    requires
        rule_valid(rule, lenient()),
        rb.direction <= 3,
        encodes(rule, bits, rb),
    ensures
        decode_normalized(rule, bits) == Ok::<RB, ConvertError>(rb),
{
    lemma_pass_within_caps(rule, bits, group_count(rule));
}

/// Each group's thinning only switches slots off.
proof fn lemma_group_only_off(rule: &CodeRule, s: Seq<bool>, m: int)
    requires
        0 <= m,
    ensures
        only_off(thin_pass(rule, s, m), thin_pass(rule, s, m + 1)),
{
    let prev = thin_pass(rule, s, m);
    let e = enabled_in(group_slots(rule, m), prev);
    lemma_greedy_only_off(slots_of(rule), e, rule.extra.caps@[m].cap as int, 0, prev);
}

proof fn lemma_only_off_trans(a: Seq<bool>, b: Seq<bool>, c: Seq<bool>)
    requires
        only_off(a, b),
        only_off(b, c),
    ensures
        only_off(a, c),
{
    assert forall|i: int| 0 <= i < a.len() && #[trigger] c[i] implies a[i] by {
        assert(b[i]);
    }
}

proof fn lemma_only_off_both(a: Seq<bool>, b: Seq<bool>)
    requires
        only_off(a, b),
        only_off(b, a),
    ensures
        a == b,
{
    assert forall|i: int| 0 <= i < a.len() implies a[i] == b[i] by {
        if a[i] {
            assert(b[i]);
        }
        if b[i] {
            assert(a[i]);
        }
    }
    assert(a =~= b);
}

/// The groups after the first `m` only switch off slots that the first `m` left on.
proof fn lemma_pass_chain(rule: &CodeRule, s: Seq<bool>, m: int, k: int)
    requires
        0 <= m <= k,
    ensures
        only_off(thin_pass(rule, s, m), thin_pass(rule, s, k)),
    decreases k - m,
{
    if k > m {
        lemma_pass_chain(rule, s, m, k - 1);
        lemma_group_only_off(rule, s, k - 1);
        lemma_only_off_trans(thin_pass(rule, s, m), thin_pass(rule, s, k - 1), thin_pass(rule, s, k));
    } else {
        let t = thin_pass(rule, s, m);
        assert(only_off(t, t));
    }
}

proof fn lemma_counts_sum_remove(slots: Seq<Slot>, rest: Seq<usize>, m: int)
    requires
        0 <= m < rest.len(),
    ensures
        counts_sum(slots, rest) == counts_sum(slots, rest.remove(m)) + slots[rest[m] as int].count,
    decreases rest.len(),
{
    if m == rest.len() - 1 {
        assert(rest.remove(m) =~= rest.drop_last());
    } else {
        lemma_counts_sum_remove(slots, rest.drop_last(), m);
        assert(rest.remove(m).drop_last() =~= rest.drop_last().remove(m));
        assert(rest.remove(m).last() == rest.last());
    }
}

proof fn lemma_counts_sum_nonneg(slots: Seq<Slot>, rest: Seq<usize>)
    ensures
        counts_sum(slots, rest) >= 0,
    decreases rest.len(),
{
    if rest.len() > 0 {
        lemma_counts_sum_nonneg(slots, rest.drop_last());
    }
}

/// Keeping slots greedily changes a code whose slots, all on, add up to more than the cap.
proof fn lemma_greedy_changes(slots: Seq<Slot>, rest: Seq<usize>, cap: int, kept: int, s: Seq<bool>)
    requires
        forall|k: int| 0 <= k < rest.len() ==> (#[trigger] rest[k] as int) < s.len() && s[rest[k] as int],
        kept <= cap,
        kept + counts_sum(slots, rest) > cap,
    ensures
        greedy_keep(slots, rest, cap, kept, s) != s,
    decreases rest.len(),
{
    if rest.len() == 0 {
        assert(counts_sum(slots, rest) == 0);
    } else {
        let m = best_index(slots, rest);
        lemma_best_index_range(slots, rest);
        let b = rest[m];
        let others = rest.remove(m);
        lemma_counts_sum_remove(slots, rest, m);
        if kept + slots[b as int].count <= cap {
            assert forall|k: int| 0 <= k < others.len() implies (#[trigger] others[k] as int) < s.len()
                && s[others[k] as int] by {
                if k < m {
                    assert(others[k] == rest[k]);
                } else {
                    assert(others[k] == rest[k + 1]);
                }
            }
            lemma_greedy_changes(slots, others, cap, kept + slots[b as int].count, s);
        } else {
            assert((b as int) < s.len() && s[b as int]);
            let s2 = s.update(b as int, false);
            lemma_greedy_only_off(slots, others, cap, kept, s2);
            let r = greedy_keep(slots, others, cap, kept, s2);
            assert(!r[b as int]);
        }
    }
}

proof fn lemma_enabled_on(group: Seq<usize>, s: Seq<bool>)
    requires
        forall|k: int| 0 <= k < group.len() ==> (#[trigger] group[k] as int) < s.len(),
    ensures
        forall|k: int|
            0 <= k < enabled_in(group, s).len() ==> (#[trigger] enabled_in(group, s)[k] as int) < s.len()
                && s[enabled_in(group, s)[k] as int],
    decreases group.len(),
{
    if group.len() > 0 {
        let p = group.drop_last();
        assert forall|k: int| 0 <= k < p.len() implies (#[trigger] p[k] as int) < s.len() by {
            assert(p[k] == group[k]);
        }
        lemma_enabled_on(p, s);
        let e = enabled_in(p, s);
        if s[group.last() as int] {
            assert forall|k: int| 0 <= k < e.push(group.last()).len() implies (#[trigger] e.push(
                group.last(),
            )[k] as int) < s.len() && s[e.push(group.last())[k] as int] by {
                if k < e.len() {
                    assert(e.push(group.last())[k] == e[k]);
                }
            }
        }
    }
}

/// A normalized code keeps every cap group within its cap.
pub proof fn lemma_normalized_within_caps(rule: &CodeRule, s: Seq<bool>)
    requires
        rule_valid(rule, lenient()),
        s.len() == slots_of(rule).len(),
    ensures
        within_caps(rule, normalized(rule, s)),
{
    let t = normalized(rule, s);
    let gc = group_count(rule);
    lemma_normalized_only_off(rule, s);
    lemma_normalized_fixpoint(rule, s);
    assert forall|g: int| 0 <= g < gc implies #[trigger] group_total(rule, t, g)
        <= rule.extra.caps@[g].cap by {
        lemma_pass_only_off(rule, t, g);
        lemma_pass_chain(rule, t, g, gc);
        lemma_only_off_both(t, thin_pass(rule, t, g));
        lemma_pass_only_off(rule, t, g + 1);
        lemma_pass_chain(rule, t, g + 1, gc);
        lemma_only_off_both(t, thin_pass(rule, t, g + 1));
        let gs = group_slots(rule, g);
        let gi = rule_group(rule, g);
        assert forall|k: int| 0 <= k < gs.len() implies (#[trigger] gs[k] as int) < slots_of(
            rule,
        ).len() && gi[k] == gs[k] as int by {
            assert(crate::rule::is_cap_pos(rule, g, k));
            assert(crate::rule::bit_error(rule, lenient(), g, k) is None);
        }
        lemma_enabled_sum(slots_of(rule), gs, gi, t);
        let e = enabled_in(gs, t);
        let cap = rule.extra.caps@[g].cap as int;
        if counts_sum(slots_of(rule), e) > cap {
            lemma_enabled_on(gs, t);
            lemma_greedy_changes(slots_of(rule), e, cap, 0, t);
            assert(thin_pass(rule, t, g + 1) == thin_group(slots_of(rule), gs, cap, t));
        }
    }
}

/// A code that keeps every cap group within its cap is left as it is by normalizing.
pub proof fn lemma_normalize_keeps_fitting(rule: &CodeRule, s: Seq<bool>)
    requires
        rule_valid(rule, lenient()),
        s.len() == slots_of(rule).len(),
        within_caps(rule, s),
    ensures
        normalized(rule, s) == s,
{
    lemma_pass_within_caps(rule, s, group_count(rule));
}

} // verus!

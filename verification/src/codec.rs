//! Encoding and decoding of codes under a rule whose cap groups are disjoint and of one kind each;
//! a group adds the sum of its switched-on slots, cut down to its cap.
use vstd::prelude::*;

use crate::model::{CodeRule, TNTNumCode, TNTNumRB, RB};
use crate::rule::{
    compile_rule, compiled_from, compiled_wf, group_count, group_kind, group_of, is_first_error,
    rule_valid, slots_of, Checks, CompiledRule, RuleError, SlotKind,
};
use crate::search::{
    code_total, exact_code, find_code, group_sum, group_total, lex_geq_from, rule_group,
    within_caps,
};
use crate::sums::{contribution, sum_upto};

verus! {

/// Why a code cannot be decoded, or a count cannot be encoded.
#[derive(Debug, Clone, Copy, PartialEq, Eq, Structural)]
pub enum ConvertError {
    CodeLengthMismatch { expected: usize, actual: usize },
    InvalidCapBit { bit: usize, max: usize },
    DuplicateCapBit { bit: usize },
    OverlappingCapBit { bit: usize },
    MixedCapKinds,
    DirectionOutOfRange { value: u64 },
    ValueOverflow,
    NoExactEncoding { rb: RB },
}

/// The checks a rule goes through here: no slot in two groups, one kind per group.
pub open spec fn strict() -> Checks {
    Checks { overlap: true, kinds: true }
}

/// The error that reports a refused rule.
pub open spec fn rule_error_to_convert(e: RuleError) -> ConvertError {
    match e {
        RuleError::InvalidCapBit { bit, max } => ConvertError::InvalidCapBit { bit, max },
        RuleError::DuplicateCapBit { bit } => ConvertError::DuplicateCapBit { bit },
        RuleError::OverlappingCapBit { bit } => ConvertError::OverlappingCapBit { bit },
        RuleError::MixedCapKinds => ConvertError::MixedCapKinds,
    }
}

fn convert_rule_error(e: RuleError) -> (r: ConvertError)
    ensures
        r == rule_error_to_convert(e),
{
    match e {
        RuleError::InvalidCapBit { bit, max } => ConvertError::InvalidCapBit { bit, max },
        RuleError::DuplicateCapBit { bit } => ConvertError::DuplicateCapBit { bit },
        RuleError::OverlappingCapBit { bit } => ConvertError::OverlappingCapBit { bit },
        RuleError::MixedCapKinds => ConvertError::MixedCapKinds,
    }
}

/// Whether slot `i` belongs to some cap group of the rule.
pub open spec fn in_any_group(rule: &CodeRule, i: int) -> bool {
    exists|g: int| 0 <= g < group_count(rule) && #[trigger] rule_group(rule, g).contains(i)
}

/// What slot `i` adds to the total of `kind` outside the cap groups.
pub open spec fn free_amount(rule: &CodeRule, bits: Seq<bool>, kind: SlotKind, i: int) -> int {
    if in_any_group(rule, i) {
        0
    } else {
        contribution(slots_of(rule), bits, kind, i)
    }
}

/// The total of `kind` that switched-on slots outside every cap group add.
pub open spec fn free_total(rule: &CodeRule, bits: Seq<bool>, kind: SlotKind) -> int {
    sum_upto(|i: int| free_amount(rule, bits, kind, i), slots_of(rule).len() as int)
}

/// The sum of cap group `g`, cut down to its cap.
pub open spec fn clamped_total(rule: &CodeRule, bits: Seq<bool>, g: int) -> int {
    let t = group_total(rule, bits, g);
    let cap = rule.extra.caps@[g].cap as int;
    if t <= cap {
        t
    } else {
        cap
    }
}

/// The cut-down sums of the cap groups of kind `kind` among the first `m` groups.
pub open spec fn capped_total_upto(rule: &CodeRule, bits: Seq<bool>, kind: SlotKind, m: int) -> int
    decreases m,
{
    if m <= 0 {
        0
    } else {
        capped_total_upto(rule, bits, kind, m - 1) + if group_kind(rule, m - 1) == kind {
            clamped_total(rule, bits, m - 1)
        } else {
            0
        }
    }
}

/// The total of `kind` a code decodes to: the free slots, plus each group cut down to its cap.
pub open spec fn decoded_total(rule: &CodeRule, bits: Seq<bool>, kind: SlotKind) -> int {
    free_total(rule, bits, kind) + capped_total_upto(rule, bits, kind, group_count(rule))
}

/// What a code of the right length decodes to under a rule that passes the checks.
pub open spec fn decode(rule: &CodeRule, bits: Seq<bool>) -> Result<RB, ConvertError> {
    let r = decoded_total(rule, bits, SlotKind::Red);
    let b = decoded_total(rule, bits, SlotKind::Blue);
    let d = decoded_total(rule, bits, SlotKind::Direction);
    if r > u64::MAX || b > u64::MAX || d > u64::MAX {
        Err(ConvertError::ValueOverflow)
    } else if d > 3 {
        Err(ConvertError::DirectionOutOfRange { value: d as u64 })
    } else {
        Ok(RB { num: TNTNumRB { red: r as u64, blue: b as u64 }, direction: d as usize })
    }
}

/// Whether `res` reports the first check that the rule's caps fail.
pub open spec fn reports_rule_error<T>(rule: &CodeRule, checks: Checks, res: Result<T, ConvertError>) -> bool {
    exists|e: RuleError| is_first_error(rule, checks, e) && res == Err::<T, ConvertError>(rule_error_to_convert(e))
}

pub proof fn lemma_sum_prefix(f: spec_fn(int) -> int, lo: int, hi: int)
    requires
        0 <= lo <= hi,
        forall|i: int| 0 <= i < hi ==> 0 <= #[trigger] f(i),
    ensures
        sum_upto(f, lo) <= sum_upto(f, hi),
    decreases hi - lo,
{
    if lo < hi {
        lemma_sum_prefix(f, lo, hi - 1);
    }
}

pub proof fn lemma_capped_nonneg(rule: &CodeRule, bits: Seq<bool>, kind: SlotKind, m: int)
    ensures
        0 <= capped_total_upto(rule, bits, kind, m),
    decreases m,
{
    if m > 0 {
        lemma_capped_nonneg(rule, bits, kind, m - 1);
        crate::search::lemma_group_sum_zero(slots_of(rule), rule_group(rule, m - 1), bits);
        crate::search::lemma_group_sum_mono(
            slots_of(rule),
            rule_group(rule, m - 1),
            bits,
            0,
            slots_of(rule).len() as int,
        );
    }
}

pub proof fn lemma_capped_prefix(rule: &CodeRule, bits: Seq<bool>, kind: SlotKind, lo: int, hi: int)
    requires
        0 <= lo <= hi,
    ensures
        0 <= capped_total_upto(rule, bits, kind, lo) <= capped_total_upto(rule, bits, kind, hi),
    decreases hi,
{
    lemma_capped_nonneg(rule, bits, kind, lo);
    if lo < hi {
        lemma_capped_prefix(rule, bits, kind, lo, hi - 1);
        crate::search::lemma_group_sum_zero(slots_of(rule), rule_group(rule, hi - 1), bits);
        crate::search::lemma_group_sum_mono(
            slots_of(rule),
            rule_group(rule, hi - 1),
            bits,
            0,
            slots_of(rule).len() as int,
        );
    }
}

/// The free totals are nonnegative and grow with the prefix.
proof fn lemma_free_prefix(rule: &CodeRule, bits: Seq<bool>, kind: SlotKind, lo: int, hi: int)
    requires
        0 <= lo <= hi,
    ensures
        0 <= sum_upto(|i: int| free_amount(rule, bits, kind, i), lo) <= sum_upto(
            |i: int| free_amount(rule, bits, kind, i),
            hi,
        ),
{
    let f = |i: int| free_amount(rule, bits, kind, i);
    lemma_sum_prefix(f, lo, hi);
    lemma_sum_prefix(f, 0, lo);
}

/// Adds a count to the running total of its kind; `None` when a total would overflow.
fn add_to_kind(kind: SlotKind, amount: u64, red: u64, blue: u64, direction: u64) -> (res: Option<(u64, u64, u64)>)
    ensures
        res matches Some((r, b, d)) ==> {
            &&& r == red + if kind == SlotKind::Red { amount as int } else { 0 }
            &&& b == blue + if kind == SlotKind::Blue { amount as int } else { 0 }
            &&& d == direction + if kind == SlotKind::Direction { amount as int } else { 0 }
        },
        res is None <==> (kind == SlotKind::Red && red + amount > u64::MAX) || (kind == SlotKind::Blue
            && blue + amount > u64::MAX) || (kind == SlotKind::Direction && direction + amount > u64::MAX),
{
    match kind {
        SlotKind::Red => match red.checked_add(amount) {
            Some(v) => Some((v, blue, direction)),
            None => None,
        },
        SlotKind::Blue => match blue.checked_add(amount) {
            Some(v) => Some((red, v, direction)),
            None => None,
        },
        SlotKind::Direction => match direction.checked_add(amount) {
            Some(v) => Some((red, blue, v)),
            None => None,
        },
    }
}

/// The sum of the switched-on slots of group `g`.
fn group_sum_of(rule: &CodeRule, c: &CompiledRule, bits: &Vec<bool>, g: usize) -> (sum: u128)
    requires
        compiled_from(*c, rule),
        compiled_wf(*c, strict()),
        g < c.caps@.len(),
        bits@.len() == c.slots@.len(),
    ensures
        sum == group_total(rule, bits@, g as int),
{
    let cap = &c.caps[g];
    let nb = cap.bits.len();
    let n = c.slots.len();
    let mut sum: u128 = 0;
    let mut k: usize = 0;
    proof {
        crate::search::lemma_compiled_group(*c, rule, g as int);
    }
    while k < nb
        invariant
            compiled_from(*c, rule),
            compiled_wf(*c, strict()),
            *cap == c.caps@[g as int],
            g < c.caps@.len(),
            nb == cap.bits@.len(),
            n == c.slots@.len(),
            bits@.len() == n,
            k <= nb,
            cap.bits@.map_values(|b: usize| b as int) == rule_group(rule, g as int),
            sum == group_sum(slots_of(rule), rule_group(rule, g as int).take(k as int), bits@, n as int),
            sum <= k * 0xffff_ffff_ffff_ffffint,
        decreases nb - k,
    {
        let b = cap.bits[k];
        let ghost grp = rule_group(rule, g as int);
        assert(grp.take(k + 1).drop_last() =~= grp.take(k as int));
        assert(grp.take(k + 1).last() == b as int);
        assert(b < n);
        if bits[b] {
            sum = sum + c.slots[b].count as u128;
        }
        k = k + 1;
        assert(k <= usize::MAX);
    }
    assert(rule_group(rule, g as int).take(nb as int) =~= rule_group(rule, g as int));
    sum
}

/// Checks that a code has one switch per slot of a compiled rule.
pub fn ensure_code_len(compiled: &CompiledRule, code: &TNTNumCode) -> (res: Result<(), ConvertError>)
    ensures
        compiled.slots@.len() == code.0@.len() ==> res is Ok,
        compiled.slots@.len() != code.0@.len() ==> res == Err::<(), ConvertError>(
            ConvertError::CodeLengthMismatch {
                expected: compiled.slots@.len() as usize,
                actual: code.0@.len() as usize,
            },
        ),
{
    let expected = compiled.slots.len();
    let actual = code.0.len();
    if expected != actual {
        return Err(ConvertError::CodeLengthMismatch { expected, actual });
    }
    Ok(())
}

/// The counts and direction a code stands for under a rule.
pub fn code_to_rb(rule: &CodeRule, code: TNTNumCode) -> (res: Result<RB, ConvertError>)
    ensures
        !rule_valid(rule, strict()) ==> reports_rule_error(rule, strict(), res),
        rule_valid(rule, strict()) && code.0@.len() != slots_of(rule).len() ==> res == Err::<
            RB,
            ConvertError,
        >(ConvertError::CodeLengthMismatch { expected: slots_of(rule).len() as usize, actual: code.0@.len() as usize }),
        rule_valid(rule, strict()) && code.0@.len() == slots_of(rule).len() ==> res == decode(
            rule,
            code.0@,
        ),
{
    let compiled = match compile_rule(rule, Checks { overlap: true, kinds: true }) {
        Ok(c) => c,
        Err(e) => {
            let r = Err(convert_rule_error(e));
            assert(reports_rule_error(rule, strict(), r));
            return r;
        },
    };
    let n = compiled.slots.len();
    ensure_code_len(&compiled, &code)?;
    let bits = &code.0;
    let ghost bs = bits@;
    let ghost fr = |i: int| free_amount(rule, bs, SlotKind::Red, i);
    let ghost fb = |i: int| free_amount(rule, bs, SlotKind::Blue, i);
    let ghost fd = |i: int| free_amount(rule, bs, SlotKind::Direction, i);
    let mut red: u64 = 0;
    let mut blue: u64 = 0;
    let mut direction: u64 = 0;
    let mut idx: usize = 0;
    while idx < n
        invariant
            rule_valid(rule, strict()),
            compiled_from(compiled, rule),
            compiled_wf(compiled, strict()),
            n == compiled.slots@.len(),
            bits@ == bs,
            bs.len() == n,
            bs == code.0@,
            fr == (|i: int| free_amount(rule, bs, SlotKind::Red, i)),
            fb == (|i: int| free_amount(rule, bs, SlotKind::Blue, i)),
            fd == (|i: int| free_amount(rule, bs, SlotKind::Direction, i)),
            idx <= n,
            red == sum_upto(fr, idx as int),
            blue == sum_upto(fb, idx as int),
            direction == sum_upto(fd, idx as int),
        decreases n - idx,
    {
        let list_len = compiled.slot_to_caps[idx].len();
        proof {
            assert(in_any_group(rule, idx as int) <==> list_len > 0) by {
                let list = compiled.slot_to_caps@[idx as int]@;
                if in_any_group(rule, idx as int) {
                    let g = choose|g: int| 0 <= g < group_count(rule) && #[trigger] rule_group(rule, g).contains(idx as int);
                    crate::search::lemma_group_facts(compiled, rule, strict(), g);
                    assert(list.contains(g as usize));
                }
                if list_len > 0 {
                    let g = list[0] as int;
                    assert(list.contains(g as usize));
                    crate::search::lemma_group_facts(compiled, rule, strict(), g);
                    assert(rule_group(rule, g).contains(idx as int));
                }
            }
        }
        assert(sum_upto(fr, idx + 1) == sum_upto(fr, idx as int) + fr(idx as int));
        assert(sum_upto(fb, idx + 1) == sum_upto(fb, idx as int) + fb(idx as int));
        assert(sum_upto(fd, idx + 1) == sum_upto(fd, idx as int) + fd(idx as int));
        let ghost slot_g = compiled.slots@[idx as int];
        assert(slots_of(rule)[idx as int] == slot_g);
        assert(fr(idx as int) == free_amount(rule, bs, SlotKind::Red, idx as int));
        assert(fb(idx as int) == free_amount(rule, bs, SlotKind::Blue, idx as int));
        assert(fd(idx as int) == free_amount(rule, bs, SlotKind::Direction, idx as int));
        if bits[idx] && list_len == 0 {
            let slot = compiled.slots[idx];
            match add_to_kind(slot.kind, slot.count, red, blue, direction) {
                Some((r, b, d)) => {
                    red = r;
                    blue = b;
                    direction = d;
                },
                None => {
                    proof {
                        lemma_free_prefix(rule, bs, SlotKind::Red, idx + 1, n as int);
                        lemma_free_prefix(rule, bs, SlotKind::Blue, idx + 1, n as int);
                        lemma_free_prefix(rule, bs, SlotKind::Direction, idx + 1, n as int);
                        lemma_capped_prefix(rule, bs, SlotKind::Red, 0, group_count(rule));
                        lemma_capped_prefix(rule, bs, SlotKind::Blue, 0, group_count(rule));
                        lemma_capped_prefix(rule, bs, SlotKind::Direction, 0, group_count(rule));
                    }
                    return Err(ConvertError::ValueOverflow);
                },
            }
        }
        idx = idx + 1;
    }
    let ncaps = compiled.caps.len();
    let mut g: usize = 0;
    while g < ncaps
        invariant
            compiled_from(compiled, rule),
            compiled_wf(compiled, strict()),
            n == compiled.slots@.len(),
            ncaps == compiled.caps@.len(),
            bits@ == bs,
            bs.len() == n,
            rule_valid(rule, strict()),
            bs == code.0@,
            g <= ncaps,
            red == free_total(rule, bs, SlotKind::Red) + capped_total_upto(rule, bs, SlotKind::Red, g as int),
            blue == free_total(rule, bs, SlotKind::Blue) + capped_total_upto(rule, bs, SlotKind::Blue, g as int),
            direction == free_total(rule, bs, SlotKind::Direction) + capped_total_upto(
                rule,
                bs,
                SlotKind::Direction,
                g as int,
            ),
        decreases ncaps - g,
    {
        let sum = group_sum_of(rule, &compiled, bits, g);
        let cap = compiled.caps[g].cap;
        let clamped: u64 = if sum <= cap as u128 {
            sum as u64
        } else {
            cap
        };
        assert(clamped == clamped_total(rule, bs, g as int));
        match add_to_kind(compiled.caps[g].kind, clamped, red, blue, direction) {
            Some((r, b, d)) => {
                red = r;
                blue = b;
                direction = d;
            },
            None => {
                proof {
                    lemma_free_prefix(rule, bs, SlotKind::Red, 0, n as int);
                    lemma_free_prefix(rule, bs, SlotKind::Blue, 0, n as int);
                    lemma_free_prefix(rule, bs, SlotKind::Direction, 0, n as int);
                    lemma_capped_prefix(rule, bs, SlotKind::Red, g + 1, group_count(rule));
                    lemma_capped_prefix(rule, bs, SlotKind::Blue, g + 1, group_count(rule));
                    lemma_capped_prefix(rule, bs, SlotKind::Direction, g + 1, group_count(rule));
                }
                return Err(ConvertError::ValueOverflow);
            },
        }
        g = g + 1;
    }
    if direction > 3 {
        return Err(ConvertError::DirectionOutOfRange { value: direction });
    }
    Ok(RB { num: TNTNumRB { red, blue }, direction: direction as usize })
}


/// Whether a code fits the rule, stays within every cap, and adds up exactly to the counts and
/// direction of `rb`.
pub open spec fn encodes(rule: &CodeRule, bits: Seq<bool>, rb: RB) -> bool {
    exact_code(rule, bits, rb.num.red as int, rb.num.blue as int, rb.direction as int)
}

/// Whether `bits` encodes `rb` and comes first among all codes that do, an on slot counting
/// above an off one, position by position.
pub open spec fn first_encoding(rule: &CodeRule, bits: Seq<bool>, rb: RB) -> bool {
    &&& encodes(rule, bits, rb)
    &&& forall|s: Seq<bool>| #[trigger] encodes(rule, s, rb) ==> lex_geq_from(bits, s, 0, slots_of(rule).len() as int)
}

/// The code for the given counts and direction under a rule: the first code, position by
/// position with an on slot above an off one, whose slots add up exactly to them within every cap.
pub fn rb_to_code(rule: &CodeRule, rb: RB) -> (res: Result<TNTNumCode, ConvertError>)
    ensures
        !rule_valid(rule, strict()) ==> reports_rule_error(rule, strict(), res),
        rule_valid(rule, strict()) && rb.direction > 3 ==> res == Err::<TNTNumCode, ConvertError>(
            ConvertError::DirectionOutOfRange { value: rb.direction as u64 },
        ),
        rule_valid(rule, strict()) && rb.direction <= 3 ==> (res is Ok <==> exists|s: Seq<bool>|
            #[trigger] encodes(rule, s, rb)),
        rule_valid(rule, strict()) && rb.direction <= 3 && res is Err ==> res == Err::<
            TNTNumCode,
            ConvertError,
        >(ConvertError::NoExactEncoding { rb }),
        res matches Ok(code) ==> first_encoding(rule, code.0@, rb),
{
    let compiled = match compile_rule(rule, Checks { overlap: true, kinds: true }) {
        Ok(c) => c,
        Err(e) => {
            let r = Err(convert_rule_error(e));
            assert(reports_rule_error(rule, strict(), r));
            return r;
        },
    };
    let direction = rb.direction as u64;
    if direction > 3 {
        return Err(ConvertError::DirectionOutOfRange { value: direction });
    }
    match find_code(rule, &compiled, Checks { overlap: true, kinds: true }, rb.num.red, rb.num.blue, direction) {
        Some(bits) => {
            assert(encodes(rule, bits@, rb));
            Ok(TNTNumCode(bits))
        },
        None => {
            assert forall|s: Seq<bool>| !#[trigger] encodes(rule, s, rb) by {
                assert(!exact_code(rule, s, rb.num.red as int, rb.num.blue as int, direction as int));
            }
            Err(ConvertError::NoExactEncoding { rb })
        },
    }
}

/// The facts about a rule's cap groups that the checks of this module show.
pub proof fn lemma_strict_groups(rule: &CodeRule)
    requires
        rule_valid(rule, strict()),
    ensures
        forall|g: int, k: int|
            0 <= g < group_count(rule) && 0 <= k < rule_group(rule, g).len() ==> 0 <= #[trigger] rule_group(
                rule,
                g,
            )[k] < slots_of(rule).len(),
        forall|g: int| 0 <= g < group_count(rule) ==> (#[trigger] rule_group(rule, g)).no_duplicates(),
        forall|g1: int, g2: int, i: int|
            0 <= g1 < group_count(rule) && 0 <= g2 < group_count(rule) && #[trigger] rule_group(
                rule,
                g1,
            ).contains(i) && #[trigger] rule_group(rule, g2).contains(i) ==> g1 == g2,
        forall|g: int, i: int|
            0 <= g < group_count(rule) && #[trigger] rule_group(rule, g).contains(i) ==> slots_of(rule)[i].kind
                == group_kind(rule, g),
{
    let checks = strict();
    assert forall|g: int, k: int|
        0 <= g < group_count(rule) && 0 <= k < rule_group(rule, g).len() implies 0 <= #[trigger] rule_group(
        rule,
        g,
    )[k] < slots_of(rule).len() by {
        assert(crate::rule::is_cap_pos(rule, g, k));
        assert(crate::rule::bit_error(rule, checks, g, k) is None);
    }
    assert forall|g: int| 0 <= g < group_count(rule) implies (#[trigger] rule_group(rule, g)).no_duplicates() by {
        assert forall|k1: int, k2: int|
            0 <= k1 < rule_group(rule, g).len() && 0 <= k2 < rule_group(rule, g).len() && k1 != k2 implies rule_group(
            rule,
            g,
        )[k1] != rule_group(rule, g)[k2] by {
            let lo = if k1 < k2 { k1 } else { k2 };
            let hi = if k1 < k2 { k2 } else { k1 };
            assert(crate::rule::is_cap_pos(rule, g, hi));
            assert(crate::rule::bit_error(rule, checks, g, hi) is None);
            assert(group_of(rule, g)[lo] != group_of(rule, g)[hi]);
        }
    }
    assert forall|g1: int, g2: int, i: int|
        0 <= g1 < group_count(rule) && 0 <= g2 < group_count(rule) && #[trigger] rule_group(rule, g1).contains(i)
            && #[trigger] rule_group(rule, g2).contains(i) implies g1 == g2 by {
        let k1 = choose|k: int| 0 <= k < rule_group(rule, g1).len() && rule_group(rule, g1)[k] == i;
        let k2 = choose|k: int| 0 <= k < rule_group(rule, g2).len() && rule_group(rule, g2)[k] == i;
        assert(group_of(rule, g1)[k1] == group_of(rule, g2)[k2]);
        if g1 < g2 {
            assert(crate::rule::is_cap_pos(rule, g2, k2));
            assert(crate::rule::bit_error(rule, checks, g2, k2) is None);
        } else if g2 < g1 {
            assert(crate::rule::is_cap_pos(rule, g1, k1));
            assert(crate::rule::bit_error(rule, checks, g1, k1) is None);
        }
    }
    assert forall|g: int, i: int|
        0 <= g < group_count(rule) && #[trigger] rule_group(rule, g).contains(i) implies slots_of(rule)[i].kind
        == group_kind(rule, g) by {
        let k = choose|k: int| 0 <= k < rule_group(rule, g).len() && rule_group(rule, g)[k] == i;
        assert(crate::rule::is_cap_pos(rule, g, k));
        assert(crate::rule::bit_error(rule, checks, g, k) is None);
        assert(crate::rule::is_cap_pos(rule, g, 0));
        assert(crate::rule::bit_error(rule, checks, g, 0) is None);
    }
}

/// Whether slot `i` belongs to one of the first `m` cap groups.
pub open spec fn in_groups_below(rule: &CodeRule, i: int, m: int) -> bool {
    exists|g: int| 0 <= g < m && #[trigger] rule_group(rule, g).contains(i)
}

/// The sums of the cap groups of kind `kind` among the first `m` groups, not cut down.
pub open spec fn raw_capped_upto(rule: &CodeRule, bits: Seq<bool>, kind: SlotKind, m: int) -> int
    decreases m,
{
    if m <= 0 {
        0
    } else {
        raw_capped_upto(rule, bits, kind, m - 1) + if group_kind(rule, m - 1) == kind {
            group_total(rule, bits, m - 1)
        } else {
            0
        }
    }
}

/// What the slots of the first `m` groups add to `kind` is the sum of those groups of that kind.
proof fn lemma_member_sum(rule: &CodeRule, bits: Seq<bool>, kind: SlotKind, m: int)
    requires
        rule_valid(rule, strict()),
        0 <= m <= group_count(rule),
    ensures
        sum_upto(
            |i: int|
                if in_groups_below(rule, i, m) {
                    contribution(slots_of(rule), bits, kind, i)
                } else {
                    0
                },
            slots_of(rule).len() as int,
        ) == raw_capped_upto(rule, bits, kind, m),
    decreases m,
{
    let n = slots_of(rule).len() as int;
    let slots = slots_of(rule);
    let fm = |i: int|
        if in_groups_below(rule, i, m) {
            contribution(slots, bits, kind, i)
        } else {
            0
        };
    if m == 0 {
        crate::sums::lemma_sum_point(fm, -1, n);
    } else {
        lemma_strict_groups(rule);
        lemma_member_sum(rule, bits, kind, m - 1);
        let grp = rule_group(rule, m - 1);
        let fp = |i: int|
            if in_groups_below(rule, i, m - 1) {
                contribution(slots, bits, kind, i)
            } else {
                0
            };
        let fg = |i: int|
            if group_kind(rule, m - 1) == kind {
                crate::sums::group_contribution(slots, grp, bits, i)
            } else {
                0
            };
        assert forall|i: int| 0 <= i < n implies #[trigger] fm(i) == fp(i) + fg(i) by {
            if grp.contains(i) {
                assert(in_groups_below(rule, i, m));
                assert(!in_groups_below(rule, i, m - 1)) by {
                    if in_groups_below(rule, i, m - 1) {
                        let g = choose|g: int| 0 <= g < m - 1 && #[trigger] rule_group(rule, g).contains(i);
                        assert(rule_group(rule, g).contains(i) && rule_group(rule, m - 1).contains(i));
                    }
                }
                assert(slots[i].kind == group_kind(rule, m - 1));
            } else {
                assert(in_groups_below(rule, i, m) == in_groups_below(rule, i, m - 1)) by {
                    if in_groups_below(rule, i, m) {
                        let g = choose|g: int| 0 <= g < m && #[trigger] rule_group(rule, g).contains(i);
                        assert(g < m - 1);
                    }
                    if in_groups_below(rule, i, m - 1) {
                        let g = choose|g: int| 0 <= g < m - 1 && #[trigger] rule_group(rule, g).contains(i);
                        assert(in_groups_below(rule, i, m));
                    }
                }
            }
        }
        crate::sums::lemma_sum_add(fp, fg, fm, n);
        if group_kind(rule, m - 1) == kind {
            crate::sums::lemma_group_sum_as_sum(slots, grp, bits, n);
            crate::sums::lemma_sum_ext(fg, |i: int| crate::sums::group_contribution(slots, grp, bits, i), n);
        } else {
            crate::sums::lemma_sum_point(fg, -1, n);
        }
    }
}

/// Within every cap, cutting a group down to its cap changes nothing.
proof fn lemma_capped_raw(rule: &CodeRule, bits: Seq<bool>, kind: SlotKind, m: int)
    requires
        within_caps(rule, bits),
        0 <= m <= group_count(rule),
    ensures
        capped_total_upto(rule, bits, kind, m) == raw_capped_upto(rule, bits, kind, m),
    decreases m,
{
    if m > 0 {
        lemma_capped_raw(rule, bits, kind, m - 1);
        assert(group_total(rule, bits, m - 1) <= rule.extra.caps@[m - 1].cap);
    }
}

/// Under a rule that passes the checks, a code within every cap decodes to the plain totals of
/// its switched-on slots.
pub proof fn lemma_decoded_total(rule: &CodeRule, bits: Seq<bool>, kind: SlotKind)
    requires
        rule_valid(rule, strict()),
        bits.len() == slots_of(rule).len(),
        within_caps(rule, bits),
    ensures
        decoded_total(rule, bits, kind) == code_total(rule, bits, kind),
{
    let slots = slots_of(rule);
    let n = slots.len() as int;
    let gc = group_count(rule);
    crate::sums::lemma_total_from_sum(slots, bits, kind, 0);
    lemma_member_sum(rule, bits, kind, gc);
    lemma_capped_raw(rule, bits, kind, gc);
    let f_all = |i: int| contribution(slots, bits, kind, i);
    let f_free = |i: int| free_amount(rule, bits, kind, i);
    let f_mem = |i: int|
        if in_groups_below(rule, i, gc) {
            contribution(slots, bits, kind, i)
        } else {
            0
        };
    assert forall|i: int| 0 <= i < n implies #[trigger] f_all(i) == f_free(i) + f_mem(i) by {
        assert(in_any_group(rule, i) == in_groups_below(rule, i, gc));
    }
    crate::sums::lemma_sum_add(f_free, f_mem, f_all, n);
}

/// Decoding a code that encodes given counts and a direction in range gives back those counts
/// and that direction: what `rb_to_code` produces, `code_to_rb` turns back into what was asked for.
pub proof fn lemma_decode_encoded(rule: &CodeRule, rb: RB, bits: Seq<bool>)
    requires
        rule_valid(rule, strict()),
        rb.direction <= 3,
        encodes(rule, bits, rb),
    ensures
        decode(rule, bits) == Ok::<RB, ConvertError>(rb),
{
    lemma_decoded_total(rule, bits, SlotKind::Red);
    lemma_decoded_total(rule, bits, SlotKind::Blue);
    lemma_decoded_total(rule, bits, SlotKind::Direction);
}

} // verus!

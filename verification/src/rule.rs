use vstd::prelude::*;

use crate::model::{CodeItem, CodeRule};

verus! {

/// What a slot of a code adds to when it is switched on.
#[derive(Debug, Clone, Copy, PartialEq, Eq, Structural)]
pub enum SlotKind {
    Red,
    Blue,
    Direction,
}

/// A slot of a code: the count it adds, and to what.
#[derive(Debug, Clone, Copy, PartialEq, Eq, Structural)]
pub struct Slot {
    pub kind: SlotKind,
    pub count: u64,
}

/// Why a code rule's caps are refused.
#[derive(Debug, Clone, Copy, PartialEq, Eq, Structural)]
pub enum RuleError {
    InvalidCapBit { bit: usize, max: usize },
    DuplicateCapBit { bit: usize },
    OverlappingCapBit { bit: usize },
    MixedCapKinds,
}

/// Which checks a rule's caps go through: `overlap` refuses a slot in two groups,
/// `kinds` refuses a group whose slots add to different things.
#[derive(Debug, Clone, Copy, PartialEq, Eq, Structural)]
pub struct Checks {
    pub overlap: bool,
    pub kinds: bool,
}

/// A cap group with its slots numbered from 0, and the kind of its first slot.
#[derive(Debug, Clone)]
pub struct CapGroup {
    pub bits: Vec<usize>,
    pub cap: u64,
    pub kind: SlotKind,
}

/// A code rule made ready for encoding and decoding.
#[derive(Debug, Clone)]
pub struct CompiledRule {
    pub slots: Vec<Slot>,
    pub caps: Vec<CapGroup>,
    pub slot_to_caps: Vec<Vec<usize>>,
}

/// The slot that an item of a rule stands for; a space stands for none.
pub open spec fn item_slot(item: CodeItem) -> Option<Slot> {
    match item {
        CodeItem::Red { count } => Some(Slot { kind: SlotKind::Red, count }),
        CodeItem::Blue { count } => Some(Slot { kind: SlotKind::Blue, count }),
        CodeItem::Direction { count } => Some(Slot { kind: SlotKind::Direction, count }),
        CodeItem::Space => None,
    }
}

/// The slots of a rule's items, in order, spaces left out.
pub open spec fn item_slots(items: Seq<CodeItem>) -> Seq<Slot>
    decreases items.len(),
{
    if items.len() == 0 {
        Seq::empty()
    } else {
        let prefix = item_slots(items.drop_last());
        match item_slot(items.last()) {
            Some(s) => prefix.push(s),
            None => prefix,
        }
    }
}

/// The slots of a rule.
pub open spec fn slots_of(rule: &CodeRule) -> Seq<Slot> {
    item_slots(rule.default@)
}

/// The slots of cap group `g` of a rule, numbered from 1.
pub open spec fn group_of(rule: &CodeRule, g: int) -> Seq<usize> {
    rule.extra.caps@[g].bits@
}

/// The number of cap groups of a rule.
pub open spec fn group_count(rule: &CodeRule) -> int {
    rule.extra.caps@.len() as int
}

/// Whether `(i, j)` names the `j`-th slot of cap group `i`.
pub open spec fn is_cap_pos(rule: &CodeRule, i: int, j: int) -> bool {
    0 <= i < group_count(rule) && 0 <= j < group_of(rule, i).len()
}

/// Whether position `(i2, j2)` comes before `(i, j)` when the groups are read in order.
pub open spec fn pos_before(i2: int, j2: int, i: int, j: int) -> bool {
    i2 < i || (i2 == i && j2 < j)
}

/// What is wrong with the `j`-th slot number of cap group `i`, given the ones before it.
pub open spec fn bit_error(rule: &CodeRule, checks: Checks, i: int, j: int) -> Option<RuleError> {
    let n = slots_of(rule).len();
    let b = group_of(rule, i)[j];
    if b == 0 || b > n {
        Some(RuleError::InvalidCapBit { bit: b, max: n as usize })
    } else if exists|k: int| 0 <= k < j && #[trigger] group_of(rule, i)[k] == b {
        Some(RuleError::DuplicateCapBit { bit: b })
    } else if checks.overlap && exists|i2: int, k: int|
        0 <= i2 < i && 0 <= k < group_of(rule, i2).len() && #[trigger] group_of(rule, i2)[k] == b {
        Some(RuleError::OverlappingCapBit { bit: b })
    } else if checks.kinds && j > 0 && slots_of(rule)[b - 1].kind != slots_of(rule)[group_of(
        rule,
        i,
    )[0] - 1].kind {
        Some(RuleError::MixedCapKinds)
    } else {
        None
    }
}

/// Whether all cap groups of a rule pass the checks.
pub open spec fn rule_valid(rule: &CodeRule, checks: Checks) -> bool {
    forall|i: int, j: int| is_cap_pos(rule, i, j) ==> #[trigger] bit_error(rule, checks, i, j) is None
}

/// Whether `e` is what is wrong with the first slot number, in reading order, that fails a check.
pub open spec fn is_first_error(rule: &CodeRule, checks: Checks, e: RuleError) -> bool {
    exists|i: int, j: int|
        {
            &&& is_cap_pos(rule, i, j)
            &&& #[trigger] bit_error(rule, checks, i, j) == Some(e)
            &&& forall|i2: int, j2: int|
                is_cap_pos(rule, i2, j2) && pos_before(i2, j2, i, j) ==> #[trigger] bit_error(
                    rule,
                    checks,
                    i2,
                    j2,
                ) is None
        }
}

/// The kind of cap group `g`: that of its first slot, or red for an empty group.
pub open spec fn group_kind(rule: &CodeRule, g: int) -> SlotKind {
    if group_of(rule, g).len() > 0 {
        slots_of(rule)[group_of(rule, g)[0] - 1].kind
    } else {
        SlotKind::Red
    }
}

/// Whether `c` is the compiled form of `rule`.
pub open spec fn compiled_from(c: CompiledRule, rule: &CodeRule) -> bool {
    &&& c.slots@ == slots_of(rule)
    &&& c.slots@.len() <= usize::MAX
    &&& c.caps@.len() <= usize::MAX
    &&& c.caps@.len() == group_count(rule)
    &&& forall|g: int|
        0 <= g < group_count(rule) ==> {
            &&& (#[trigger] c.caps@[g]).cap == rule.extra.caps@[g].cap
            &&& c.caps@[g].kind == group_kind(rule, g)
            &&& c.caps@[g].bits@.len() == group_of(rule, g).len()
            &&& forall|k: int|
                0 <= k < group_of(rule, g).len() ==> #[trigger] c.caps@[g].bits@[k] == group_of(
                    rule,
                    g,
                )[k] - 1
        }
    &&& c.slot_to_caps@.len() == c.slots@.len()
    &&& forall|idx: int|
        0 <= idx < c.slots@.len() ==> {
            &&& (#[trigger] c.slot_to_caps@[idx])@.no_duplicates()
            &&& forall|x: int|
                0 <= x < c.slot_to_caps@[idx]@.len() ==> #[trigger] c.slot_to_caps@[idx]@[x]
                    < c.caps@.len()
            &&& forall|g: int|
                0 <= g < c.caps@.len() ==> (c.slot_to_caps@[idx]@.contains(g as usize)
                    <==> c.caps@[g].bits@.contains(idx as usize))
        }
}

/// The facts about compiled groups that follow from the checks.
pub open spec fn groups_wf(slots: Seq<Slot>, caps: Seq<CapGroup>, checks: Checks) -> bool {
    &&& forall|g: int, k: int|
        0 <= g < caps.len() && 0 <= k < caps[g].bits@.len() ==> #[trigger] caps[g].bits@[k]
            < slots.len()
    &&& forall|g: int| 0 <= g < caps.len() ==> (#[trigger] caps[g]).bits@.no_duplicates()
    &&& checks.overlap ==> forall|g1: int, g2: int, k1: int, k2: int|
        0 <= g1 < caps.len() && 0 <= g2 < caps.len() && 0 <= k1 < caps[g1].bits@.len() && 0 <= k2
            < caps[g2].bits@.len() && #[trigger] caps[g1].bits@[k1] == #[trigger] caps[g2].bits@[k2]
            ==> g1 == g2
    &&& checks.kinds ==> forall|g: int, k: int|
        0 <= g < caps.len() && 0 <= k < caps[g].bits@.len() ==> slots[#[trigger] caps[g].bits@[
            k
        ] as int].kind == caps[g].kind
}

/// The facts about a compiled rule that follow from its checks.
pub open spec fn compiled_wf(c: CompiledRule, checks: Checks) -> bool {
    groups_wf(c.slots@, c.caps@, checks)
}

/// A sequence with one more element holds what it held before, and that element.
pub proof fn lemma_push_contains<A>(s: Seq<A>, a: A, x: A)
    ensures
        s.push(a).contains(x) <==> (s.contains(x) || x == a),
{
    if s.contains(x) {
        let i = choose|i: int| 0 <= i < s.len() && s[i] == x;
        assert(s.push(a)[i] == x);
    }
    if x == a {
        assert(s.push(a)[s.len() as int] == x);
    }
    if s.push(a).contains(x) {
        let i = choose|i: int| 0 <= i < s.push(a).len() && s.push(a)[i] == x;
        if i < s.len() {
            assert(s[i] == x);
        }
    }
}

/// The slot an item stands for.
fn slot_of_item(item: &CodeItem) -> (s: Option<Slot>)
    ensures
        s == item_slot(*item),
{
    match item {
        CodeItem::Red { count } => Some(Slot { kind: SlotKind::Red, count: *count }),
        CodeItem::Blue { count } => Some(Slot { kind: SlotKind::Blue, count: *count }),
        CodeItem::Direction { count } => Some(Slot { kind: SlotKind::Direction, count: *count }),
        CodeItem::Space => None,
    }
}

/// The slots of a rule, in order.
pub fn rule_slots(rule: &CodeRule) -> (slots: Vec<Slot>)
    ensures
        slots@ == slots_of(rule),
{
    let mut slots: Vec<Slot> = Vec::new();
    let mut i: usize = 0;
    while i < rule.default.len()
        invariant
            i <= rule.default@.len(),
            slots@ == item_slots(rule.default@.take(i as int)),
        decreases rule.default@.len() - i,
    {
        assert(rule.default@.take(i + 1).drop_last() =~= rule.default@.take(i as int));
        match slot_of_item(&rule.default[i]) {
            Some(s) => slots.push(s),
            None => {},
        }
        i = i + 1;
    }
    assert(rule.default@.take(i as int) =~= rule.default@);
    slots
}


/// A vector of `n` switches, all off.
pub fn all_false(n: usize) -> (v: Vec<bool>)
    ensures
        v@.len() == n,
        forall|i: int| 0 <= i < n ==> !(#[trigger] v@[i]),
{
    let mut v: Vec<bool> = Vec::new();
    while v.len() < n
        invariant
            v@.len() <= n,
            forall|i: int| 0 <= i < v@.len() ==> !(#[trigger] v@[i]),
        decreases n - v@.len(),
    {
        v.push(false);
    }
    v
}

/// Whether the compiled groups below `upto` match those of `rule`.
pub open spec fn groups_match(caps: Seq<CapGroup>, rule: &CodeRule, upto: int) -> bool {
    forall|g: int|
        0 <= g < upto ==> {
            &&& (#[trigger] caps[g]).cap == rule.extra.caps@[g].cap
            &&& caps[g].kind == group_kind(rule, g)
            &&& caps[g].bits@.len() == group_of(rule, g).len()
            &&& forall|k: int|
                0 <= k < group_of(rule, g).len() ==> #[trigger] caps[g].bits@[k] == group_of(
                    rule,
                    g,
                )[k] - 1
        }
}

proof fn lemma_valid_wf(rule: &CodeRule, checks: Checks, slots: Seq<Slot>, caps: Seq<CapGroup>)
    requires
        rule_valid(rule, checks),
        slots == slots_of(rule),
        caps.len() == group_count(rule),
        groups_match(caps, rule, group_count(rule)),
    ensures
        groups_wf(slots, caps, checks),
{
    let n = slots.len();
    assert forall|g: int, k: int|
        0 <= g < caps.len() && 0 <= k < caps[g].bits@.len() implies #[trigger] caps[g].bits@[k]
        < n by {
        assert(is_cap_pos(rule, g, k));
        assert(bit_error(rule, checks, g, k) is None);
    }
    assert forall|g: int| 0 <= g < caps.len() implies (#[trigger] caps[g]).bits@.no_duplicates() by {
        assert forall|k1: int, k2: int|
            0 <= k1 < caps[g].bits@.len() && 0 <= k2 < caps[g].bits@.len() && k1 != k2 implies caps[g].bits@[k1]
            != caps[g].bits@[k2] by {
            let lo = if k1 < k2 { k1 } else { k2 };
            let hi = if k1 < k2 { k2 } else { k1 };
            assert(is_cap_pos(rule, g, hi));
            assert(bit_error(rule, checks, g, hi) is None);
            assert(group_of(rule, g)[lo] != group_of(rule, g)[hi]);
        }
    }
    if checks.overlap {
        assert forall|g1: int, g2: int, k1: int, k2: int|
            0 <= g1 < caps.len() && 0 <= g2 < caps.len() && 0 <= k1 < caps[g1].bits@.len()
                && 0 <= k2 < caps[g2].bits@.len() && #[trigger] caps[g1].bits@[k1]
                == #[trigger] caps[g2].bits@[k2] implies g1 == g2 by {
            if g1 < g2 {
                assert(is_cap_pos(rule, g2, k2));
                assert(bit_error(rule, checks, g2, k2) is None);
                assert(group_of(rule, g1)[k1] == group_of(rule, g2)[k2]);
            } else if g2 < g1 {
                assert(is_cap_pos(rule, g1, k1));
                assert(bit_error(rule, checks, g1, k1) is None);
                assert(group_of(rule, g1)[k1] == group_of(rule, g2)[k2]);
            }
        }
    }
    if checks.kinds {
        assert forall|g: int, k: int|
            0 <= g < caps.len() && 0 <= k < caps[g].bits@.len() implies slots[#[trigger] caps[
            g
        ].bits@[k] as int].kind == caps[g].kind by {
            assert(is_cap_pos(rule, g, k));
            assert(bit_error(rule, checks, g, k) is None);
            assert(is_cap_pos(rule, g, 0));
            assert(bit_error(rule, checks, g, 0) is None);
        }
    }
}

/// Checks the caps of a rule and compiles it; on a refused rule, names the first slot number
/// that fails a check.
pub fn compile_rule(rule: &CodeRule, checks: Checks) -> (res: Result<CompiledRule, RuleError>)
    ensures
        res is Ok <==> rule_valid(rule, checks),
        res matches Ok(c) ==> compiled_from(c, rule) && compiled_wf(c, checks),
        res matches Err(e) ==> is_first_error(rule, checks, e),
{
    let slots = rule_slots(rule);
    let slot_len = slots.len();
    let ncaps = rule.extra.caps.len();
    let mut caps: Vec<CapGroup> = Vec::new();
    let mut used = all_false(slot_len);
    let mut i: usize = 0;
    while i < ncaps
        invariant
            slots@ == slots_of(rule),
            slot_len == slots@.len(),
            ncaps == group_count(rule),
            i <= ncaps,
            used@.len() == slot_len,
            caps@.len() == i,
            groups_match(caps@, rule, i as int),
            forall|i2: int, j2: int|
                is_cap_pos(rule, i2, j2) && i2 < i ==> #[trigger] bit_error(rule, checks, i2, j2) is None,
            forall|idx: int|
                0 <= idx < slot_len ==> (#[trigger] used@[idx] <==> exists|i2: int, k: int|
                    0 <= i2 < i && 0 <= k < group_of(rule, i2).len() && #[trigger] group_of(rule, i2)[k]
                        == idx + 1),
        decreases ncaps - i,
    {
        let cap = &rule.extra.caps[i];
        let nb = cap.bits.len();
        let mut bits: Vec<usize> = Vec::new();
        let mut seen = all_false(slot_len);
        let mut kind: Option<SlotKind> = None;
        let mut j: usize = 0;
        while j < nb
            invariant
                slots@ == slots_of(rule),
                slot_len == slots@.len(),
                ncaps == group_count(rule),
                i < ncaps,
                *cap == rule.extra.caps@[i as int],
                nb == group_of(rule, i as int).len(),
                j <= nb,
                used@.len() == slot_len,
                seen@.len() == slot_len,
                bits@.len() == j,
                forall|k: int| 0 <= k < j ==> #[trigger] bits@[k] == group_of(rule, i as int)[k] - 1,
                forall|i2: int, j2: int|
                    is_cap_pos(rule, i2, j2) && (i2 < i || (i2 == i && j2 < j)) ==> #[trigger] bit_error(
                        rule,
                        checks,
                        i2,
                        j2,
                    ) is None,
                forall|idx: int|
                    0 <= idx < slot_len ==> (#[trigger] seen@[idx] <==> exists|k: int|
                        0 <= k < j && #[trigger] group_of(rule, i as int)[k] == idx + 1),
                forall|idx: int|
                    0 <= idx < slot_len ==> (#[trigger] used@[idx] <==> (exists|i2: int, k: int|
                        0 <= i2 < i && 0 <= k < group_of(rule, i2).len() && #[trigger] group_of(
                            rule,
                            i2,
                        )[k] == idx + 1) || (exists|k: int|
                        0 <= k < j && #[trigger] group_of(rule, i as int)[k] == idx + 1)),
                j == 0 ==> kind is None,
                j > 0 ==> kind == Some(slots@[group_of(rule, i as int)[0] - 1].kind),
            decreases nb - j,
        {
            let bit = cap.bits[j];
            assert(bit == group_of(rule, i as int)[j as int]);
            assert(is_cap_pos(rule, i as int, j as int));
            if bit == 0 || bit > slot_len {
                let e = RuleError::InvalidCapBit { bit, max: slot_len };
                assert(bit_error(rule, checks, i as int, j as int) == Some(e));
                assert(is_first_error(rule, checks, e));
                return Err(e);
            }
            let idx = bit - 1;
            if seen[idx] {
                let e = RuleError::DuplicateCapBit { bit };
                assert(bit_error(rule, checks, i as int, j as int) == Some(e));
                assert(is_first_error(rule, checks, e));
                return Err(e);
            }
            assert(!exists|k: int| 0 <= k < j && #[trigger] group_of(rule, i as int)[k] == bit);
            if checks.overlap && used[idx] {
                let e = RuleError::OverlappingCapBit { bit };
                assert(bit_error(rule, checks, i as int, j as int) == Some(e));
                assert(is_first_error(rule, checks, e));
                return Err(e);
            }
            let this_kind = slots[idx].kind;
            match kind {
                Some(prev) => {
                    if checks.kinds && prev != this_kind {
                        let e = RuleError::MixedCapKinds;
                        assert(bit_error(rule, checks, i as int, j as int) == Some(e));
                        assert(is_first_error(rule, checks, e));
                        return Err(e);
                    }
                },
                None => {
                    kind = Some(this_kind);
                },
            }
            assert(bit_error(rule, checks, i as int, j as int) is None);
            seen.set(idx, true);
            used.set(idx, true);
            bits.push(idx);
            j = j + 1;
            assert forall|idx2: int| 0 <= idx2 < slot_len implies (#[trigger] seen@[idx2] <==> exists|k: int|
                0 <= k < j && #[trigger] group_of(rule, i as int)[k] == idx2 + 1) by {
                if idx2 == idx as int {
                    assert(group_of(rule, i as int)[j - 1] == idx2 + 1);
                }
            }
            assert forall|idx2: int| 0 <= idx2 < slot_len implies (#[trigger] used@[idx2] <==> (
            exists|i2: int, k: int|
                0 <= i2 < i && 0 <= k < group_of(rule, i2).len() && #[trigger] group_of(rule, i2)[k]
                    == idx2 + 1) || (exists|k: int|
                0 <= k < j && #[trigger] group_of(rule, i as int)[k] == idx2 + 1)) by {
                if idx2 == idx as int {
                    assert(group_of(rule, i as int)[j - 1] == idx2 + 1);
                }
            }
        }
        let group_kind_value = match kind {
            Some(k) => k,
            None => SlotKind::Red,
        };
        caps.push(CapGroup { bits, cap: cap.cap, kind: group_kind_value });
        i = i + 1;
        assert(groups_match(caps@, rule, i as int));
        assert forall|idx: int| 0 <= idx < slot_len implies (#[trigger] used@[idx] <==> exists|i2: int, k: int|
            0 <= i2 < i && 0 <= k < group_of(rule, i2).len() && #[trigger] group_of(rule, i2)[k] == idx
                + 1) by {
            if used@[idx] {
                if exists|k: int| 0 <= k < nb && #[trigger] group_of(rule, (i - 1) as int)[k] == idx + 1 {
                    let k = choose|k: int| 0 <= k < nb && #[trigger] group_of(rule, (i - 1) as int)[k] == idx + 1;
                    assert(group_of(rule, (i - 1) as int)[k] == idx + 1);
                }
            }
        }
    }
    assert(rule_valid(rule, checks));
    proof {
        lemma_valid_wf(rule, checks, slots@, caps@);
    }
    let slot_to_caps = group_index(&caps, slot_len);
    Ok(CompiledRule { slots, caps, slot_to_caps })
}

/// For each slot, the groups that hold it, given groups whose slots are below `n` and distinct.
fn group_index(caps: &Vec<CapGroup>, n: usize) -> (index: Vec<Vec<usize>>)
    requires
        forall|g: int, k: int|
            0 <= g < caps@.len() && 0 <= k < caps@[g].bits@.len() ==> #[trigger] caps@[g].bits@[k] < n,
        forall|g: int| 0 <= g < caps@.len() ==> (#[trigger] caps@[g]).bits@.no_duplicates(),
    ensures
        index@.len() == n,
        forall|idx: int|
            0 <= idx < n ==> {
                &&& (#[trigger] index@[idx])@.no_duplicates()
                &&& forall|x: int|
                    0 <= x < index@[idx]@.len() ==> #[trigger] index@[idx]@[x] < caps@.len()
                &&& forall|g: int|
                    0 <= g < caps@.len() ==> (index@[idx]@.contains(g as usize)
                        <==> caps@[g].bits@.contains(idx as usize))
            },
{
    let mut index: Vec<Vec<usize>> = Vec::new();
    while index.len() < n
        invariant
            index@.len() <= n,
            forall|idx: int| 0 <= idx < index@.len() ==> (#[trigger] index@[idx])@.len() == 0,
        decreases n - index@.len(),
    {
        index.push(Vec::new());
    }
    let ncaps = caps.len();
    let mut g: usize = 0;
    while g < ncaps
        invariant
            ncaps == caps@.len(),
            g <= ncaps,
            index@.len() == n,
            forall|g2: int, k: int|
                0 <= g2 < caps@.len() && 0 <= k < caps@[g2].bits@.len() ==> #[trigger] caps@[g2].bits@[k]
                    < n,
            forall|g2: int| 0 <= g2 < caps@.len() ==> (#[trigger] caps@[g2]).bits@.no_duplicates(),
            forall|idx: int|
                0 <= idx < n ==> {
                    &&& (#[trigger] index@[idx])@.no_duplicates()
                    &&& forall|x: int|
                        0 <= x < index@[idx]@.len() ==> #[trigger] index@[idx]@[x] < g
                    &&& forall|g2: int|
                        0 <= g2 < g ==> (index@[idx]@.contains(g2 as usize)
                            <==> caps@[g2].bits@.contains(idx as usize))
                },
        decreases ncaps - g,
    {
        let nb = caps[g].bits.len();
        let mut k: usize = 0;
        while k < nb
            invariant
                ncaps == caps@.len(),
                g < ncaps,
                nb == caps@[g as int].bits@.len(),
                k <= nb,
                index@.len() == n,
                forall|g2: int, k2: int|
                    0 <= g2 < caps@.len() && 0 <= k2 < caps@[g2].bits@.len() ==> #[trigger] caps@[g2].bits@[k2]
                        < n,
                forall|g2: int| 0 <= g2 < caps@.len() ==> (#[trigger] caps@[g2]).bits@.no_duplicates(),
                forall|idx: int|
                    0 <= idx < n ==> {
                        &&& (#[trigger] index@[idx])@.no_duplicates()
                        &&& forall|x: int|
                            0 <= x < index@[idx]@.len() ==> #[trigger] index@[idx]@[x] <= g
                        &&& forall|g2: int|
                            0 <= g2 < g ==> (index@[idx]@.contains(g2 as usize)
                                <==> caps@[g2].bits@.contains(idx as usize))
                        &&& (index@[idx]@.contains(g) <==> caps@[g as int].bits@.subrange(
                            0,
                            k as int,
                        ).contains(idx as usize))
                    },
            decreases nb - k,
        {
            let bit = caps[g].bits[k];
            let ghost old_index = index@;
            assert(!caps@[g as int].bits@.subrange(0, k as int).contains(bit)) by {
                if caps@[g as int].bits@.subrange(0, k as int).contains(bit) {
                    let x = choose|x: int| 0 <= x < k && caps@[g as int].bits@.subrange(0, k as int)[x] == bit;
                    assert(caps@[g as int].bits@[x] == caps@[g as int].bits@[k as int]);
                }
            }
            index[bit].push(g);
            k = k + 1;
            assert forall|idx: int| 0 <= idx < n implies {
                &&& (#[trigger] index@[idx])@.no_duplicates()
                &&& forall|x: int| 0 <= x < index@[idx]@.len() ==> #[trigger] index@[idx]@[x] <= g
                &&& forall|g2: int|
                    0 <= g2 < g ==> (index@[idx]@.contains(g2 as usize)
                        <==> caps@[g2].bits@.contains(idx as usize))
                &&& (index@[idx]@.contains(g) <==> caps@[g as int].bits@.subrange(0, k as int).contains(
                    idx as usize,
                ))
            } by {
                assert(caps@[g as int].bits@.subrange(0, k as int) =~= caps@[g as int].bits@.subrange(
                    0,
                    (k - 1) as int,
                ).push(bit));
                lemma_push_contains(caps@[g as int].bits@.subrange(0, (k - 1) as int), bit, idx as usize);
                if idx == bit as int {
                    assert(index@[idx]@ =~= old_index[idx]@.push(g));
                    assert(index@[idx]@.last() == g);
                    assert forall|g2: int| 0 <= g2 <= g implies (#[trigger] index@[idx]@.contains(g2 as usize)
                        <==> old_index[idx]@.contains(g2 as usize) || g2 == g) by {
                        lemma_push_contains(old_index[idx]@, g, g2 as usize);
                    }
                } else {
                    assert(index@[idx] == old_index[idx]);
                }
            }
        }
        assert(caps@[g as int].bits@.subrange(0, nb as int) =~= caps@[g as int].bits@);
        g = g + 1;
    }
    index
}

} // verus!

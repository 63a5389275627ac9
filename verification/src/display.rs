//! Showing codes and counts: a code laid out by its rule, counts with their direction.
use vstd::prelude::*;

use crate::model::{CodeItem, CodeRule, TNTNumCode, RB};
use crate::input::is_code_text;
use crate::rule::{item_slots, slots_of};
use crate::text::{
    append_char, append_str, decimal, is_ws, lemma_remove_ws_concat, push_u64, push_usize, remove_ws,
};

verus! {

/// Why a code cannot be laid out by a rule.
#[derive(Debug, Clone, Copy, PartialEq, Eq, Structural)]
pub enum CodeFormatError {
    /// The code has fewer switches than the rule has slots.
    FewerBits,
    /// The code has more switches than the rule has slots.
    MoreBits,
}

impl CodeFormatError {
    /// The text by which the error is shown.
    pub open spec fn spec_message(self) -> Seq<char> {
        match self {
            CodeFormatError::FewerBits => "rb-to-code produced fewer bits than code rule requires"@,
            CodeFormatError::MoreBits => "rb-to-code produced more bits than code rule requires"@,
        }
    }

    /// The text by which the error is shown.
    pub fn message(&self) -> (s: String)
        ensures
            s@ == self.spec_message(),
    {
        match self {
            CodeFormatError::FewerBits => "rb-to-code produced fewer bits than code rule requires".to_owned(),
            CodeFormatError::MoreBits => "rb-to-code produced more bits than code rule requires".to_owned(),
        }
    }
}

/// The digit for a switch.
pub open spec fn bit_char(b: bool) -> char {
    if b {
        '1'
    } else {
        '0'
    }
}

/// The terminal colour in which a slot's digit is shown: red, blue, or green for direction.
pub open spec fn item_color(item: CodeItem) -> Seq<char> {
    match item {
        CodeItem::Red { .. } => "\x1b[1;31m"@,
        CodeItem::Blue { .. } => "\x1b[1;34m"@,
        CodeItem::Direction { .. } => "\x1b[1;32m"@,
        CodeItem::Space => Seq::empty(),
    }
}

/// The terminal code that ends a colour.
pub open spec fn color_reset() -> Seq<char> {
    "\x1b[0m"@
}

/// How one item of a rule is shown: a space, or the digit of its switch, coloured if asked.
pub open spec fn item_text(item: CodeItem, bit: bool, color: bool) -> Seq<char> {
    match item {
        CodeItem::Space => seq![' '],
        _ => if color {
            item_color(item) + seq![bit_char(bit)] + color_reset()
        } else {
            seq![bit_char(bit)]
        },
    }
}

/// A code laid out by the items of a rule: each slot takes the next switch of the code.
pub open spec fn code_text(items: Seq<CodeItem>, bits: Seq<bool>, color: bool) -> Seq<char>
    decreases items.len(),
{
    if items.len() == 0 {
        Seq::empty()
    } else {
        let prev = items.drop_last();
        code_text(prev, bits, color) + item_text(
            items.last(),
            bits[item_slots(prev).len() as int],
            color,
        )
    }
}

proof fn lemma_item_slots_prefix(items: Seq<CodeItem>, i: int)
    requires
        0 <= i <= items.len(),
    ensures
        item_slots(items.take(i)).len() <= item_slots(items).len(),
    decreases items.len() - i,
{
    if i < items.len() {
        assert(items.take(i + 1).drop_last() =~= items.take(i));
        lemma_item_slots_prefix(items, i + 1);
    } else {
        assert(items.take(i) =~= items);
    }
}

fn format_items(items: &[CodeItem], bits: &Vec<bool>, color: bool) -> (res: Result<
    String,
    CodeFormatError,
>)
    ensures
        bits@.len() < item_slots(items@).len() ==> res == Err::<String, CodeFormatError>(
            CodeFormatError::FewerBits,
        ),
        bits@.len() > item_slots(items@).len() ==> res == Err::<String, CodeFormatError>(
            CodeFormatError::MoreBits,
        ),
        bits@.len() == item_slots(items@).len() ==> (res matches Ok(s) && s@ == code_text(
            items@,
            bits@,
            color,
        )),
{
    let mut out = String::new();
    let mut bit_idx: usize = 0;
    let mut i: usize = 0;
    assert(items@.take(0) =~= Seq::<CodeItem>::empty());
    while i < items.len()
        invariant
            i <= items@.len(),
            bit_idx == item_slots(items@.take(i as int)).len(),
            bit_idx <= bits@.len(),
            out@ == code_text(items@.take(i as int), bits@, color),
        decreases items@.len() - i,
    {
        let item = items[i];
        let ghost prev = items@.take(i as int);
        assert(items@.take(i + 1).drop_last() =~= prev);
        assert(items@.take(i + 1).last() == item);
        match item {
            CodeItem::Space => {
                append_char(&mut out, ' ');
            },
            _ => {
                if bit_idx >= bits.len() {
                    proof {
                        lemma_item_slots_prefix(items@, i + 1);
                    }
                    return Err(CodeFormatError::FewerBits);
                }
                let ch = if bits[bit_idx] {
                    '1'
                } else {
                    '0'
                };
                if color {
                    let code = match item {
                        CodeItem::Red { .. } => "\x1b[1;31m",
                        CodeItem::Blue { .. } => "\x1b[1;34m",
                        _ => "\x1b[1;32m",
                    };
                    append_str(&mut out, code);
                    append_char(&mut out, ch);
                    append_str(&mut out, "\x1b[0m");
                } else {
                    append_char(&mut out, ch);
                }
                bit_idx = bit_idx + 1;
            },
        }
        i = i + 1;
    }
    assert(items@.take(items@.len() as int) =~= items@);
    if bit_idx != bits.len() {
        return Err(CodeFormatError::MoreBits);
    }
    Ok(out)
}

/// A code laid out by its rule for the command line: spaces where the rule has them, each slot's
/// digit coloured by its kind when `use_color` is set.
pub fn format_code_with_rule(rule: &CodeRule, code: TNTNumCode, use_color: bool) -> (res: Result<
    String,
    CodeFormatError,
>)
    ensures
        code.0@.len() < slots_of(rule).len() ==> res == Err::<String, CodeFormatError>(
            CodeFormatError::FewerBits,
        ),
        code.0@.len() > slots_of(rule).len() ==> res == Err::<String, CodeFormatError>(
            CodeFormatError::MoreBits,
        ),
        code.0@.len() == slots_of(rule).len() ==> (res matches Ok(s) && s@ == code_text(
            rule.default@,
            code.0@,
            use_color,
        )),
{
    format_items(rule.default.as_slice(), &code.0, use_color)
}

/// A code laid out by the items of a rule for the form; when the lengths differ, the text says
/// which way.
pub fn format_code_bits_with_rule(rule: &[CodeItem], code: &TNTNumCode) -> (s: String)
    ensures
        code.0@.len() < item_slots(rule@).len() ==> s@ == CodeFormatError::FewerBits.spec_message(),
        code.0@.len() > item_slots(rule@).len() ==> s@ == CodeFormatError::MoreBits.spec_message(),
        code.0@.len() == item_slots(rule@).len() ==> s@ == code_text(rule@, code.0@, false),
{
    match format_items(rule, &code.0, false) {
        Ok(s) => s,
        Err(e) => e.message(),
    }
}

/// Counts and direction as the command line shows them, coloured when `use_color` is set.
pub open spec fn rb_text(rb: RB, use_color: bool) -> Seq<char> {
    if use_color {
        "\x1b[1;35m"@ + "direction="@ + decimal(rb.direction as nat) + color_reset() + " "@
            + "\x1b[1;33m"@ + "red="@ + decimal(rb.num.red as nat) + color_reset() + " "@
            + "\x1b[1;33m"@ + "blue="@ + decimal(rb.num.blue as nat) + color_reset()
    } else {
        "direction="@ + decimal(rb.direction as nat) + " red="@ + decimal(rb.num.red as nat)
            + " blue="@ + decimal(rb.num.blue as nat)
    }
}

/// Counts and direction as the command line shows them.
pub fn format_code_to_rb_output(rb: RB, use_color: bool) -> (s: String)
    ensures
        s@ == rb_text(rb, use_color),
{
    if !use_color {
        let mut s = "direction=".to_owned();
        push_usize(&mut s, rb.direction);
        append_str(&mut s, " red=");
        push_u64(&mut s, rb.num.red);
        append_str(&mut s, " blue=");
        push_u64(&mut s, rb.num.blue);
        return s;
    }
    let mut s = "\x1b[1;35m".to_owned();
    append_str(&mut s, "direction=");
    push_usize(&mut s, rb.direction);
    append_str(&mut s, "\x1b[0m");
    append_str(&mut s, " ");
    append_str(&mut s, "\x1b[1;33m");
    append_str(&mut s, "red=");
    push_u64(&mut s, rb.num.red);
    append_str(&mut s, "\x1b[0m");
    append_str(&mut s, " ");
    append_str(&mut s, "\x1b[1;33m");
    append_str(&mut s, "blue=");
    push_u64(&mut s, rb.num.blue);
    append_str(&mut s, "\x1b[0m");
    s
}

proof fn lemma_code_text_digits(items: Seq<CodeItem>, bits: Seq<bool>)
    requires
        item_slots(items).len() <= bits.len(),
    ensures
        remove_ws(code_text(items, bits, false)) == bits.take(item_slots(items).len() as int).map_values(
            |b: bool| bit_char(b),
        ),
    decreases items.len(),
{
    let f = |b: bool| bit_char(b);
    if items.len() == 0 {
        assert(bits.take(0).map_values(f) =~= Seq::<char>::empty());
        assert(remove_ws(Seq::<char>::empty()) == Seq::<char>::empty());
    } else {
        let prev = items.drop_last();
        let k = item_slots(prev).len() as int;
        lemma_code_text_digits(prev, bits);
        let shown = item_text(items.last(), bits[k], false);
        lemma_remove_ws_concat(code_text(prev, bits, false), shown);
        assert(seq![' '].drop_last() =~= Seq::<char>::empty());
        assert(remove_ws(Seq::<char>::empty()) == Seq::<char>::empty());
        match items.last() {
            CodeItem::Space => {
                assert(is_ws(' '));
                assert(remove_ws(shown) =~= Seq::<char>::empty());
                assert(remove_ws(code_text(prev, bits, false)) + remove_ws(shown) =~= remove_ws(
                    code_text(prev, bits, false),
                ));
            },
            _ => {
                let c = bit_char(bits[k]);
                assert(!is_ws(c));
                assert(seq![c].drop_last() =~= Seq::<char>::empty());
                assert(remove_ws(shown) =~= seq![c]);
                assert(bits.take(k + 1).map_values(f) =~= bits.take(k).map_values(f).push(c));
            },
        }
    }
}

/// A code shown without colour reads back as the same switches: whitespace aside, it is one
/// digit per switch of the code, `1` exactly where the switch is on.
pub proof fn lemma_shown_code_reads_back(items: Seq<CodeItem>, bits: Seq<bool>)
    requires
        bits.len() == item_slots(items).len(),
        bits.len() > 0,
    ensures
        is_code_text(code_text(items, bits, false)),
        remove_ws(code_text(items, bits, false)).len() == bits.len(),
        forall|i: int|
            0 <= i < bits.len() ==> (#[trigger] remove_ws(code_text(items, bits, false))[i] == '1')
                == bits[i],
{
    lemma_code_text_digits(items, bits);
    assert(bits.take(bits.len() as int) =~= bits);
}

} // verus!

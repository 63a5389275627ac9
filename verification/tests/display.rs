use pearl_calculator::display::{
    format_code_bits_with_rule, format_code_to_rb_output, format_code_with_rule, CodeFormatError,
};
use pearl_calculator::input::parse_code_input;
use pearl_calculator::{CodeExtra, CodeItem, CodeRule, TNTNumCode, TNTNumRB, RB};

fn small_rule() -> CodeRule {
    CodeRule {
        default: vec![
            CodeItem::Red { count: 1 },
            CodeItem::Space,
            CodeItem::Blue { count: 2 },
            CodeItem::Direction { count: 1 },
        ],
        extra: CodeExtra { caps: vec![] },
    }
}

#[test]
fn code_laid_out_by_rule() {
    let rule = small_rule();
    let text = format_code_with_rule(&rule, TNTNumCode(vec![true, false, true]), false).unwrap();
    assert_eq!(text, "1 01");
}

#[test]
fn code_laid_out_in_colour() {
    let rule = small_rule();
    let text = format_code_with_rule(&rule, TNTNumCode(vec![true, false, true]), true).unwrap();
    assert_eq!(
        text,
        "\x1b[1;31m1\x1b[0m \x1b[1;34m0\x1b[0m\x1b[1;32m1\x1b[0m"
    );
}

#[test]
fn code_of_wrong_length() {
    let rule = small_rule();
    assert_eq!(
        format_code_with_rule(&rule, TNTNumCode(vec![true, false]), false),
        Err(CodeFormatError::FewerBits)
    );
    assert_eq!(
        format_code_with_rule(&rule, TNTNumCode(vec![true; 4]), false),
        Err(CodeFormatError::MoreBits)
    );
    assert_eq!(
        CodeFormatError::FewerBits.message(),
        "rb-to-code produced fewer bits than code rule requires"
    );
    assert_eq!(
        CodeFormatError::MoreBits.message(),
        "rb-to-code produced more bits than code rule requires"
    );
}

#[test]
fn code_bits_for_the_form() {
    let rule = small_rule();
    assert_eq!(
        format_code_bits_with_rule(&rule.default, &TNTNumCode(vec![false, true, true])),
        "0 11"
    );
    assert_eq!(
        format_code_bits_with_rule(&rule.default, &TNTNumCode(vec![])),
        "rb-to-code produced fewer bits than code rule requires"
    );
    assert_eq!(
        format_code_bits_with_rule(&rule.default, &TNTNumCode(vec![false; 5])),
        "rb-to-code produced more bits than code rule requires"
    );
}

#[test]
fn shown_code_reads_back() {
    let rule = small_rule();
    for n in 0..8u32 {
        let bits = vec![n & 1 != 0, n & 2 != 0, n & 4 != 0];
        let shown = format_code_bits_with_rule(&rule.default, &TNTNumCode(bits.clone()));
        assert_eq!(parse_code_input(&shown).unwrap().0, bits);
    }
}

#[test]
fn counts_for_the_command_line() {
    let rb = RB { num: TNTNumRB { red: 12, blue: 340 }, direction: 2 };
    assert_eq!(format_code_to_rb_output(rb, false), "direction=2 red=12 blue=340");
    assert_eq!(
        format_code_to_rb_output(rb, true),
        "\x1b[1;35mdirection=2\x1b[0m \x1b[1;33mred=12\x1b[0m \x1b[1;33mblue=340\x1b[0m"
    );
}

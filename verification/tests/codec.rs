use pearl_calculator::codec::{code_to_rb, rb_to_code, ConvertError};
use pearl_calculator::{CodeCaps, CodeExtra, CodeItem, CodeRule, TNTNumCode, TNTNumRB, RB};

fn red(count: u64) -> CodeItem {
    CodeItem::Red { count }
}

fn blue(count: u64) -> CodeItem {
    CodeItem::Blue { count }
}

fn direction(count: u64) -> CodeItem {
    CodeItem::Direction { count }
}

/// The 32-slot rule of the test config: slot 1 is red 340, slot 7 direction 2, slot 16 blue 1,
/// slot 24 direction 1; slots 12..=15 (red) and 16..=19 (blue) form two groups capped at 10.
fn load_rule() -> CodeRule {
    CodeRule {
        default: vec![
            red(340),
            red(2720),
            red(1360),
            red(680),
            red(160),
            red(80),
            direction(2),
            red(40),
            CodeItem::Space,
            red(20),
            blue(20),
            blue(40),
            red(8),
            red(4),
            red(2),
            red(1),
            CodeItem::Space,
            blue(1),
            blue(8),
            blue(4),
            blue(2),
            blue(80),
            blue(160),
            blue(340),
            blue(680),
            CodeItem::Space,
            direction(1),
            blue(1360),
            blue(2720),
            red(5440),
            blue(5440),
            red(5),
            blue(5),
            red(2),
            blue(2),
        ],
        extra: CodeExtra {
            caps: vec![
                CodeCaps { bits: vec![12, 13, 14, 15], cap: 10 },
                CodeCaps { bits: vec![16, 17, 18, 19], cap: 10 },
            ],
        },
    }
}

#[test]
fn codec_code_to_rb_accumulates_red_blue_and_direction() {
    let rule = load_rule();
    let mut bits = vec![false; 32];

    bits[0] = true; // bit 1: red 340
    bits[15] = true; // bit 16: blue 1
    bits[6] = true; // bit 7: direction 2
    bits[23] = true; // bit 24: direction 1

    let rb = code_to_rb(&rule, TNTNumCode(bits)).expect("convert code to rb");
    assert_eq!(rb.num.red, 340);
    assert_eq!(rb.num.blue, 1);
    assert_eq!(rb.direction, 3);
}

#[test]
fn code_to_rb_applies_min_cap_to_group_sum() {
    let rule = load_rule();
    let mut bits = vec![false; 32];

    // cap bits [12,13,14,15] with cap 10
    bits[11] = true;
    bits[12] = true;
    bits[13] = true;
    bits[14] = true;
    // cap bits [16,17,18,19] with cap 10
    bits[15] = true;
    bits[16] = true;
    bits[17] = true;
    bits[18] = true;

    let rb = code_to_rb(&rule, TNTNumCode(bits)).expect("convert");
    assert_eq!(rb.num.red, 10);
    assert_eq!(rb.num.blue, 10);
    assert_eq!(rb.direction, 0);
}

#[test]
fn codec_rb_roundtrip_with_code_rule() {
    let rule = load_rule();
    let expected = RB {
        num: TNTNumRB {
            red: 3110,
            blue: 2900,
        },
        direction: 1,
    };

    let code = rb_to_code(&rule, expected).expect("encode rb");
    let actual = code_to_rb(&rule, code).expect("decode code");
    assert_eq!(actual.num.red, expected.num.red);
    assert_eq!(actual.num.blue, expected.num.blue);
    assert_eq!(actual.direction, expected.direction);
}

#[test]
fn codec_rb_to_code_rejects_out_of_range_direction() {
    let rule = load_rule();
    let err = rb_to_code(
        &rule,
        RB {
            num: TNTNumRB { red: 0, blue: 0 },
            direction: 4,
        },
    )
    .expect_err("direction should be rejected");
    assert!(matches!(
        err,
        ConvertError::DirectionOutOfRange { value: 4 }
    ));
}

#[test]
fn codec_rb_to_code_reports_no_exact_encoding() {
    let rule = load_rule();
    let err = rb_to_code(
        &rule,
        RB {
            num: TNTNumRB {
                red: 10_881,
                blue: 0,
            },
            direction: 0,
        },
    )
    .expect_err("value should be impossible due caps");
    assert!(matches!(err, ConvertError::NoExactEncoding { .. }));
}

#[test]
fn codec_code_length_mismatch_returns_error() {
    let rule = load_rule();
    let err = code_to_rb(&rule, TNTNumCode(vec![false; 31]))
        .expect_err("length mismatch should fail");
    assert!(matches!(
        err,
        ConvertError::CodeLengthMismatch {
            expected: 32,
            actual: 31
        }
    ));
}

#[test]
fn codec_dynamic_rule_length_is_supported() {
    let rule = CodeRule {
        default: vec![
            CodeItem::Red { count: 4 },
            CodeItem::Space,
            CodeItem::Blue { count: 2 },
            CodeItem::Direction { count: 1 },
        ],
        extra: CodeExtra { caps: Vec::new() },
    };
    let rb = code_to_rb(&rule, TNTNumCode(vec![true, true, true])).expect("convert");
    assert_eq!(rb.num.red, 4);
    assert_eq!(rb.num.blue, 2);
    assert_eq!(rb.direction, 1);
}

#[test]
fn overlapping_caps_are_rejected() {
    let rule = CodeRule {
        default: vec![
            CodeItem::Red { count: 8 },
            CodeItem::Red { count: 4 },
            CodeItem::Red { count: 2 },
        ],
        extra: CodeExtra {
            caps: vec![
                CodeCaps {
                    bits: vec![1, 2],
                    cap: 10,
                },
                CodeCaps {
                    bits: vec![2, 3],
                    cap: 10,
                },
            ],
        },
    };
    let err = code_to_rb(&rule, TNTNumCode(vec![true, true, true]))
        .expect_err("overlapping caps should be rejected");
    assert!(matches!(err, ConvertError::OverlappingCapBit { bit: 2 }));
}

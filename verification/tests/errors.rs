use pearl_calculator::{codec, convert};
use pearl_calculator::{CodeCaps, CodeExtra, CodeItem, CodeRule, TNTNumCode};

fn rule(default: Vec<CodeItem>, caps: Vec<(Vec<usize>, u64)>) -> CodeRule {
    CodeRule {
        default,
        extra: CodeExtra {
            caps: caps.into_iter().map(|(bits, cap)| CodeCaps { bits, cap }).collect(),
        },
    }
}

fn three_slots() -> Vec<CodeItem> {
    vec![
        CodeItem::Red { count: 4 },
        CodeItem::Red { count: 2 },
        CodeItem::Blue { count: 1 },
    ]
}

#[test]
fn codec_refuses_bad_caps() {
    let code = || TNTNumCode(vec![false; 3]);
    let r = rule(three_slots(), vec![(vec![0], 1)]);
    assert!(matches!(
        codec::code_to_rb(&r, code()),
        Err(codec::ConvertError::InvalidCapBit { bit: 0, max: 3 })
    ));
    let r = rule(three_slots(), vec![(vec![1, 1], 1)]);
    assert!(matches!(
        codec::code_to_rb(&r, code()),
        Err(codec::ConvertError::DuplicateCapBit { bit: 1 })
    ));
    let r = rule(three_slots(), vec![(vec![1, 3], 1)]);
    assert!(matches!(
        codec::code_to_rb(&r, code()),
        Err(codec::ConvertError::MixedCapKinds)
    ));
    let r = rule(three_slots(), vec![(vec![1], 1), (vec![2, 1], 1)]);
    assert!(matches!(
        codec::code_to_rb(&r, code()),
        Err(codec::ConvertError::OverlappingCapBit { bit: 1 })
    ));
}

#[test]
fn codec_reports_overflow_and_direction() {
    let r = rule(
        vec![CodeItem::Red { count: u64::MAX }, CodeItem::Red { count: 1 }],
        vec![],
    );
    assert!(matches!(
        codec::code_to_rb(&r, TNTNumCode(vec![true, true])),
        Err(codec::ConvertError::ValueOverflow)
    ));
    let r = rule(
        vec![CodeItem::Direction { count: 2 }, CodeItem::Direction { count: 2 }],
        vec![],
    );
    assert!(matches!(
        codec::code_to_rb(&r, TNTNumCode(vec![true, true])),
        Err(codec::ConvertError::DirectionOutOfRange { value: 4 })
    ));
}

#[test]
fn converter_keeps_mixed_and_overlapping_caps() {
    let r = rule(three_slots(), vec![(vec![1, 3], 4), (vec![3], 1)]);
    let rb = convert::code_to_rb(&r, TNTNumCode(vec![true, false, true])).unwrap();
    assert_eq!((rb.num.red, rb.num.blue), (4, 0));
    let r = rule(three_slots(), vec![(vec![4], 1)]);
    assert!(matches!(
        convert::code_to_rb(&r, TNTNumCode(vec![false; 3])),
        Err(convert::ConvertError::InvalidCapBit { bit: 4, max: 3 })
    ));
    let r = rule(three_slots(), vec![(vec![2, 2], 1)]);
    assert!(matches!(
        convert::normalize_code(&r, TNTNumCode(vec![false; 3])),
        Err(convert::ConvertError::DuplicateCapBit { bit: 2 })
    ));
}

#[test]
fn normalizing_twice_changes_nothing() {
    let r = rule(
        vec![
            CodeItem::Red { count: 8 },
            CodeItem::Red { count: 4 },
            CodeItem::Red { count: 2 },
            CodeItem::Red { count: 1 },
            CodeItem::Blue { count: 3 },
        ],
        vec![(vec![1, 2, 3, 4], 10), (vec![5], 2)],
    );
    for n in 0..32u32 {
        let bits: Vec<bool> = (0..5).map(|i| n & (1 << i) != 0).collect();
        let once = convert::normalize_code(&r, TNTNumCode(bits.clone())).unwrap();
        let twice = convert::normalize_code(&r, once.clone()).unwrap();
        assert_eq!(once.0, twice.0);
        let red: u64 = [8u64, 4, 2, 1].iter().zip(&once.0).filter(|(_, on)| **on).map(|(c, _)| *c).sum();
        assert!(red <= 10);
        assert!(!once.0[4]);
        let fits = {
            let red_in: u64 = [8u64, 4, 2, 1].iter().zip(&bits).filter(|(_, on)| **on).map(|(c, _)| *c).sum();
            red_in <= 10 && !bits[4]
        };
        if fits {
            assert_eq!(once.0, bits);
        }
        let a = convert::code_to_rb(&r, TNTNumCode(bits)).unwrap();
        let b = convert::code_to_rb(&r, once).unwrap();
        assert_eq!(a, b);
    }
}

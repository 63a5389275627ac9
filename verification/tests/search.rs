use pearl_calculator::rule::{compile_rule, Checks};
use pearl_calculator::search::find_code;
use pearl_calculator::{CodeCaps, CodeExtra, CodeItem, CodeRule};

#[test]
fn first_code_within_a_cap() {
    let rule = CodeRule {
        default: vec![
            CodeItem::Red { count: 3 },
            CodeItem::Red { count: 2 },
            CodeItem::Red { count: 2 },
        ],
        extra: CodeExtra { caps: vec![CodeCaps { bits: vec![1, 2], cap: 4 }] },
    };
    let checks = Checks { overlap: true, kinds: true };
    let compiled = compile_rule(&rule, checks).unwrap();
    assert_eq!(find_code(&rule, &compiled, checks, 4, 0, 0), Some(vec![false, true, true]));
    assert_eq!(find_code(&rule, &compiled, checks, 5, 0, 0), Some(vec![true, false, true]));
    assert_eq!(find_code(&rule, &compiled, checks, 7, 0, 0), None);
    assert_eq!(find_code(&rule, &compiled, checks, 0, 0, 0), Some(vec![false, false, false]));
}

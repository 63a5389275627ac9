use pearl_calculator::text::{
    append_str, chars_of, is_whitespace, push_i64, read_i64, read_unsigned, same_text, string_of,
    trimmed_chars, u64_text, without_whitespace,
};

fn chars(s: &str) -> Vec<char> {
    s.chars().collect()
}

#[test]
fn decimal_text_of_numbers() {
    assert_eq!(u64_text(0), "0");
    assert_eq!(u64_text(7), "7");
    assert_eq!(u64_text(1234567890), "1234567890");
    assert_eq!(u64_text(u64::MAX), "18446744073709551615");
}

#[test]
fn signed_decimal_text_of_numbers() {
    for n in [0i64, -1, 42, -42, i64::MAX, i64::MIN] {
        let mut s = String::from("n=");
        push_i64(&mut s, n);
        assert_eq!(s, format!("n={}", n));
    }
}

#[test]
fn unsigned_reading_follows_from_str() {
    let cases = ["0", "42", "+42", "-42", "", "+", "4 2", "18446744073709551615", "18446744073709551616", "007"];
    for case in cases {
        assert_eq!(read_unsigned(&chars(case), u64::MAX), case.parse::<u64>().ok(), "{case:?}");
    }
    assert_eq!(read_unsigned(&chars("256"), 255), None);
    assert_eq!(read_unsigned(&chars("255"), 255), Some(255));
}

#[test]
fn signed_reading_follows_from_str() {
    let cases = [
        "0", "-0", "+7", "-7", "-", "+", "--1", "+-1", "9223372036854775807", "9223372036854775808",
        "-9223372036854775808", "-9223372036854775809", "x",
    ];
    for case in cases {
        assert_eq!(read_i64(&chars(case)), case.parse::<i64>().ok(), "{case:?}");
    }
}

#[test]
fn decimal_text_reads_back() {
    for n in [0u64, 9, 10, 99, 12345, u64::MAX] {
        assert_eq!(read_unsigned(&chars(&u64_text(n)), u64::MAX), Some(n));
    }
    for n in [0i64, -9, 10, i64::MIN, i64::MAX] {
        let mut s = String::new();
        push_i64(&mut s, n);
        assert_eq!(read_i64(&chars(&s)), Some(n));
    }
}

#[test]
fn trimming_follows_str_trim() {
    let cases = ["  a b  ", "\t\n x \r", "", "   ", "\u{3000}full\u{a0}", "\u{85}y\u{2028}", "z"];
    for case in cases {
        let t: String = trimmed_chars(case).into_iter().collect();
        assert_eq!(t, case.trim(), "{case:?}");
    }
}

#[test]
fn whitespace_removal_follows_char_is_whitespace() {
    let s = " 1 0\t1\u{2003}0\u{feff}x ";
    let kept: String = without_whitespace(&chars(s)).into_iter().collect();
    let expected: String = s.chars().filter(|c| !c.is_whitespace()).collect();
    assert_eq!(kept, expected);
    for c in ['\u{0}', ' ', '\u{1680}', '\u{200b}', '\u{205f}', 'a', '\u{180e}'] {
        assert_eq!(is_whitespace(c), c.is_whitespace(), "{c:?}");
    }
}

#[test]
fn text_helpers() {
    assert!(same_text("abc", "abc"));
    assert!(!same_text("abc", "abd"));
    assert!(!same_text("abc", "ab"));
    assert_eq!(string_of(&chars_of("héllo")), "héllo");
    let mut s = String::from("a");
    append_str(&mut s, "bc");
    assert_eq!(s, "abc");
}

use pearl_calculator::input::{
    check_config_version, normalize_compact, normalize_config_name, parse_code_input,
    parse_dimension, parse_max_tnt_num, parse_optional_u64, parse_optional_usize,
    parse_required_i64, parse_required_u64, parse_required_usize, CodeInputError, ParseType,
};
use pearl_calculator::{Dimension, PearlError, TNTNumRB};

#[test]
fn max_tnt_from_zero_one_or_two_numbers() {
    assert_eq!(parse_max_tnt_num(None).unwrap(), None);
    assert_eq!(parse_max_tnt_num(Some(vec![])).unwrap(), None);
    assert_eq!(
        parse_max_tnt_num(Some(vec![7])).unwrap(),
        Some(TNTNumRB { red: 7, blue: 7 })
    );
    assert_eq!(
        parse_max_tnt_num(Some(vec![3, 9])).unwrap(),
        Some(TNTNumRB { red: 3, blue: 9 })
    );
    assert!(matches!(
        parse_max_tnt_num(Some(vec![1, 2, 3])),
        Err(PearlError::InvalidMaxTntArgCount(3))
    ));
}

#[test]
fn dimension_names() {
    assert_eq!(parse_dimension("overworld"), Ok(Dimension::Overworld));
    assert_eq!(parse_dimension("nether"), Ok(Dimension::Nether));
    assert_eq!(parse_dimension("end"), Ok(Dimension::End));
    assert_eq!(
        parse_dimension("End"),
        Err("dimension must be one of: overworld, nether, end".to_string())
    );
    assert!(parse_dimension("").is_err());
}

#[test]
fn code_input_skips_whitespace() {
    let code = parse_code_input(" 10 1\t0 ").unwrap();
    assert_eq!(code.0, vec![true, false, true, false]);
}

#[test]
fn code_input_errors() {
    assert_eq!(parse_code_input("").unwrap_err(), CodeInputError::Empty);
    assert_eq!(parse_code_input(" \n ").unwrap_err(), CodeInputError::Empty);
    let err = parse_code_input("1 0x1").unwrap_err();
    assert_eq!(err, CodeInputError::InvalidChar { position: 3, ch: 'x' });
    assert_eq!(err.message(), "invalid code char at position 3: 'x'");
    assert_eq!(err.key(), "code-invalid-char:3:x");
    assert_eq!(CodeInputError::Empty.message(), "code cannot be empty");
    assert_eq!(CodeInputError::Empty.key(), "code-empty");
    let err = parse_code_input("2").unwrap_err();
    assert_eq!(err, CodeInputError::InvalidChar { position: 1, ch: '2' });
}

#[test]
fn parse_type_words() {
    assert_eq!(ParseType::U64.as_str(), "integer");
    assert_eq!(ParseType::Usize.as_str(), "integer");
    assert_eq!(ParseType::I64.as_str(), "integer");
    assert_eq!(ParseType::F64.as_str(), "number");
}

#[test]
fn required_fields() {
    assert_eq!(parse_required_u64(" 42 ", "red").ok(), Some(42));
    assert_eq!(parse_required_usize("3", "direction").ok(), Some(3));
    assert_eq!(parse_required_i64(" -12 ", "x").ok(), Some(-12));
    let err = parse_required_u64("4 2", "red").unwrap_err();
    assert_eq!(err.name, "red");
    assert_eq!(err.expected, ParseType::U64);
    assert_eq!(err.message(), "red must be a u64");
    let err = parse_required_usize("-1", "direction").unwrap_err();
    assert_eq!(err.expected, ParseType::Usize);
    assert_eq!(err.message(), "direction must be a usize");
    let err = parse_required_i64("", "z").unwrap_err();
    assert_eq!(err.expected, ParseType::I64);
    assert_eq!(err.message(), "z must be an i64");
    assert!(parse_required_u64("18446744073709551616", "red").is_err());
}

#[test]
fn optional_fields() {
    assert_eq!(parse_optional_u64("   ", "max").ok(), Some(None));
    assert_eq!(parse_optional_u64(" 7 ", "max").ok(), Some(Some(7)));
    assert_eq!(parse_optional_usize("", "first").ok(), Some(None));
    assert_eq!(parse_optional_usize("10", "first").ok(), Some(Some(10)));
    let err = parse_optional_u64("x", "max").unwrap_err();
    assert_eq!(err.name, "max");
    assert_eq!(err.expected, ParseType::U64);
    let err = parse_optional_usize("1.5", "first").unwrap_err();
    assert_eq!(err.expected, ParseType::Usize);
}

#[test]
fn compacting_a_field() {
    let mut s = String::from(" 1 0\t1 ");
    normalize_compact(&mut s);
    assert_eq!(s, "101");
    normalize_compact(&mut s);
    assert_eq!(s, "101");
}

#[test]
fn config_file_names() {
    assert_eq!(normalize_config_name("  cannon  "), "cannon.json");
    assert_eq!(normalize_config_name("cannon.json"), "cannon.json");
    assert_eq!(normalize_config_name(" a.json "), "a.json");
    assert_eq!(normalize_config_name("   "), "");
    assert_eq!(normalize_config_name(""), "");
    assert_eq!(normalize_config_name("json"), "json.json");
    for name in ["x", " y.json", "  ", "z.JSON"] {
        let once = normalize_config_name(name);
        assert_eq!(normalize_config_name(&once), once);
    }
}

#[test]
fn config_versions() {
    assert!(check_config_version(1).is_ok());
    assert!(matches!(
        check_config_version(2),
        Err(PearlError::UnsupportedConfigVersion(2))
    ));
    assert!(matches!(
        check_config_version(0),
        Err(PearlError::UnsupportedConfigVersion(0))
    ));
}

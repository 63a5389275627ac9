use pearl_calculator::input::{parse_required_u64, CodeInputError, ParseType};
use pearl_calculator::localize::{
    code_input_message, core_error_message, parse_error_message, parse_type_message_key,
    settings_error_message_key, Message,
};
use pearl_calculator::{Dimension, PearlError, TNTNumRB, RB};

fn args_of(m: &Message) -> Vec<(&str, &str)> {
    m.args.iter().map(|(k, v)| (*k, v.as_str())).collect()
}

#[test]
fn calculator_error_keys() {
    let m = core_error_message(&PearlError::UnsupportedConfigVersion(2));
    assert_eq!(m.key, "core-error-unsupported-config-version");
    assert_eq!(args_of(&m), vec![("version", "2")]);

    let m = core_error_message(&PearlError::InvalidDirectionVector([-1, 0]));
    assert_eq!(m.key, "core-error-invalid-direction-vector");
    assert_eq!(args_of(&m), vec![("x", "-1"), ("y", "0")]);

    let m = core_error_message(&PearlError::SimulationTimeZero);
    assert_eq!(m.key, "core-error-simulation-time-zero");
    assert!(m.args.is_empty());

    let m = core_error_message(&PearlError::UnsupportedDimension {
        dimension: Dimension::End,
        context: "calculation",
    });
    assert_eq!(m.key, "core-error-unsupported-dimension");
    assert_eq!(args_of(&m), vec![("dimension", "End"), ("context", "calculation")]);

    let rb = RB { num: TNTNumRB { red: 5, blue: 6 }, direction: 3 };
    let m = core_error_message(&PearlError::NoExactEncoding { rb });
    assert_eq!(m.key, "core-error-no-exact-encoding");
    assert_eq!(args_of(&m), vec![("direction", "3"), ("red", "5"), ("blue", "6")]);

    let m = core_error_message(&PearlError::CodeLengthMismatch { expected: 32, actual: 30 });
    assert_eq!(m.key, "core-error-code-length-mismatch");
    assert_eq!(args_of(&m), vec![("expected", "32"), ("actual", "30")]);

    let m = core_error_message(&PearlError::ToEndTimeAfterEnd { to_end_time: 8, time: 4 });
    assert_eq!(args_of(&m), vec![("to_end_time", "8"), ("time", "4")]);
}

#[test]
fn code_input_keys() {
    let m = code_input_message(CodeInputError::Empty);
    assert_eq!(m.key, "error-code-empty");
    assert!(m.args.is_empty());
    let m = code_input_message(CodeInputError::InvalidChar { position: 12, ch: 'z' });
    assert_eq!(m.key, "error-code-invalid-char");
    assert_eq!(args_of(&m), vec![("position", "12"), ("char", "z")]);
}

#[test]
fn field_error_keys() {
    assert_eq!(parse_type_message_key(ParseType::U64), "parse-type-integer");
    assert_eq!(parse_type_message_key(ParseType::I64), "parse-type-integer");
    assert_eq!(parse_type_message_key(ParseType::F64), "parse-type-number");
    let err = parse_required_u64("?", "Red").unwrap_err();
    let m = parse_error_message(&err, "integer".to_string());
    assert_eq!(m.key, "parse-error-must-be");
    assert_eq!(args_of(&m), vec![("field", "Red"), ("expected", "integer")]);
}

#[test]
fn settings_error_keys() {
    assert_eq!(
        settings_error_message_key("invalid file name"),
        Some("settings-error-invalid-file-name")
    );
    assert_eq!(
        settings_error_message_key("config name cannot be empty"),
        Some("settings-error-empty-config-name")
    );
    assert_eq!(
        settings_error_message_key("target config already exists"),
        Some("settings-error-target-exists")
    );
    assert_eq!(
        settings_error_message_key("config directory is unavailable"),
        Some("config-error-store-unavailable")
    );
    assert_eq!(settings_error_message_key("disk full"), None);
}

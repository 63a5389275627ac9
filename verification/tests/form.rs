use pearl_calculator::form::{
    read_calculation_limits, read_calculation_target, read_rb_fields, read_simulation_times,
    FormError,
};
use pearl_calculator::input::ParseType;
use pearl_calculator::{TNTNumRB, RB};

fn field_error<T>(res: Result<T, FormError>) -> (String, ParseType) {
    match res {
        Err(FormError::Field(e)) => (e.name, e.expected),
        _ => panic!("expected a field error"),
    }
}

#[test]
fn rb_fields() {
    let rb = read_rb_fields("2", "10", "0", "Direction", "Red", "Blue").unwrap();
    assert_eq!(rb, RB { num: TNTNumRB { red: 10, blue: 0 }, direction: 2 });
    assert_eq!(
        field_error(read_rb_fields("x", "10", "0", "Direction", "Red", "Blue")),
        ("Direction".to_string(), ParseType::Usize)
    );
    assert!(matches!(
        read_rb_fields("4", "x", "0", "Direction", "Red", "Blue"),
        Err(FormError::DirectionRange)
    ));
    assert_eq!(
        field_error(read_rb_fields("3", "-1", "0", "Direction", "Red", "Blue")),
        ("Red".to_string(), ParseType::U64)
    );
    assert_eq!(
        field_error(read_rb_fields("3", "1", "", "Direction", "Red", "Blue")),
        ("Blue".to_string(), ParseType::U64)
    );
    assert_eq!(FormError::DirectionRange.key(), Some("error-direction-range"));
    assert_eq!(FormError::MaxRedBluePair.key(), Some("error-max-red-blue-pair"));
}

#[test]
fn simulation_time_fields() {
    let (t, e) = read_simulation_times("", "", "Time", "To end").unwrap();
    assert!(t.is_none() && e.is_none());
    let (t, e) = read_simulation_times("40", "3", "Time", "To end").unwrap();
    assert_eq!((t.unwrap().0, e.unwrap().0), (40, 3));
    assert_eq!(
        field_error(read_simulation_times("4.5", "x", "Time", "To end")),
        ("Time".to_string(), ParseType::U64)
    );
    assert_eq!(
        field_error(read_simulation_times("4", "x", "Time", "To end")),
        ("To end".to_string(), ParseType::U64)
    );
}

#[test]
fn calculation_target_fields() {
    let (x, z, m) = read_calculation_target("-100", "250", "", "", "X", "Z", "Red", "Blue").unwrap();
    assert_eq!((x, z, m), (-100, 250, None));
    let (_, _, m) = read_calculation_target("0", "0", "20", "30", "X", "Z", "Red", "Blue").unwrap();
    assert_eq!(m, Some(TNTNumRB { red: 20, blue: 30 }));
    assert!(matches!(
        read_calculation_target("0", "0", "20", "", "X", "Z", "Red", "Blue"),
        Err(FormError::MaxRedBluePair)
    ));
    assert_eq!(
        field_error(read_calculation_target("a", "b", "", "", "X", "Z", "Red", "Blue")),
        ("X".to_string(), ParseType::I64)
    );
    assert_eq!(
        field_error(read_calculation_target("1", "b", "", "", "X", "Z", "Red", "Blue")),
        ("Z".to_string(), ParseType::I64)
    );
    assert_eq!(
        field_error(read_calculation_target("1", "2", "r", "", "X", "Z", "Red", "Blue")),
        ("Red".to_string(), ParseType::U64)
    );
    assert_eq!(
        field_error(read_calculation_target("1", "2", "", "b", "X", "Z", "Red", "Blue")),
        ("Blue".to_string(), ParseType::U64)
    );
}

#[test]
fn calculation_limit_fields() {
    let (t, f) = read_calculation_limits("", "", "Max time", "First").unwrap();
    assert!(t.is_none() && f.is_none());
    let (t, f) = read_calculation_limits("80", "5", "Max time", "First").unwrap();
    assert_eq!((t.unwrap().0, f.unwrap()), (80, 5));
    assert_eq!(
        field_error(read_calculation_limits("-1", "5", "Max time", "First")),
        ("Max time".to_string(), ParseType::U64)
    );
    assert_eq!(
        field_error(read_calculation_limits("1", "five", "Max time", "First")),
        ("First".to_string(), ParseType::Usize)
    );
}

//! What the form shows for each error: a key of the language files and the arguments that fill
//! it, chosen here; the form looks the key up in the user's language.
use vstd::prelude::*;

use crate::error::PearlError;
use crate::input::{CodeInputError, ParseError, ParseType};
use crate::text::{append_char, decimal, same_text, signed_decimal, u64_text};

verus! {

/// A localized message: its key and its named arguments, in order.
#[derive(Debug, Clone)]
pub struct Message {
    pub key: &'static str,
    pub args: Vec<(&'static str, String)>,
}

/// Whether a message has the given key and arguments.
pub open spec fn message_is(m: Message, key: Seq<char>, args: Seq<(Seq<char>, Seq<char>)>) -> bool {
    &&& m.key@ == key
    &&& m.args@.len() == args.len()
    &&& forall|i: int|
        0 <= i < args.len() ==> (#[trigger] m.args@[i]).0@ == args[i].0 && m.args@[i].1@
            == args[i].1
}

/// The key under which a calculator error is localized.
pub open spec fn core_error_key(e: PearlError) -> Seq<char> {
    match e {
        PearlError::UnsupportedConfigVersion(_) => "core-error-unsupported-config-version"@,
        PearlError::InvalidDirectionVector(_) => "core-error-invalid-direction-vector"@,
        PearlError::InvalidDirectionCombination { .. } =>
            "core-error-invalid-direction-combination"@,
        PearlError::DuplicateDirectionQuadrant { .. } => "core-error-duplicate-direction-quadrant"@,
        PearlError::SimulationTimeZero => "core-error-simulation-time-zero"@,
        PearlError::ToEndTimeAfterEnd { .. } => "core-error-to-end-time-after-end"@,
        PearlError::EndPortalTeleportFromEnd => "core-error-end-portal-teleport-from-end"@,
        PearlError::Unimplemented { .. } => "core-error-unimplemented"@,
        PearlError::UnsupportedDimension { .. } => "core-error-unsupported-dimension"@,
        PearlError::UnsupportedCalculationDimensionTransition { .. } =>
            "core-error-unsupported-calculation-dimension-transition"@,
        PearlError::InvalidMaxTntArgCount(_) => "core-error-invalid-max-tnt-arg-count"@,
        PearlError::InvalidCapBit { .. } => "core-error-invalid-cap-bit"@,
        PearlError::DuplicateCapBit { .. } => "core-error-duplicate-cap-bit"@,
        PearlError::OverlappingCapBit { .. } => "core-error-overlapping-cap-bit"@,
        PearlError::CodeLengthMismatch { .. } => "core-error-code-length-mismatch"@,
        PearlError::MixedCapKinds => "core-error-mixed-cap-kinds"@,
        PearlError::DirectionOutOfRange { .. } => "core-error-direction-out-of-range"@,
        PearlError::ValueOverflow => "core-error-value-overflow"@,
        PearlError::NoExactEncoding { .. } => "core-error-no-exact-encoding"@,
    }
}

/// The arguments with which a calculator error is localized.
pub open spec fn core_error_args(e: PearlError) -> Seq<(Seq<char>, Seq<char>)> {
    match e {
        PearlError::UnsupportedConfigVersion(v) => seq![("version"@, decimal(v as nat))],
        PearlError::InvalidDirectionVector(v) => seq![
            ("x"@, signed_decimal(v[0] as int)),
            ("y"@, signed_decimal(v[1] as int)),
        ],
        PearlError::InvalidDirectionCombination { x, y } => seq![
            ("x"@, signed_decimal(x as int)),
            ("y"@, signed_decimal(y as int)),
        ],
        PearlError::DuplicateDirectionQuadrant { quadrant } => seq![
            ("quadrant"@, decimal(quadrant as nat)),
        ],
        PearlError::ToEndTimeAfterEnd { to_end_time, time } => seq![
            ("to_end_time"@, decimal(to_end_time as nat)),
            ("time"@, decimal(time as nat)),
        ],
        PearlError::Unimplemented { feature } => seq![("feature"@, feature@)],
        PearlError::UnsupportedDimension { dimension, context } => seq![
            ("dimension"@, dimension.spec_name()),
            ("context"@, context@),
        ],
        PearlError::UnsupportedCalculationDimensionTransition {
            start_dimension,
            target_dimension,
        } => seq![
            ("start_dimension"@, start_dimension.spec_name()),
            ("target_dimension"@, target_dimension.spec_name()),
        ],
        PearlError::InvalidMaxTntArgCount(n) => seq![("count"@, decimal(n as nat))],
        PearlError::InvalidCapBit { bit, max } => seq![
            ("bit"@, decimal(bit as nat)),
            ("max"@, decimal(max as nat)),
        ],
        PearlError::DuplicateCapBit { bit } => seq![("bit"@, decimal(bit as nat))],
        PearlError::OverlappingCapBit { bit } => seq![("bit"@, decimal(bit as nat))],
        PearlError::CodeLengthMismatch { expected, actual } => seq![
            ("expected"@, decimal(expected as nat)),
            ("actual"@, decimal(actual as nat)),
        ],
        PearlError::DirectionOutOfRange { value } => seq![("value"@, decimal(value as nat))],
        PearlError::NoExactEncoding { rb } => seq![
            ("direction"@, decimal(rb.direction as nat)),
            ("red"@, decimal(rb.num.red as nat)),
            ("blue"@, decimal(rb.num.blue as nat)),
        ],
        _ => Seq::empty(),
    }
}

fn usize_text(n: usize) -> (s: String)
    ensures
        s@ == decimal(n as nat),
{
    u64_text(n as u64)
}

fn i64_text(n: i64) -> (s: String)
    ensures
        s@ == signed_decimal(n as int),
{
    let mut s = String::new();
    crate::text::push_i64(&mut s, n);
    assert(s@ =~= signed_decimal(n as int));
    s
}

fn owned(t: &str) -> (s: String)
    ensures
        s@ == t@,
{
    t.to_owned()
}

fn message0(key: &'static str) -> (m: Message)
    ensures
        message_is(m, key@, Seq::empty()),
{
    Message { key, args: Vec::new() }
}

fn message1(key: &'static str, n1: &'static str, v1: String) -> (m: Message)
    ensures
        message_is(m, key@, seq![(n1@, v1@)]),
{
    let mut args: Vec<(&'static str, String)> = Vec::new();
    args.push((n1, v1));
    Message { key, args }
}

fn message2(key: &'static str, n1: &'static str, v1: String, n2: &'static str, v2: String) -> (m:
    Message)
    ensures
        message_is(m, key@, seq![(n1@, v1@), (n2@, v2@)]),
{
    let mut args: Vec<(&'static str, String)> = Vec::new();
    args.push((n1, v1));
    args.push((n2, v2));
    Message { key, args }
}

/// The message by which the form shows a calculator error.
pub fn core_error_message(e: &PearlError) -> (m: Message)
    ensures
        message_is(m, core_error_key(*e), core_error_args(*e)),
{
    match *e {
        PearlError::UnsupportedConfigVersion(v) => message1(
            "core-error-unsupported-config-version",
            "version",
            u64_text(v),
        ),
        PearlError::InvalidDirectionVector(v) => message2(
            "core-error-invalid-direction-vector",
            "x",
            i64_text(v[0] as i64),
            "y",
            i64_text(v[1] as i64),
        ),
        PearlError::InvalidDirectionCombination { x, y } => message2(
            "core-error-invalid-direction-combination",
            "x",
            i64_text(x),
            "y",
            i64_text(y),
        ),
        PearlError::DuplicateDirectionQuadrant { quadrant } => message1(
            "core-error-duplicate-direction-quadrant",
            "quadrant",
            usize_text(quadrant),
        ),
        PearlError::SimulationTimeZero => message0("core-error-simulation-time-zero"),
        PearlError::ToEndTimeAfterEnd { to_end_time, time } => message2(
            "core-error-to-end-time-after-end",
            "to_end_time",
            u64_text(to_end_time),
            "time",
            u64_text(time),
        ),
        PearlError::EndPortalTeleportFromEnd => message0("core-error-end-portal-teleport-from-end"),
        PearlError::Unimplemented { feature } => message1(
            "core-error-unimplemented",
            "feature",
            owned(feature),
        ),
        PearlError::UnsupportedDimension { dimension, context } => message2(
            "core-error-unsupported-dimension",
            "dimension",
            owned(dimension.name()),
            "context",
            owned(context),
        ),
        PearlError::UnsupportedCalculationDimensionTransition {
            start_dimension,
            target_dimension,
        } => message2(
            "core-error-unsupported-calculation-dimension-transition",
            "start_dimension",
            owned(start_dimension.name()),
            "target_dimension",
            owned(target_dimension.name()),
        ),
        PearlError::InvalidMaxTntArgCount(n) => message1(
            "core-error-invalid-max-tnt-arg-count",
            "count",
            usize_text(n),
        ),
        PearlError::InvalidCapBit { bit, max } => message2(
            "core-error-invalid-cap-bit",
            "bit",
            usize_text(bit),
            "max",
            usize_text(max),
        ),
        PearlError::DuplicateCapBit { bit } => message1(
            "core-error-duplicate-cap-bit",
            "bit",
            usize_text(bit),
        ),
        PearlError::OverlappingCapBit { bit } => message1(
            "core-error-overlapping-cap-bit",
            "bit",
            usize_text(bit),
        ),
        PearlError::CodeLengthMismatch { expected, actual } => message2(
            "core-error-code-length-mismatch",
            "expected",
            usize_text(expected),
            "actual",
            usize_text(actual),
        ),
        PearlError::MixedCapKinds => message0("core-error-mixed-cap-kinds"),
        PearlError::DirectionOutOfRange { value } => message1(
            "core-error-direction-out-of-range",
            "value",
            u64_text(value),
        ),
        PearlError::ValueOverflow => message0("core-error-value-overflow"),
        PearlError::NoExactEncoding { rb } => {
            let mut args: Vec<(&'static str, String)> = Vec::new();
            args.push(("direction", usize_text(rb.direction)));
            args.push(("red", u64_text(rb.num.red)));
            args.push(("blue", u64_text(rb.num.blue)));
            Message { key: "core-error-no-exact-encoding", args }
        },
    }
}

/// The key of the word for what a field should hold.
pub open spec fn parse_type_key(t: ParseType) -> Seq<char> {
    match t {
        ParseType::F64 => "parse-type-number"@,
        _ => "parse-type-integer"@,
    }
}

/// The key of the word for what a field should hold.
pub fn parse_type_message_key(t: ParseType) -> (k: &'static str)
    ensures
        k@ == parse_type_key(t),
{
    match t {
        ParseType::F64 => "parse-type-number",
        _ => "parse-type-integer",
    }
}

/// The message by which the form shows a field that does not hold what it should, given the
/// localized word for what was expected.
pub fn parse_error_message(e: &ParseError, expected: String) -> (m: Message)
    ensures
        message_is(m, "parse-error-must-be"@, seq![("field"@, e.name@), ("expected"@, expected@)]),
{
    message2("parse-error-must-be", "field", e.name.clone(), "expected", expected)
}

/// The arguments with which a refused code is localized.
pub open spec fn code_input_args(e: CodeInputError) -> Seq<(Seq<char>, Seq<char>)> {
    match e {
        CodeInputError::Empty => Seq::empty(),
        CodeInputError::InvalidChar { position, ch } => seq![
            ("position"@, decimal(position as nat)),
            ("char"@, seq![ch]),
        ],
    }
}

/// The key under which a refused code is localized.
pub open spec fn code_input_key(e: CodeInputError) -> Seq<char> {
    match e {
        CodeInputError::Empty => "error-code-empty"@,
        CodeInputError::InvalidChar { .. } => "error-code-invalid-char"@,
    }
}

/// The message by which the form shows a refused code.
pub fn code_input_message(e: CodeInputError) -> (m: Message)
    ensures
        message_is(m, code_input_key(e), code_input_args(e)),
{
    match e {
        CodeInputError::Empty => message0("error-code-empty"),
        CodeInputError::InvalidChar { position, ch } => {
            let mut c = String::new();
            append_char(&mut c, ch);
            assert(c@ =~= seq![ch]);
            message2("error-code-invalid-char", "position", usize_text(position), "char", c)
        },
    }
}

/// The key under which a config store error is localized; none for a text the form shows as it
/// is.
pub open spec fn settings_error_key(err: Seq<char>) -> Option<Seq<char>> {
    if err == "invalid file name"@ {
        Some("settings-error-invalid-file-name"@)
    } else if err == "config name cannot be empty"@ {
        Some("settings-error-empty-config-name"@)
    } else if err == "target config already exists"@ {
        Some("settings-error-target-exists"@)
    } else if err == "config directory is unavailable"@ {
        Some("config-error-store-unavailable"@)
    } else {
        None
    }
}

/// The key under which a config store error is localized, if it has one.
pub fn settings_error_message_key(err: &str) -> (k: Option<&'static str>)
    ensures
        settings_error_key(err@) matches Some(key) ==> (k matches Some(s) && s@ == key),
        settings_error_key(err@) is None ==> k is None,
{
    if same_text(err, "invalid file name") {
        Some("settings-error-invalid-file-name")
    } else if same_text(err, "config name cannot be empty") {
        Some("settings-error-empty-config-name")
    } else if same_text(err, "target config already exists") {
        Some("settings-error-target-exists")
    } else if same_text(err, "config directory is unavailable") {
        Some("config-error-store-unavailable")
    } else {
        None
    }
}

} // verus!

//! The texts by which errors are shown to users.
use vstd::prelude::*;

use crate::codec;
use crate::convert;
use crate::error::PearlError;
use crate::model::RB;
use crate::text::{append_str, decimal, push_i64, push_u64, push_usize, signed_decimal};

verus! {

/// The text for counts that have no exact code.
pub open spec fn no_encoding_text(rb: RB) -> Seq<char> {
    "cannot encode exact RB value: direction="@ + decimal(rb.direction as nat) + ", red="@
        + decimal(rb.num.red as nat) + ", blue="@ + decimal(rb.num.blue as nat)
}

/// The text for a code whose length differs from its rule's.
pub open spec fn length_text(expected: usize, actual: usize) -> Seq<char> {
    "code length mismatch: expected "@ + decimal(expected as nat) + " bits from rule, got "@
        + decimal(actual as nat)
}

/// The text for a slot number outside `1..=max`.
pub open spec fn cap_bit_text(bit: usize, max: usize) -> Seq<char> {
    "cap bit index out of range: "@ + decimal(bit as nat) + " (must be 1..="@ + decimal(max as nat)
        + ")"@
}

/// The text for a slot number given twice in one group.
pub open spec fn duplicate_bit_text(bit: usize) -> Seq<char> {
    "duplicate cap bit index in one cap group: "@ + decimal(bit as nat)
}

/// The text for a slot number found in two groups.
pub open spec fn overlap_bit_text(bit: usize) -> Seq<char> {
    "cap bit index overlaps across groups: "@ + decimal(bit as nat)
}

/// The text for a group whose slots are of more than one kind.
pub open spec fn mixed_kinds_text() -> Seq<char> {
    "all bits in one cap group must have the same type"@
}

/// The text for a direction index above 3.
pub open spec fn direction_range_text(value: u64) -> Seq<char> {
    "direction value out of range: "@ + decimal(value as nat) + " (must be 0..=3)"@
}

/// The text for counts that do not fit in 64 bits.
pub open spec fn overflow_text() -> Seq<char> {
    "numeric overflow while accumulating code counts"@
}

/// How the codec shows an error.
pub open spec fn codec_text(e: codec::ConvertError) -> Seq<char> {
    match e {
        codec::ConvertError::CodeLengthMismatch { expected, actual } => length_text(expected, actual),
        codec::ConvertError::InvalidCapBit { bit, max } => cap_bit_text(bit, max),
        codec::ConvertError::DuplicateCapBit { bit } => duplicate_bit_text(bit),
        codec::ConvertError::OverlappingCapBit { bit } => overlap_bit_text(bit),
        codec::ConvertError::MixedCapKinds => mixed_kinds_text(),
        codec::ConvertError::DirectionOutOfRange { value } => direction_range_text(value),
        codec::ConvertError::ValueOverflow => overflow_text(),
        codec::ConvertError::NoExactEncoding { rb } => no_encoding_text(rb),
    }
}

/// How the normalizing converter shows an error.
pub open spec fn convert_text(e: convert::ConvertError) -> Seq<char> {
    match e {
        convert::ConvertError::CodeLengthMismatch { expected, actual } => length_text(
            expected,
            actual,
        ),
        convert::ConvertError::InvalidCapBit { bit, max } => cap_bit_text(bit, max),
        convert::ConvertError::DuplicateCapBit { bit } => duplicate_bit_text(bit),
        convert::ConvertError::DirectionOutOfRange { value } => direction_range_text(value),
        convert::ConvertError::ValueOverflow => overflow_text(),
        convert::ConvertError::NoExactEncoding { rb } => no_encoding_text(rb),
    }
}

/// How the calculator shows an error.
pub open spec fn pearl_text(e: PearlError) -> Seq<char> {
    match e {
        PearlError::UnsupportedConfigVersion(v) => "unsupported config version: "@ + decimal(
            v as nat,
        ),
        PearlError::InvalidDirectionVector(v) => "invalid direction vector: ["@ + signed_decimal(
            v[0] as int,
        ) + ", "@ + signed_decimal(v[1] as int) + "]"@,
        PearlError::InvalidDirectionCombination { x, y } => "invalid direction combination sum: ("@
            + signed_decimal(x as int) + ", "@ + signed_decimal(y as int) + ")"@,
        PearlError::DuplicateDirectionQuadrant { quadrant } => "duplicate direction quadrant: "@
            + decimal(quadrant as nat),
        PearlError::SimulationTimeZero => "simulation time must be greater than 0"@,
        PearlError::ToEndTimeAfterEnd { to_end_time, time } => "to_end_time ("@ + decimal(
            to_end_time as nat,
        ) + ") cannot be greater than total time ("@ + decimal(time as nat) + ")"@,
        PearlError::EndPortalTeleportFromEnd =>
            "cannot trigger end-portal teleport when already in End"@,
        PearlError::Unimplemented { feature } => "unimplemented feature: "@ + feature@,
        PearlError::UnsupportedDimension { dimension, context } => "unsupported dimension "@
            + dimension.spec_name() + " in "@ + context@,
        PearlError::UnsupportedCalculationDimensionTransition {
            start_dimension,
            target_dimension,
        } => "unsupported calculation dimension transition: "@ + start_dimension.spec_name()
            + " -> "@ + target_dimension.spec_name(),
        PearlError::InvalidMaxTntArgCount(n) => "invalid --max-tnt argument count: "@ + decimal(
            n as nat,
        ) + " (expected 0..=2)"@,
        PearlError::InvalidCapBit { bit, max } => cap_bit_text(bit, max),
        PearlError::DuplicateCapBit { bit } => duplicate_bit_text(bit),
        PearlError::OverlappingCapBit { bit } => overlap_bit_text(bit),
        PearlError::CodeLengthMismatch { expected, actual } => length_text(expected, actual),
        PearlError::MixedCapKinds => mixed_kinds_text(),
        PearlError::DirectionOutOfRange { value } => direction_range_text(value),
        PearlError::ValueOverflow => overflow_text(),
        PearlError::NoExactEncoding { rb } => no_encoding_text(rb),
    }
}

fn no_encoding_message(rb: RB) -> (s: String)
    ensures
        s@ == no_encoding_text(rb),
{
    let mut s = "cannot encode exact RB value: direction=".to_owned();
    push_usize(&mut s, rb.direction);
    append_str(&mut s, ", red=");
    push_u64(&mut s, rb.num.red);
    append_str(&mut s, ", blue=");
    push_u64(&mut s, rb.num.blue);
    s
}

fn length_message(expected: usize, actual: usize) -> (s: String)
    ensures
        s@ == length_text(expected, actual),
{
    let mut s = "code length mismatch: expected ".to_owned();
    push_usize(&mut s, expected);
    append_str(&mut s, " bits from rule, got ");
    push_usize(&mut s, actual);
    s
}

fn cap_bit_message(bit: usize, max: usize) -> (s: String)
    ensures
        s@ == cap_bit_text(bit, max),
{
    let mut s = "cap bit index out of range: ".to_owned();
    push_usize(&mut s, bit);
    append_str(&mut s, " (must be 1..=");
    push_usize(&mut s, max);
    append_str(&mut s, ")");
    s
}

fn duplicate_bit_message(bit: usize) -> (s: String)
    ensures
        s@ == duplicate_bit_text(bit),
{
    let mut s = "duplicate cap bit index in one cap group: ".to_owned();
    push_usize(&mut s, bit);
    s
}

fn overlap_bit_message(bit: usize) -> (s: String)
    ensures
        s@ == overlap_bit_text(bit),
{
    let mut s = "cap bit index overlaps across groups: ".to_owned();
    push_usize(&mut s, bit);
    s
}

fn direction_range_message(value: u64) -> (s: String)
    ensures
        s@ == direction_range_text(value),
{
    let mut s = "direction value out of range: ".to_owned();
    push_u64(&mut s, value);
    append_str(&mut s, " (must be 0..=3)");
    s
}

impl codec::ConvertError {
    /// The text by which the error is shown.
    pub fn message(&self) -> (s: String)
        ensures
            s@ == codec_text(*self),
    {
        match *self {
            codec::ConvertError::CodeLengthMismatch { expected, actual } => length_message(
                expected,
                actual,
            ),
            codec::ConvertError::InvalidCapBit { bit, max } => cap_bit_message(bit, max),
            codec::ConvertError::DuplicateCapBit { bit } => duplicate_bit_message(bit),
            codec::ConvertError::OverlappingCapBit { bit } => overlap_bit_message(bit),
            codec::ConvertError::MixedCapKinds => "all bits in one cap group must have the same type".to_owned(),
            codec::ConvertError::DirectionOutOfRange { value } => direction_range_message(value),
            codec::ConvertError::ValueOverflow => "numeric overflow while accumulating code counts".to_owned(),
            codec::ConvertError::NoExactEncoding { rb } => no_encoding_message(rb),
        }
    }
}

impl convert::ConvertError {
    /// The text by which the error is shown.
    pub fn message(&self) -> (s: String)
        ensures
            s@ == convert_text(*self),
    {
        match *self {
            convert::ConvertError::CodeLengthMismatch { expected, actual } => length_message(
                expected,
                actual,
            ),
            convert::ConvertError::InvalidCapBit { bit, max } => cap_bit_message(bit, max),
            convert::ConvertError::DuplicateCapBit { bit } => duplicate_bit_message(bit),
            convert::ConvertError::DirectionOutOfRange { value } => direction_range_message(value),
            convert::ConvertError::ValueOverflow => "numeric overflow while accumulating code counts".to_owned(),
            convert::ConvertError::NoExactEncoding { rb } => no_encoding_message(rb),
        }
    }
}

impl PearlError {
    /// The text by which the error is shown.
    pub fn message(&self) -> (s: String)
        ensures
            s@ == pearl_text(*self),
    {
        match *self {
            PearlError::UnsupportedConfigVersion(v) => {
                let mut s = "unsupported config version: ".to_owned();
                push_u64(&mut s, v);
                s
            },
            PearlError::InvalidDirectionVector(v) => {
                let mut s = "invalid direction vector: [".to_owned();
                push_i64(&mut s, v[0] as i64);
                append_str(&mut s, ", ");
                push_i64(&mut s, v[1] as i64);
                append_str(&mut s, "]");
                s
            },
            PearlError::InvalidDirectionCombination { x, y } => {
                let mut s = "invalid direction combination sum: (".to_owned();
                push_i64(&mut s, x);
                append_str(&mut s, ", ");
                push_i64(&mut s, y);
                append_str(&mut s, ")");
                s
            },
            PearlError::DuplicateDirectionQuadrant { quadrant } => {
                let mut s = "duplicate direction quadrant: ".to_owned();
                push_usize(&mut s, quadrant);
                s
            },
            PearlError::SimulationTimeZero => "simulation time must be greater than 0".to_owned(),
            PearlError::ToEndTimeAfterEnd { to_end_time, time } => {
                let mut s = "to_end_time (".to_owned();
                push_u64(&mut s, to_end_time);
                append_str(&mut s, ") cannot be greater than total time (");
                push_u64(&mut s, time);
                append_str(&mut s, ")");
                s
            },
            PearlError::EndPortalTeleportFromEnd => "cannot trigger end-portal teleport when already in End".to_owned(),
            PearlError::Unimplemented { feature } => {
                let mut s = "unimplemented feature: ".to_owned();
                append_str(&mut s, feature);
                s
            },
            PearlError::UnsupportedDimension { dimension, context } => {
                let mut s = "unsupported dimension ".to_owned();
                append_str(&mut s, dimension.name());
                append_str(&mut s, " in ");
                append_str(&mut s, context);
                s
            },
            PearlError::UnsupportedCalculationDimensionTransition {
                start_dimension,
                target_dimension,
            } => {
                let mut s = "unsupported calculation dimension transition: ".to_owned();
                append_str(&mut s, start_dimension.name());
                append_str(&mut s, " -> ");
                append_str(&mut s, target_dimension.name());
                s
            },
            PearlError::InvalidMaxTntArgCount(n) => {
                let mut s = "invalid --max-tnt argument count: ".to_owned();
                push_usize(&mut s, n);
                append_str(&mut s, " (expected 0..=2)");
                s
            },
            PearlError::InvalidCapBit { bit, max } => cap_bit_message(bit, max),
            PearlError::DuplicateCapBit { bit } => duplicate_bit_message(bit),
            PearlError::OverlappingCapBit { bit } => overlap_bit_message(bit),
            PearlError::CodeLengthMismatch { expected, actual } => length_message(expected, actual),
            PearlError::MixedCapKinds => "all bits in one cap group must have the same type".to_owned(),
            PearlError::DirectionOutOfRange { value } => direction_range_message(value),
            PearlError::ValueOverflow => "numeric overflow while accumulating code counts".to_owned(),
            PearlError::NoExactEncoding { rb } => no_encoding_message(rb),
        }
    }
}

} // verus!

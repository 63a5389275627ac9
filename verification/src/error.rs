use vstd::prelude::*;

use crate::codec::ConvertError;
use crate::model::{Dimension, RB};

verus! {

/// Everything that can go wrong in the calculator.
#[derive(Debug, Clone, Copy)]
pub enum PearlError {
    UnsupportedConfigVersion(u64),
    InvalidDirectionVector([i8; 2]),
    InvalidDirectionCombination { x: i64, y: i64 },
    DuplicateDirectionQuadrant { quadrant: usize },
    SimulationTimeZero,
    ToEndTimeAfterEnd { to_end_time: u64, time: u64 },
    EndPortalTeleportFromEnd,
    Unimplemented { feature: &'static str },
    UnsupportedDimension { dimension: Dimension, context: &'static str },
    UnsupportedCalculationDimensionTransition { start_dimension: Dimension, target_dimension: Dimension },
    InvalidMaxTntArgCount(usize),
    InvalidCapBit { bit: usize, max: usize },
    DuplicateCapBit { bit: usize },
    OverlappingCapBit { bit: usize },
    CodeLengthMismatch { expected: usize, actual: usize },
    MixedCapKinds,
    DirectionOutOfRange { value: u64 },
    ValueOverflow,
    NoExactEncoding { rb: RB },
}

/// The calculator error that reports a codec error.
pub open spec fn pearl_from_convert(e: ConvertError) -> PearlError {
    match e {
        ConvertError::CodeLengthMismatch { expected, actual } => PearlError::CodeLengthMismatch {
            expected,
            actual,
        },
        ConvertError::InvalidCapBit { bit, max } => PearlError::InvalidCapBit { bit, max },
        ConvertError::DuplicateCapBit { bit } => PearlError::DuplicateCapBit { bit },
        ConvertError::OverlappingCapBit { bit } => PearlError::OverlappingCapBit { bit },
        ConvertError::MixedCapKinds => PearlError::MixedCapKinds,
        ConvertError::DirectionOutOfRange { value } => PearlError::DirectionOutOfRange { value },
        ConvertError::ValueOverflow => PearlError::ValueOverflow,
        ConvertError::NoExactEncoding { rb } => PearlError::NoExactEncoding { rb },
    }
}

impl PearlError {
    /// The calculator error that reports a codec error.
    pub fn from_convert(e: ConvertError) -> (r: PearlError)
        ensures
            r == pearl_from_convert(e),
    {
        match e {
            ConvertError::CodeLengthMismatch { expected, actual } => PearlError::CodeLengthMismatch {
                expected,
                actual,
            },
            ConvertError::InvalidCapBit { bit, max } => PearlError::InvalidCapBit { bit, max },
            ConvertError::DuplicateCapBit { bit } => PearlError::DuplicateCapBit { bit },
            ConvertError::OverlappingCapBit { bit } => PearlError::OverlappingCapBit { bit },
            ConvertError::MixedCapKinds => PearlError::MixedCapKinds,
            ConvertError::DirectionOutOfRange { value } => PearlError::DirectionOutOfRange { value },
            ConvertError::ValueOverflow => PearlError::ValueOverflow,
            ConvertError::NoExactEncoding { rb } => PearlError::NoExactEncoding { rb },
        }
    }
}

} // verus!

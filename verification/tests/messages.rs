use pearl_calculator::{codec, convert, Dimension, PearlError, TNTNumRB, RB};

#[test]
fn calculator_error_texts() {
    let rb = RB { num: TNTNumRB { red: 10881, blue: 3 }, direction: 1 };
    let cases: Vec<(PearlError, &str)> = vec![
        (PearlError::UnsupportedConfigVersion(3), "unsupported config version: 3"),
        (PearlError::InvalidDirectionVector([1, -2]), "invalid direction vector: [1, -2]"),
        (
            PearlError::InvalidDirectionCombination { x: 0, y: -2 },
            "invalid direction combination sum: (0, -2)",
        ),
        (PearlError::DuplicateDirectionQuadrant { quadrant: 2 }, "duplicate direction quadrant: 2"),
        (PearlError::SimulationTimeZero, "simulation time must be greater than 0"),
        (
            PearlError::ToEndTimeAfterEnd { to_end_time: 9, time: 5 },
            "to_end_time (9) cannot be greater than total time (5)",
        ),
        (
            PearlError::EndPortalTeleportFromEnd,
            "cannot trigger end-portal teleport when already in End",
        ),
        (PearlError::Unimplemented { feature: "x" }, "unimplemented feature: x"),
        (
            PearlError::UnsupportedDimension { dimension: Dimension::Overworld, context: "simulation" },
            "unsupported dimension Overworld in simulation",
        ),
        (
            PearlError::UnsupportedCalculationDimensionTransition {
                start_dimension: Dimension::End,
                target_dimension: Dimension::Nether,
            },
            "unsupported calculation dimension transition: End -> Nether",
        ),
        (PearlError::InvalidMaxTntArgCount(4), "invalid --max-tnt argument count: 4 (expected 0..=2)"),
        (PearlError::InvalidCapBit { bit: 40, max: 32 }, "cap bit index out of range: 40 (must be 1..=32)"),
        (PearlError::DuplicateCapBit { bit: 3 }, "duplicate cap bit index in one cap group: 3"),
        (PearlError::OverlappingCapBit { bit: 12 }, "cap bit index overlaps across groups: 12"),
        (
            PearlError::CodeLengthMismatch { expected: 32, actual: 31 },
            "code length mismatch: expected 32 bits from rule, got 31",
        ),
        (PearlError::MixedCapKinds, "all bits in one cap group must have the same type"),
        (PearlError::DirectionOutOfRange { value: 4 }, "direction value out of range: 4 (must be 0..=3)"),
        (PearlError::ValueOverflow, "numeric overflow while accumulating code counts"),
        (
            PearlError::NoExactEncoding { rb },
            "cannot encode exact RB value: direction=1, red=10881, blue=3",
        ),
    ];
    for (err, text) in cases {
        assert_eq!(err.message(), text);
    }
}

#[test]
fn codec_error_texts() {
    assert_eq!(
        codec::ConvertError::CodeLengthMismatch { expected: 32, actual: 31 }.message(),
        "code length mismatch: expected 32 bits from rule, got 31"
    );
    assert_eq!(
        codec::ConvertError::OverlappingCapBit { bit: 16 }.message(),
        "cap bit index overlaps across groups: 16"
    );
    assert_eq!(
        codec::ConvertError::MixedCapKinds.message(),
        "all bits in one cap group must have the same type"
    );
    assert_eq!(
        codec::ConvertError::DirectionOutOfRange { value: 9 }.message(),
        "direction value out of range: 9 (must be 0..=3)"
    );
}

#[test]
fn converter_error_texts() {
    assert_eq!(
        convert::ConvertError::InvalidCapBit { bit: 0, max: 32 }.message(),
        "cap bit index out of range: 0 (must be 1..=32)"
    );
    assert_eq!(
        convert::ConvertError::DuplicateCapBit { bit: 5 }.message(),
        "duplicate cap bit index in one cap group: 5"
    );
    assert_eq!(
        convert::ConvertError::ValueOverflow.message(),
        "numeric overflow while accumulating code counts"
    );
    let rb = RB { num: TNTNumRB { red: 0, blue: 7 }, direction: 0 };
    assert_eq!(
        convert::ConvertError::NoExactEncoding { rb }.message(),
        "cannot encode exact RB value: direction=0, red=0, blue=7"
    );
}

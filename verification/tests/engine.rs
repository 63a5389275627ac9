use pearl_calculator::basis::{num_to_rb, rb_to_num, Mat2, Vec2};
use pearl_calculator::motion::{calculation_mode, CalculationMode};
use pearl_calculator::{Dimension, PearlError};

#[test]
fn calculation_mode_supports_expected_transitions() {
    assert!(matches!(
        calculation_mode(Dimension::Nether, Dimension::Nether),
        Ok(CalculationMode::Direct)
    ));
    assert!(matches!(
        calculation_mode(Dimension::Nether, Dimension::End),
        Ok(CalculationMode::NetherToEnd)
    ));
    assert!(matches!(
        calculation_mode(Dimension::End, Dimension::End),
        Ok(CalculationMode::Direct)
    ));
}

#[test]
fn calculation_mode_rejects_unsupported_transitions() {
    assert!(matches!(
        calculation_mode(Dimension::End, Dimension::Nether),
        Err(PearlError::UnsupportedCalculationDimensionTransition {
            start_dimension: Dimension::End,
            target_dimension: Dimension::Nether,
        })
    ));
    assert!(matches!(
        calculation_mode(Dimension::Overworld, Dimension::Nether),
        Err(PearlError::UnsupportedCalculationDimensionTransition {
            start_dimension: Dimension::Overworld,
            target_dimension: Dimension::Nether,
        })
    ));
}

#[test]
fn num_rb_test() {
    let directions = [
        Mat2::from_columns(Vec2 { x: 1, y: 0 }, Vec2 { x: 0, y: 1 }),
        Mat2::from_columns(Vec2 { x: -1, y: 0 }, Vec2 { x: 0, y: 1 }),
        Mat2::from_columns(Vec2 { x: 0, y: -1 }, Vec2 { x: -1, y: 0 }),
        Mat2::from_columns(Vec2 { x: 0, y: -1 }, Vec2 { x: 1, y: 0 }),
    ];

    for x in -100..=100 {
        for y in -100..=100 {
            let num = Vec2 { x, y };
            let rb = num_to_rb(num, directions);
            assert!(rb.count.x >= 0);
            assert!(rb.count.y >= 0);
            assert_eq!(rb_to_num(rb, directions), num);
        }
    }
}

use pearl_calculator::direction::match_direction;
use pearl_calculator::motion::{
    calculation_windows, check_simulation_times, teleport_at, tick_move, Teleport, TickMove,
};
use pearl_calculator::{
    check_config, CodeCaps, CodeExtra, CodeItem, CodeRule, Direction, Directions, TNTNum, TNTNumRB,
    Time, RB,
};

fn directions() -> Directions {
    Directions([
        Direction { red: [1, 1], blue: [1, -1] },
        Direction { red: [1, 1], blue: [-1, 1] },
        Direction { red: [-1, -1], blue: [1, -1] },
        Direction { red: [-1, -1], blue: [-1, 1] },
    ])
}

#[test]
fn direction_entries() {
    assert!(matches!(match_direction([1, 1]), Ok((1, 0))));
    assert!(matches!(match_direction([-1, -1]), Ok((-1, 0))));
    assert!(matches!(match_direction([1, -1]), Ok((0, 1))));
    assert!(matches!(match_direction([-1, 1]), Ok((0, -1))));
    assert!(matches!(
        match_direction([0, 1]),
        Err(PearlError::InvalidDirectionVector([0, 1]))
    ));
}

#[test]
fn directions_resolve_by_quadrant() {
    let mut ds = directions();
    assert_eq!(ds.resolve().unwrap(), [0, 1, 2, 3]);
    ds.0.swap(0, 3);
    assert_eq!(ds.resolve().unwrap(), [3, 1, 2, 0]);

    let same = Directions([directions().0[0]; 4]);
    assert!(matches!(
        same.resolve(),
        Err(PearlError::DuplicateDirectionQuadrant { quadrant: 0 })
    ));
    let mut bad = directions();
    bad.0[2] = Direction { red: [1, 1], blue: [-1, -1] };
    assert!(matches!(
        bad.resolve(),
        Err(PearlError::InvalidDirectionCombination { x: 0, y: 0 })
    ));
    bad.0[1] = Direction { red: [0, 1], blue: [1, -1] };
    assert!(matches!(
        bad.resolve(),
        Err(PearlError::InvalidDirectionVector([0, 1]))
    ));
}

#[test]
fn counts_round_trip_through_directions() {
    let ds = directions();
    let rb = RB::from_num(TNTNum { x: 3, y: 5 }, ds).unwrap();
    assert_eq!(rb, RB { num: TNTNumRB { red: 3, blue: 5 }, direction: 0 });
    for x in -20..=20 {
        for y in -20..=20 {
            let num = TNTNum { x, y };
            let rb = RB::from_num(num, ds).unwrap();
            assert_eq!(rb.to_num(ds).unwrap(), num);
        }
    }
    let far = RB { num: TNTNumRB { red: 1, blue: 1 }, direction: 4 };
    assert!(matches!(
        far.to_num(ds),
        Err(PearlError::DirectionOutOfRange { value: 4 })
    ));
}

#[test]
fn config_checks_directions_then_caps() {
    let rule = CodeRule {
        default: vec![CodeItem::Red { count: 1 }, CodeItem::Blue { count: 2 }],
        extra: CodeExtra {
            caps: vec![
                CodeCaps { bits: vec![1, 2], cap: 3 },
                CodeCaps { bits: vec![2], cap: 1 },
            ],
        },
    };
    assert!(matches!(
        check_config(directions(), &rule),
        Err(PearlError::OverlappingCapBit { bit: 2 })
    ));
    let mut ok_rule = rule.clone();
    ok_rule.extra.caps.pop();
    assert!(check_config(directions(), &ok_rule).is_ok());
    let same = Directions([directions().0[1]; 4]);
    assert!(matches!(
        check_config(same, &ok_rule),
        Err(PearlError::DuplicateDirectionQuadrant { quadrant: 1 })
    ));
    let bad_bit = CodeRule {
        default: ok_rule.default.clone(),
        extra: CodeExtra { caps: vec![CodeCaps { bits: vec![3], cap: 1 }] },
    };
    assert!(matches!(
        bad_bit.check(),
        Err(PearlError::InvalidCapBit { bit: 3, max: 2 })
    ));
}

#[test]
fn simulation_times() {
    assert!(check_simulation_times(Time(5), None).is_ok());
    assert!(check_simulation_times(Time(5), Some(Time(5))).is_ok());
    assert!(matches!(
        check_simulation_times(Time(5), Some(Time(6))),
        Err(PearlError::ToEndTimeAfterEnd { to_end_time: 6, time: 5 })
    ));
    assert!(matches!(
        check_simulation_times(Time(0), None),
        Err(PearlError::SimulationTimeZero)
    ));
}

#[test]
fn ticks_and_teleports() {
    assert_eq!(teleport_at(0, 1), Teleport::EndPortal);
    assert_eq!(teleport_at(1, 1), Teleport::Stay);
    assert_eq!(teleport_at(4, 0), Teleport::Stay);
    assert_eq!(tick_move(Dimension::Nether, Teleport::Stay).unwrap(), TickMove::Move);
    assert_eq!(tick_move(Dimension::Nether, Teleport::EndPortal).unwrap(), TickMove::EnterEnd);
    assert!(matches!(
        tick_move(Dimension::End, Teleport::EndPortal),
        Err(PearlError::EndPortalTeleportFromEnd)
    ));
    assert!(matches!(
        tick_move(Dimension::Nether, Teleport::NetherPortal),
        Err(PearlError::Unimplemented { .. })
    ));
}

#[test]
fn flight_windows() {
    let w = calculation_windows(CalculationMode::Direct, Time(0), Time(3));
    let pairs: Vec<(u64, u64, Option<u64>)> =
        w.iter().map(|w| (w.start_time, w.end_time, w.to_end_time.map(|t| t.0))).collect();
    assert_eq!(pairs, vec![(0, 1, None), (0, 2, None), (0, 3, None)]);

    let w = calculation_windows(CalculationMode::Direct, Time(2), Time(3));
    assert_eq!(w.len(), 2);
    assert_eq!(w[0].end_time, 2);

    let w = calculation_windows(CalculationMode::NetherToEnd, Time(0), Time(3));
    let pairs: Vec<(u64, u64, Option<u64>)> =
        w.iter().map(|w| (w.start_time, w.end_time, w.to_end_time.map(|t| t.0))).collect();
    assert_eq!(pairs, vec![(0, 2, Some(1)), (0, 3, Some(1)), (1, 3, Some(2))]);
}

#[test]
fn times_and_counts() {
    let r: Vec<u64> = Time::range(Time(3), Time(6)).iter().map(|t| t.0).collect();
    assert_eq!(r, vec![3, 4, 5]);
    assert!(Time::range(Time(6), Time(3)).is_empty());
    assert_eq!(Time(4).add(3).0, 7);
    assert_eq!(TNTNum { x: 3, y: -5 }.tnt_count(), (-2, 8, 8));
    let max = TNTNumRB { red: 10, blue: 5 };
    assert!(TNTNumRB { red: 10, blue: 5 }.is_available(max));
    assert!(!TNTNumRB { red: 11, blue: 0 }.is_available(max));
    assert!(RB { num: TNTNumRB { red: 1, blue: 5 }, direction: 0 }.is_available(max));
    assert_eq!(Dimension::default(), Dimension::Nether);
    assert_eq!(Dimension::Nether.name(), "Nether");
    assert_eq!(Dimension::End.code(), 1);
    assert_eq!(Dimension::from_code(-1), Some(Dimension::Nether));
    assert_eq!(Dimension::from_code(2), None);
}

#[test]
fn every_window_passes_the_time_check() {
    for mode in [CalculationMode::Direct, CalculationMode::NetherToEnd] {
        for (min, max) in [(0u64, 0u64), (0, 5), (3, 7), (9, 4)] {
            for w in calculation_windows(mode, Time(min), Time(max)) {
                assert!(w.start_time < w.end_time);
                assert!(min <= w.end_time && w.end_time <= max);
                assert!(check_simulation_times(Time(w.end_time), w.to_end_time).is_ok());
            }
        }
    }
}

use pearl_calculator::motion::tick_plan;

#[test]
fn tick_plans() {
    let plan = tick_plan(Dimension::Nether, Time(4), Some(Time(2))).unwrap();
    assert_eq!(plan, vec![TickMove::Move, TickMove::EnterEnd, TickMove::Move, TickMove::Move]);
    let plan = tick_plan(Dimension::End, Time(3), None).unwrap();
    assert_eq!(plan, vec![TickMove::Move; 3]);
    let plan = tick_plan(Dimension::End, Time(3), Some(Time(0))).unwrap();
    assert_eq!(plan, vec![TickMove::Move; 3]);
    assert!(matches!(
        tick_plan(Dimension::End, Time(3), Some(Time(1))),
        Err(PearlError::EndPortalTeleportFromEnd)
    ));
    assert!(matches!(
        tick_plan(Dimension::End, Time(0), Some(Time(1))),
        Err(PearlError::ToEndTimeAfterEnd { to_end_time: 1, time: 0 })
    ));
    assert!(matches!(
        tick_plan(Dimension::Nether, Time(0), None),
        Err(PearlError::SimulationTimeZero)
    ));
}

//! The decisions of the pearl engine: which transitions between dimensions a calculation
//! supports, when a simulation teleports, which flight times a calculation tries, and how many
//! TNT of each axis a count pushes with.
use vstd::prelude::*;

use crate::error::PearlError;
use crate::model::{Dimension, TNTNum, Time};

verus! {

/// How a calculation reaches its target dimension.
#[derive(Debug, Clone, Copy, PartialEq, Eq, Structural)]
pub enum CalculationMode {
    Direct,
    NetherToEnd,
}

/// What a calculation from `start` to `target` does, or the error for an unsupported transition.
pub open spec fn spec_calculation_mode(start: Dimension, target: Dimension) -> Result<CalculationMode, PearlError> {
    if (start == Dimension::Nether && target == Dimension::Nether) || (start == Dimension::End
        && target == Dimension::End) {
        Ok(CalculationMode::Direct)
    } else if start == Dimension::Nether && target == Dimension::End {
        Ok(CalculationMode::NetherToEnd)
    } else {
        Err(
            PearlError::UnsupportedCalculationDimensionTransition {
                start_dimension: start,
                target_dimension: target,
            },
        )
    }
}

/// How a calculation from `start` to `target` proceeds: directly within the Nether or the End,
/// or from the Nether through an end portal.
pub fn calculation_mode(start: Dimension, target: Dimension) -> (res: Result<CalculationMode, PearlError>)
    ensures
        res == spec_calculation_mode(start, target),
        start == Dimension::Nether && target == Dimension::Nether ==> res == Ok::<
            CalculationMode,
            PearlError,
        >(CalculationMode::Direct),
        start == Dimension::End && target == Dimension::End ==> res == Ok::<
            CalculationMode,
            PearlError,
        >(CalculationMode::Direct),
        start == Dimension::Nether && target == Dimension::End ==> res == Ok::<
            CalculationMode,
            PearlError,
        >(CalculationMode::NetherToEnd),
        !((start == Dimension::Nether && target == Dimension::Nether) || (start == Dimension::End
            && target == Dimension::End) || (start == Dimension::Nether && target == Dimension::End))
            ==> res == Err::<CalculationMode, PearlError>(
            PearlError::UnsupportedCalculationDimensionTransition {
                start_dimension: start,
                target_dimension: target,
            },
        ),
{
    match (start, target) {
        (Dimension::Nether, Dimension::Nether) | (Dimension::End, Dimension::End) => Ok(
            CalculationMode::Direct,
        ),
        (Dimension::Nether, Dimension::End) => Ok(CalculationMode::NetherToEnd),
        (start_dimension, target_dimension) => Err(
            PearlError::UnsupportedCalculationDimensionTransition { start_dimension, target_dimension },
        ),
    }
}

/// Checks the times of a simulation: the end-portal tick (0 when there is none) may not come
/// after the end, and the simulation must last at least one tick.
pub fn check_simulation_times(time: Time, to_end_time: Option<Time>) -> (res: Result<(), PearlError>)
    ensures
        ({
            let t = match to_end_time {
                Some(t) => t.0,
                None => 0,
            };
            &&& t > time.0 ==> res == Err::<(), PearlError>(
                PearlError::ToEndTimeAfterEnd { to_end_time: t, time: time.0 },
            )
            &&& t <= time.0 && time.0 == 0 ==> res == Err::<(), PearlError>(PearlError::SimulationTimeZero)
            &&& t <= time.0 && time.0 != 0 ==> res is Ok
        }),
        res is Ok <==> times_accepted(time.0, to_end_time),
{
    let t = match to_end_time {
        Some(t) => t.0,
        None => 0,
    };
    if t > time.0 {
        return Err(PearlError::ToEndTimeAfterEnd { to_end_time: t, time: time.0 });
    }
    if time.0 == 0 {
        return Err(PearlError::SimulationTimeZero);
    }
    Ok(())
}

/// A teleport that a tick of a pearl may go through.
#[derive(Debug, Clone, Copy, PartialEq, Eq, Structural)]
pub enum Teleport {
    Stay,
    NetherPortal,
    EndPortal,
}

/// The teleport at tick `tick` (counted from 0) of a simulation whose end-portal tick is
/// `to_end_time` (0 for none): the end portal is entered on the tick that ends at that time.
pub fn teleport_at(tick: u64, to_end_time: u64) -> (t: Teleport)
    requires
        tick < u64::MAX,
    ensures
        t == if tick + 1 == to_end_time {
            Teleport::EndPortal
        } else {
            Teleport::Stay
        },
{
    if tick + 1 == to_end_time {
        Teleport::EndPortal
    } else {
        Teleport::Stay
    }
}

/// What a tick does with a pearl's position after its motion is updated.
#[derive(Debug, Clone, Copy, PartialEq, Eq, Structural)]
pub enum TickMove {
    /// The pearl moves by its motion.
    Move,
    /// The pearl's motion is turned to the End's spawn yaw and it appears at the End's spawn.
    EnterEnd,
}

/// What a tick of a pearl in `dimension` does under a teleport, or why it cannot.
pub fn tick_move(dimension: Dimension, teleport: Teleport) -> (res: Result<TickMove, PearlError>)
    ensures
        teleport == Teleport::Stay ==> res == Ok::<TickMove, PearlError>(TickMove::Move),
        teleport == Teleport::EndPortal && dimension == Dimension::End ==> res == Err::<
            TickMove,
            PearlError,
        >(PearlError::EndPortalTeleportFromEnd),
        teleport == Teleport::EndPortal && dimension != Dimension::End ==> res == Ok::<
            TickMove,
            PearlError,
        >(TickMove::EnterEnd),
        teleport == Teleport::NetherPortal ==> (res matches Err(PearlError::Unimplemented { feature })
            && feature@ == "nether-portal teleport in Pearl::tick"@),
{
    match teleport {
        Teleport::Stay => Ok(TickMove::Move),
        Teleport::EndPortal => match dimension {
            Dimension::End => Err(PearlError::EndPortalTeleportFromEnd),
            _ => Ok(TickMove::EnterEnd),
        },
        Teleport::NetherPortal => Err(
            PearlError::Unimplemented { feature: "nether-portal teleport in Pearl::tick" },
        ),
    }
}

/// The tick (counted from 1) at which a simulation enters the end portal; 0 for none.
pub open spec fn end_tick(to_end_time: Option<Time>) -> int {
    match to_end_time {
        Some(t) => t.0 as int,
        None => 0,
    }
}

/// Why a simulation of `time` ticks of a pearl starting in `dimension`, entering the end portal at
/// `to_end_time`, stops, if it does: the two time checks first, then an end portal entered from
/// the End.
pub open spec fn plan_error(dimension: Dimension, time: Time, to_end_time: Option<Time>) -> Option<PearlError> {
    let t = end_tick(to_end_time);
    if t > time.0 {
        Some(PearlError::ToEndTimeAfterEnd { to_end_time: t as u64, time: time.0 })
    } else if time.0 == 0 {
        Some(PearlError::SimulationTimeZero)
    } else if dimension == Dimension::End && t >= 1 {
        Some(PearlError::EndPortalTeleportFromEnd)
    } else {
        None
    }
}

/// What each tick of a simulation does with the pearl: `time` moves, the one ending at the
/// end-portal tick entering the End and every other one moving the pearl by its motion; or why
/// the simulation stops.
pub fn tick_plan(dimension: Dimension, time: Time, to_end_time: Option<Time>) -> (res: Result<
    Vec<TickMove>,
    PearlError,
>)
    ensures
        plan_error(dimension, time, to_end_time) matches Some(e) ==> res == Err::<
            Vec<TickMove>,
            PearlError,
        >(e),
        plan_error(dimension, time, to_end_time) is None ==> (res matches Ok(moves) && moves@.len()
            == time.0 && forall|i: int|
            0 <= i < time.0 ==> #[trigger] moves@[i] == if i + 1 == end_tick(to_end_time) {
                TickMove::EnterEnd
            } else {
                TickMove::Move
            }),
{
    check_simulation_times(time, to_end_time)?;
    let t = match to_end_time {
        Some(t) => t.0,
        None => 0,
    };
    let mut current = dimension;
    let mut moves: Vec<TickMove> = Vec::new();
    let mut tick: u64 = 0;
    while tick < time.0
        invariant
            t == end_tick(to_end_time),
            t <= time.0,
            time.0 != 0,
            tick <= time.0,
            moves@.len() == tick,
            tick < t ==> current == dimension,
            dimension == Dimension::End && t >= 1 ==> tick < t,
            forall|i: int|
                0 <= i < tick ==> #[trigger] moves@[i] == if i + 1 == t {
                    TickMove::EnterEnd
                } else {
                    TickMove::Move
                },
        decreases time.0 - tick,
    {
        let teleport = teleport_at(tick, t);
        let step = tick_move(current, teleport)?;
        if step == TickMove::EnterEnd {
            current = Dimension::End;
        }
        moves.push(step);
        tick = tick + 1;
    }
    Ok(moves)
}

/// A pair of flight times that a calculation tries: the pearl starts its flight at `start_time`,
/// lands at `end_time`, and, from the Nether to the End, enters the end portal at `to_end_time`.
#[derive(Debug, Clone, Copy, PartialEq, Eq, Structural)]
pub struct Window {
    pub start_time: u64,
    pub end_time: u64,
    pub to_end_time: Option<Time>,
}

/// The start times a calculation tries: only 0 directly, every time before `max_time` through
/// the end portal.
pub open spec fn start_count(mode: CalculationMode, max_time: u64) -> int {
    match mode {
        CalculationMode::Direct => 1,
        CalculationMode::NetherToEnd => max_time as int,
    }
}

/// The first landing time tried for a start time: one tick after it directly, two through the
/// end portal, and never before `min_time`.
pub open spec fn first_end(mode: CalculationMode, start: int, min_time: u64) -> int {
    let earliest = match mode {
        CalculationMode::Direct => start + 1,
        CalculationMode::NetherToEnd => start + 2,
    };
    if earliest >= min_time {
        earliest
    } else {
        min_time as int
    }
}

/// The windows tried for one start time, landing times increasing up to `max_time`.
pub open spec fn windows_for(mode: CalculationMode, start: int, min_time: u64, max_time: u64) -> Seq<Window> {
    let first = first_end(mode, start, min_time);
    let count = if first <= max_time {
        max_time + 1 - first
    } else {
        0
    };
    Seq::new(
        count as nat,
        |j: int|
            Window {
                start_time: start as u64,
                end_time: (first + j) as u64,
                to_end_time: match mode {
                    CalculationMode::Direct => None,
                    CalculationMode::NetherToEnd => Some(Time((start + 1) as u64)),
                },
            },
    )
}

/// The windows tried for the first `k` start times, in order.
pub open spec fn windows_upto(mode: CalculationMode, min_time: u64, max_time: u64, k: int) -> Seq<Window>
    decreases k,
{
    if k <= 0 {
        Seq::empty()
    } else {
        windows_upto(mode, min_time, max_time, k - 1) + windows_for(mode, k - 1, min_time, max_time)
    }
}

/// All windows a calculation tries, by start time and then by landing time.
pub fn calculation_windows(mode: CalculationMode, min_time: Time, max_time: Time) -> (w: Vec<Window>)
    requires
        max_time.0 < u64::MAX,
    ensures
        w@ == windows_upto(mode, min_time.0, max_time.0, start_count(mode, max_time.0)),
{
    let starts: u64 = match mode {
        CalculationMode::Direct => 1,
        CalculationMode::NetherToEnd => max_time.0,
    };
    let mut w: Vec<Window> = Vec::new();
    let mut start: u64 = 0;
    while start < starts
        invariant
            starts == start_count(mode, max_time.0),
            start <= starts,
            max_time.0 < u64::MAX,
            w@ == windows_upto(mode, min_time.0, max_time.0, start as int),
        decreases starts - start,
    {
        let earliest = match mode {
            CalculationMode::Direct => start + 1,
            CalculationMode::NetherToEnd => start + 2,
        };
        let first = if earliest >= min_time.0 {
            earliest
        } else {
            min_time.0
        };
        let to_end_time = match mode {
            CalculationMode::Direct => None,
            CalculationMode::NetherToEnd => Some(Time(start + 1)),
        };
        let ghost before = w@;
        let ghost target = windows_for(mode, start as int, min_time.0, max_time.0);
        let mut end = first;
        while end <= max_time.0
            invariant
                first == first_end(mode, start as int, min_time.0),
                max_time.0 < u64::MAX,
                first <= end,
                end <= max_time.0 + 1 || end == first,
                target == windows_for(mode, start as int, min_time.0, max_time.0),
                w@ == before + target.take(end - first),
                first <= max_time.0 + 1 ==> end - first <= target.len(),
                to_end_time == match mode {
                    CalculationMode::Direct => None,
                    CalculationMode::NetherToEnd => Some(Time((start + 1) as u64)),
                },
            decreases max_time.0 + 1 - end,
        {
            let ghost prev = w@;
            w.push(Window { start_time: start, end_time: end, to_end_time });
            assert(target.take(end + 1 - first) =~= target.take(end - first).push(target[end - first]));
            assert(w@ =~= before + target.take(end + 1 - first));
            end = end + 1;
        }
        assert(target.take(end - first) =~= target);
        start = start + 1;
    }
    w
}

/// Whether a simulation over `time` ticks that enters the end portal at `to_end_time` passes
/// `check_simulation_times`.
pub open spec fn times_accepted(time: u64, to_end_time: Option<Time>) -> bool {
    let t = match to_end_time {
        Some(t) => t.0,
        None => 0,
    };
    t <= time && time != 0
}

/// Every window a calculation tries starts before the last start time, lands no earlier than
/// `min_time`, no later than `max_time` and after it starts (two ticks after through the end
/// portal, which it enters one tick after the start), and is accepted by `check_simulation_times`.
pub proof fn lemma_windows_valid(mode: CalculationMode, min_time: u64, max_time: u64, k: int)
    requires
        0 <= k <= start_count(mode, max_time),
    ensures
        forall|i: int|
            0 <= i < windows_upto(mode, min_time, max_time, k).len() ==> {
                let w = #[trigger] windows_upto(mode, min_time, max_time, k)[i];
                &&& w.start_time < k
                &&& min_time <= w.end_time <= max_time
                &&& w.start_time < w.end_time
                &&& mode == CalculationMode::Direct ==> w.to_end_time is None
                &&& mode == CalculationMode::NetherToEnd ==> w.to_end_time == Some(
                    Time((w.start_time + 1) as u64),
                ) && w.start_time + 2 <= w.end_time
                &&& times_accepted(w.end_time, w.to_end_time)
            },
    decreases k,
{
    if k > 0 {
        lemma_windows_valid(mode, min_time, max_time, k - 1);
        let prev = windows_upto(mode, min_time, max_time, k - 1);
        let last = windows_for(mode, k - 1, min_time, max_time);
        let all = windows_upto(mode, min_time, max_time, k);
        assert(all == prev + last);
        assert forall|i: int| 0 <= i < all.len() implies {
            let w = #[trigger] all[i];
            &&& w.start_time < k
            &&& min_time <= w.end_time <= max_time
            &&& w.start_time < w.end_time
            &&& mode == CalculationMode::Direct ==> w.to_end_time is None
            &&& mode == CalculationMode::NetherToEnd ==> w.to_end_time == Some(
                Time((w.start_time + 1) as u64),
            ) && w.start_time + 2 <= w.end_time
            &&& times_accepted(w.end_time, w.to_end_time)
        } by {
            if i < prev.len() {
                assert(all[i] == prev[i]);
            } else {
                assert(all[i] == last[i - prev.len()]);
            }
        }
    }
}

/// The numbers of TNT pushing along x, y and z for diagonal counts `(x, y)`: `x + y`,
/// `|x| + |y|` and `x - y`.
pub open spec fn spec_tnt_count(num: TNTNum) -> (int, int, int) {
    let ax = if num.x < 0 { -num.x } else { num.x as int };
    let ay = if num.y < 0 { -num.y } else { num.y as int };
    (num.x + num.y, ax + ay, num.x - num.y)
}

impl TNTNum {
    /// The numbers of TNT pushing along x, y and z.
    pub fn tnt_count(self) -> (c: (i64, i64, i64))
        requires
            i64::MIN <= spec_tnt_count(self).0 <= i64::MAX,
            self.x != i64::MIN,
            self.y != i64::MIN,
            spec_tnt_count(self).1 <= i64::MAX,
            i64::MIN <= spec_tnt_count(self).2 <= i64::MAX,
        ensures
            c.0 == spec_tnt_count(self).0,
            c.1 == spec_tnt_count(self).1,
            c.2 == spec_tnt_count(self).2,
            c.0 == self.x + self.y,
            c.2 == self.x - self.y,
            c.0 + c.2 == 2 * self.x,
            c.0 - c.2 == 2 * self.y,
            c.1 == (if self.x < 0 { -self.x } else { self.x as int }) + (if self.y < 0 {
                -self.y
            } else {
                self.y as int
            }),
    {
        let ax = if self.x < 0 { -self.x } else { self.x };
        let ay = if self.y < 0 { -self.y } else { self.y };
        (self.x + self.y, ax + ay, self.x - self.y)
    }
}

/// The supported transitions of a calculation, as a table: within the Nether and within the End
/// directly, from the Nether to the End through the end portal; every other pair, and in
/// particular any pair with the Overworld and the End to the Nether, is refused with an error
/// naming both dimensions.
pub proof fn lemma_calculation_mode_table(start: Dimension, target: Dimension)
    ensures
        spec_calculation_mode(Dimension::Nether, Dimension::Nether) == Ok::<CalculationMode, PearlError>(
            CalculationMode::Direct,
        ),
        spec_calculation_mode(Dimension::End, Dimension::End) == Ok::<CalculationMode, PearlError>(
            CalculationMode::Direct,
        ),
        spec_calculation_mode(Dimension::Nether, Dimension::End) == Ok::<CalculationMode, PearlError>(
            CalculationMode::NetherToEnd,
        ),
        spec_calculation_mode(start, target) is Ok ==> start != Dimension::Overworld && target
            != Dimension::Overworld,
        spec_calculation_mode(start, target) == Ok::<CalculationMode, PearlError>(
            CalculationMode::Direct,
        ) ==> start == target,
        spec_calculation_mode(start, target) == Ok::<CalculationMode, PearlError>(
            CalculationMode::NetherToEnd,
        ) ==> start == Dimension::Nether && target == Dimension::End,
        spec_calculation_mode(start, target) is Err ==> spec_calculation_mode(start, target) == Err::<
            CalculationMode,
            PearlError,
        >(
            PearlError::UnsupportedCalculationDimensionTransition {
                start_dimension: start,
                target_dimension: target,
            },
        ),
        spec_calculation_mode(Dimension::End, Dimension::Nether) is Err,
        spec_calculation_mode(Dimension::Nether, Dimension::Overworld) is Err,
        spec_calculation_mode(Dimension::Overworld, Dimension::Overworld) is Err,
{
}

/// The TNT pushing along x and along z are the sum and the difference of the diagonal counts, so
/// together they give both counts back; the TNT pushing along y is the larger of the two in size.
pub proof fn lemma_tnt_count_axes(num: TNTNum)
    ensures
        spec_tnt_count(num).0 == num.x + num.y,
        spec_tnt_count(num).2 == num.x - num.y,
        spec_tnt_count(num).0 + spec_tnt_count(num).2 == 2 * num.x,
        spec_tnt_count(num).0 - spec_tnt_count(num).2 == 2 * num.y,
        spec_tnt_count(num).1 >= 0,
        spec_tnt_count(num).1 == (if spec_tnt_count(num).0 >= 0 {
            spec_tnt_count(num).0
        } else {
            -spec_tnt_count(num).0
        }) || spec_tnt_count(num).1 == (if spec_tnt_count(num).2 >= 0 {
            spec_tnt_count(num).2
        } else {
            -spec_tnt_count(num).2
        }),
        spec_tnt_count(num).1 >= spec_tnt_count(num).0 && spec_tnt_count(num).1 >= -spec_tnt_count(
            num,
        ).0,
        spec_tnt_count(num).1 >= spec_tnt_count(num).2 && spec_tnt_count(num).1 >= -spec_tnt_count(
            num,
        ).2,
{
}

} // verus!

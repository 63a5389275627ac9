//! Directions: how red and blue TNT counts map to TNT counts along the two diagonal axes.
use vstd::prelude::*;

use crate::error::PearlError;
use crate::model::{Direction, Directions, TNTNum, TNTNumRB, RB};

verus! {

/// A 2x2 integer matrix given by its red and blue columns.
#[derive(Debug, Clone, Copy)]
pub struct Basis {
    pub red: (i64, i64),
    pub blue: (i64, i64),
}

/// The unit vector a direction entry stands for, if it is one of the four accepted entries.
pub open spec fn spec_unit(input: [i8; 2]) -> Option<(i64, i64)> {
    if input[0] == 1 && input[1] == 1 {
        Some((1, 0))
    } else if input[0] == -1 && input[1] == -1 {
        Some((-1i64, 0i64))
    } else if input[0] == 1 && input[1] == -1 {
        Some((0, 1))
    } else if input[0] == -1 && input[1] == 1 {
        Some((0i64, -1i64))
    } else {
        None
    }
}

/// The unit vector a direction entry stands for.
pub fn match_direction(input: [i8; 2]) -> (res: Result<(i64, i64), PearlError>)
    ensures
        res matches Ok(v) ==> spec_unit(input) == Some(v),
        res matches Err(e) ==> spec_unit(input) is None && e == PearlError::InvalidDirectionVector(input),
        res is Ok <==> spec_unit(input) is Some,
{
    let a = input[0];
    let b = input[1];
    if a == 1 && b == 1 {
        Ok((1, 0))
    } else if a == -1 && b == -1 {
        Ok((-1, 0))
    } else if a == 1 && b == -1 {
        Ok((0, 1))
    } else if a == -1 && b == 1 {
        Ok((0, -1))
    } else {
        Err(PearlError::InvalidDirectionVector(input))
    }
}

/// The basis of a direction, or what is wrong with its red entry, then with its blue entry.
pub open spec fn spec_basis(d: Direction) -> Result<Basis, PearlError> {
    match spec_unit(d.red) {
        None => Err(PearlError::InvalidDirectionVector(d.red)),
        Some(r) => match spec_unit(d.blue) {
            None => Err(PearlError::InvalidDirectionVector(d.blue)),
            Some(b) => Ok(Basis { red: r, blue: b }),
        },
    }
}

impl Direction {
    /// The basis of a direction.
    pub fn match_direction(self) -> (res: Result<Basis, PearlError>)
        ensures
            res == spec_basis(self),
    {
        let red = match_direction(self.red)?;
        let blue = match_direction(self.blue)?;
        Ok(Basis { red, blue })
    }
}

/// The quadrant that the sum of a basis's columns points into: 0 for (1, 1), 1 for (1, -1),
/// 2 for (-1, 1), 3 for (-1, -1).
pub open spec fn spec_quadrant(m: Basis) -> Option<usize> {
    let x = m.red.0 + m.blue.0;
    let y = m.red.1 + m.blue.1;
    if x == 1 && y == 1 {
        Some(0)
    } else if x == 1 && y == -1 {
        Some(1)
    } else if x == -1 && y == 1 {
        Some(2)
    } else if x == -1 && y == -1 {
        Some(3)
    } else {
        None
    }
}

/// The quadrant of a valid direction.
pub open spec fn quadrant_of(d: Direction) -> int {
    match spec_basis(d) {
        Ok(m) => match spec_quadrant(m) {
            Some(q) => q as int,
            None => -1,
        },
        Err(_) => -1,
    }
}

/// What is wrong with the direction at position `i`, given those before it.
pub open spec fn direction_error(ds: [Direction; 4], i: int) -> Option<PearlError> {
    match spec_basis(ds[i]) {
        Err(e) => Some(e),
        Ok(m) => match spec_quadrant(m) {
            None => Some(
                PearlError::InvalidDirectionCombination {
                    x: (m.red.0 + m.blue.0) as i64,
                    y: (m.red.1 + m.blue.1) as i64,
                },
            ),
            Some(q) => if exists|j: int| 0 <= j < i && #[trigger] quadrant_of(ds[j]) == q as int {
                Some(PearlError::DuplicateDirectionQuadrant { quadrant: q })
            } else {
                None
            },
        },
    }
}

/// Whether all four directions are valid and point into four different quadrants.
pub open spec fn directions_valid(ds: [Direction; 4]) -> bool {
    forall|i: int| 0 <= i < 4 ==> #[trigger] direction_error(ds, i) is None
}

impl Directions {
    /// For each quadrant, the position of the direction that points into it.
    pub fn resolve(self) -> (res: Result<[usize; 4], PearlError>)
        ensures
            res is Ok <==> directions_valid(self.0),
            res matches Ok(indices) ==> forall|i: int|
                0 <= i < 4 ==> indices[quadrant_of(#[trigger] self.0[i])] == i,
            res matches Err(e) ==> exists|i: int|
                0 <= i < 4 && direction_error(self.0, i) == Some(e) && forall|j: int|
                    0 <= j < i ==> #[trigger] direction_error(self.0, j) is None,
    {
        let mut indices: [usize; 4] = [0, 0, 0, 0];
        let mut seen: [bool; 4] = [false, false, false, false];
        let mut i: usize = 0;
        while i < 4
            invariant
                i <= 4,
                forall|j: int| 0 <= j < i ==> #[trigger] direction_error(self.0, j) is None,
                forall|q: int|
                    0 <= q < 4 ==> (seen[q] <==> exists|j: int|
                        0 <= j < i && #[trigger] quadrant_of(self.0[j]) == q),
                forall|j: int| 0 <= j < i ==> indices[quadrant_of(#[trigger] self.0[j])] == j,
                forall|j: int| 0 <= j < i ==> 0 <= #[trigger] quadrant_of(self.0[j]) < 4,
            decreases 4 - i,
        {
            let d = self.0[i];
            let m = match d.match_direction() {
                Ok(m) => m,
                Err(e) => {
                    assert(direction_error(self.0, i as int) == Some(e));
                    return Err(e);
                },
            };
            let x = m.red.0 + m.blue.0;
            let y = m.red.1 + m.blue.1;
            let idx: usize = if x == 1 && y == 1 {
                0
            } else if x == 1 && y == -1 {
                1
            } else if x == -1 && y == 1 {
                2
            } else if x == -1 && y == -1 {
                3
            } else {
                let e = PearlError::InvalidDirectionCombination { x, y };
                assert(direction_error(self.0, i as int) == Some(e));
                return Err(e);
            };
            assert(quadrant_of(d) == idx);
            if seen[idx] {
                let e = PearlError::DuplicateDirectionQuadrant { quadrant: idx };
                assert(direction_error(self.0, i as int) == Some(e));
                return Err(e);
            }
            assert(direction_error(self.0, i as int) is None);
            seen[idx] = true;
            indices[idx] = i;
            i = i + 1;
        }
        Ok(indices)
    }
}


/// The quadrant a pair of diagonal counts falls into, as the calculator reads it.
pub open spec fn num_quadrant(num: TNTNum) -> int {
    if num.x > 0 {
        if num.y > 0 {
            0
        } else {
            1
        }
    } else if num.y > 0 {
        2
    } else {
        3
    }
}

/// The position of the direction that points into quadrant `q`.
pub open spec fn direction_for(ds: [Direction; 4], q: int) -> int {
    choose|i: int| 0 <= i < 4 && quadrant_of(ds[i]) == q
}

/// `col . (x, y)`.
pub open spec fn dot(col: (i64, i64), x: int, y: int) -> int {
    col.0 * x + col.1 * y
}

/// The basis of a direction known to be valid.
pub open spec fn basis_of(d: Direction) -> Basis {
    match spec_basis(d) {
        Ok(m) => m,
        Err(_) => Basis { red: (0, 0), blue: (0, 0) },
    }
}

/// Valid directions cover every quadrant, each exactly once.
pub proof fn lemma_quadrants_covered(ds: [Direction; 4])
    requires
        directions_valid(ds),
    ensures
        forall|i: int| 0 <= i < 4 ==> 0 <= #[trigger] quadrant_of(ds[i]) < 4,
        forall|i: int, j: int|
            0 <= i < 4 && 0 <= j < 4 && i != j ==> quadrant_of(ds[i]) != quadrant_of(ds[j]),
        forall|q: int|
            0 <= q < 4 ==> 0 <= #[trigger] direction_for(ds, q) < 4 && quadrant_of(ds[direction_for(ds, q)]) == q,
{
    assert(direction_error(ds, 0) is None);
    assert(direction_error(ds, 1) is None);
    assert(direction_error(ds, 2) is None);
    assert(direction_error(ds, 3) is None);
    let q0 = quadrant_of(ds[0]);
    let q1 = quadrant_of(ds[1]);
    let q2 = quadrant_of(ds[2]);
    let q3 = quadrant_of(ds[3]);
    assert(q1 != q0);
    assert(q2 != q0 && q2 != q1);
    assert(q3 != q0 && q3 != q1 && q3 != q2);
    assert forall|q: int| 0 <= q < 4 implies 0 <= #[trigger] direction_for(ds, q) < 4 && quadrant_of(
        ds[direction_for(ds, q)],
    ) == q by {
        if q0 == q {
            assert(quadrant_of(ds[0]) == q);
        } else if q1 == q {
            assert(quadrant_of(ds[1]) == q);
        } else if q2 == q {
            assert(quadrant_of(ds[2]) == q);
        } else {
            assert(quadrant_of(ds[3]) == q);
        }
    }
}

/// Whether a column is one of the four unit vectors.
pub open spec fn is_unit(v: (i64, i64)) -> bool {
    v == (1i64, 0i64) || v == (-1i64, 0i64) || v == (0i64, 1i64) || v == (0i64, -1i64)
}

proof fn lemma_basis_units(d: Direction)
    requires
        spec_basis(d) is Ok,
    ensures
        is_unit(basis_of(d).red),
        is_unit(basis_of(d).blue),
{
}

/// The dot product of a unit vector with `(x, y)` picks out one coordinate, maybe negated.
proof fn lemma_dot_unit(v: (i64, i64), x: int, y: int)
    requires
        is_unit(v),
    ensures
        dot(v, x, y) == if v == (1i64, 0i64) {
            x
        } else if v == (-1i64, 0i64) {
            -x
        } else if v == (0i64, 1i64) {
            y
        } else {
            -y
        },
{
    if v == (1i64, 0i64) {
        assert(dot(v, x, y) == 1 * x + 0 * y);
    } else if v == (-1i64, 0i64) {
        assert(dot(v, x, y) == -1 * x + 0 * y);
    } else if v == (0i64, 1i64) {
        assert(dot(v, x, y) == 0 * x + 1 * y);
    } else {
        assert(dot(v, x, y) == 0 * x + -1 * y);
    }
}

/// `c * v` for a coefficient `c` of a unit vector.
fn mul_unit(c: i64, v: i64) -> (r: i64)
    requires
        c == 1 || c == -1 || c == 0,
        v != i64::MIN,
    ensures
        r == c * v,
{
    if c == 1 {
        v
    } else if c == -1 {
        -v
    } else {
        0
    }
}

/// Whether computing a direction's counts from `rb` stays within the range of `i64`.
pub open spec fn to_num_fits(rb: RB, ds: [Direction; 4]) -> bool {
    rb.direction <= 3 && spec_basis(ds[rb.direction as int]) is Ok ==> {
        let m = basis_of(ds[rb.direction as int]);
        let r = rb.num.red as i64;
        let b = rb.num.blue as i64;
        &&& i64::MIN <= m.red.0 * r <= i64::MAX
        &&& i64::MIN <= m.blue.0 * b <= i64::MAX
        &&& i64::MIN <= m.red.1 * r <= i64::MAX
        &&& i64::MIN <= m.blue.1 * b <= i64::MAX
        &&& i64::MIN <= dot((m.red.0, m.blue.0), r as int, b as int) <= i64::MAX
        &&& i64::MIN <= dot((m.red.1, m.blue.1), r as int, b as int) <= i64::MAX
    }
}

impl RB {
    /// The red and blue counts, with the direction, that give the diagonal counts `num`: the
    /// direction is the one that points into the quadrant of `num`.
    pub fn from_num(num: TNTNum, directions: Directions) -> (res: Result<RB, PearlError>)
        requires
            num.x != i64::MIN,
            num.y != i64::MIN,
        ensures
            res is Ok <==> directions_valid(directions.0),
            res matches Err(e) ==> exists|i: int|
                0 <= i < 4 && direction_error(directions.0, i) == Some(e) && forall|j: int|
                    0 <= j < i ==> #[trigger] direction_error(directions.0, j) is None,
            res matches Ok(rb) ==> {
                let d = direction_for(directions.0, num_quadrant(num));
                let m = basis_of(directions.0[d]);
                &&& rb.direction == d
                &&& rb.num.red == dot(m.red, num.x as int, num.y as int)
                &&& rb.num.blue == dot(m.blue, num.x as int, num.y as int)
            },
    {
        let direction_type: usize = if num.x > 0 {
            if num.y > 0 {
                0
            } else {
                1
            }
        } else if num.y > 0 {
            2
        } else {
            3
        };
        let indices = directions.resolve()?;
        proof {
            lemma_quadrants_covered(directions.0);
            let d = direction_for(directions.0, direction_type as int);
            assert(indices[quadrant_of(directions.0[d])] == d);
        }
        let direction_num = indices[direction_type];
        let m = match directions.0[direction_num].match_direction() {
            Ok(m) => m,
            Err(e) => {
                assert(direction_error(directions.0, direction_num as int) is None);
                return Err(e);
            },
        };
        assert(spec_quadrant(m) == Some(direction_type));
        proof {
            lemma_basis_units(directions.0[direction_num as int]);
        }
        let red = mul_unit(m.red.0, num.x) + mul_unit(m.red.1, num.y);
        let blue = mul_unit(m.blue.0, num.x) + mul_unit(m.blue.1, num.y);
        Ok(RB { num: TNTNumRB { red: red as u64, blue: blue as u64 }, direction: direction_num })
    }

    /// The diagonal counts that these red and blue counts give in their direction.
    pub fn to_num(self, directions: Directions) -> (res: Result<TNTNum, PearlError>)
        requires
            to_num_fits(self, directions.0),
        ensures
            self.direction > 3 ==> res == Err::<TNTNum, PearlError>(
                PearlError::DirectionOutOfRange { value: self.direction as u64 },
            ),
            self.direction <= 3 ==> match spec_basis(directions.0[self.direction as int]) {
                Err(e) => res == Err::<TNTNum, PearlError>(e),
                Ok(m) => res matches Ok(n) && n.x == dot(
                    (m.red.0, m.blue.0),
                    self.num.red as i64 as int,
                    self.num.blue as i64 as int,
                ) && n.y == dot((m.red.1, m.blue.1), self.num.red as i64 as int, self.num.blue as i64 as int),
            },
    {
        if self.direction > 3 {
            return Err(PearlError::DirectionOutOfRange { value: self.direction as u64 });
        }
        let m = directions.0[self.direction].match_direction()?;
        let r = self.num.red as i64;
        let b = self.num.blue as i64;
        let x = m.red.0 * r + m.blue.0 * b;
        let y = m.red.1 * r + m.blue.1 * b;
        Ok(TNTNum { x, y })
    }
}

/// The counts that `from_num` gives are never negative, and `to_num` turns them back into the
/// diagonal counts they came from.
pub proof fn lemma_num_round_trip(num: TNTNum, ds: [Direction; 4])
    requires
        directions_valid(ds),
        num.x != i64::MIN,
        num.y != i64::MIN,
    ensures
        ({
            let d = direction_for(ds, num_quadrant(num));
            let m = basis_of(ds[d]);
            let red = dot(m.red, num.x as int, num.y as int);
            let blue = dot(m.blue, num.x as int, num.y as int);
            &&& 0 <= red <= i64::MAX
            &&& 0 <= blue <= i64::MAX
            &&& dot((m.red.0, m.blue.0), red, blue) == num.x
            &&& dot((m.red.1, m.blue.1), red, blue) == num.y
            &&& to_num_fits(
                RB { num: TNTNumRB { red: red as u64, blue: blue as u64 }, direction: d as usize },
                ds,
            )
        }),
{
    lemma_quadrants_covered(ds);
    let q = num_quadrant(num);
    let d = direction_for(ds, q);
    assert(direction_error(ds, d) is None);
    lemma_basis_units(ds[d]);
    let m = basis_of(ds[d]);
    assert(spec_quadrant(m) == Some(q as usize));
    let red = dot(m.red, num.x as int, num.y as int);
    let blue = dot(m.blue, num.x as int, num.y as int);
    lemma_dot_unit(m.red, num.x as int, num.y as int);
    lemma_dot_unit(m.blue, num.x as int, num.y as int);
    lemma_dot_unit((m.red.0, m.blue.0), red, blue);
    assert(is_unit((m.red.0, m.blue.0)));
    assert(is_unit((m.red.1, m.blue.1)));
    lemma_dot_unit((m.red.1, m.blue.1), red, blue);
    let r = red as u64 as i64;
    let b = blue as u64 as i64;
    assert(r == red && b == blue);
    lemma_dot_unit((m.red.0, m.blue.0), r as int, b as int);
    lemma_dot_unit((m.red.1, m.blue.1), r as int, b as int);
    assert(m.red.0 * r == if m.red.0 == 1 { r as int } else if m.red.0 == -1 { -r } else { 0 }) by (nonlinear_arith)
        requires m.red.0 == 1 || m.red.0 == -1 || m.red.0 == 0;
    assert(m.red.1 * r == if m.red.1 == 1 { r as int } else if m.red.1 == -1 { -r } else { 0 }) by (nonlinear_arith)
        requires m.red.1 == 1 || m.red.1 == -1 || m.red.1 == 0;
    assert(m.blue.0 * b == if m.blue.0 == 1 { b as int } else if m.blue.0 == -1 { -b } else { 0 }) by (nonlinear_arith)
        requires m.blue.0 == 1 || m.blue.0 == -1 || m.blue.0 == 0;
    assert(m.blue.1 * b == if m.blue.1 == 1 { b as int } else if m.blue.1 == -1 { -b } else { 0 }) by (nonlinear_arith)
        requires m.blue.1 == 1 || m.blue.1 == -1 || m.blue.1 == 0;
}

} // verus!

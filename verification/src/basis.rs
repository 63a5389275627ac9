//! Red and blue counts against diagonal counts for directions given as general integer matrices.
use vstd::prelude::*;

verus! {

/// A vector of two 32-bit integers.
#[derive(Debug, Clone, Copy, PartialEq, Eq, Structural)]
pub struct Vec2 {
    pub x: i32,
    pub y: i32,
}

/// A 2x2 matrix of 32-bit integers, given by its columns: the red one, then the blue one.
#[derive(Debug, Clone, Copy, PartialEq, Eq, Structural)]
pub struct Mat2 {
    pub red: Vec2,
    pub blue: Vec2,
}

impl Mat2 {
    /// The matrix with the given columns.
    pub fn from_columns(red: Vec2, blue: Vec2) -> (m: Mat2)
        ensures
            m.red == red,
            m.blue == blue,
    {
        Mat2 { red, blue }
    }
}

/// Red and blue counts with the index of the direction they fire in.
#[derive(Debug, Clone, Copy, PartialEq, Eq, Structural)]
pub struct RB {
    pub count: Vec2,
    pub direction: usize,
}

/// The quadrant that the sum of a matrix's columns points into: 0 for (1, 1), 1 for (1, -1),
/// 2 for (-1, 1), 3 for (-1, -1).
pub open spec fn column_quadrant(m: Mat2) -> Option<int> {
    let x = m.red.x + m.blue.x;
    let y = m.red.y + m.blue.y;
    if x == 1 && y == 1 {
        Some(0)
    } else if x == 1 && y == -1 {
        Some(1)
    } else if x == -1 && y == 1 {
        Some(2)
    } else if x == -1 && y == -1 {
        Some(3)
    } else {
        None
    }
}

/// Whether the four matrices point into four different quadrants.
pub open spec fn matrices_valid(ds: [Mat2; 4]) -> bool {
    &&& forall|i: int| 0 <= i < 4 ==> #[trigger] column_quadrant(ds[i]) is Some
    &&& forall|i: int, j: int|
        0 <= i < 4 && 0 <= j < 4 && i != j ==> #[trigger] column_quadrant(ds[i]) != #[trigger] column_quadrant(
            ds[j],
        )
}

/// The position of the matrix that points into quadrant `q`.
pub open spec fn matrix_for(ds: [Mat2; 4], q: int) -> int {
    choose|i: int| 0 <= i < 4 && column_quadrant(ds[i]) == Some(q)
}

proof fn lemma_matrices_cover(ds: [Mat2; 4])
    requires
        matrices_valid(ds),
    ensures
        forall|q: int| 0 <= q < 4 ==> 0 <= #[trigger] matrix_for(ds, q) < 4 && column_quadrant(ds[matrix_for(ds, q)]) == Some(q),
{
    let q0 = column_quadrant(ds[0]).unwrap();
    let q1 = column_quadrant(ds[1]).unwrap();
    let q2 = column_quadrant(ds[2]).unwrap();
    let q3 = column_quadrant(ds[3]).unwrap();
    assert(column_quadrant(ds[0]) != column_quadrant(ds[1]));
    assert(column_quadrant(ds[0]) != column_quadrant(ds[2]));
    assert(column_quadrant(ds[0]) != column_quadrant(ds[3]));
    assert(column_quadrant(ds[1]) != column_quadrant(ds[2]));
    assert(column_quadrant(ds[1]) != column_quadrant(ds[3]));
    assert(column_quadrant(ds[2]) != column_quadrant(ds[3]));
    assert forall|q: int| 0 <= q < 4 implies 0 <= #[trigger] matrix_for(ds, q) < 4 && column_quadrant(
        ds[matrix_for(ds, q)],
    ) == Some(q) by {
        if q0 == q {
            assert(column_quadrant(ds[0]) == Some(q));
        } else if q1 == q {
            assert(column_quadrant(ds[1]) == Some(q));
        } else if q2 == q {
            assert(column_quadrant(ds[2]) == Some(q));
        } else {
            assert(column_quadrant(ds[3]) == Some(q));
        }
    }
}

/// For each quadrant, the position of the matrix that points into it.
pub fn resolve_directions(directions: [Mat2; 4]) -> (indices: [usize; 4])
    requires
        matrices_valid(directions),
    ensures
        forall|i: int| 0 <= i < 4 ==> indices[column_quadrant(#[trigger] directions[i]).unwrap()] == i,
{
    let mut indices: [usize; 4] = [0, 0, 0, 0];
    let mut i: usize = 0;
    while i < 4
        invariant
            i <= 4,
            matrices_valid(directions),
            forall|j: int| 0 <= j < i ==> indices[column_quadrant(#[trigger] directions[j]).unwrap()] == j,
        decreases 4 - i,
    {
        let m = directions[i];
        assert(column_quadrant(directions[i as int]) is Some);
        let x = m.red.x + m.blue.x;
        let y = m.red.y + m.blue.y;
        let idx: usize = if x == 1 && y == 1 {
            0
        } else if x == 1 && y == -1 {
            1
        } else if x == -1 && y == 1 {
            2
        } else {
            3
        };
        assert(forall|j: int| 0 <= j < i ==> column_quadrant(#[trigger] directions[j]) != column_quadrant(directions[i as int]));
        indices[idx] = i;
        i = i + 1;
    }
    indices
}

/// `m * v`.
pub open spec fn mul_spec(m: Mat2, v: Vec2) -> (int, int) {
    (m.red.x * v.x + m.blue.x * v.y, m.red.y * v.x + m.blue.y * v.y)
}

/// `m^T * v`.
pub open spec fn mul_transpose_spec(m: Mat2, v: Vec2) -> (int, int) {
    (m.red.x * v.x + m.red.y * v.y, m.blue.x * v.x + m.blue.y * v.y)
}

/// Whether `m * v` and its partial products stay within the range of `i32`.
pub open spec fn mul_fits(m: Mat2, v: Vec2) -> bool {
    &&& i32::MIN <= m.red.x * v.x <= i32::MAX
    &&& i32::MIN <= m.blue.x * v.y <= i32::MAX
    &&& i32::MIN <= m.red.y * v.x <= i32::MAX
    &&& i32::MIN <= m.blue.y * v.y <= i32::MAX
    &&& i32::MIN <= mul_spec(m, v).0 <= i32::MAX
    &&& i32::MIN <= mul_spec(m, v).1 <= i32::MAX
}

/// Whether `m^T * v` and its partial products stay within the range of `i32`.
pub open spec fn mul_transpose_fits(m: Mat2, v: Vec2) -> bool {
    &&& i32::MIN <= m.red.x * v.x <= i32::MAX
    &&& i32::MIN <= m.red.y * v.y <= i32::MAX
    &&& i32::MIN <= m.blue.x * v.x <= i32::MAX
    &&& i32::MIN <= m.blue.y * v.y <= i32::MAX
    &&& i32::MIN <= mul_transpose_spec(m, v).0 <= i32::MAX
    &&& i32::MIN <= mul_transpose_spec(m, v).1 <= i32::MAX
}

/// The quadrant a vector of diagonal counts falls into, as the calculator reads it.
pub open spec fn vec_quadrant(v: Vec2) -> int {
    if v.x > 0 {
        if v.y > 0 {
            0
        } else {
            1
        }
    } else if v.y > 0 {
        2
    } else {
        3
    }
}

/// The diagonal counts that red and blue counts give in their direction.
pub fn rb_to_num(rb: RB, directions: [Mat2; 4]) -> (num: Vec2)
    requires
        rb.direction < 4,
        mul_fits(directions[rb.direction as int], rb.count),
    ensures
        num.x == mul_spec(directions[rb.direction as int], rb.count).0,
        num.y == mul_spec(directions[rb.direction as int], rb.count).1,
{
    let base = directions[rb.direction];
    Vec2 {
        x: base.red.x * rb.count.x + base.blue.x * rb.count.y,
        y: base.red.y * rb.count.x + base.blue.y * rb.count.y,
    }
}

/// The red and blue counts, with the direction, that give the diagonal counts `num`: the
/// direction is the one that points into the quadrant of `num`.
pub fn num_to_rb(num: Vec2, directions: [Mat2; 4]) -> (rb: RB)
    requires
        matrices_valid(directions),
        mul_transpose_fits(directions[matrix_for(directions, vec_quadrant(num))], num),
    ensures
        rb.direction == matrix_for(directions, vec_quadrant(num)),
        rb.count.x == mul_transpose_spec(directions[rb.direction as int], num).0,
        rb.count.y == mul_transpose_spec(directions[rb.direction as int], num).1,
{
    let direction_type: usize = if num.x > 0 {
        if num.y > 0 {
            0
        } else {
            1
        }
    } else if num.y > 0 {
        2
    } else {
        3
    };
    let indices = resolve_directions(directions);
    proof {
        lemma_matrices_cover(directions);
        let d = matrix_for(directions, direction_type as int);
        assert(indices[column_quadrant(directions[d]).unwrap()] == d);
    }
    let direction_num = indices[direction_type];
    let d = directions[direction_num];
    RB {
        count: Vec2 {
            x: d.red.x * num.x + d.red.y * num.y,
            y: d.blue.x * num.x + d.blue.y * num.y,
        },
        direction: direction_num,
    }
}


/// Whether a column is one of the four unit vectors.
pub open spec fn unit_column(v: Vec2) -> bool {
    (v.x == 1 && v.y == 0) || (v.x == -1 && v.y == 0) || (v.x == 0 && v.y == 1) || (v.x == 0 && v.y == -1)
}

/// Whether every matrix has unit vectors as columns.
pub open spec fn unit_matrices(ds: [Mat2; 4]) -> bool {
    forall|i: int| 0 <= i < 4 ==> unit_column(#[trigger] ds[i].red) && unit_column(ds[i].blue)
}

proof fn lemma_unit_mul(c: i32, v: i32)
    requires
        c == 1 || c == -1 || c == 0,
    ensures
        c * v == if c == 1 { v as int } else if c == -1 { -v } else { 0 },
{
    assert(c * v == if c == 1 { v as int } else if c == -1 { -v } else { 0 }) by (nonlinear_arith)
        requires c == 1 || c == -1 || c == 0;
}

/// For matrices of unit columns pointing into four different quadrants, `num_to_rb` gives
/// counts that are never negative, and `rb_to_num` turns them back into `num`.
pub proof fn lemma_num_rb_round_trip(num: Vec2, ds: [Mat2; 4])
    requires
        matrices_valid(ds),
        unit_matrices(ds),
        num.x != i32::MIN,
        num.y != i32::MIN,
    ensures
        ({
            let d = matrix_for(ds, vec_quadrant(num));
            let c = mul_transpose_spec(ds[d], num);
            &&& mul_transpose_fits(ds[d], num)
            &&& 0 <= c.0 <= i32::MAX
            &&& 0 <= c.1 <= i32::MAX
            &&& mul_fits(ds[d], Vec2 { x: c.0 as i32, y: c.1 as i32 })
            &&& mul_spec(ds[d], Vec2 { x: c.0 as i32, y: c.1 as i32 }) == (num.x as int, num.y as int)
        }),
{
    lemma_matrices_cover(ds);
    let q = vec_quadrant(num);
    let d = matrix_for(ds, q);
    let m = ds[d];
    assert(unit_column(m.red) && unit_column(m.blue));
    lemma_unit_mul(m.red.x, num.x);
    lemma_unit_mul(m.red.y, num.y);
    lemma_unit_mul(m.blue.x, num.x);
    lemma_unit_mul(m.blue.y, num.y);
    let c = mul_transpose_spec(m, num);
    let cx = c.0 as i32;
    let cy = c.1 as i32;
    assert(0 <= c.0 <= i32::MAX && 0 <= c.1 <= i32::MAX);
    lemma_unit_mul(m.red.x, cx);
    lemma_unit_mul(m.blue.x, cy);
    lemma_unit_mul(m.red.y, cx);
    lemma_unit_mul(m.blue.y, cy);
}

} // verus!

//! The TNT counts worth simulating for a solution: every count within 5 of an estimated centre
//! on both diagonal axes, each once, in increasing order.
use vstd::prelude::*;

use crate::model::TNTNum;

verus! {

/// How far from an estimated centre the search looks, on each axis.
pub const SEARCH_RADIUS: i64 = 5;

/// Whether `p` lies within the search radius of `c` on both axes.
pub open spec fn near(p: TNTNum, c: TNTNum) -> bool {
    -SEARCH_RADIUS <= p.x - c.x <= SEARCH_RADIUS && -SEARCH_RADIUS <= p.y - c.y <= SEARCH_RADIUS
}

/// The order of counts: by `x`, then by `y`.
pub open spec fn num_lt(a: TNTNum, b: TNTNum) -> bool {
    a.x < b.x || (a.x == b.x && a.y < b.y)
}

/// Whether counts are in increasing order, so that none occurs twice.
pub open spec fn strictly_sorted(s: Seq<TNTNum>) -> bool {
    forall|i: int, j: int| 0 <= i < j < s.len() ==> num_lt(#[trigger] s[i], #[trigger] s[j])
}

/// Whether `p` lies near one of the first `n` centres.
pub open spec fn covered(centers: Seq<TNTNum>, n: int, p: TNTNum) -> bool {
    exists|k: int| 0 <= k < n && near(p, #[trigger] centers[k])
}

/// Whether the counts around a centre stay within 64 bits.
pub open spec fn center_fits(c: TNTNum) -> bool {
    i64::MIN + SEARCH_RADIUS <= c.x <= i64::MAX - SEARCH_RADIUS && i64::MIN + SEARCH_RADIUS
        <= c.y <= i64::MAX - SEARCH_RADIUS
}

/// Whether the counts around a centre stay within 64 bits.
pub fn search_fits(c: TNTNum) -> (b: bool)
    ensures
        b == center_fits(c),
{
    i64::MIN + SEARCH_RADIUS <= c.x && c.x <= i64::MAX - SEARCH_RADIUS && i64::MIN + SEARCH_RADIUS
        <= c.y && c.y <= i64::MAX - SEARCH_RADIUS
}

fn insert_sorted(v: &mut Vec<TNTNum>, p: TNTNum)
    requires
        strictly_sorted(old(v)@),
    ensures
        strictly_sorted(final(v)@),
        forall|q: TNTNum| #[trigger] final(v)@.contains(q) <==> (old(v)@.contains(q) || q == p),
{
    let n = v.len();
    let mut pos: usize = 0;
    while pos < n && (v[pos].x < p.x || (v[pos].x == p.x && v[pos].y < p.y))
        invariant
            n == v@.len(),
            pos <= n,
            forall|k: int| 0 <= k < pos ==> num_lt(#[trigger] v@[k], p),
        decreases n - pos,
    {
        pos = pos + 1;
    }
    if pos < n && v[pos] == p {
        assert(v@[pos as int] == p);
        return;
    }
    let ghost before = v@;
    v.insert(pos, p);
    proof {
        let after = v@;
        assert(after =~= before.insert(pos as int, p));
        assert forall|i: int, j: int| 0 <= i < j < after.len() implies num_lt(
            #[trigger] after[i],
            #[trigger] after[j],
        ) by {
            if j < pos {
                assert(after[i] == before[i] && after[j] == before[j]);
            } else if j == pos {
                assert(after[i] == before[i]);
            } else if i < pos {
                assert(after[i] == before[i] && after[j] == before[j - 1]);
                assert(num_lt(before[i], p));
                assert(!num_lt(before[pos as int], p) && before[pos as int] != p);
                if j - 1 > pos {
                    assert(num_lt(before[pos as int], before[j - 1]));
                }
            } else if i == pos {
                assert(after[j] == before[j - 1]);
                assert(!num_lt(before[pos as int], p) && before[pos as int] != p);
                if j - 1 > pos {
                    assert(num_lt(before[pos as int], before[j - 1]));
                }
            } else {
                assert(after[i] == before[i - 1] && after[j] == before[j - 1]);
            }
        }
        assert forall|q: TNTNum| #[trigger] after.contains(q) <==> (before.contains(q) || q == p) by {
            if after.contains(q) {
                let k = choose|k: int| 0 <= k < after.len() && after[k] == q;
                if k < pos {
                    assert(before[k] == q);
                } else if k > pos {
                    assert(before[k - 1] == q);
                }
            }
            if before.contains(q) {
                let k = choose|k: int| 0 <= k < before.len() && before[k] == q;
                if k < pos {
                    assert(after[k] == q);
                } else {
                    assert(after[k + 1] == q);
                }
            }
            if q == p {
                assert(after[pos as int] == q);
            }
        }
    }
}

/// Every count within the search radius of one of the centres, each once, in increasing order.
pub fn to_nums(centers: &Vec<TNTNum>) -> (nums: Vec<TNTNum>)
    requires
        forall|k: int| 0 <= k < centers@.len() ==> center_fits(#[trigger] centers@[k]),
    ensures
        strictly_sorted(nums@),
        forall|p: TNTNum| #[trigger] nums@.contains(p) <==> covered(centers@, centers@.len() as int, p),
{
    let mut nums: Vec<TNTNum> = Vec::new();
    let mut ci: usize = 0;
    while ci < centers.len()
        invariant
            ci <= centers@.len(),
            forall|k: int| 0 <= k < centers@.len() ==> center_fits(#[trigger] centers@[k]),
            strictly_sorted(nums@),
            forall|p: TNTNum| #[trigger] nums@.contains(p) <==> covered(centers@, ci as int, p),
        decreases centers@.len() - ci,
    {
        let c = centers[ci];
        assert(center_fits(centers@[ci as int]));
        let mut dy: i64 = -SEARCH_RADIUS;
        while dy <= SEARCH_RADIUS
            invariant
                ci < centers@.len(),
                c == centers@[ci as int],
                center_fits(c),
                -SEARCH_RADIUS <= dy <= SEARCH_RADIUS + 1,
                strictly_sorted(nums@),
                forall|p: TNTNum| #[trigger]
                    nums@.contains(p) <==> (covered(centers@, ci as int, p) || (near(p, c) && p.y
                        - c.y < dy)),
            decreases SEARCH_RADIUS + 1 - dy,
        {
            let mut dx: i64 = -SEARCH_RADIUS;
            while dx <= SEARCH_RADIUS
                invariant
                    ci < centers@.len(),
                    c == centers@[ci as int],
                    center_fits(c),
                    -SEARCH_RADIUS <= dy <= SEARCH_RADIUS,
                    -SEARCH_RADIUS <= dx <= SEARCH_RADIUS + 1,
                    strictly_sorted(nums@),
                    forall|p: TNTNum| #[trigger]
                        nums@.contains(p) <==> (covered(centers@, ci as int, p) || (near(p, c) && (
                        p.y - c.y < dy || (p.y - c.y == dy && p.x - c.x < dx)))),
                decreases SEARCH_RADIUS + 1 - dx,
            {
                let p = TNTNum { x: c.x + dx, y: c.y + dy };
                insert_sorted(&mut nums, p);
                dx = dx + 1;
            }
            dy = dy + 1;
        }
        proof {
            assert forall|p: TNTNum| #[trigger] nums@.contains(p) <==> covered(
                centers@,
                ci + 1,
                p,
            ) by {
                if covered(centers@, ci + 1, p) && !covered(centers@, ci as int, p) {
                    let k = choose|k: int| 0 <= k < ci + 1 && near(p, #[trigger] centers@[k]);
                    assert(k == ci);
                }
                if near(p, c) {
                    assert(near(p, centers@[ci as int]));
                }
                if covered(centers@, ci as int, p) {
                    let k = choose|k: int| 0 <= k < ci && near(p, #[trigger] centers@[k]);
                    assert(near(p, centers@[k]));
                }
            }
        }
        ci = ci + 1;
    }
    nums
}

} // verus!

use vstd::prelude::*;

use crate::hit::COORD_LIMIT;
use crate::hit::SCALE;
use crate::hit::ray_intersects_rotated_cylinder;
use crate::hit::spec_hit;

verus! {

/// Number of sample points in `pts` whose rays hit the rotated cylinder.
pub open spec fn spec_hit_count(pts: Seq<(i64, i64)>, r: int, h: int, s: int, c: int) -> int
    decreases pts.len(),
{
    if pts.len() == 0 {
        0
    } else {
        spec_hit_count(pts.drop_last(), r, h, s, c) + if spec_hit(
            pts.last().0 as int,
            pts.last().1 as int,
            r,
            h,
            s,
            c,
        ) {
            1int
        } else {
            0int
        }
    }
}

/// Exact hit tally of the Monte Carlo estimator: given the sampled
/// transverse offsets and the cylinder's scaled geometry, returns how
/// many of the sampled rays hit. The caller turns this exact integer
/// tally into an area estimate by scaling the hit fraction with the
/// sampling-rectangle area.
pub fn count_hits(
    points: &Vec<(i64, i64)>,
    radius: i64,
    height: i64,
    sin_t: i64,
    cos_t: i64,
) -> (hits: usize)
    requires
        0 < radius <= COORD_LIMIT,
        0 < height <= COORD_LIMIT,
        0 <= sin_t <= SCALE,
        0 <= cos_t <= SCALE,
        sin_t > 0 || cos_t > 0,
        forall|i: int|
            0 <= i < points@.len() ==> -COORD_LIMIT <= (#[trigger] points@[i]).0 <= COORD_LIMIT
                && -COORD_LIMIT <= points@[i].1 <= COORD_LIMIT,
    ensures
        hits == spec_hit_count(points@, radius as int, height as int, sin_t as int, cos_t as int),
        hits <= points@.len(),
{
    let ghost r = radius as int;
    let ghost h = height as int;
    let ghost s = sin_t as int;
    let ghost c = cos_t as int;
    let mut hits: usize = 0;
    let mut i: usize = 0;
    while i < points.len()
        invariant
            i <= points@.len(),
            hits <= i,
            hits == spec_hit_count(points@.take(i as int), r, h, s, c),
            0 < radius <= COORD_LIMIT,
            0 < height <= COORD_LIMIT,
            0 <= sin_t <= SCALE,
            0 <= cos_t <= SCALE,
            sin_t > 0 || cos_t > 0,
            r == radius as int && h == height as int && s == sin_t as int && c == cos_t as int,
            forall|j: int|
                0 <= j < points@.len() ==> -COORD_LIMIT <= (#[trigger] points@[j]).0
                    <= COORD_LIMIT && -COORD_LIMIT <= points@[j].1 <= COORD_LIMIT,
        decreases points@.len() - i,
    {
        let (px, py) = points[i];
        if ray_intersects_rotated_cylinder(px, py, radius, height, sin_t, cos_t) {
            hits = hits + 1;
        }
        i = i + 1;
        proof {
            assert(points@.take(i as int).drop_last() =~= points@.take(i as int - 1));
            assert(points@.take(i as int).last() == points@[i as int - 1]);
        }
    }
    proof {
        assert(points@.take(points@.len() as int) =~= points@);
    }
    hits
}

} // verus!

use crate::fixed::{abs, isqrt, lemma_square_monotonic, sqrt_floor, ONE};
use crate::vector::{lemma_scaled_to_length, magnitude, scale_to, scaled_to, Vec2};
use vstd::prelude::*;

verus! {

/// Where a circle touches a rectangle: the direction from the rectangle to
/// the circle's centre, brought to length `ONE`, and how deep the circle
/// reaches into the rectangle along it.
#[derive(Clone, Copy, Debug, PartialEq, Eq, Structural)]
pub struct Contact {
    pub normal: Vec2,
    pub penetration: i64,
}

/// The coordinate between `lo` and `lo + size` that is nearest to `c`.
pub open spec fn nearest_coordinate(c: int, lo: int, size: int) -> int {
    if c < lo {
        lo
    } else if c > lo + size {
        lo + size
    } else {
        c
    }
}

/// The way from the point of the rectangle that is nearest to `centre` to
/// `centre` itself: first along x, then along y.
pub open spec fn separation(centre: Vec2, rect_min: Vec2, rect_size: Vec2) -> (int, int) {
    (
        centre.x - nearest_coordinate(centre.x as int, rect_min.x as int, rect_size.x as int),
        centre.y - nearest_coordinate(centre.y as int, rect_min.y as int, rect_size.y as int),
    )
}

/// Whether the centre of the circle lies in the rectangle or on its edge, so
/// that no direction leads from the rectangle to it.
pub open spec fn centre_covered(centre: Vec2, rect_min: Vec2, rect_size: Vec2) -> bool {
    separation(centre, rect_min, rect_size) == (0int, 0int)
}

/// The contact of a circle with a rectangle, if there is one: none where the
/// centre is farther from the rectangle than the radius, and none where the
/// rectangle covers the centre.
pub open spec fn spec_detect(centre: Vec2, radius: int, rect_min: Vec2, rect_size: Vec2) -> Option<
    Contact,
> {
    let (sx, sy) = separation(centre, rect_min, rect_size);
    let d2 = sx * sx + sy * sy;
    if d2 == 0 || d2 > radius * radius {
        None
    } else {
        Some(
            Contact {
                normal: scaled_to(sx, sy, ONE as int),
                penetration: (radius - sqrt_floor(d2)) as i64,
            },
        )
    }
}

impl Contact {
    /// The normal has length one to within two millionths and the depth is
    /// not negative.
    pub open spec fn wf(self) -> bool {
        &&& -ONE <= self.normal.x <= ONE
        &&& -ONE <= self.normal.y <= ONE
        &&& (ONE - 2) * (ONE - 2) <= self.normal.norm_sq() < (ONE + 1) * (ONE + 1)
        &&& 0 <= self.penetration
    }
}

/// The way from the nearest coordinate of a side to `c`.
fn separation_along(c: i64, lo: i64, size: i64) -> (r: i128)
    ensures
        r == c - nearest_coordinate(c as int, lo as int, size as int),
{
    let hi: i128 = lo as i128 + size as i128;
    if c < lo {
        c as i128 - lo as i128
    } else if c as i128 > hi {
        c as i128 - hi
    } else {
        0
    }
}

/// Whether the rectangle covers the centre of the circle: the case in which
/// `detect` reports no contact although the two overlap.
pub fn covers_centre(centre: Vec2, rect_min: Vec2, rect_size: Vec2) -> (r: bool)
    ensures
        r == centre_covered(centre, rect_min, rect_size),
{
    separation_along(centre.x, rect_min.x, rect_size.x) == 0 && separation_along(
        centre.y,
        rect_min.y,
        rect_size.y,
    ) == 0
}

/// Tests a circle against a rectangle with sides along the axes, given by
/// its least corner and its size.
pub fn detect(centre: Vec2, radius: i64, rect_min: Vec2, rect_size: Vec2) -> (r: Option<Contact>)
    requires
        radius > 0,
        rect_size.x > 0,
        rect_size.y > 0,
    ensures
        r == spec_detect(centre, radius as int, rect_min, rect_size),
        r matches Some(c) ==> c.wf() && c.penetration < radius,
{
    let sx: i128 = separation_along(centre.x, rect_min.x, rect_size.x);
    let sy: i128 = separation_along(centre.y, rect_min.y, rect_size.y);
    let reach: i128 = radius as i128;
    proof {
        assert(sx * sx >= 0 && sy * sy >= 0) by (nonlinear_arith);
        assert(radius * radius == reach * reach);
    }
    if sx > reach || sx < -reach {
        proof {
            lemma_square_monotonic(reach + 1, abs(sx as int));
            assert(abs(sx as int) * abs(sx as int) == sx * sx) by (nonlinear_arith);
            assert((reach + 1) * (reach + 1) > reach * reach) by (nonlinear_arith)
                requires
                    reach > 0,
            ;
        }
        return None;
    }
    if sy > reach || sy < -reach {
        proof {
            lemma_square_monotonic(reach + 1, abs(sy as int));
            assert(abs(sy as int) * abs(sy as int) == sy * sy) by (nonlinear_arith);
            assert((reach + 1) * (reach + 1) > reach * reach) by (nonlinear_arith)
                requires
                    reach > 0,
            ;
        }
        return None;
    }
    let mx: u128 = magnitude(sx);
    let my: u128 = magnitude(sy);
    let rr: u128 = radius as u128;
    proof {
        lemma_square_monotonic(mx as int, rr as int);
        lemma_square_monotonic(my as int, rr as int);
        assert(rr * rr <= 0x7fff_ffff_ffff_ffff * 0x7fff_ffff_ffff_ffff) by (nonlinear_arith)
            requires
                0 <= rr <= 0x7fff_ffff_ffff_ffff,
        ;
        assert(mx * mx == sx * sx && my * my == sy * sy) by (nonlinear_arith)
            requires
                mx == abs(sx as int),
                my == abs(sy as int),
        ;
    }
    let d2: u128 = mx * mx + my * my;
    if d2 == 0 || d2 > rr * rr {
        return None;
    }
    let distance: u64 = isqrt(d2);
    proof {
        if distance > radius {
            lemma_square_monotonic(radius + 1, distance as int);
            assert((radius + 1) * (radius + 1) > radius * radius) by (nonlinear_arith)
                requires
                    radius > 0,
            ;
        }
        if sx == 0 && sy == 0 {
            assert(sx * sx + sy * sy == 0) by (nonlinear_arith)
                requires
                    sx == 0,
                    sy == 0,
            ;
        }
        if distance == 0 {
            assert((distance + 1) * (distance + 1) == 1) by (nonlinear_arith)
                requires
                    distance == 0,
            ;
        }
        lemma_scaled_to_length(sx as int, sy as int, ONE as int);
        assert((ONE + ONE / 0x8000_0000 + 1) == ONE + 1);
    }
    Some(
        Contact {
            normal: scale_to(sx, sy, ONE as u64),
            penetration: radius - distance as i64,
        },
    )
}

} // verus!

use crate::fixed::{
    div_trunc, isqrt, lemma_sqrt_floor_exists, quotient, sat, saturate, sqrt_floor, ONE,
};
use crate::vector::Vec2;
use vstd::prelude::*;

verus! {

/// Half a turn, in angle units: an angle counts millionths of a radian.
pub const PI: i64 = 3_141_593;

/// A full turn, in angle units.
pub const TAU: i64 = 6_283_185;

/// A quarter of a turn, in angle units.
pub const QUARTER_TURN: i64 = 1_570_796;

/// An eighth of a turn, in angle units.
pub const EIGHTH_TURN: i64 = 785_398;

/// A rotation of the plane, held as the cosine and the sine of its angle,
/// each counted in millionths.
#[derive(Clone, Copy, Debug, PartialEq, Eq, Structural)]
pub struct Rotation {
    pub cos: i64,
    pub sin: i64,
}

/// The sine of the angle `x`, for `x` between zero and an eighth of a turn,
/// in millionths: the series of the sine up to the seventh power, summed in
/// thousandths of a millionth and rounded to the nearest millionth.
pub open spec fn sin_eighth(x: int) -> int {
    let a = x * 1000;
    let a2 = a * a / 1_000_000_000;
    let t3 = a * a2 / 6_000_000_000;
    let t5 = t3 * a2 / 20_000_000_000;
    let t7 = t5 * a2 / 42_000_000_000;
    (a - t3 + t5 - t7 + 500) / 1000
}

/// The sine of an angle of at most an eighth of a turn to either side.
pub open spec fn sin_small(r: int) -> int {
    if r >= 0 {
        sin_eighth(r)
    } else {
        -sin_eighth(-r)
    }
}

/// The sine of a small angle is no larger than the angle and has its sign.
pub proof fn lemma_sin_small_bounds(r: int)
    requires
        -EIGHTH_TURN <= r <= EIGHTH_TURN,
    ensures
        r >= 0 ==> 0 <= sin_small(r) <= r,
        r <= 0 ==> r <= sin_small(r) <= 0,
{
    let x = if r >= 0 {
        r
    } else {
        -r
    };
    let a = x * 1000;
    let a2 = a * a / 1_000_000_000;
    let t3 = a * a2 / 6_000_000_000;
    let t5 = t3 * a2 / 20_000_000_000;
    let t7 = t5 * a2 / 42_000_000_000;
    assert(0 <= a2 <= a) by (nonlinear_arith)
        requires
            0 <= a <= 1_000_000_000,
            a2 == a * a / 1_000_000_000,
    ;
    assert(0 <= t3 <= a) by (nonlinear_arith)
        requires
            0 <= a2 <= 1_000_000_000,
            0 <= a,
            t3 == a * a2 / 6_000_000_000,
    ;
    assert(0 <= t5 <= t3) by (nonlinear_arith)
        requires
            0 <= a2 <= 1_000_000_000,
            0 <= t3,
            t5 == t3 * a2 / 20_000_000_000,
    ;
    assert(0 <= t7 <= t5) by (nonlinear_arith)
        requires
            0 <= a2 <= 1_000_000_000,
            0 <= t5,
            t7 == t5 * a2 / 42_000_000_000,
    ;
    assert(sin_eighth(x) == (a - t3 + t5 - t7 + 500) / 1000);
}

/// The sine of the angle `x`, for `x` between zero and an eighth of a turn.
fn sine_of_eighth(x: u64) -> (m: u64)
    requires
        x <= EIGHTH_TURN,
    ensures
        m == sin_eighth(x as int),
        m <= x,
{
    let a: u64 = x * 1000;
    assert(a * a <= 1_000_000_000 * 1_000_000_000) by (nonlinear_arith)
        requires
            0 <= a <= 1_000_000_000,
    ;
    let a2: u64 = a * a / 1_000_000_000;
    assert(0 <= a2 <= a) by (nonlinear_arith)
        requires
            0 <= a <= 1_000_000_000,
            a2 == a * a / 1_000_000_000,
    ;
    assert(a * a2 <= 1_000_000_000 * 1_000_000_000) by (nonlinear_arith)
        requires
            0 <= a <= 1_000_000_000,
            0 <= a2 <= 1_000_000_000,
    ;
    let t3: u64 = a * a2 / 6_000_000_000;
    assert(0 <= t3 <= a) by (nonlinear_arith)
        requires
            0 <= a2 <= 1_000_000_000,
            0 <= a,
            t3 == a * a2 / 6_000_000_000,
    ;
    assert(t3 * a2 <= 1_000_000_000 * 1_000_000_000) by (nonlinear_arith)
        requires
            0 <= t3 <= 1_000_000_000,
            0 <= a2 <= 1_000_000_000,
    ;
    let t5: u64 = t3 * a2 / 20_000_000_000;
    assert(0 <= t5 <= t3) by (nonlinear_arith)
        requires
            0 <= a2 <= 1_000_000_000,
            0 <= t3,
            t5 == t3 * a2 / 20_000_000_000,
    ;
    assert(t5 * a2 <= 1_000_000_000 * 1_000_000_000) by (nonlinear_arith)
        requires
            0 <= t5 <= 1_000_000_000,
            0 <= a2 <= 1_000_000_000,
    ;
    let t7: u64 = t5 * a2 / 42_000_000_000;
    assert(0 <= t7 <= t5) by (nonlinear_arith)
        requires
            0 <= a2 <= 1_000_000_000,
            0 <= t5,
            t7 == t5 * a2 / 42_000_000_000,
    ;
    (a - t3 + t5 - t7 + 500) / 1000
}

impl Rotation {
    /// Cosine and sine are those of one angle, as far as millionths can tell:
    /// the sum of their squares misses one by no more than two millionths,
    /// and from below.
    pub open spec fn wf(self) -> bool {
        &&& -ONE <= self.cos <= ONE
        &&& -ONE <= self.sin <= ONE
        &&& ONE * ONE - 2 * ONE <= self.cos * self.cos + self.sin * self.sin <= ONE * ONE
    }

    /// The rotation by `angle`: the angle is brought into one turn, the
    /// nearest quarter turn is split off, and of what is left the sine is
    /// `sin_small` and the cosine what Pythagoras leaves, rounded down.
    pub open spec fn spec_from_angle(angle: int) -> Rotation {
        let t = angle % (TAU as int);
        let k = (t + EIGHTH_TURN) / (QUARTER_TURN as int);
        let s = sin_small(t - k * QUARTER_TURN);
        let c = sqrt_floor(ONE * ONE - s * s);
        if k == 1 {
            Rotation { cos: (-s) as i64, sin: c as i64 }
        } else if k == 2 {
            Rotation { cos: (-c) as i64, sin: (-s) as i64 }
        } else if k == 3 {
            Rotation { cos: s as i64, sin: (-c) as i64 }
        } else {
            Rotation { cos: c as i64, sin: s as i64 }
        }
    }

    /// `v` turned by this rotation, each coordinate rounded toward zero and
    /// kept in the range of `i64`.
    pub open spec fn spec_apply(self, v: Vec2) -> Vec2 {
        Vec2 {
            x: sat(div_trunc(v.x * self.cos - v.y * self.sin, ONE as int)) as i64,
            y: sat(div_trunc(v.x * self.sin + v.y * self.cos, ONE as int)) as i64,
        }
    }

    /// The rotation by `angle`, counted in millionths of a radian,
    /// anticlockwise.
    pub fn from_angle(angle: i64) -> (r: Rotation)
        ensures
            r == Self::spec_from_angle(angle as int),
            r.wf(),
    {
        let rem: i64 = angle % TAU;
        let t: i64 = if rem < 0 {
            rem + TAU
        } else {
            rem
        };
        assert(t == (angle as int) % (TAU as int)) by (nonlinear_arith)
            requires
                rem == if angle >= 0 {
                    (angle as int) % (TAU as int)
                } else {
                    -((-(angle as int)) % (TAU as int))
                },
                t == if rem < 0 {
                    rem + TAU
                } else {
                    rem as int
                },
                TAU == 6_283_185,
        ;
        let k: i64 = (t + EIGHTH_TURN) / QUARTER_TURN;
        let r: i64 = t - k * QUARTER_TURN;
        let x: u64 = if r >= 0 {
            r as u64
        } else {
            (-r) as u64
        };
        let m: u64 = sine_of_eighth(x);
        let s: i64 = if r >= 0 {
            m as i64
        } else {
            -(m as i64)
        };
        assert(0 <= s * s <= ONE * ONE) by (nonlinear_arith)
            requires
                -ONE <= s <= ONE,
        ;
        let root: u64 = isqrt((ONE * ONE - s * s) as u128);
        proof {
            if root > ONE {
                assert(root * root > ONE * ONE) by (nonlinear_arith)
                    requires
                        root > ONE,
                        ONE > 0,
                ;
            }
            lemma_from_angle_wf(angle as int);
        }
        let c: i64 = root as i64;
        if k == 1 {
            Rotation { cos: -s, sin: c }
        } else if k == 2 {
            Rotation { cos: -c, sin: -s }
        } else if k == 3 {
            Rotation { cos: s, sin: -c }
        } else {
            Rotation { cos: c, sin: s }
        }
    }

    /// `v` turned by this rotation.
    pub fn apply(self, v: Vec2) -> (r: Vec2)
        requires
            self.wf(),
        ensures
            r == self.spec_apply(v),
    {
        let vx: i128 = v.x as i128;
        let vy: i128 = v.y as i128;
        let c: i128 = self.cos as i128;
        let s: i128 = self.sin as i128;
        assert(-0x8000_0000_0000_0000 * 1_000_000 <= vx * c <= 0x8000_0000_0000_0000 * 1_000_000
            && -0x8000_0000_0000_0000 * 1_000_000 <= vy * c <= 0x8000_0000_0000_0000 * 1_000_000)
            by (nonlinear_arith)
            requires
                -0x8000_0000_0000_0000 <= vx <= 0x8000_0000_0000_0000,
                -0x8000_0000_0000_0000 <= vy <= 0x8000_0000_0000_0000,
                -1_000_000 <= c <= 1_000_000,
        ;
        assert(-0x8000_0000_0000_0000 * 1_000_000 <= vx * s <= 0x8000_0000_0000_0000 * 1_000_000
            && -0x8000_0000_0000_0000 * 1_000_000 <= vy * s <= 0x8000_0000_0000_0000 * 1_000_000)
            by (nonlinear_arith)
            requires
                -0x8000_0000_0000_0000 <= vx <= 0x8000_0000_0000_0000,
                -0x8000_0000_0000_0000 <= vy <= 0x8000_0000_0000_0000,
                -1_000_000 <= s <= 1_000_000,
        ;
        Vec2 {
            x: saturate(quotient(vx * c - vy * s, ONE as i128)),
            y: saturate(quotient(vx * s + vy * c, ONE as i128)),
        }
    }
}

/// Every angle gives a rotation whose cosine and sine fit together.
pub proof fn lemma_from_angle_wf(angle: int)
    ensures
        Rotation::spec_from_angle(angle).wf(),
{
    let t = angle % (TAU as int);
    let k = (t + EIGHTH_TURN) / (QUARTER_TURN as int);
    let r = t - k * QUARTER_TURN;
    assert(0 <= k <= 4 && -EIGHTH_TURN <= r <= EIGHTH_TURN) by (nonlinear_arith)
        requires
            0 <= t < 6_283_185,
            k == (t + 785_398) / 1_570_796,
            r == t - k * 1_570_796,
            EIGHTH_TURN == 785_398,
    ;
    lemma_sin_small_bounds(r);
    let s = sin_small(r);
    assert(0 <= s * s <= ONE * ONE) by (nonlinear_arith)
        requires
            -ONE <= s <= ONE,
    ;
    lemma_sqrt_floor_exists(ONE * ONE - s * s);
    let c = sqrt_floor(ONE * ONE - s * s);
    if c > ONE {
        assert(c * c > ONE * ONE) by (nonlinear_arith)
            requires
                c > ONE,
                ONE > 0,
        ;
    }
    assert((c + 1) * (c + 1) == c * c + 2 * c + 1) by (nonlinear_arith);
    assert((-c) * (-c) == c * c && (-s) * (-s) == s * s) by (nonlinear_arith);
}

/// A turn by a small angle is a small turn: for an angle of less than an
/// eighth of a turn to either side, the sine of the rotation is no larger
/// than the angle, and the cosine is not negative.
pub proof fn lemma_small_angle_is_small_turn(angle: int)
    requires
        -EIGHTH_TURN < angle < EIGHTH_TURN,
    ensures
        Rotation::spec_from_angle(angle).cos >= 0,
        angle >= 0 ==> 0 <= Rotation::spec_from_angle(angle).sin <= angle,
        angle <= 0 ==> angle <= Rotation::spec_from_angle(angle).sin <= 0,
{
    let t = angle % (TAU as int);
    let k = (t + EIGHTH_TURN) / (QUARTER_TURN as int);
    let r = t - k * QUARTER_TURN;
    assert(t == if angle >= 0 {
        angle
    } else {
        angle + TAU
    }) by (nonlinear_arith)
        requires
            t == angle % 6_283_185,
            -785_398 < angle < 785_398,
            TAU == 6_283_185,
    ;
    assert(k == if angle >= 0 {
        0int
    } else {
        4int
    }) by (nonlinear_arith)
        requires
            k == (t + 785_398) / 1_570_796,
            t == if angle >= 0 {
                angle
            } else {
                angle + 6_283_185
            },
            -785_398 < angle < 785_398,
    ;
    lemma_sin_small_bounds(r);
    let s = sin_small(r);
    assert(0 <= s * s <= ONE * ONE) by (nonlinear_arith)
        requires
            -ONE <= s <= ONE,
    ;
    lemma_sqrt_floor_exists(ONE * ONE - s * s);
    let c = sqrt_floor(ONE * ONE - s * s);
    if c > ONE {
        assert(c * c > ONE * ONE) by (nonlinear_arith)
            requires
                c > ONE,
                ONE > 0,
        ;
    }
}

} // verus!

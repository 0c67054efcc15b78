use crate::fixed::{
    abs, div_trunc, isqrt, lemma_div_trunc_bounds, lemma_rescale_bounds, lemma_rescale_excess,
    lemma_sqrt_floor_exists, lemma_square_monotonic, sat, saturate, sqrt_floor,
};
use vstd::prelude::*;

verus! {

/// A point or a displacement of the plane, each coordinate counted in
/// sub-units (`ONE` of them to the world unit).
#[derive(Clone, Copy, Debug, PartialEq, Eq, Structural)]
pub struct Vec2 {
    pub x: i64,
    pub y: i64,
}

/// The factor by which a short vector is lengthened before its length is
/// taken, so that rounding the length down costs less than one part in 2^31.
pub open spec fn amplification(x: int, y: int) -> int {
    if abs(x) < 0x8000_0000 && abs(y) < 0x8000_0000 {
        0x1_0000_0000
    } else {
        1
    }
}

/// The vector of the direction of `(x, y)` and of length `len`, each
/// coordinate rounded toward zero; `(0, 0)` where `(x, y)` has no direction.
pub open spec fn scaled_to(x: int, y: int, len: int) -> Vec2 {
    let k = amplification(x, y);
    let n = sqrt_floor((k * x) * (k * x) + (k * y) * (k * y));
    if n == 0 {
        Vec2 { x: 0, y: 0 }
    } else {
        Vec2 {
            x: sat(div_trunc((k * x) * len, n)) as i64,
            y: sat(div_trunc((k * y) * len, n)) as i64,
        }
    }
}

/// The magnitude of `x`.
pub fn magnitude(x: i128) -> (r: u128)
    requires
        x > i128::MIN,
    ensures
        r == abs(x as int),
{
    if x < 0 {
        (-x) as u128
    } else {
        x as u128
    }
}

/// `a * len / n` rounded toward zero, then brought into the range of `i64`.
fn scale_component(a: i128, len: u64, n: u64) -> (r: i64)
    requires
        -0x8000_0000_0000_0000 <= a <= 0x8000_0000_0000_0000,
        n > 0,
    ensures
        r == sat(div_trunc(a * len, n as int)),
{
    let m: u128 = magnitude(a);
    assert(m * len <= 0x8000_0000_0000_0000 * 0xffff_ffff_ffff_ffff) by (nonlinear_arith)
        requires
            0 <= m <= 0x8000_0000_0000_0000,
            0 <= len <= 0xffff_ffff_ffff_ffff,
    ;
    let p: u128 = m * (len as u128);
    let q: u128 = p / (n as u128);
    assert(q <= p) by (nonlinear_arith)
        requires
            q == p / (n as u128),
            n > 0,
    ;
    proof {
        assert(a * len == if a >= 0 {
            m * len
        } else {
            -(m * len)
        }) by (nonlinear_arith)
            requires
                m == abs(a as int),
        ;
        assert(a >= 0 ==> a * len >= 0) by (nonlinear_arith)
            requires
                len >= 0,
        ;
        if a < 0 && m * len == 0 {
            assert(div_trunc(a * len, n as int) == 0);
        }
    }
    if a < 0 {
        saturate(-(q as i128))
    } else {
        saturate(q as i128)
    }
}

/// The vector of the direction of `(x, y)` and of length `len`.
pub fn scale_to(x: i128, y: i128, len: u64) -> (r: Vec2)
    requires
        -0x8000_0000_0000_0000 <= x <= 0x8000_0000_0000_0000,
        -0x8000_0000_0000_0000 <= y <= 0x8000_0000_0000_0000,
    ensures
        r == scaled_to(x as int, y as int, len as int),
{
    let short: bool = -0x8000_0000 < x && x < 0x8000_0000 && -0x8000_0000 < y && y < 0x8000_0000;
    let k: i128 = if short {
        0x1_0000_0000
    } else {
        1
    };
    assert(k == amplification(x as int, y as int));
    let ax: i128 = k * x;
    let ay: i128 = k * y;
    let mx: u128 = magnitude(ax);
    let my: u128 = magnitude(ay);
    assert(mx * mx <= 0x8000_0000_0000_0000 * 0x8000_0000_0000_0000) by (nonlinear_arith)
        requires
            0 <= mx <= 0x8000_0000_0000_0000,
    ;
    assert(my * my <= 0x8000_0000_0000_0000 * 0x8000_0000_0000_0000) by (nonlinear_arith)
        requires
            0 <= my <= 0x8000_0000_0000_0000,
    ;
    assert(mx * mx == ax * ax && my * my == ay * ay) by (nonlinear_arith)
        requires
            mx == abs(ax as int),
            my == abs(ay as int),
    ;
    let n: u64 = isqrt(mx * mx + my * my);
    if n == 0 {
        Vec2 { x: 0, y: 0 }
    } else {
        Vec2 { x: scale_component(ax, len, n), y: scale_component(ay, len, n) }
    }
}

/// How long a rescaled vector is: no coordinate exceeds `len`, each keeps
/// its sign, and the length misses `len` by less than two sub-units from
/// below and by less than one part in 2^31, and one sub-unit, from above.
pub proof fn lemma_scaled_to_length(x: int, y: int, len: int)
    requires
        x != 0 || y != 0,
        0 <= len <= i64::MAX,
    ensures
        ({
            let r = scaled_to(x, y, len);
            &&& abs(r.x as int) <= len
            &&& abs(r.y as int) <= len
            &&& x >= 0 ==> r.x >= 0
            &&& x <= 0 ==> r.x <= 0
            &&& y >= 0 ==> r.y >= 0
            &&& y <= 0 ==> r.y <= 0
            &&& len >= 2 ==> (len - 2) * (len - 2) <= r.norm_sq()
            &&& r.norm_sq() < (len + len / 0x8000_0000 + 1) * (len + len / 0x8000_0000 + 1)
        }),
{
    let k = amplification(x, y);
    let ax = k * x;
    let ay = k * y;
    let sq = ax * ax + ay * ay;
    assert(ax * ax >= 0 && ay * ay >= 0) by (nonlinear_arith);
    lemma_sqrt_floor_exists(sq);
    let n = sqrt_floor(sq);
    // the lengthened vector is at least 2^31 long
    assert(sq >= 0x8000_0000 * 0x8000_0000) by {
        if abs(ax) >= 0x8000_0000 {
            lemma_square_monotonic(0x8000_0000, abs(ax));
            assert(abs(ax) * abs(ax) == ax * ax) by (nonlinear_arith);
        } else {
            assert(abs(ay) >= 0x8000_0000);
            lemma_square_monotonic(0x8000_0000, abs(ay));
            assert(abs(ay) * abs(ay) == ay * ay) by (nonlinear_arith);
        }
    }
    if n < 0x8000_0000 {
        lemma_square_monotonic(n + 1, 0x8000_0000);
    }
    lemma_rescale_bounds(ax, ay, len, n);
    let p = div_trunc(ax * len, n);
    let q = div_trunc(ay * len, n);
    lemma_div_trunc_bounds(ax * len, n);
    lemma_div_trunc_bounds(ay * len, n);
    assert(x >= 0 ==> ax * len >= 0) by (nonlinear_arith)
        requires
            ax == k * x,
            k >= 1,
            len >= 0,
    ;
    assert(x <= 0 ==> ax * len <= 0) by (nonlinear_arith)
        requires
            ax == k * x,
            k >= 1,
            len >= 0,
    ;
    assert(y >= 0 ==> ay * len >= 0) by (nonlinear_arith)
        requires
            ay == k * y,
            k >= 1,
            len >= 0,
    ;
    assert(y <= 0 ==> ay * len <= 0) by (nonlinear_arith)
        requires
            ay == k * y,
            k >= 1,
            len >= 0,
    ;
    let r = scaled_to(x, y, len);
    assert(r.x == p && r.y == q);
    let w = len + len / 0x8000_0000 + 1;
    assert(r.norm_sq() == p * p + q * q);
    if len == 0 {
        assert(p == 0 && q == 0);
        assert(p * p + q * q == 0);
        assert(w == 1);
        assert(w * w == 1) by (nonlinear_arith)
            requires
                w == 1,
        ;
    } else {
        assert(p * p + q * q >= 0) by (nonlinear_arith);
        assert((len * len) * sq < (len * len) * ((n + 1) * (n + 1))) by (nonlinear_arith)
            requires
                len >= 1,
                sq < (n + 1) * (n + 1),
        ;
        lemma_rescale_excess(p * p + q * q, len, n, 0x8000_0000);
    }
    assert(r.norm_sq() < w * w);
}

impl Vec2 {
    /// The square of the length.
    pub open spec fn norm_sq(self) -> int {
        self.x * self.x + self.y * self.y
    }

    /// The length, rounded down to whole sub-units.
    pub open spec fn norm(self) -> int {
        sqrt_floor(self.norm_sq())
    }

    /// The vector moved by `d`, each coordinate kept in the range of `i64`.
    pub open spec fn spec_translated(self, d: Vec2) -> Vec2 {
        Vec2 { x: sat(self.x + d.x) as i64, y: sat(self.y + d.y) as i64 }
    }

    /// The vector with the coordinates `x` and `y`.
    pub fn new(x: i64, y: i64) -> (r: Vec2)
        ensures
            r == (Vec2 { x, y }),
    {
        Vec2 { x, y }
    }

    /// The square of the length.
    pub fn length_squared(self) -> (r: u128)
        ensures
            r == self.norm_sq(),
    {
        let mx: u128 = magnitude(self.x as i128);
        let my: u128 = magnitude(self.y as i128);
        assert(mx * mx <= 0x8000_0000_0000_0000 * 0x8000_0000_0000_0000) by (nonlinear_arith)
            requires
                0 <= mx <= 0x8000_0000_0000_0000,
        ;
        assert(my * my <= 0x8000_0000_0000_0000 * 0x8000_0000_0000_0000) by (nonlinear_arith)
            requires
                0 <= my <= 0x8000_0000_0000_0000,
        ;
        assert(mx * mx == self.x * self.x && my * my == self.y * self.y) by (nonlinear_arith)
            requires
                mx == abs(self.x as int),
                my == abs(self.y as int),
        ;
        mx * mx + my * my
    }

    /// The length, rounded down to whole sub-units.
    pub fn length(self) -> (r: u64)
        ensures
            r == self.norm(),
    {
        isqrt(self.length_squared())
    }

    /// The vector moved by `d`; a coordinate that leaves the range of `i64`
    /// stops at its end.
    pub fn translated(self, d: Vec2) -> (r: Vec2)
        ensures
            r == self.spec_translated(d),
    {
        Vec2 {
            x: saturate(self.x as i128 + d.x as i128),
            y: saturate(self.y as i128 + d.y as i128),
        }
    }

    /// The vector of the same direction and of length `len`; the zero vector
    /// stays as it is.
    pub fn with_length(self, len: u64) -> (r: Vec2)
        ensures
            r == scaled_to(self.x as int, self.y as int, len as int),
    {
        scale_to(self.x as i128, self.y as i128, len)
    }
}

} // verus!

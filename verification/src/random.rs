use crate::fixed::{div_trunc, quotient, ONE};
use crate::rotation::TAU;
use crate::vector::Vec2;
use vstd::prelude::*;

verus! {

/// How much faster than a ball's launch speed a block or a paddle drifts, in
/// millionths.
pub const DRIFT_FACTOR: i64 = 2_050_000;

/// A number drawn by `rand::random::<u32>()`, which takes the next 32 bits
/// of the thread's generator. Nothing is claimed of the number: every `u32`
/// may come, and two calls may differ.
#[verifier::external_body]
pub(crate) fn draw() -> (r: u32) {
    rand::random::<u32>()
}

/// The fraction of one that a draw stands for, in millionths: its upper 24
/// bits over 2^24, rounded down.
pub open spec fn unit_fraction(draw: u32) -> int {
    (draw as int / 256) * ONE / 0x100_0000
}

/// Whether a draw lies in the upper half, by its upper 24 bits: the side of
/// a fair coin.
pub open spec fn spec_heads(draw: u32) -> bool {
    draw as int / 256 > 0x80_0000
}

/// The angle between `-max` and `max` that a draw stands for: the fraction,
/// doubled and moved down by one, times `max`, rounded toward zero.
pub open spec fn spread_angle(draw: u32, max: int) -> int {
    div_trunc((2 * unit_fraction(draw) - ONE) * max, ONE as int)
}

/// The angle within one turn that a draw stands for.
pub open spec fn turn_angle(draw: u32) -> int {
    unit_fraction(draw) * TAU / (ONE as int)
}

/// The fraction of one that a draw stands for, in millionths.
pub fn fraction(draw: u32) -> (r: i64)
    ensures
        r == unit_fraction(draw),
        0 <= r < ONE,
{
    let top: i64 = (draw / 256) as i64;
    assert(0 <= top * ONE <= 0xff_ffff * ONE) by (nonlinear_arith)
        requires
            0 <= top <= 0xff_ffff,
            ONE == 1_000_000,
    ;
    top * ONE / 0x100_0000
}

/// Whether a draw lies in the upper half.
pub fn heads(draw: u32) -> (r: bool)
    ensures
        r == spec_heads(draw),
{
    draw / 256 > 0x80_0000
}

/// The angle between `-max` and `max` that a draw stands for.
pub fn symmetric_angle(draw: u32, max: i64) -> (r: i64)
    requires
        0 <= max,
    ensures
        r == spread_angle(draw, max as int),
        -max <= r <= max,
{
    let u: i64 = fraction(draw);
    let centred: i128 = (2 * u - ONE) as i128;
    let width: i128 = max as i128;
    assert(-ONE * width <= centred * width <= ONE * width) by (nonlinear_arith)
        requires
            -ONE <= centred <= ONE,
            0 <= width,
            ONE == 1_000_000,
    ;
    let r: i128 = quotient(centred * width, ONE as i128);
    assert(-width <= r <= width) by (nonlinear_arith)
        requires
            r == div_trunc(centred * width, ONE as int),
            -ONE * width <= centred * width <= ONE * width,
            ONE == 1_000_000,
    ;
    r as i64
}

/// The angle within one turn that a draw stands for.
pub fn full_turn_angle(draw: u32) -> (r: i64)
    ensures
        r == turn_angle(draw),
        0 <= r < TAU,
{
    let u: i64 = fraction(draw);
    assert(0 <= u * TAU <= (ONE - 1) * TAU) by (nonlinear_arith)
        requires
            0 <= u <= ONE - 1,
            TAU == 6_283_185,
            ONE == 1_000_000,
    ;
    u * TAU / ONE
}

/// The speed along one axis with which a body sets out: between half a
/// unit and two and a half units per tick.
pub open spec fn launch_size(size_draw: u32) -> int {
    2 * unit_fraction(size_draw) + ONE / 2
}

/// The velocity along one axis with which a body sets out: of the size that
/// `size_draw` gives, forward where `sign_draw` shows heads and backward
/// where it does not.
pub open spec fn launch_speed(sign_draw: u32, size_draw: u32) -> int {
    if spec_heads(sign_draw) {
        launch_size(size_draw)
    } else {
        -launch_size(size_draw)
    }
}

/// The speed along one axis with which a body sets out.
pub fn launch_magnitude(size_draw: u32) -> (r: i64)
    ensures
        r == launch_size(size_draw),
        ONE / 2 <= r < 5 * ONE / 2,
{
    2 * fraction(size_draw) + ONE / 2
}

/// The velocity along one axis with which a body sets out.
pub fn launch(sign_draw: u32, size_draw: u32) -> (r: i64)
    ensures
        r == launch_speed(sign_draw, size_draw),
        ONE / 2 <= r < 5 * ONE / 2 || -5 * ONE / 2 < r <= -ONE / 2,
{
    let size: i64 = launch_magnitude(size_draw);
    if heads(sign_draw) {
        size
    } else {
        -size
    }
}

/// The velocity with which a block or a paddle sets out: sideways, at 2.05
/// times the launch speed, rounded toward zero.
pub open spec fn drift_velocity(sign_draw: u32, size_draw: u32) -> Vec2 {
    Vec2 {
        x: div_trunc(launch_speed(sign_draw, size_draw) * DRIFT_FACTOR, ONE as int) as i64,
        y: 0,
    }
}

/// The velocity with which a block or a paddle sets out.
pub fn drift(sign_draw: u32, size_draw: u32) -> (r: Vec2)
    ensures
        r == drift_velocity(sign_draw, size_draw),
        r.y == 0,
        1_025_000 <= r.x < 5_125_000 || -5_125_000 < r.x <= -1_025_000,
{
    let v: i64 = launch(sign_draw, size_draw);
    assert(-2_500_000 * 2_050_000 <= v * DRIFT_FACTOR <= 2_500_000 * 2_050_000)
        by (nonlinear_arith)
        requires
            -2_500_000 <= v <= 2_500_000,
            DRIFT_FACTOR == 2_050_000,
    ;
    assert(v >= 500_000 ==> v * DRIFT_FACTOR >= 500_000 * 2_050_000) by (nonlinear_arith)
        requires
            DRIFT_FACTOR == 2_050_000,
    ;
    assert(v <= -500_000 ==> v * DRIFT_FACTOR <= -500_000 * 2_050_000) by (nonlinear_arith)
        requires
            DRIFT_FACTOR == 2_050_000,
    ;
    assert(v < 2_500_000 ==> v * DRIFT_FACTOR <= 2_499_999 * 2_050_000) by (nonlinear_arith)
        requires
            DRIFT_FACTOR == 2_050_000,
    ;
    assert(v > -2_500_000 ==> v * DRIFT_FACTOR >= -2_499_999 * 2_050_000) by (nonlinear_arith)
        requires
            DRIFT_FACTOR == 2_050_000,
    ;
    let x: i128 = quotient((v * DRIFT_FACTOR) as i128, ONE as i128);
    Vec2 { x: x as i64, y: 0 }
}

} // verus!

use crate::common::{Position, Velocity};
use crate::fixed::{
    div_trunc, lemma_sqrt_floor_exists, lemma_sqrt_floor_unique, lemma_square_monotonic,
    quotient, sat, saturate, ONE,
};
use crate::random::{draw, spread_angle, symmetric_angle};
use crate::rotation::{lemma_from_angle_wf, Rotation};
use crate::vector::{amplification, lemma_scaled_to_length, scale_to, scaled_to, Vec2};
use vstd::prelude::*;

verus! {

/// The widest angle by which a bounce is turned to either side: two and a
/// half degrees, in millionths of a radian.
pub const JITTER_MAX: i64 = 43_633;

/// The position after the ball was pushed out of the obstacle: along the
/// normal, by the full depth.
pub open spec fn pushed_out(position: Vec2, normal: Vec2, penetration: int) -> Vec2 {
    Vec2 {
        x: sat(position.x + div_trunc(normal.x * penetration, ONE as int)) as i64,
        y: sat(position.y + div_trunc(normal.y * penetration, ONE as int)) as i64,
    }
}

/// The velocity of the ball relative to the obstacle, taken along the
/// normal and counted in millionths of a sub-unit: negative while the two
/// approach each other.
pub open spec fn approach(velocity: Vec2, obstacle_velocity: Vec2, normal: Vec2) -> int {
    (velocity.x - obstacle_velocity.x) * normal.x + (velocity.y - obstacle_velocity.y) * normal.y
}

/// The velocity after a perfectly elastic bounce: twice the approach is
/// taken back along the normal.
pub open spec fn reflected(velocity: Vec2, obstacle_velocity: Vec2, normal: Vec2) -> Vec2 {
    let a = approach(velocity, obstacle_velocity, normal);
    Vec2 {
        x: sat(velocity.x + div_trunc(-2 * a * normal.x, ONE * ONE)) as i64,
        y: sat(velocity.y + div_trunc(-2 * a * normal.y, ONE * ONE)) as i64,
    }
}

/// The vector of length `speed` whose direction is that of `direction`
/// turned by `turn`; where `direction` is the zero vector, `fallback` gives
/// the direction.
pub open spec fn deflected(direction: Vec2, fallback: Vec2, turn: Rotation, speed: int) -> Vec2 {
    let d = if direction.x == 0 && direction.y == 0 {
        fallback
    } else {
        direction
    };
    let u = scaled_to(d.x as int, d.y as int, ONE as int);
    scaled_to(u.x * turn.cos - u.y * turn.sin, u.x * turn.sin + u.y * turn.cos, speed)
}

/// The velocity of the ball after the contact. A ball that does not
/// approach the obstacle keeps its velocity. One that does is reflected; the
/// direction that results is turned by `angle` and given the speed that the
/// ball had before. A bounce that leaves no direction goes off along the
/// normal.
pub open spec fn resolved_velocity(
    velocity: Vec2,
    obstacle_velocity: Vec2,
    normal: Vec2,
    angle: int,
) -> Vec2 {
    if approach(velocity, obstacle_velocity, normal) >= 0 {
        velocity
    } else {
        deflected(
            reflected(velocity, obstacle_velocity, normal),
            normal,
            Rotation::spec_from_angle(angle),
            velocity.norm(),
        )
    }
}

/// Whether a vector can serve as a contact normal: no coordinate is longer
/// than one.
pub open spec fn is_normal(normal: Vec2) -> bool {
    -ONE <= normal.x <= ONE && -ONE <= normal.y <= ONE
}

/// Whether `after` has the speed of `before`, as far as whole sub-units can
/// tell: it is less than two sub-units slower, and faster by less than one
/// sub-unit and one part in 2^31.
pub open spec fn keeps_speed(before: Vec2, after: Vec2) -> bool {
    let s = before.norm();
    &&& s >= 2 ==> (s - 2) * (s - 2) <= after.norm_sq()
    &&& after.norm_sq() < (s + s / 0x8000_0000 + 1) * (s + s / 0x8000_0000 + 1)
}

/// A resolved contact keeps the speed of the ball, whatever the obstacle
/// does and whatever angle the bounce is turned by, as long as the speed is
/// one that an `i64` can hold.
pub proof fn lemma_resolve_keeps_speed(
    velocity: Vec2,
    obstacle_velocity: Vec2,
    normal: Vec2,
    angle: int,
)
    requires
        velocity.norm() <= i64::MAX,
    ensures
        keeps_speed(velocity, resolved_velocity(velocity, obstacle_velocity, normal, angle)),
{
    let s = velocity.norm();
    assert(velocity.norm_sq() >= 0) by (nonlinear_arith)
        requires
            velocity.norm_sq() == velocity.x * velocity.x + velocity.y * velocity.y,
    ;
    lemma_sqrt_floor_exists(velocity.norm_sq());
    let a = approach(velocity, obstacle_velocity, normal);
    if a >= 0 {
        if s >= 2 {
            lemma_square_monotonic(s - 2, s);
        }
        lemma_square_monotonic(s + 1, s + s / 0x8000_0000 + 1);
    } else {
        let r = reflected(velocity, obstacle_velocity, normal);
        let d = if r.x == 0 && r.y == 0 {
            normal
        } else {
            r
        };
        assert(d.x != 0 || d.y != 0) by {
            if normal.x == 0 && normal.y == 0 {
                assert(a == 0) by (nonlinear_arith)
                    requires
                        a == (velocity.x - obstacle_velocity.x) * normal.x + (velocity.y
                            - obstacle_velocity.y) * normal.y,
                        normal.x == 0,
                        normal.y == 0,
                ;
            }
        }
        let turn = Rotation::spec_from_angle(angle);
        lemma_from_angle_wf(angle);
        lemma_scaled_to_length(d.x as int, d.y as int, ONE as int);
        let u = scaled_to(d.x as int, d.y as int, ONE as int);
        let rx = u.x * turn.cos - u.y * turn.sin;
        let ry = u.x * turn.sin + u.y * turn.cos;
        lemma_turned_nonzero(u, turn);
        lemma_scaled_to_length(rx, ry, s);
    }
}

/// Turning a vector of length one leaves a vector that is not zero.
proof fn lemma_turned_nonzero(u: Vec2, turn: Rotation)
    requires
        turn.wf(),
        (ONE - 2) * (ONE - 2) <= u.norm_sq(),
    ensures
        u.x * turn.cos - u.y * turn.sin != 0 || u.x * turn.sin + u.y * turn.cos != 0,
{
    let c = turn.cos as int;
    let s = turn.sin as int;
    let x = u.x as int;
    let y = u.y as int;
    let rx = x * c - y * s;
    let ry = x * s + y * c;
    let a = x * c;
    let b = y * s;
    let e = x * s;
    let f = y * c;
    assert(rx * rx == a * a - 2 * (a * b) + b * b) by (nonlinear_arith)
        requires
            rx == a - b,
    ;
    assert(ry * ry == e * e + 2 * (e * f) + f * f) by (nonlinear_arith)
        requires
            ry == e + f,
    ;
    assert(a * b == e * f) by (nonlinear_arith)
        requires
            a == x * c,
            b == y * s,
            e == x * s,
            f == y * c,
    ;
    assert(a * a == (x * x) * (c * c)) by (nonlinear_arith)
        requires
            a == x * c,
    ;
    assert(b * b == (y * y) * (s * s)) by (nonlinear_arith)
        requires
            b == y * s,
    ;
    assert(e * e == (x * x) * (s * s)) by (nonlinear_arith)
        requires
            e == x * s,
    ;
    assert(f * f == (y * y) * (c * c)) by (nonlinear_arith)
        requires
            f == y * c,
    ;
    assert((x * x + y * y) * (c * c + s * s) == (x * x) * (c * c) + (x * x) * (s * s) + (y * y) * (
    c * c) + (y * y) * (s * s)) by (nonlinear_arith);
    assert(rx * rx + ry * ry == (x * x + y * y) * (c * c + s * s));
    assert((x * x + y * y) * (c * c + s * s) > 0) by (nonlinear_arith)
        requires
            x * x + y * y >= (ONE - 2) * (ONE - 2),
            c * c + s * s >= ONE * ONE - 2 * ONE,
            ONE == 1_000_000,
    ;
    if rx == 0 && ry == 0 {
        assert(rx * rx + ry * ry == 0) by (nonlinear_arith)
            requires
                rx == 0,
                ry == 0,
        ;
    }
}

/// The approach of the ball to the obstacle along the normal.
fn approach_of(velocity: Vec2, obstacle_velocity: Vec2, normal: Vec2) -> (a: i128)
    requires
        is_normal(normal),
    ensures
        a == approach(velocity, obstacle_velocity, normal),
        -0x2_0000_0000_0000_0000 * 1_000_000 <= a <= 0x2_0000_0000_0000_0000 * 1_000_000,
{
    let rx: i128 = velocity.x as i128 - obstacle_velocity.x as i128;
    let ry: i128 = velocity.y as i128 - obstacle_velocity.y as i128;
    let nx: i128 = normal.x as i128;
    let ny: i128 = normal.y as i128;
    assert(-0x1_0000_0000_0000_0000 * 1_000_000 <= rx * nx <= 0x1_0000_0000_0000_0000 * 1_000_000)
        by (nonlinear_arith)
        requires
            -0x1_0000_0000_0000_0000 <= rx <= 0x1_0000_0000_0000_0000,
            -1_000_000 <= nx <= 1_000_000,
    ;
    assert(-0x1_0000_0000_0000_0000 * 1_000_000 <= ry * ny <= 0x1_0000_0000_0000_0000 * 1_000_000)
        by (nonlinear_arith)
        requires
            -0x1_0000_0000_0000_0000 <= ry <= 0x1_0000_0000_0000_0000,
            -1_000_000 <= ny <= 1_000_000,
    ;
    rx * nx + ry * ny
}

/// One coordinate of the reflected velocity.
fn reflect_component(v: i64, a: i128, n: i64) -> (r: i64)
    requires
        -ONE <= n <= ONE,
        -0x2_0000_0000_0000_0000 * 1_000_000 <= a <= 0x2_0000_0000_0000_0000 * 1_000_000,
    ensures
        r == sat(v + div_trunc(-2 * a * n, ONE * ONE)),
{
    let twice: i128 = -2 * a;
    let nn: i128 = n as i128;
    assert(-0x4_0000_0000_0000_0000 * 1_000_000 * 1_000_000 <= twice * nn
        <= 0x4_0000_0000_0000_0000 * 1_000_000 * 1_000_000) by (nonlinear_arith)
        requires
            -0x4_0000_0000_0000_0000 * 1_000_000 <= twice <= 0x4_0000_0000_0000_0000 * 1_000_000,
            -1_000_000 <= nn <= 1_000_000,
    ;
    let impulse: i128 = quotient(twice * nn, (ONE as i128) * (ONE as i128));
    assert(-0x4_0000_0000_0000_0000 <= impulse <= 0x4_0000_0000_0000_0000) by (nonlinear_arith)
        requires
            impulse == div_trunc(twice * nn, 1_000_000_000_000),
            -0x4_0000_0000_0000_0000 * 1_000_000 * 1_000_000 <= twice * nn
                <= 0x4_0000_0000_0000_0000 * 1_000_000 * 1_000_000,
    ;
    saturate(v as i128 + impulse)
}

/// One coordinate of the position after the push.
fn push_component(p: i64, n: i64, penetration: i64) -> (r: i64)
    requires
        -ONE <= n <= ONE,
    ensures
        r == sat(p + div_trunc(n * penetration, ONE as int)),
{
    let nn: i128 = n as i128;
    let depth: i128 = penetration as i128;
    assert(-0x8000_0000_0000_0000 * 1_000_000 <= nn * depth <= 0x8000_0000_0000_0000 * 1_000_000)
        by (nonlinear_arith)
        requires
            -0x8000_0000_0000_0000 <= depth <= 0x8000_0000_0000_0000,
            -1_000_000 <= nn <= 1_000_000,
    ;
    let push: i128 = quotient(nn * depth, ONE as i128);
    assert(-0x8000_0000_0000_0000 <= push <= 0x8000_0000_0000_0000) by (nonlinear_arith)
        requires
            push == div_trunc(nn * depth, 1_000_000),
            -0x8000_0000_0000_0000 * 1_000_000 <= nn * depth <= 0x8000_0000_0000_0000 * 1_000_000,
    ;
    saturate(p as i128 + push)
}

/// The vector of length `speed` in the direction of `direction` turned by
/// `turn`, or of `fallback` where `direction` is zero.
pub fn deflect(direction: Vec2, fallback: Vec2, turn: Rotation, speed: u64) -> (r: Vec2)
    requires
        turn.wf(),
    ensures
        r == deflected(direction, fallback, turn, speed as int),
{
    let d = if direction.x == 0 && direction.y == 0 {
        fallback
    } else {
        direction
    };
    let u = d.with_length(ONE as u64);
    proof {
        if d.x == 0 && d.y == 0 {
            let z = amplification(0, 0) * 0;
            assert(z * z + z * z == 0) by (nonlinear_arith)
                requires
                    z == 0,
            ;
            lemma_sqrt_floor_unique(0, 0);
        } else {
            lemma_scaled_to_length(d.x as int, d.y as int, ONE as int);
        }
    }
    let ux: i128 = u.x as i128;
    let uy: i128 = u.y as i128;
    let c: i128 = turn.cos as i128;
    let s: i128 = turn.sin as i128;
    assert(-1_000_000 * 1_000_000 <= ux * c <= 1_000_000 * 1_000_000 && -1_000_000 * 1_000_000
        <= ux * s <= 1_000_000 * 1_000_000) by (nonlinear_arith)
        requires
            -1_000_000 <= ux <= 1_000_000,
            -1_000_000 <= c <= 1_000_000,
            -1_000_000 <= s <= 1_000_000,
    ;
    assert(-1_000_000 * 1_000_000 <= uy * c <= 1_000_000 * 1_000_000 && -1_000_000 * 1_000_000
        <= uy * s <= 1_000_000 * 1_000_000) by (nonlinear_arith)
        requires
            -1_000_000 <= uy <= 1_000_000,
            -1_000_000 <= c <= 1_000_000,
            -1_000_000 <= s <= 1_000_000,
    ;
    scale_to(ux * c - uy * s, ux * s + uy * c, speed)
}

/// Resolves one contact with the angle of the bounce given by `jitter_draw`:
/// the ball is pushed out of the obstacle and, where it approaches it,
/// bounces off.
pub fn resolve_with(
    position: &mut Position,
    velocity: &mut Velocity,
    obstacle_velocity: &Velocity,
    normal: Vec2,
    penetration: i64,
    jitter_draw: u32,
)
    requires
        is_normal(normal),
    ensures
        final(position).value == pushed_out(old(position).value, normal, penetration as int),
        final(velocity).value == resolved_velocity(
            old(velocity).value,
            obstacle_velocity.value,
            normal,
            spread_angle(jitter_draw, JITTER_MAX as int),
        ),
        approach(old(velocity).value, obstacle_velocity.value, normal) >= 0 ==> *final(velocity)
            == *old(velocity),
        old(velocity).value.norm() <= i64::MAX ==> keeps_speed(
            old(velocity).value,
            final(velocity).value,
        ),
{
    proof {
        if velocity.value.norm() <= i64::MAX {
            lemma_resolve_keeps_speed(
                velocity.value,
                obstacle_velocity.value,
                normal,
                spread_angle(jitter_draw, JITTER_MAX as int),
            );
        }
    }
    position.value = Vec2 {
        x: push_component(position.value.x, normal.x, penetration),
        y: push_component(position.value.y, normal.y, penetration),
    };
    let a: i128 = approach_of(velocity.value, obstacle_velocity.value, normal);
    if a < 0 {
        let speed: u64 = velocity.value.length();
        let bounced = Vec2 {
            x: reflect_component(velocity.value.x, a, normal.x),
            y: reflect_component(velocity.value.y, a, normal.y),
        };
        let turn = Rotation::from_angle(symmetric_angle(jitter_draw, JITTER_MAX));
        velocity.value = deflect(bounced, normal, turn, speed);
    }
}

/// Resolves one contact: the ball is pushed out of the obstacle by the full
/// depth and, where it approaches the obstacle, bounces off with the speed
/// it had, in a direction turned by a random angle of at most two and a half
/// degrees to either side.
pub fn resolve(
    position: &mut Position,
    velocity: &mut Velocity,
    obstacle_velocity: &Velocity,
    normal: Vec2,
    penetration: i64,
)
    requires
        is_normal(normal),
    ensures
        final(position).value == pushed_out(old(position).value, normal, penetration as int),
        exists|angle: int|
            -JITTER_MAX <= angle <= JITTER_MAX && final(velocity).value == #[trigger] resolved_velocity(
                old(velocity).value,
                obstacle_velocity.value,
                normal,
                angle,
            ),
        approach(old(velocity).value, obstacle_velocity.value, normal) >= 0 ==> *final(velocity)
            == *old(velocity),
        old(velocity).value.norm() <= i64::MAX ==> keeps_speed(
            old(velocity).value,
            final(velocity).value,
        ),
{
    let jitter_draw: u32 = if approach_of(velocity.value, obstacle_velocity.value, normal) < 0 {
        draw()
    } else {
        0
    };
    resolve_with(position, velocity, obstacle_velocity, normal, penetration, jitter_draw);
}

} // verus!

use crate::common::Velocity;
use crate::fixed::abs;
use crate::random::{draw, full_turn_angle, spread_angle, symmetric_angle, turn_angle};
use crate::rotation::{lemma_from_angle_wf, Rotation, TAU};
use crate::vector::Vec2;
use vstd::prelude::*;

verus! {

/// The speed below which a ball counts as stalled, and the vertical speed
/// below which its path counts as flat: a tenth of a unit per tick.
pub const SLOW: i64 = 100_000;

/// The speed above which a ball counts as run away: ten units per tick.
pub const FAST: i64 = 10_000_000;

/// The widest angle by which a flat path is turned to either side: a
/// sixty-fourth of a turn, in millionths of a radian.
pub const NUDGE_MAX: i64 = 98_174;

/// Whether the path is too flat: the ball hardly moves up or down.
pub open spec fn too_flat(v: Vec2) -> bool {
    abs(v.y as int) < SLOW
}

/// Whether the speed is out of range: the ball has stalled or run away.
pub open spec fn out_of_range(v: Vec2) -> bool {
    v.norm_sq() < SLOW * SLOW || v.norm_sq() > FAST * FAST
}

/// A velocity whose path is too flat is turned by `angle`; any other stays.
pub open spec fn nudged(v: Vec2, angle: int) -> Vec2 {
    if too_flat(v) {
        Rotation::spec_from_angle(angle).spec_apply(v)
    } else {
        v
    }
}

/// A velocity whose speed is out of range is replaced by one of speed one in
/// the direction of `angle`; any other stays.
pub open spec fn re_aimed(v: Vec2, angle: int) -> Vec2 {
    if out_of_range(v) {
        Vec2 { x: Rotation::spec_from_angle(angle).cos, y: Rotation::spec_from_angle(angle).sin }
    } else {
        v
    }
}

/// The velocity after both corrections: first the nudge, then, on what the
/// nudge left, the new aim.
pub open spec fn kept_alive(v: Vec2, nudge_angle: int, aim_angle: int) -> Vec2 {
    re_aimed(nudged(v, nudge_angle), aim_angle)
}

/// Whether the speed of `v` lies between a tenth of a unit and ten units.
pub open spec fn lively(v: Vec2) -> bool {
    SLOW * SLOW <= v.norm_sq() <= FAST * FAST
}

/// Whatever the angles, the corrected velocity has a speed in range.
pub proof fn lemma_kept_alive_is_lively(v: Vec2, nudge_angle: int, aim_angle: int)
    ensures
        lively(kept_alive(v, nudge_angle, aim_angle)),
{
    lemma_from_angle_wf(aim_angle);
}

/// A velocity that is neither flat nor out of range is left as it is.
pub proof fn lemma_kept_alive_leaves_sound(v: Vec2, nudge_angle: int, aim_angle: int)
    requires
        !too_flat(v),
        !out_of_range(v),
    ensures
        kept_alive(v, nudge_angle, aim_angle) == v,
{
}

/// Whether the path is too flat.
pub fn is_too_flat(v: Vec2) -> (r: bool)
    ensures
        r == too_flat(v),
{
    -SLOW < v.y && v.y < SLOW
}

/// Whether the speed is out of range.
pub fn is_out_of_range(v: Vec2) -> (r: bool)
    ensures
        r == out_of_range(v),
{
    let speed_sq: u128 = v.length_squared();
    assert(SLOW * SLOW == 10_000_000_000 && FAST * FAST == 100_000_000_000_000) by (nonlinear_arith)
        requires
            SLOW == 100_000,
            FAST == 10_000_000,
    ;
    speed_sq < 10_000_000_000 || speed_sq > 100_000_000_000_000
}

/// Turns a flat path by the angle that `nudge_draw` stands for.
pub fn nudge_with(velocity: &mut Velocity, nudge_draw: u32)
    ensures
        final(velocity).value == nudged(
            old(velocity).value,
            spread_angle(nudge_draw, NUDGE_MAX as int),
        ),
{
    if is_too_flat(velocity.value) {
        let turn = Rotation::from_angle(symmetric_angle(nudge_draw, NUDGE_MAX));
        velocity.value = turn.apply(velocity.value);
    }
}

/// Gives a ball that has stalled or run away the speed one, in the
/// direction that `aim_draw` stands for.
pub fn re_aim_with(velocity: &mut Velocity, aim_draw: u32)
    ensures
        final(velocity).value == re_aimed(old(velocity).value, turn_angle(aim_draw)),
{
    if is_out_of_range(velocity.value) {
        let aim = Rotation::from_angle(full_turn_angle(aim_draw));
        velocity.value = Vec2 { x: aim.cos, y: aim.sin };
    }
}

/// Corrects a velocity with the angles given by two draws: `nudge_draw` for
/// the turn of a flat path, `aim_draw` for the new direction of a ball that
/// has stalled or run away.
pub fn keep_alive_with(velocity: &mut Velocity, nudge_draw: u32, aim_draw: u32)
    ensures
        final(velocity).value == kept_alive(
            old(velocity).value,
            spread_angle(nudge_draw, NUDGE_MAX as int),
            turn_angle(aim_draw),
        ),
        lively(final(velocity).value),
{
    proof {
        lemma_kept_alive_is_lively(
            velocity.value,
            spread_angle(nudge_draw, NUDGE_MAX as int),
            turn_angle(aim_draw),
        );
    }
    nudge_with(velocity, nudge_draw);
    re_aim_with(velocity, aim_draw);
}

/// Keeps a ball alive: a path that is too flat is turned by a random angle
/// of at most a sixty-fourth of a turn to either side, and a ball that then
/// is slower than a tenth of a unit or faster than ten units per tick goes
/// on with speed one in a random direction.
pub fn keep_alive(velocity: &mut Velocity)
    ensures
        exists|nudge_angle: int, aim_angle: int|
            -NUDGE_MAX <= nudge_angle <= NUDGE_MAX && 0 <= aim_angle < TAU
                && final(velocity).value == #[trigger] kept_alive(
                old(velocity).value,
                nudge_angle,
                aim_angle,
            ),
        lively(final(velocity).value),
        !too_flat(old(velocity).value) && !out_of_range(old(velocity).value)
            ==> *final(velocity) == *old(velocity),
{
    let nudge_draw: u32 = if is_too_flat(velocity.value) {
        draw()
    } else {
        0
    };
    nudge_with(velocity, nudge_draw);
    let aim_draw: u32 = if is_out_of_range(velocity.value) {
        draw()
    } else {
        0
    };
    re_aim_with(velocity, aim_draw);
    proof {
        lemma_kept_alive_is_lively(
            old(velocity).value,
            spread_angle(nudge_draw, NUDGE_MAX as int),
            turn_angle(aim_draw),
        );
    }
}

} // verus!

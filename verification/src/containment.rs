use crate::ball::Ball2Bundle;
use crate::block::BlockBundle;
use crate::common::{Arena, Position, Velocity};
use crate::fixed::{abs, div_trunc, sat, saturate};
use crate::vector::Vec2;
use vstd::prelude::*;

verus! {

/// One axis of containment. `q` is the coordinate that the body would have
/// next, `v` its velocity along the axis, `lo` and `hi` the least and the
/// greatest coordinate allowed. A coordinate strictly between the limits
/// stays, and the velocity with it. At or below `lo` it becomes `lo` and the
/// velocity keeps its size but is not negative; at or above `hi`, or where
/// the limits leave no room between them, it becomes `hi` and the velocity
/// keeps its size but is not positive. The result is the coordinate, then
/// the velocity.
pub open spec fn contained(q: int, v: int, lo: int, hi: int) -> (int, int) {
    if lo < hi && q < hi {
        if q > lo {
            (q, v)
        } else {
            (lo, sat(abs(v)))
        }
    } else {
        (hi, -sat(abs(v)))
    }
}

/// The least coordinate at which a body that reaches `extent` to either side
/// of its centre is inside an arena that reaches `half` from the origin.
pub open spec fn lower_limit(extent: int, half: int) -> int {
    -half + extent
}

/// The greatest such coordinate.
pub open spec fn upper_limit(extent: int, half: int) -> int {
    half - extent
}

/// The magnitude of `v`, as far as `i64` holds it.
pub fn magnitude_sat(v: i64) -> (r: i64)
    ensures
        r == sat(abs(v as int)),
        r >= 0,
{
    if v == i64::MIN {
        i64::MAX
    } else if v < 0 {
        -v
    } else {
        v
    }
}

/// Contains a body along one axis: from the coordinate `p`, the displacement
/// `d` about to be applied, the velocity `v` along the axis, how far the
/// body reaches from its centre and how far the arena reaches from the
/// origin, the coordinate after the step and the velocity after it.
pub fn contain_axis(p: i64, d: i64, v: i64, extent: i64, half: i64) -> (r: (i64, i64))
    requires
        0 <= extent,
        0 <= half,
    ensures
        r.0 == contained(
            p + d,
            v as int,
            lower_limit(extent as int, half as int),
            upper_limit(extent as int, half as int),
        ).0,
        r.1 == contained(
            p + d,
            v as int,
            lower_limit(extent as int, half as int),
            upper_limit(extent as int, half as int),
        ).1,
        r.0 <= half - extent,
        extent <= half ==> -half + extent <= r.0,
{
    let lo: i64 = -half + extent;
    let hi: i64 = half - extent;
    let mut q: i128 = p as i128 + d as i128;
    let mut w: i64 = v;
    if !(q > lo as i128) {
        q = lo as i128;
        w = magnitude_sat(w);
    }
    if !(q < hi as i128) {
        q = hi as i128;
        w = -magnitude_sat(w);
    }
    (q as i64, w)
}

/// The ball after one step of `displacement` inside the arena: both axes are
/// contained, the ball reaching its radius from its centre.
pub open spec fn ball_contained(
    body: Ball2Bundle,
    displacement: Vec2,
    arena: Arena,
) -> Ball2Bundle {
    let r = body.ball.radius as int;
    let p = body.position.value;
    let v = body.velocity.value;
    let x = contained(
        p.x + displacement.x,
        v.x as int,
        lower_limit(r, arena.half_width as int),
        upper_limit(r, arena.half_width as int),
    );
    let y = contained(
        p.y + displacement.y,
        v.y as int,
        lower_limit(r, arena.half_height as int),
        upper_limit(r, arena.half_height as int),
    );
    Ball2Bundle {
        ball: body.ball,
        velocity: Velocity { value: Vec2 { x: x.1 as i64, y: y.1 as i64 } },
        position: Position { value: Vec2 { x: x.0 as i64, y: y.0 as i64 } },
    }
}

/// Whether a ball lies inside the arena with all of its disc.
pub open spec fn ball_inside(body: Ball2Bundle, arena: Arena) -> bool {
    let r = body.ball.radius;
    let p = body.position.value;
    &&& -arena.half_width + r <= p.x <= arena.half_width - r
    &&& -arena.half_height + r <= p.y <= arena.half_height - r
}

/// The block after one step of `displacement`: along x it is contained,
/// reaching half its width from its centre; along y it moves freely.
pub open spec fn block_contained(
    body: BlockBundle,
    displacement: Vec2,
    arena: Arena,
) -> BlockBundle {
    let e = div_trunc(body.block.width as int, 2);
    let p = body.position.value;
    let v = body.velocity.value;
    let x = contained(
        p.x + displacement.x,
        v.x as int,
        lower_limit(e, arena.half_width as int),
        upper_limit(e, arena.half_width as int),
    );
    BlockBundle {
        block: body.block,
        velocity: Velocity { value: Vec2 { x: x.1 as i64, y: v.y } },
        position: Position {
            value: Vec2 { x: x.0 as i64, y: sat(p.y + displacement.y) as i64 },
        },
    }
}

/// Moves a ball by `displacement` and keeps it inside the arena: a
/// coordinate that would leave stops at the limit, and the velocity along
/// that axis is turned inward.
pub fn contain_ball(body: &mut Ball2Bundle, displacement: Vec2, arena: &Arena)
    requires
        old(body).ball.wf(),
        arena.wf(),
    ensures
        *final(body) == ball_contained(*old(body), displacement, *arena),
        old(body).ball.radius <= arena.half_width && old(body).ball.radius <= arena.half_height
            ==> ball_inside(*final(body), *arena),
{
    let r: i64 = body.ball.radius;
    let x = contain_axis(
        body.position.value.x,
        displacement.x,
        body.velocity.value.x,
        r,
        arena.half_width,
    );
    let y = contain_axis(
        body.position.value.y,
        displacement.y,
        body.velocity.value.y,
        r,
        arena.half_height,
    );
    body.position.value = Vec2 { x: x.0, y: y.0 };
    body.velocity.value = Vec2 { x: x.1, y: y.1 };
}

/// Moves a block by `displacement` and keeps it inside the arena from side
/// to side.
pub fn contain_block(body: &mut BlockBundle, displacement: Vec2, arena: &Arena)
    requires
        old(body).block.wf(),
        arena.wf(),
    ensures
        *final(body) == block_contained(*old(body), displacement, *arena),
{
    let e: i64 = body.block.width / 2;
    let x = contain_axis(
        body.position.value.x,
        displacement.x,
        body.velocity.value.x,
        e,
        arena.half_width,
    );
    let y: i64 = saturate(body.position.value.y as i128 + displacement.y as i128);
    body.position.value = Vec2 { x: x.0, y };
    body.velocity.value = Vec2 { x: x.1, y: body.velocity.value.y };
}

/// A contained ball lies inside the arena with all of its disc, wherever it
/// was and however far it was to move, provided that the arena has room for
/// a ball of its radius.
pub proof fn lemma_contained_ball_is_inside(body: Ball2Bundle, displacement: Vec2, arena: Arena)
    requires
        body.ball.wf(),
        arena.wf(),
        body.ball.radius <= arena.half_width,
        body.ball.radius <= arena.half_height,
    ensures
        ball_inside(ball_contained(body, displacement, arena), arena),
{
}

/// Containment turns a velocity but does not change its size: along each
/// axis the velocity keeps its magnitude, and so the ball keeps its speed.
pub proof fn lemma_containment_keeps_speed(body: Ball2Bundle, displacement: Vec2, arena: Arena)
    requires
        body.velocity.value.x > i64::MIN,
        body.velocity.value.y > i64::MIN,
    ensures
        abs(ball_contained(body, displacement, arena).velocity.value.x as int) == abs(
            body.velocity.value.x as int,
        ),
        abs(ball_contained(body, displacement, arena).velocity.value.y as int) == abs(
            body.velocity.value.y as int,
        ),
        ball_contained(body, displacement, arena).velocity.value.norm_sq()
            == body.velocity.value.norm_sq(),
{
    let v = body.velocity.value;
    let w = ball_contained(body, displacement, arena).velocity.value;
    assert(w.x == v.x || w.x == -v.x);
    assert(w.y == v.y || w.y == -v.y);
    assert(w.x * w.x == v.x * v.x) by (nonlinear_arith)
        requires
            w.x == v.x || w.x == -v.x,
    ;
    assert(w.y * w.y == v.y * v.y) by (nonlinear_arith)
        requires
            w.y == v.y || w.y == -v.y,
    ;
}

} // verus!

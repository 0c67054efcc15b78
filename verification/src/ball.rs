use crate::common::{Position, Velocity};
use crate::random::{draw, launch, launch_magnitude, launch_size, launch_speed};
use crate::vector::{lemma_scaled_to_length, scale_to, scaled_to, Vec2};
use vstd::prelude::*;

verus! {

/// A ball: a circle of the given radius around its position.
#[derive(Clone, Copy, Debug, PartialEq, Eq, Structural)]
pub struct Ball {
    pub radius: i64,
}

/// A ball with where it is and how it moves.
#[derive(Clone, Copy, Debug, PartialEq, Eq, Structural)]
pub struct Ball2Bundle {
    pub ball: Ball,
    pub velocity: Velocity,
    pub position: Position,
}

/// The radius of a ball that sets out: ten units.
pub const BALL_RADIUS: i64 = 10_000_000;

/// The speed of a ball that sets out: eight units per tick.
pub const BALL_SPEED: i64 = 8_000_000;

/// The ball that sets out from `(px, py)` where the three draws decide its
/// direction: it has the radius `BALL_RADIUS` and the speed `BALL_SPEED`,
/// and it moves upward.
pub open spec fn spawned_ball(
    px: i64,
    py: i64,
    sign_draw: u32,
    x_draw: u32,
    y_draw: u32,
) -> Ball2Bundle {
    Ball2Bundle {
        ball: Ball { radius: BALL_RADIUS },
        velocity: Velocity {
            value: scaled_to(
                launch_speed(sign_draw, x_draw),
                launch_size(y_draw),
                BALL_SPEED as int,
            ),
        },
        position: Position { value: Vec2 { x: px, y: py } },
    }
}

impl Ball {
    /// The radius is positive.
    pub open spec fn wf(self) -> bool {
        self.radius > 0
    }

    /// The ball that sets out from `(px, py)` in the direction that the
    /// three draws decide.
    pub fn spawn_with(
        px: i64,
        py: i64,
        sign_draw: u32,
        x_draw: u32,
        y_draw: u32,
    ) -> (r: Ball2Bundle)
        ensures
            r == spawned_ball(px, py, sign_draw, x_draw, y_draw),
            r.ball.wf(),
            r.velocity.value.y >= 0,
            (BALL_SPEED - 2) * (BALL_SPEED - 2) <= r.velocity.value.norm_sq() < (BALL_SPEED + 1) * (
            BALL_SPEED + 1),
    {
        let vx: i64 = launch(sign_draw, x_draw);
        let up: i64 = launch_magnitude(y_draw);
        proof {
            lemma_scaled_to_length(vx as int, up as int, BALL_SPEED as int);
            assert(BALL_SPEED + BALL_SPEED / 0x8000_0000 + 1 == BALL_SPEED + 1);
        }
        Ball2Bundle {
            ball: Ball { radius: BALL_RADIUS },
            velocity: Velocity { value: scale_to(vx as i128, up as i128, BALL_SPEED as u64) },
            position: Position { value: Vec2 { x: px, y: py } },
        }
    }

    /// A ball that sets out from `(px, py)` upward, to the left or to the
    /// right, in a random direction.
    pub fn spawn(px: i64, py: i64) -> (r: Ball2Bundle)
        ensures
            exists|sign_draw: u32, x_draw: u32, y_draw: u32|
                r == #[trigger] spawned_ball(px, py, sign_draw, x_draw, y_draw),
            r.ball == (Ball { radius: BALL_RADIUS }),
            r.position.value == (Vec2 { x: px, y: py }),
            r.velocity.value.y >= 0,
            (BALL_SPEED - 2) * (BALL_SPEED - 2) <= r.velocity.value.norm_sq() < (BALL_SPEED + 1) * (
            BALL_SPEED + 1),
    {
        let sign_draw: u32 = draw();
        let x_draw: u32 = draw();
        let y_draw: u32 = draw();
        Ball::spawn_with(px, py, sign_draw, x_draw, y_draw)
    }
}

} // verus!

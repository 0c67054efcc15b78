use crate::common::{centred_rect, rect_around, Position, Rect, Velocity};
use crate::random::{draw, drift, drift_velocity};
use crate::vector::Vec2;
use vstd::prelude::*;

verus! {

/// A paddle: a rectangle of the given size around its position.
#[derive(Clone, Copy, Debug, PartialEq, Eq, Structural)]
pub struct Paddle {
    pub height: i64,
    pub width: i64,
}

/// A paddle with where it is and how it moves.
#[derive(Clone, Copy, Debug, PartialEq, Eq, Structural)]
pub struct PaddleBundle {
    pub paddle: Paddle,
    pub velocity: Velocity,
    pub position: Position,
}

/// The width of the paddle that is set up: a hundred and sixty units.
pub const PADDLE_WIDTH: i64 = 160_000_000;

/// The height of the paddle that is set up: twenty-four units.
pub const PADDLE_HEIGHT: i64 = 24_000_000;

/// The paddle that is set up at `(px, py)` and that drifts sideways as the
/// two draws decide.
pub open spec fn spawned_paddle(px: i64, py: i64, sign_draw: u32, size_draw: u32) -> PaddleBundle {
    PaddleBundle {
        paddle: Paddle { height: PADDLE_HEIGHT, width: PADDLE_WIDTH },
        velocity: Velocity { value: drift_velocity(sign_draw, size_draw) },
        position: Position { value: Vec2 { x: px, y: py } },
    }
}

impl Paddle {
    /// Width and height are positive.
    pub open spec fn wf(self) -> bool {
        self.width > 0 && self.height > 0
    }

    /// The rectangle that the paddle covers when it stands at `position`.
    pub fn bounds(&self, position: &Position) -> (r: Rect)
        ensures
            r == rect_around(position.value, self.width as int, self.height as int),
    {
        centred_rect(position.value, self.width, self.height)
    }

    /// The paddle that is set up at `(px, py)` with the drift that the two
    /// draws decide.
    pub fn spawn_with(px: i64, py: i64, sign_draw: u32, size_draw: u32) -> (r: PaddleBundle)
        ensures
            r == spawned_paddle(px, py, sign_draw, size_draw),
            r.paddle.wf(),
    {
        PaddleBundle {
            paddle: Paddle { height: PADDLE_HEIGHT, width: PADDLE_WIDTH },
            velocity: Velocity { value: drift(sign_draw, size_draw) },
            position: Position { value: Vec2 { x: px, y: py } },
        }
    }

    /// A paddle that is set up at `(px, py)` and drifts to the left or to
    /// the right at a random speed.
    pub fn spawn(px: i64, py: i64) -> (r: PaddleBundle)
        ensures
            exists|sign_draw: u32, size_draw: u32|
                r == #[trigger] spawned_paddle(px, py, sign_draw, size_draw),
            r.paddle == (Paddle { height: PADDLE_HEIGHT, width: PADDLE_WIDTH }),
            r.position.value == (Vec2 { x: px, y: py }),
            r.velocity.value.y == 0,
            1_025_000 <= r.velocity.value.x < 5_125_000 || -5_125_000 < r.velocity.value.x
                <= -1_025_000,
    {
        let sign_draw: u32 = draw();
        let size_draw: u32 = draw();
        Paddle::spawn_with(px, py, sign_draw, size_draw)
    }
}

} // verus!

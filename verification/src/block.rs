use crate::common::{centred_rect, rect_around, Position, Rect, Velocity};
use crate::fixed::{sat, saturate};
use crate::random::{draw, drift, drift_velocity};
use crate::vector::Vec2;
use vstd::prelude::*;

verus! {

/// A block: a rectangle of the given size around its position.
#[derive(Clone, Copy, Debug, PartialEq, Eq, Structural)]
pub struct Block {
    pub height: i64,
    pub width: i64,
}

/// A block with where it is and how it moves.
#[derive(Clone, Copy, Debug, PartialEq, Eq, Structural)]
pub struct BlockBundle {
    pub block: Block,
    pub velocity: Velocity,
    pub position: Position,
}

/// The width of a block that is set up: sixty units.
pub const BLOCK_WIDTH: i64 = 60_000_000;

/// The height of a block that is set up: twenty-four units.
pub const BLOCK_HEIGHT: i64 = 24_000_000;

/// The distance between the rows on which blocks stand: twenty units.
pub const ROW_HEIGHT: i64 = 20_000_000;

/// The row at or below `py`: the greatest multiple of `ROW_HEIGHT` that is
/// not above it, as far as `i64` holds it.
pub open spec fn row_of(py: int) -> int {
    sat((py / (ROW_HEIGHT as int)) * ROW_HEIGHT)
}

/// The block that is set up at `(px, py)`, moved down to its row, and that
/// drifts sideways as the two draws decide.
pub open spec fn spawned_block(px: i64, py: i64, sign_draw: u32, size_draw: u32) -> BlockBundle {
    BlockBundle {
        block: Block { height: BLOCK_HEIGHT, width: BLOCK_WIDTH },
        velocity: Velocity { value: drift_velocity(sign_draw, size_draw) },
        position: Position { value: Vec2 { x: px, y: row_of(py as int) as i64 } },
    }
}

/// The row at or below `py`.
pub fn snap_to_row(py: i64) -> (r: i64)
    ensures
        r == row_of(py as int),
{
    let q: i64 = py / ROW_HEIGHT;
    let rem: i64 = py % ROW_HEIGHT;
    let rows: i64 = if rem < 0 {
        q - 1
    } else {
        q
    };
    assert(rows == (py as int) / (ROW_HEIGHT as int)) by (nonlinear_arith)
        requires
            ROW_HEIGHT == 20_000_000,
            q == if py >= 0 {
                (py as int) / 20_000_000
            } else {
                -((-(py as int)) / 20_000_000)
            },
            rem == if py >= 0 {
                (py as int) % 20_000_000
            } else {
                -((-(py as int)) % 20_000_000)
            },
            rows == if rem < 0 {
                q - 1
            } else {
                q as int
            },
    ;
    assert(-0x8000_0000_0000_0000 - ROW_HEIGHT <= rows * ROW_HEIGHT <= 0x8000_0000_0000_0000)
        by (nonlinear_arith)
        requires
            rows == (py as int) / (ROW_HEIGHT as int),
            ROW_HEIGHT == 20_000_000,
            -0x8000_0000_0000_0000 <= py <= 0x8000_0000_0000_0000,
    ;
    saturate(rows as i128 * ROW_HEIGHT as i128)
}

impl Block {
    /// Width and height are positive.
    pub open spec fn wf(self) -> bool {
        self.width > 0 && self.height > 0
    }

    /// The rectangle that the block covers when it stands at `position`.
    pub fn bounds(&self, position: &Position) -> (r: Rect)
        ensures
            r == rect_around(position.value, self.width as int, self.height as int),
    {
        centred_rect(position.value, self.width, self.height)
    }

    /// The block that is set up at `(px, py)`, on its row, with the drift
    /// that the two draws decide.
    pub fn spawn_with(px: i64, py: i64, sign_draw: u32, size_draw: u32) -> (r: BlockBundle)
        ensures
            r == spawned_block(px, py, sign_draw, size_draw),
            r.block.wf(),
    {
        BlockBundle {
            block: Block { height: BLOCK_HEIGHT, width: BLOCK_WIDTH },
            velocity: Velocity { value: drift(sign_draw, size_draw) },
            position: Position { value: Vec2 { x: px, y: snap_to_row(py) } },
        }
    }

    /// A block that is set up at `(px, py)`, on its row, and drifts to the
    /// left or to the right at a random speed.
    pub fn spawn(px: i64, py: i64) -> (r: BlockBundle)
        ensures
            exists|sign_draw: u32, size_draw: u32|
                r == #[trigger] spawned_block(px, py, sign_draw, size_draw),
            r.block == (Block { height: BLOCK_HEIGHT, width: BLOCK_WIDTH }),
            r.position.value == (Vec2 { x: px, y: row_of(py as int) as i64 }),
            r.velocity.value.y == 0,
            1_025_000 <= r.velocity.value.x < 5_125_000 || -5_125_000 < r.velocity.value.x
                <= -1_025_000,
    {
        let sign_draw: u32 = draw();
        let size_draw: u32 = draw();
        Block::spawn_with(px, py, sign_draw, size_draw)
    }
}

} // verus!

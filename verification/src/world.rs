use crate::ball::{spawned_ball, Ball, Ball2Bundle};
use crate::block::{spawned_block, Block, BlockBundle};
use crate::common::Arena;
use crate::containment::{ball_inside, block_contained};
use crate::liveness::lively;
use crate::paddle::{spawned_paddle, Paddle, PaddleBundle};
use crate::systems::{
    after_blocks, after_paddles, ball_fits, balls_stepped, check_ball_world_collisions,
    check_block_collisions, check_paddle_collision, drift_blocks, is_struck, movement_system,
    paddle_moved, struck_by_any,
};
use vstd::prelude::*;

verus! {

/// Everything that a game holds: the balls, the blocks and the paddles.
pub struct World {
    pub balls: Vec<Ball2Bundle>,
    pub blocks: Vec<BlockBundle>,
    pub paddles: Vec<PaddleBundle>,
}

/// The number of columns in which the blocks are set up.
pub const GRID_COLUMNS: usize = 7;

/// The number of rows in which the blocks are set up.
pub const GRID_ROWS: usize = 8;

/// The x coordinate of the first column of blocks: -240 units.
pub const GRID_LEFT: i64 = -240_000_000;

/// The distance from one column of blocks to the next: 80 units.
pub const COLUMN_STEP: i64 = 80_000_000;

/// The y coordinate of the lowest row of blocks: -100 units.
pub const GRID_BOTTOM: i64 = -100_000_000;

/// The distance from one row of blocks to the next: 60 units.
pub const ROW_STEP: i64 = 60_000_000;

/// Where the ball sets out, along either axis: 100 units.
pub const BALL_START: i64 = 100_000_000;

/// The height at which the paddle is set up: -340 units.
pub const PADDLE_LEVEL: i64 = -340_000_000;

/// The x coordinate of a column of blocks.
pub open spec fn grid_x(column: int) -> int {
    GRID_LEFT + column * COLUMN_STEP
}

/// The y coordinate of a row of blocks.
pub open spec fn grid_y(row: int) -> int {
    GRID_BOTTOM + row * ROW_STEP
}

/// Whether `block` is a block as it is set up, at `(x, y)`.
pub open spec fn is_block_at(block: BlockBundle, x: i64, y: i64) -> bool {
    exists|sign_draw: u32, size_draw: u32|
        block == #[trigger] spawned_block(x, y, sign_draw, size_draw)
}

/// Whether `ball` is a ball as it sets out, from `(x, y)`.
pub open spec fn is_ball_at(ball: Ball2Bundle, x: i64, y: i64) -> bool {
    exists|sign_draw: u32, x_draw: u32, y_draw: u32|
        ball == #[trigger] spawned_ball(x, y, sign_draw, x_draw, y_draw)
}

/// Whether `paddle` is a paddle as it is set up, at `(x, y)`.
pub open spec fn is_paddle_at(paddle: PaddleBundle, x: i64, y: i64) -> bool {
    exists|sign_draw: u32, size_draw: u32|
        paddle == #[trigger] spawned_paddle(x, y, sign_draw, size_draw)
}

/// The arena that fills a viewport of the given size.
pub open spec fn arena_of(width: u64, height: u64) -> Arena {
    Arena { half_width: (width / 2) as i64, half_height: (height / 2) as i64 }
}

/// The balls after each has met the paddles.
pub open spec fn met_paddles(
    balls: Seq<Ball2Bundle>,
    paddles: Seq<PaddleBundle>,
) -> Seq<Ball2Bundle> {
    Seq::new(balls.len(), |i: int| after_paddles(balls[i], paddles))
}

/// The balls after each has met the blocks.
pub open spec fn met_blocks(balls: Seq<Ball2Bundle>, blocks: Seq<BlockBundle>) -> Seq<Ball2Bundle> {
    Seq::new(balls.len(), |i: int| after_blocks(balls[i], blocks))
}

/// The paddles after each was steered.
pub open spec fn steered(
    paddles: Seq<PaddleBundle>,
    left: bool,
    right: bool,
    arena: Arena,
) -> Seq<PaddleBundle> {
    Seq::new(paddles.len(), |i: int| paddle_moved(paddles[i], left, right, arena))
}

/// The blocks after each has drifted for one tick.
pub open spec fn drifted(blocks: Seq<BlockBundle>, arena: Arena) -> Seq<BlockBundle> {
    Seq::new(blocks.len(), |j: int| block_contained(blocks[j], blocks[j].velocity.value, arena))
}

/// The blocks that no ball strikes, in the order in which they stood.
pub open spec fn survivors(blocks: Seq<BlockBundle>, balls: Seq<Ball2Bundle>) -> Seq<BlockBundle> {
    blocks.filter(|b: BlockBundle| !struck_by_any(balls, b))
}

impl World {
    /// Every ball has a positive radius, every block and every paddle a
    /// positive width and height.
    pub open spec fn wf(&self) -> bool {
        &&& forall|i: int| 0 <= i < self.balls.len() ==> (#[trigger] self.balls[i]).ball.wf()
        &&& forall|i: int| 0 <= i < self.blocks.len() ==> (#[trigger] self.blocks[i]).block.wf()
        &&& forall|i: int| 0 <= i < self.paddles.len() ==> (#[trigger] self.paddles[i]).paddle.wf()
    }
}

/// The blocks that no ball strikes.
pub fn surviving_blocks(
    balls: &Vec<Ball2Bundle>,
    blocks: &Vec<BlockBundle>,
) -> (r: Vec<BlockBundle>)
    ensures
        r@ == survivors(blocks@, balls@),
        forall|k: int| 0 <= k < r.len() ==> blocks@.contains(#[trigger] r[k]),
{
    let ghost pred = |b: BlockBundle| !struck_by_any(balls@, b);
    let mut kept: Vec<BlockBundle> = Vec::new();
    let mut j: usize = 0;
    proof {
        reveal(Seq::filter);
        assert(blocks@.take(0).filter(pred) =~= Seq::<BlockBundle>::empty());
    }
    while j < blocks.len()
        invariant
            j <= blocks.len(),
            pred == (|b: BlockBundle| !struck_by_any(balls@, b)),
            kept@ == blocks@.take(j as int).filter(pred),
            forall|k: int| 0 <= k < kept.len() ==> blocks@.contains(#[trigger] kept[k]),
        decreases blocks.len() - j,
    {
        let block: BlockBundle = blocks[j];
        proof {
            reveal(Seq::filter);
            assert(blocks@.take(j + 1).drop_last() =~= blocks@.take(j as int));
            assert(blocks@.take(j + 1).last() == block);
        }
        if !is_struck(balls, &block) {
            kept.push(block);
        }
        j = j + 1;
    }
    proof {
        assert(blocks@.take(blocks.len() as int) =~= blocks@);
    }
    kept
}

/// The world as a game begins: fifty-six blocks in eight rows of seven, row
/// by row from the lowest and in each row from the left; one ball that sets
/// out from (100, 100); one paddle at (0, -340), all in units. How each body moves at
/// first is drawn at random.
pub fn setup() -> (world: World)
    ensures
        world.wf(),
        world.blocks.len() == GRID_ROWS * GRID_COLUMNS,
        forall|k: int|
            0 <= k < GRID_ROWS * GRID_COLUMNS ==> is_block_at(
                #[trigger] world.blocks[k],
                grid_x(k % (GRID_COLUMNS as int)) as i64,
                grid_y(k / (GRID_COLUMNS as int)) as i64,
            ),
        world.balls.len() == 1,
        is_ball_at(world.balls[0], BALL_START, BALL_START),
        world.paddles.len() == 1,
        is_paddle_at(world.paddles[0], 0, PADDLE_LEVEL),
{
    let mut blocks: Vec<BlockBundle> = Vec::new();
    let mut row: usize = 0;
    while row < GRID_ROWS
        invariant
            row <= GRID_ROWS,
            blocks.len() == row * GRID_COLUMNS,
            forall|k: int|
                0 <= k < blocks.len() ==> is_block_at(
                    #[trigger] blocks[k],
                    grid_x(k % (GRID_COLUMNS as int)) as i64,
                    grid_y(k / (GRID_COLUMNS as int)) as i64,
                ),
            forall|k: int| 0 <= k < blocks.len() ==> (#[trigger] blocks[k]).block.wf(),
        decreases GRID_ROWS - row,
    {
        let py: i64 = GRID_BOTTOM + (row as i64) * ROW_STEP;
        let mut column: usize = 0;
        while column < GRID_COLUMNS
            invariant
                row < GRID_ROWS,
                column <= GRID_COLUMNS,
                py == grid_y(row as int),
                blocks.len() == row * GRID_COLUMNS + column,
                forall|k: int|
                    0 <= k < blocks.len() ==> is_block_at(
                        #[trigger] blocks[k],
                        grid_x(k % (GRID_COLUMNS as int)) as i64,
                        grid_y(k / (GRID_COLUMNS as int)) as i64,
                    ),
                forall|k: int| 0 <= k < blocks.len() ==> (#[trigger] blocks[k]).block.wf(),
            decreases GRID_COLUMNS - column,
        {
            let px: i64 = GRID_LEFT + (column as i64) * COLUMN_STEP;
            let block = Block::spawn(px, py);
            proof {
                let k = blocks.len() as int;
                assert(k % 7 == column && k / 7 == row) by (nonlinear_arith)
                    requires
                        k == row * 7 + column,
                        0 <= column < 7,
                        0 <= row,
                ;
            }
            blocks.push(block);
            column = column + 1;
        }
        row = row + 1;
    }
    let mut balls: Vec<Ball2Bundle> = Vec::new();
    let ball = Ball::spawn(BALL_START, BALL_START);
    assert(is_ball_at(ball, BALL_START, BALL_START));
    balls.push(ball);
    let mut paddles: Vec<PaddleBundle> = Vec::new();
    let paddle = Paddle::spawn(0, PADDLE_LEVEL);
    assert(is_paddle_at(paddle, 0, PADDLE_LEVEL));
    paddles.push(paddle);
    World { balls, blocks, paddles }
}

/// One tick of the game with paddle and blocks. In this order: the paddles
/// are steered by the keys and the blocks drift; every ball meets the
/// paddles; every ball meets the blocks, and the blocks that were struck
/// leave the world; every ball takes its own step, in which the liveness
/// policy corrects its velocity and the arena that fills the viewport
/// contains it. The result tells of each block that stood before the tick
/// whether it was struck.
pub fn tick(
    world: &mut World,
    left: bool,
    right: bool,
    viewport_width: u64,
    viewport_height: u64,
) -> (struck: Vec<bool>)
    requires
        old(world).wf(),
    ensures
        final(world).wf(),
        final(world).paddles@ == steered(
            old(world).paddles@,
            left,
            right,
            arena_of(viewport_width, viewport_height),
        ),
        final(world).blocks@ == survivors(
            drifted(old(world).blocks@, arena_of(viewport_width, viewport_height)),
            met_paddles(old(world).balls@, final(world).paddles@),
        ),
        struck.len() == old(world).blocks.len(),
        forall|j: int|
            0 <= j < struck.len() ==> #[trigger] struck[j] == struck_by_any(
                met_paddles(old(world).balls@, final(world).paddles@),
                drifted(old(world).blocks@, arena_of(viewport_width, viewport_height))[j],
            ),
        balls_stepped(
            met_blocks(
                met_paddles(old(world).balls@, final(world).paddles@),
                drifted(old(world).blocks@, arena_of(viewport_width, viewport_height)),
            ),
            final(world).balls@,
            arena_of(viewport_width, viewport_height),
        ),
        forall|i: int|
            0 <= i < final(world).balls.len() ==> lively(
                (#[trigger] final(world).balls[i]).velocity.value,
            ),
        forall|i: int|
            0 <= i < final(world).balls.len() && ball_fits(
                old(world).balls[i],
                arena_of(viewport_width, viewport_height),
            ) ==> ball_inside(
                #[trigger] final(world).balls[i],
                arena_of(viewport_width, viewport_height),
            ),
{
    let arena = Arena::from_viewport(viewport_width, viewport_height);
    movement_system(left, right, &arena, &mut world.paddles);
    assert(world.paddles@ =~= steered(old(world).paddles@, left, right, arena));
    drift_blocks(&mut world.blocks, &arena);
    assert(world.blocks@ =~= drifted(old(world).blocks@, arena));
    check_paddle_collision(&mut world.balls, &world.paddles);
    assert(world.balls@ =~= met_paddles(old(world).balls@, world.paddles@));
    let kept = surviving_blocks(&world.balls, &world.blocks);
    let struck = check_block_collisions(&mut world.balls, &world.blocks);
    assert(world.balls@ =~= met_blocks(
        met_paddles(old(world).balls@, world.paddles@),
        drifted(old(world).blocks@, arena),
    ));
    world.blocks = kept;
    check_ball_world_collisions(&mut world.balls, &arena);
    struck
}

} // verus!

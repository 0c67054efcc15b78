use crate::ball::Ball2Bundle;
use crate::block::BlockBundle;
use crate::common::{rect_around, Arena, Position, Velocity};
use crate::containment::{
    ball_contained, ball_inside, block_contained, contain_ball, contain_block,
    lemma_containment_keeps_speed, magnitude_sat,
};
use crate::fixed::{abs, div_trunc, lemma_square_monotonic, sat};
use crate::liveness::{
    keep_alive, keep_alive_with, kept_alive, lemma_kept_alive_is_lively, lively, FAST,
    NUDGE_MAX,
};
use crate::paddle::PaddleBundle;
use crate::random::{spread_angle, turn_angle};
use crate::rotation::TAU;
use crate::vector::Vec2;
use vstd::prelude::*;

verus! {

/// How far a paddle moves in one tick while a key is held: twelve units.
pub const PADDLE_STEP: i64 = 12_000_000;

/// How far a paddle stays from either side of the arena: ten units.
pub const PADDLE_PAD: i64 = 10_000_000;

/// The direction in which the keys steer: one to the right, minus one to the
/// left, nothing where both are held or neither.
pub open spec fn steer(left: bool, right: bool) -> int {
    (if right {
        1int
    } else {
        0int
    }) - (if left {
        1int
    } else {
        0int
    })
}

/// The paddle after one tick of steering: one step in the direction of the
/// keys, but no nearer to a side of the arena than `PADDLE_PAD`. Where the
/// arena leaves it no room it stands at the limit on the right.
pub open spec fn paddle_moved(
    body: PaddleBundle,
    left: bool,
    right: bool,
    arena: Arena,
) -> PaddleBundle {
    let half = div_trunc(body.paddle.width as int, 2);
    let lo = -arena.half_width + half + PADDLE_PAD;
    let hi = arena.half_width - half - PADDLE_PAD;
    let q = body.position.value.x + steer(left, right) * PADDLE_STEP;
    let x = if q > hi || lo > hi {
        hi
    } else if q < lo {
        lo
    } else {
        q
    };
    PaddleBundle {
        paddle: body.paddle,
        velocity: body.velocity,
        position: Position { value: Vec2 { x: x as i64, y: body.position.value.y } },
    }
}

/// Whether the ball has reached the paddle: its centre is over the paddle
/// from side to side, and its lower edge is at or below the paddle's top.
pub open spec fn paddle_reached(ball: Ball2Bundle, paddle: PaddleBundle) -> bool {
    let b = rect_around(
        paddle.position.value,
        paddle.paddle.width as int,
        paddle.paddle.height as int,
    );
    &&& b.min.x <= ball.position.value.x <= b.max.x
    &&& ball.position.value.y - ball.ball.radius <= b.max.y
}

/// Whether the ball has reached one of the paddles.
pub open spec fn any_paddle_reached(ball: Ball2Bundle, paddles: Seq<PaddleBundle>) -> bool {
    exists|j: int| 0 <= j < paddles.len() && paddle_reached(ball, #[trigger] paddles[j])
}

/// The ball with its velocity turned upward.
pub open spec fn sent_up(ball: Ball2Bundle) -> Ball2Bundle {
    Ball2Bundle {
        ball: ball.ball,
        velocity: Velocity {
            value: Vec2 { x: ball.velocity.value.x, y: sat(abs(ball.velocity.value.y as int)) as i64 },
        },
        position: ball.position,
    }
}

/// The ball with its velocity turned downward.
pub open spec fn sent_down(ball: Ball2Bundle) -> Ball2Bundle {
    Ball2Bundle {
        ball: ball.ball,
        velocity: Velocity {
            value: Vec2 {
                x: ball.velocity.value.x,
                y: (-sat(abs(ball.velocity.value.y as int))) as i64,
            },
        },
        position: ball.position,
    }
}

/// The ball after it met the paddles.
pub open spec fn after_paddles(ball: Ball2Bundle, paddles: Seq<PaddleBundle>) -> Ball2Bundle {
    if any_paddle_reached(ball, paddles) {
        sent_up(ball)
    } else {
        ball
    }
}

/// Whether the ball strikes the block: it does not move downward, its centre
/// is under the block from side to side, and the lower edge of the block
/// lies between the centre of the ball and its upper edge.
pub open spec fn block_struck(ball: Ball2Bundle, block: BlockBundle) -> bool {
    let b = rect_around(block.position.value, block.block.width as int, block.block.height as int);
    &&& ball.velocity.value.y >= 0
    &&& b.min.x <= ball.position.value.x <= b.max.x
    &&& ball.position.value.y <= b.min.y <= ball.position.value.y + ball.ball.radius
}

/// Whether the ball strikes one of the blocks.
pub open spec fn strikes_any(ball: Ball2Bundle, blocks: Seq<BlockBundle>) -> bool {
    exists|j: int| 0 <= j < blocks.len() && block_struck(ball, #[trigger] blocks[j])
}

/// Whether one of the balls strikes the block.
pub open spec fn struck_by_any(balls: Seq<Ball2Bundle>, block: BlockBundle) -> bool {
    exists|i: int| 0 <= i < balls.len() && block_struck(#[trigger] balls[i], block)
}

/// The ball after it met the blocks.
pub open spec fn after_blocks(ball: Ball2Bundle, blocks: Seq<BlockBundle>) -> Ball2Bundle {
    if strikes_any(ball, blocks) {
        sent_down(ball)
    } else {
        ball
    }
}

/// The ball after its own step of a tick, where the two angles are those
/// that the liveness policy uses: the velocity is corrected, the ball moves
/// by it and is contained in the arena.
pub open spec fn ball_stepped(
    ball: Ball2Bundle,
    nudge_angle: int,
    aim_angle: int,
    arena: Arena,
) -> Ball2Bundle {
    let v = kept_alive(ball.velocity.value, nudge_angle, aim_angle);
    ball_contained(
        Ball2Bundle { ball: ball.ball, velocity: Velocity { value: v }, position: ball.position },
        v,
        arena,
    )
}

/// Steers one paddle for one tick.
pub fn move_paddle(body: &mut PaddleBundle, left: bool, right: bool, arena: &Arena)
    requires
        old(body).paddle.wf(),
        arena.wf(),
    ensures
        *final(body) == paddle_moved(*old(body), left, right, *arena),
{
    let half: i64 = body.paddle.width / 2;
    let lo: i64 = -arena.half_width + half + PADDLE_PAD;
    let hi: i64 = arena.half_width - half - PADDLE_PAD;
    let mut direction: i128 = 0;
    if left {
        direction = direction - 1;
    }
    if right {
        direction = direction + 1;
    }
    let q: i128 = body.position.value.x as i128 + direction * (PADDLE_STEP as i128);
    let x: i64 = if q > hi as i128 || lo > hi {
        hi
    } else if q < lo as i128 {
        lo
    } else {
        q as i64
    };
    body.position.value = Vec2 { x, y: body.position.value.y };
}

/// Steers every paddle for one tick: each moves one step in the direction of
/// the keys that are held and stays `PADDLE_PAD` away from the sides.
pub fn movement_system(left: bool, right: bool, arena: &Arena, paddles: &mut Vec<PaddleBundle>)
    requires
        arena.wf(),
        forall|i: int| 0 <= i < old(paddles).len() ==> (#[trigger] old(paddles)[i]).paddle.wf(),
    ensures
        final(paddles).len() == old(paddles).len(),
        forall|i: int|
            0 <= i < old(paddles).len() ==> #[trigger] final(paddles)[i] == paddle_moved(
                old(paddles)[i],
                left,
                right,
                *arena,
            ),
{
    let n: usize = paddles.len();
    let mut i: usize = 0;
    while i < n
        invariant
            arena.wf(),
            i <= n,
            paddles.len() == n,
            old(paddles).len() == n,
            forall|k: int| 0 <= k < i ==> #[trigger] paddles[k] == paddle_moved(old(paddles)[k], left, right, *arena),
            forall|k: int| i <= k < n ==> #[trigger] paddles[k] == old(paddles)[k],
            forall|k: int| 0 <= k < n ==> (#[trigger] old(paddles)[k]).paddle.wf(),
        decreases n - i,
    {
        let mut body: PaddleBundle = paddles[i];
        move_paddle(&mut body, left, right, arena);
        paddles.set(i, body);
        i = i + 1;
    }
}

/// Lets every block drift for one tick: each moves by its velocity and is
/// kept inside the arena from side to side, turning back where it meets a
/// side.
pub fn drift_blocks(blocks: &mut Vec<BlockBundle>, arena: &Arena)
    requires
        arena.wf(),
        forall|j: int| 0 <= j < old(blocks).len() ==> (#[trigger] old(blocks)[j]).block.wf(),
    ensures
        final(blocks).len() == old(blocks).len(),
        forall|j: int|
            0 <= j < old(blocks).len() ==> #[trigger] final(blocks)[j] == block_contained(
                old(blocks)[j],
                old(blocks)[j].velocity.value,
                *arena,
            ),
{
    let n: usize = blocks.len();
    let mut j: usize = 0;
    while j < n
        invariant
            arena.wf(),
            j <= n,
            blocks.len() == n,
            old(blocks).len() == n,
            forall|k: int|
                0 <= k < j ==> #[trigger] blocks[k] == block_contained(
                    old(blocks)[k],
                    old(blocks)[k].velocity.value,
                    *arena,
                ),
            forall|k: int| j <= k < n ==> #[trigger] blocks[k] == old(blocks)[k],
            forall|k: int| 0 <= k < n ==> (#[trigger] old(blocks)[k]).block.wf(),
        decreases n - j,
    {
        let mut body: BlockBundle = blocks[j];
        let step = body.velocity.value;
        contain_block(&mut body, step, arena);
        blocks.set(j, body);
        j = j + 1;
    }
}

/// Whether the ball has reached the paddle.
pub fn reaches_paddle(ball: &Ball2Bundle, paddle: &PaddleBundle) -> (r: bool)
    ensures
        r == paddle_reached(*ball, *paddle),
{
    let b = paddle.paddle.bounds(&paddle.position);
    let x: i64 = ball.position.value.x;
    let lower: i128 = ball.position.value.y as i128 - ball.ball.radius as i128;
    b.min.x <= x && x <= b.max.x && lower <= b.max.y as i128
}

/// Whether the ball strikes the block.
pub fn strikes_block(ball: &Ball2Bundle, block: &BlockBundle) -> (r: bool)
    ensures
        r == block_struck(*ball, *block),
{
    let b = block.block.bounds(&block.position);
    let x: i64 = ball.position.value.x;
    let y: i64 = ball.position.value.y;
    let upper: i128 = y as i128 + ball.ball.radius as i128;
    ball.velocity.value.y >= 0 && b.min.x <= x && x <= b.max.x && y <= b.min.y && b.min.y as i128
        <= upper
}

/// Whether the ball has reached one of the paddles.
pub fn reaches_any_paddle(ball: &Ball2Bundle, paddles: &Vec<PaddleBundle>) -> (r: bool)
    ensures
        r == any_paddle_reached(*ball, paddles@),
{
    let mut j: usize = 0;
    while j < paddles.len()
        invariant
            j <= paddles.len(),
            forall|k: int| 0 <= k < j ==> !paddle_reached(*ball, #[trigger] paddles@[k]),
        decreases paddles.len() - j,
    {
        if reaches_paddle(ball, &paddles[j]) {
            return true;
        }
        j = j + 1;
    }
    false
}

/// Whether the ball strikes one of the blocks.
pub fn strikes_any_block(ball: &Ball2Bundle, blocks: &Vec<BlockBundle>) -> (r: bool)
    ensures
        r == strikes_any(*ball, blocks@),
{
    let mut j: usize = 0;
    while j < blocks.len()
        invariant
            j <= blocks.len(),
            forall|k: int| 0 <= k < j ==> !block_struck(*ball, #[trigger] blocks@[k]),
        decreases blocks.len() - j,
    {
        if strikes_block(ball, &blocks[j]) {
            return true;
        }
        j = j + 1;
    }
    false
}

/// Whether one of the balls strikes the block.
pub fn is_struck(balls: &Vec<Ball2Bundle>, block: &BlockBundle) -> (r: bool)
    ensures
        r == struck_by_any(balls@, *block),
{
    let mut i: usize = 0;
    while i < balls.len()
        invariant
            i <= balls.len(),
            forall|k: int| 0 <= k < i ==> !block_struck(#[trigger] balls@[k], *block),
        decreases balls.len() - i,
    {
        if strikes_block(&balls[i], block) {
            return true;
        }
        i = i + 1;
    }
    false
}

/// Lets every ball meet the paddles: a ball that has reached a paddle goes
/// upward from there on, whichever way it came; every other ball stays as it
/// is.
pub fn check_paddle_collision(balls: &mut Vec<Ball2Bundle>, paddles: &Vec<PaddleBundle>)
    ensures
        final(balls).len() == old(balls).len(),
        forall|i: int|
            0 <= i < old(balls).len() ==> #[trigger] final(balls)[i] == after_paddles(
                old(balls)[i],
                paddles@,
            ),
{
    let n: usize = balls.len();
    let mut i: usize = 0;
    while i < n
        invariant
            i <= n,
            balls.len() == n,
            old(balls).len() == n,
            forall|k: int| 0 <= k < i ==> #[trigger] balls[k] == after_paddles(old(balls)[k], paddles@),
            forall|k: int| i <= k < n ==> #[trigger] balls[k] == old(balls)[k],
        decreases n - i,
    {
        let mut body: Ball2Bundle = balls[i];
        if reaches_any_paddle(&body, paddles) {
            body.velocity.value = Vec2 {
                x: body.velocity.value.x,
                y: magnitude_sat(body.velocity.value.y),
            };
            balls.set(i, body);
        }
        i = i + 1;
    }
}

/// Lets every ball meet the blocks. A ball that moves downward meets none.
/// Any other ball strikes each block whose lower edge it has reached from
/// below, and goes downward from there on. The result tells of each block
/// whether a ball struck it: those blocks are to be removed.
pub fn check_block_collisions(
    balls: &mut Vec<Ball2Bundle>,
    blocks: &Vec<BlockBundle>,
) -> (struck: Vec<bool>)
    ensures
        final(balls).len() == old(balls).len(),
        forall|i: int|
            0 <= i < old(balls).len() ==> #[trigger] final(balls)[i] == after_blocks(
                old(balls)[i],
                blocks@,
            ),
        struck.len() == blocks.len(),
        forall|j: int|
            0 <= j < blocks.len() ==> #[trigger] struck[j] == struck_by_any(old(balls)@, blocks[j]),
{
    let mut struck: Vec<bool> = Vec::new();
    let mut j: usize = 0;
    while j < blocks.len()
        invariant
            j <= blocks.len(),
            struck.len() == j,
            balls@ == old(balls)@,
            forall|k: int| 0 <= k < j ==> #[trigger] struck[k] == struck_by_any(old(balls)@, blocks[k]),
        decreases blocks.len() - j,
    {
        let hit: bool = is_struck(balls, &blocks[j]);
        struck.push(hit);
        j = j + 1;
    }
    let n: usize = balls.len();
    let mut i: usize = 0;
    while i < n
        invariant
            i <= n,
            balls.len() == n,
            old(balls).len() == n,
            forall|k: int| 0 <= k < i ==> #[trigger] balls[k] == after_blocks(old(balls)[k], blocks@),
            forall|k: int| i <= k < n ==> #[trigger] balls[k] == old(balls)[k],
            struck.len() == blocks.len(),
            forall|k: int|
                0 <= k < blocks.len() ==> #[trigger] struck[k] == struck_by_any(
                    old(balls)@,
                    blocks[k],
                ),
        decreases n - i,
    {
        let mut body: Ball2Bundle = balls[i];
        if strikes_any_block(&body, blocks) {
            body.velocity.value = Vec2 {
                x: body.velocity.value.x,
                y: -magnitude_sat(body.velocity.value.y),
            };
            balls.set(i, body);
        }
        i = i + 1;
    }
    struck
}

/// A ball that moves downward strikes no block, and the blocks leave it as
/// it is.
pub proof fn lemma_falling_ball_strikes_nothing(ball: Ball2Bundle, blocks: Seq<BlockBundle>)
    requires
        ball.velocity.value.y < 0,
    ensures
        forall|j: int| 0 <= j < blocks.len() ==> !block_struck(ball, #[trigger] blocks[j]),
        !strikes_any(ball, blocks),
        after_blocks(ball, blocks) == ball,
{
}

/// A ball that has reached a paddle goes upward afterwards, whichever way it
/// came; a ball that has struck a block does not go upward.
pub proof fn lemma_contacts_turn_the_ball(
    ball: Ball2Bundle,
    paddles: Seq<PaddleBundle>,
    blocks: Seq<BlockBundle>,
)
    ensures
        any_paddle_reached(ball, paddles) ==> after_paddles(ball, paddles).velocity.value.y >= 0,
        strikes_any(ball, blocks) ==> after_blocks(ball, blocks).velocity.value.y <= 0,
        after_paddles(ball, paddles).position == ball.position,
        after_blocks(ball, blocks).position == ball.position,
{
}

/// Whether the arena has room for the ball.
pub open spec fn ball_fits(ball: Ball2Bundle, arena: Arena) -> bool {
    ball.ball.radius <= arena.half_width && ball.ball.radius <= arena.half_height
}

/// A velocity whose speed is in range has no coordinate beyond `FAST`.
pub proof fn lemma_lively_is_bounded(v: Vec2)
    requires
        lively(v),
    ensures
        -FAST <= v.x <= FAST,
        -FAST <= v.y <= FAST,
{
    assert(v.x * v.x >= 0 && v.y * v.y >= 0) by (nonlinear_arith);
    if abs(v.x as int) > FAST {
        lemma_square_monotonic(FAST + 1, abs(v.x as int));
        assert(abs(v.x as int) * abs(v.x as int) == v.x * v.x) by (nonlinear_arith);
        assert((FAST + 1) * (FAST + 1) > FAST * FAST) by (nonlinear_arith);
    }
    if abs(v.y as int) > FAST {
        lemma_square_monotonic(FAST + 1, abs(v.y as int));
        assert(abs(v.y as int) * abs(v.y as int) == v.y * v.y) by (nonlinear_arith);
        assert((FAST + 1) * (FAST + 1) > FAST * FAST) by (nonlinear_arith);
    }
}

/// After its step a ball has a speed in range, whatever the angles; and it
/// lies inside the arena, if the arena has room for it.
pub proof fn lemma_ball_stepped(ball: Ball2Bundle, nudge_angle: int, aim_angle: int, arena: Arena)
    requires
        ball.ball.wf(),
        arena.wf(),
    ensures
        lively(ball_stepped(ball, nudge_angle, aim_angle, arena).velocity.value),
        ball_fits(ball, arena) ==> ball_inside(
            ball_stepped(ball, nudge_angle, aim_angle, arena),
            arena,
        ),
        ball_stepped(ball, nudge_angle, aim_angle, arena).ball == ball.ball,
{
    let v = kept_alive(ball.velocity.value, nudge_angle, aim_angle);
    lemma_kept_alive_is_lively(ball.velocity.value, nudge_angle, aim_angle);
    lemma_lively_is_bounded(v);
    lemma_containment_keeps_speed(
        Ball2Bundle { ball: ball.ball, velocity: Velocity { value: v }, position: ball.position },
        v,
        arena,
    );
}

/// One ball's own step of a tick with the angles given by two draws: the
/// velocity is corrected, then the ball moves by it and is kept inside the
/// arena.
pub fn step_ball_with(body: &mut Ball2Bundle, arena: &Arena, nudge_draw: u32, aim_draw: u32)
    requires
        old(body).ball.wf(),
        arena.wf(),
    ensures
        *final(body) == ball_stepped(
            *old(body),
            spread_angle(nudge_draw, NUDGE_MAX as int),
            turn_angle(aim_draw),
            *arena,
        ),
        lively(final(body).velocity.value),
        ball_fits(*old(body), *arena) ==> ball_inside(*final(body), *arena),
{
    proof {
        lemma_ball_stepped(
            *body,
            spread_angle(nudge_draw, NUDGE_MAX as int),
            turn_angle(aim_draw),
            *arena,
        );
    }
    let mut velocity: Velocity = body.velocity;
    keep_alive_with(&mut velocity, nudge_draw, aim_draw);
    body.velocity = velocity;
    contain_ball(body, velocity.value, arena);
}

/// Whether `after` is what `ball_stepped` gives of `before` for some angles
/// that the liveness policy may use: a nudge of at most `NUDGE_MAX` to
/// either side, and an aim within one turn.
pub open spec fn is_step_of(before: Ball2Bundle, after: Ball2Bundle, arena: Arena) -> bool {
    exists|nudge_angle: int, aim_angle: int|
        -NUDGE_MAX <= nudge_angle <= NUDGE_MAX && 0 <= aim_angle < TAU && after
            == #[trigger] ball_stepped(before, nudge_angle, aim_angle, arena)
}

/// One ball's own step of a tick: the liveness policy corrects the
/// velocity, then the ball moves by it and is kept inside the arena.
pub fn step_ball(body: &mut Ball2Bundle, arena: &Arena)
    requires
        old(body).ball.wf(),
        arena.wf(),
    ensures
        is_step_of(*old(body), *final(body), *arena),
        lively(final(body).velocity.value),
        ball_fits(*old(body), *arena) ==> ball_inside(*final(body), *arena),
        final(body).ball == old(body).ball,
{
    let mut velocity: Velocity = body.velocity;
    keep_alive(&mut velocity);
    proof {
        let (a, b) = choose|a: int, b: int|
            -NUDGE_MAX <= a <= NUDGE_MAX && 0 <= b < TAU && velocity.value == #[trigger] kept_alive(
                body.velocity.value,
                a,
                b,
            );
        lemma_ball_stepped(*body, a, b, *arena);
        assert(ball_contained(
            Ball2Bundle { ball: body.ball, velocity, position: body.position },
            velocity.value,
            *arena,
        ) == ball_stepped(*body, a, b, *arena));
    }
    body.velocity = velocity;
    contain_ball(body, velocity.value, arena);
}

/// Whether every ball after the step is a step of the ball before it.
pub open spec fn balls_stepped(
    before: Seq<Ball2Bundle>,
    after: Seq<Ball2Bundle>,
    arena: Arena,
) -> bool {
    &&& after.len() == before.len()
    &&& forall|i: int| 0 <= i < before.len() ==> is_step_of(before[i], #[trigger] after[i], arena)
}

/// Every ball's own step of a tick: the liveness policy corrects its
/// velocity, then it moves by it and is kept inside the arena. After it no
/// ball is slower than a tenth of a unit or faster than ten units per tick,
/// and every ball for which the arena has room lies inside it.
pub fn check_ball_world_collisions(balls: &mut Vec<Ball2Bundle>, arena: &Arena)
    requires
        arena.wf(),
        forall|i: int| 0 <= i < old(balls).len() ==> (#[trigger] old(balls)[i]).ball.wf(),
    ensures
        balls_stepped(old(balls)@, final(balls)@, *arena),
        forall|i: int| 0 <= i < final(balls).len() ==> lively((#[trigger] final(balls)[i]).velocity.value),
        forall|i: int|
            0 <= i < final(balls).len() && ball_fits(old(balls)[i], *arena) ==> ball_inside(
                #[trigger] final(balls)[i],
                *arena,
            ),
        forall|i: int| 0 <= i < final(balls).len() ==> (#[trigger] final(balls)[i]).ball == old(balls)[i].ball,
{
    let n: usize = balls.len();
    let mut i: usize = 0;
    while i < n
        invariant
            arena.wf(),
            i <= n,
            balls.len() == n,
            old(balls).len() == n,
            forall|k: int| 0 <= k < n ==> (#[trigger] old(balls)[k]).ball.wf(),
            forall|k: int| i <= k < n ==> #[trigger] balls[k] == old(balls)[k],
            forall|k: int| 0 <= k < i ==> is_step_of(old(balls)[k], #[trigger] balls[k], *arena),
            forall|k: int| 0 <= k < i ==> lively((#[trigger] balls[k]).velocity.value),
            forall|k: int|
                0 <= k < i && ball_fits(old(balls)[k], *arena) ==> ball_inside(
                    #[trigger] balls[k],
                    *arena,
                ),
            forall|k: int| 0 <= k < i ==> (#[trigger] balls[k]).ball == old(balls)[k].ball,
        decreases n - i,
    {
        let mut body: Ball2Bundle = balls[i];
        step_ball(&mut body, arena);
        balls.set(i, body);
        i = i + 1;
    }
}

} // verus!

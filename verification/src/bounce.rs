use crate::ball::Ball2Bundle;
use crate::block::BlockBundle;
use crate::common::{rect_around, Arena, Position, Velocity};
use crate::containment::{
    ball_contained, ball_inside, block_contained, contain_ball, contain_block,
};
use crate::detector::{detect, spec_detect, Contact};
use crate::liveness::{keep_alive, kept_alive, NUDGE_MAX};
use crate::random::spread_angle;
use crate::resolver::{pushed_out, resolve, resolve_with, resolved_velocity, JITTER_MAX};
use crate::rotation::TAU;
use crate::systems::ball_fits;
use crate::vector::Vec2;
use crate::world::{arena_of, World};
use vstd::prelude::*;

verus! {

/// The contact of the ball with the block, if the two touch.
pub open spec fn contact_with(ball: Ball2Bundle, block: BlockBundle) -> Option<Contact> {
    spec_detect(
        ball.position.value,
        ball.ball.radius as int,
        rect_around(block.position.value, block.block.width as int, block.block.height as int).min,
        Vec2 { x: block.block.width, y: block.block.height },
    )
}

/// The ball after it met one block, where `angle` is the angle by which a
/// bounce is turned: a ball that does not touch the block stays as it is;
/// one that does is pushed out of it and bounces off.
pub open spec fn bounced_off(ball: Ball2Bundle, block: BlockBundle, angle: int) -> Ball2Bundle {
    match contact_with(ball, block) {
        None => ball,
        Some(contact) => Ball2Bundle {
            ball: ball.ball,
            velocity: Velocity {
                value: resolved_velocity(
                    ball.velocity.value,
                    block.velocity.value,
                    contact.normal,
                    angle,
                ),
            },
            position: Position {
                value: pushed_out(ball.position.value, contact.normal, contact.penetration as int),
            },
        },
    }
}

/// The ball after it met the blocks one after the other, each contact
/// resolved on what the one before left; `angles` holds for each block the
/// angle by which a bounce off it is turned.
pub open spec fn bounced(
    ball: Ball2Bundle,
    blocks: Seq<BlockBundle>,
    angles: Seq<int>,
) -> Ball2Bundle
    decreases blocks.len(),
{
    if blocks.len() == 0 {
        ball
    } else {
        bounced_off(
            bounced(ball, blocks.drop_last(), angles.drop_last()),
            blocks.last(),
            angles.last(),
        )
    }
}

/// Whether `angles` holds one angle of at most `JITTER_MAX` to either side
/// for each of `n` blocks.
pub open spec fn are_jitters(angles: Seq<int>, n: nat) -> bool {
    &&& angles.len() == n
    &&& forall|j: int| 0 <= j < n ==> -JITTER_MAX <= #[trigger] angles[j] <= JITTER_MAX
}

/// Whether `after` is what the blocks leave of `before`, for some angles by
/// which the bounces may be turned.
pub open spec fn is_bounce_of(
    before: Ball2Bundle,
    after: Ball2Bundle,
    blocks: Seq<BlockBundle>,
) -> bool {
    exists|angles: Seq<int>|
        are_jitters(angles, blocks.len()) && after == #[trigger] bounced(before, blocks, angles)
}

/// The body moved by its velocity.
pub open spec fn ball_moved(ball: Ball2Bundle) -> Ball2Bundle {
    Ball2Bundle {
        ball: ball.ball,
        velocity: ball.velocity,
        position: Position { value: ball.position.value.spec_translated(ball.velocity.value) },
    }
}

/// The block moved by its velocity.
pub open spec fn block_moved(block: BlockBundle) -> BlockBundle {
    BlockBundle {
        block: block.block,
        velocity: block.velocity,
        position: Position { value: block.position.value.spec_translated(block.velocity.value) },
    }
}

/// The blocks after one tick: each moved by its velocity and then contained
/// from side to side.
pub open spec fn blocks_advanced(blocks: Seq<BlockBundle>, arena: Arena) -> Seq<BlockBundle> {
    Seq::new(
        blocks.len(),
        |j: int| block_contained(block_moved(blocks[j]), Vec2 { x: 0, y: 0 }, arena),
    )
}

/// The blocks after each moved by its velocity.
pub open spec fn blocks_moved(blocks: Seq<BlockBundle>) -> Seq<BlockBundle> {
    Seq::new(blocks.len(), |j: int| block_moved(blocks[j]))
}

/// Whether `after` is what one tick leaves of the ball `before`, among
/// blocks that have moved to `blocks`: the liveness policy corrects the
/// velocity, the ball moves by it, meets the blocks where it then is, and is
/// at last contained in the arena.
pub open spec fn is_advance_of(
    before: Ball2Bundle,
    after: Ball2Bundle,
    blocks: Seq<BlockBundle>,
    arena: Arena,
) -> bool {
    exists|nudge_angle: int, aim_angle: int, angles: Seq<int>|
        -NUDGE_MAX <= nudge_angle <= NUDGE_MAX && 0 <= aim_angle < TAU && are_jitters(
            angles,
            blocks.len(),
        ) && after == #[trigger] ball_advanced(before, nudge_angle, aim_angle, blocks, angles, arena)
}

/// The ball after one tick among blocks that have moved to `blocks`, for
/// given angles.
pub open spec fn ball_advanced(
    ball: Ball2Bundle,
    nudge_angle: int,
    aim_angle: int,
    blocks: Seq<BlockBundle>,
    angles: Seq<int>,
    arena: Arena,
) -> Ball2Bundle {
    ball_contained(
        bounced(
            ball_moved(
                Ball2Bundle {
                    ball: ball.ball,
                    velocity: Velocity {
                        value: kept_alive(ball.velocity.value, nudge_angle, aim_angle),
                    },
                    position: ball.position,
                },
            ),
            blocks,
            angles,
        ),
        Vec2 { x: 0, y: 0 },
        arena,
    )
}

/// A ball keeps its radius whatever blocks it meets.
pub proof fn lemma_bounced_keeps_ball(ball: Ball2Bundle, blocks: Seq<BlockBundle>, angles: Seq<int>)
    ensures
        bounced(ball, blocks, angles).ball == ball.ball,
    decreases blocks.len(),
{
    if blocks.len() > 0 {
        lemma_bounced_keeps_ball(ball, blocks.drop_last(), angles.drop_last());
    }
}

/// Lets a ball meet one block, the angle of a bounce given by `jitter_draw`.
pub fn bounce_off_with(body: &mut Ball2Bundle, block: &BlockBundle, jitter_draw: u32)
    requires
        old(body).ball.wf(),
        block.block.wf(),
    ensures
        *final(body) == bounced_off(*old(body), *block, spread_angle(jitter_draw, JITTER_MAX as int)),
{
    let bounds = block.block.bounds(&block.position);
    let size = Vec2 { x: block.block.width, y: block.block.height };
    match detect(body.position.value, body.ball.radius, bounds.min, size) {
        None => {},
        Some(contact) => {
            let mut position: Position = body.position;
            let mut velocity: Velocity = body.velocity;
            resolve_with(
                &mut position,
                &mut velocity,
                &block.velocity,
                contact.normal,
                contact.penetration,
                jitter_draw,
            );
            body.position = position;
            body.velocity = velocity;
        },
    }
}

/// Lets a ball meet one block: where the two touch, the ball is pushed out
/// of the block and bounces off it, the bounce turned by a random angle of
/// at most `JITTER_MAX` to either side.
pub fn bounce_off(body: &mut Ball2Bundle, block: &BlockBundle)
    requires
        old(body).ball.wf(),
        block.block.wf(),
    ensures
        exists|angle: int|
            -JITTER_MAX <= angle <= JITTER_MAX && *final(body) == #[trigger] bounced_off(
                *old(body),
                *block,
                angle,
            ),
        final(body).ball == old(body).ball,
{
    let bounds = block.block.bounds(&block.position);
    let size = Vec2 { x: block.block.width, y: block.block.height };
    match detect(body.position.value, body.ball.radius, bounds.min, size) {
        None => {
            assert(*body == bounced_off(*old(body), *block, 0));
        },
        Some(contact) => {
            let mut position: Position = body.position;
            let mut velocity: Velocity = body.velocity;
            resolve(
                &mut position,
                &mut velocity,
                &block.velocity,
                contact.normal,
                contact.penetration,
            );
            proof {
                let angle = choose|angle: int|
                    -JITTER_MAX <= angle <= JITTER_MAX && velocity.value
                        == #[trigger] resolved_velocity(
                        body.velocity.value,
                        block.velocity.value,
                        contact.normal,
                        angle,
                    );
                assert(Ball2Bundle { ball: body.ball, velocity, position } == bounced_off(
                    *old(body),
                    *block,
                    angle,
                ));
            }
            body.position = position;
            body.velocity = velocity;
        },
    }
}

/// Lets a ball meet every block, one after the other: each contact is
/// resolved by itself, on what the contacts before it left.
pub fn bounce_ball(body: &mut Ball2Bundle, blocks: &Vec<BlockBundle>)
    requires
        old(body).ball.wf(),
        forall|j: int| 0 <= j < blocks.len() ==> (#[trigger] blocks[j]).block.wf(),
    ensures
        is_bounce_of(*old(body), *final(body), blocks@),
        final(body).ball == old(body).ball,
{
    let ghost mut angles: Seq<int> = Seq::empty();
    let mut j: usize = 0;
    while j < blocks.len()
        invariant
            j <= blocks.len(),
            body.ball == old(body).ball,
            old(body).ball.wf(),
            forall|k: int| 0 <= k < blocks.len() ==> (#[trigger] blocks[k]).block.wf(),
            are_jitters(angles, j as nat),
            *body == bounced(*old(body), blocks@.take(j as int), angles),
        decreases blocks.len() - j,
    {
        let ghost before = *body;
        bounce_off(body, &blocks[j]);
        proof {
            let angle = choose|angle: int|
                -JITTER_MAX <= angle <= JITTER_MAX && *body == #[trigger] bounced_off(
                    before,
                    blocks[j as int],
                    angle,
                );
            let longer = angles.push(angle);
            assert(longer.drop_last() =~= angles);
            assert(blocks@.take(j + 1).drop_last() =~= blocks@.take(j as int));
            assert(blocks@.take(j + 1).last() == blocks[j as int]);
            angles = longer;
        }
        j = j + 1;
    }
    proof {
        assert(blocks@.take(blocks.len() as int) =~= blocks@);
    }
}

/// One tick of the game without paddle, in which blocks drift and balls
/// bounce off them. In this order: the liveness policy corrects the velocity
/// of every ball; every ball and every block moves by its velocity; every
/// ball meets the blocks where they then are; every block is contained in
/// the arena from side to side and every ball on all sides.
pub fn tick_bounce(world: &mut World, viewport_width: u64, viewport_height: u64)
    requires
        old(world).wf(),
    ensures
        final(world).wf(),
        final(world).paddles@ == old(world).paddles@,
        final(world).blocks@ == blocks_advanced(
            old(world).blocks@,
            arena_of(viewport_width, viewport_height),
        ),
        final(world).balls.len() == old(world).balls.len(),
        forall|i: int|
            0 <= i < final(world).balls.len() ==> is_advance_of(
                old(world).balls[i],
                #[trigger] final(world).balls[i],
                blocks_moved(old(world).blocks@),
                arena_of(viewport_width, viewport_height),
            ),
        forall|i: int|
            0 <= i < final(world).balls.len() && ball_fits(
                old(world).balls[i],
                arena_of(viewport_width, viewport_height),
            ) ==> ball_inside(
                #[trigger] final(world).balls[i],
                arena_of(viewport_width, viewport_height),
            ),
{
    let arena = Arena::from_viewport(viewport_width, viewport_height);
    let origin = Vec2 { x: 0, y: 0 };
    let block_count: usize = world.blocks.len();
    let mut j: usize = 0;
    while j < block_count
        invariant
            j <= block_count,
            world.blocks.len() == block_count,
            old(world).blocks.len() == block_count,
            world.balls@ == old(world).balls@,
            world.paddles@ == old(world).paddles@,
            old(world).wf(),
            forall|k: int| 0 <= k < j ==> #[trigger] world.blocks[k] == block_moved(old(world).blocks[k]),
            forall|k: int| j <= k < block_count ==> #[trigger] world.blocks[k] == old(world).blocks[k],
        decreases block_count - j,
    {
        let mut block: BlockBundle = world.blocks[j];
        block.position.value = block.position.value.translated(block.velocity.value);
        world.blocks.set(j, block);
        j = j + 1;
    }
    assert(world.blocks@ =~= blocks_moved(old(world).blocks@));
    let ball_count: usize = world.balls.len();
    let mut i: usize = 0;
    while i < ball_count
        invariant
            i <= ball_count,
            arena.wf(),
            arena == arena_of(viewport_width, viewport_height),
            origin == (Vec2 { x: 0, y: 0 }),
            world.balls.len() == ball_count,
            old(world).balls.len() == ball_count,
            world.blocks@ == blocks_moved(old(world).blocks@),
            world.paddles@ == old(world).paddles@,
            old(world).wf(),
            forall|k: int| i <= k < ball_count ==> #[trigger] world.balls[k] == old(world).balls[k],
            forall|k: int|
                0 <= k < i ==> is_advance_of(
                    old(world).balls[k],
                    #[trigger] world.balls[k],
                    blocks_moved(old(world).blocks@),
                    arena,
                ),
            forall|k: int|
                0 <= k < i && ball_fits(old(world).balls[k], arena) ==> ball_inside(
                    #[trigger] world.balls[k],
                    arena,
                ),
            forall|k: int| 0 <= k < i ==> (#[trigger] world.balls[k]).ball == old(world).balls[k].ball,
        decreases ball_count - i,
    {
        let mut body: Ball2Bundle = world.balls[i];
        let ghost before = body;
        let mut velocity: Velocity = body.velocity;
        keep_alive(&mut velocity);
        body.velocity = velocity;
        body.position.value = body.position.value.translated(velocity.value);
        let ghost moved = body;
        assert forall|k: int| 0 <= k < world.blocks.len() implies (#[trigger] world.blocks[k]).block.wf() by {
            assert(world.blocks[k] == block_moved(old(world).blocks[k]));
        }
        bounce_ball(&mut body, &world.blocks);
        let ghost met = body;
        contain_ball(&mut body, origin, &arena);
        proof {
            let (a, b) = choose|a: int, b: int|
                -NUDGE_MAX <= a <= NUDGE_MAX && 0 <= b < TAU && velocity.value
                    == #[trigger] kept_alive(before.velocity.value, a, b);
            let angles = choose|angles: Seq<int>|
                are_jitters(angles, world.blocks@.len()) && met == #[trigger] bounced(
                    moved,
                    world.blocks@,
                    angles,
                );
            assert(body == ball_advanced(before, a, b, world.blocks@, angles, arena));
        }
        world.balls.set(i, body);
        i = i + 1;
    }
    let mut j: usize = 0;
    while j < block_count
        invariant
            j <= block_count,
            arena.wf(),
            arena == arena_of(viewport_width, viewport_height),
            origin == (Vec2 { x: 0, y: 0 }),
            world.blocks.len() == block_count,
            old(world).blocks.len() == block_count,
            old(world).wf(),
            world.paddles@ == old(world).paddles@,
            world.balls.len() == old(world).balls.len(),
            forall|k: int|
                0 <= k < world.balls.len() ==> is_advance_of(
                    old(world).balls[k],
                    #[trigger] world.balls[k],
                    blocks_moved(old(world).blocks@),
                    arena,
                ),
            forall|k: int|
                0 <= k < world.balls.len() && ball_fits(old(world).balls[k], arena) ==> ball_inside(
                    #[trigger] world.balls[k],
                    arena,
                ),
            forall|k: int|
                0 <= k < world.balls.len() ==> (#[trigger] world.balls[k]).ball
                    == old(world).balls[k].ball,
            forall|k: int|
                0 <= k < j ==> #[trigger] world.blocks[k] == block_contained(
                    block_moved(old(world).blocks[k]),
                    origin,
                    arena,
                ),
            forall|k: int| j <= k < block_count ==> #[trigger] world.blocks[k] == block_moved(old(world).blocks[k]),
        decreases block_count - j,
    {
        let mut block: BlockBundle = world.blocks[j];
        contain_block(&mut block, origin, &arena);
        world.blocks.set(j, block);
        j = j + 1;
    }
    assert(world.blocks@ =~= blocks_advanced(old(world).blocks@, arena));
}

} // verus!

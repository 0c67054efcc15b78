use arcade_physics::ball::{Ball, Ball2Bundle};
use arcade_physics::block::{Block, BlockBundle};
use arcade_physics::common::{Arena, Position, Velocity};
use arcade_physics::containment::{contain_axis, contain_ball, contain_block, magnitude_sat};
use arcade_physics::fixed::ONE;
use arcade_physics::vector::Vec2;

fn ball(x: i64, y: i64, vx: i64, vy: i64, radius: i64) -> Ball2Bundle {
    Ball2Bundle {
        ball: Ball { radius },
        velocity: Velocity { value: Vec2::new(vx, vy) },
        position: Position { value: Vec2::new(x, y) },
    }
}

#[test]
fn arena_from_viewport_halves_the_size() {
    let a = Arena::from_viewport(600_000_000, 800_000_000);
    assert_eq!(a, Arena { half_width: 300_000_000, half_height: 400_000_000 });
    let b = Arena::from_viewport(7, 0);
    assert_eq!(b, Arena { half_width: 3, half_height: 0 });
    let c = Arena::from_viewport(u64::MAX, u64::MAX);
    assert_eq!(c.half_width, i64::MAX);
}

#[test]
fn magnitude_sat_of_the_least_value() {
    assert_eq!(magnitude_sat(i64::MIN), i64::MAX);
    assert_eq!(magnitude_sat(-3), 3);
    assert_eq!(magnitude_sat(3), 3);
    assert_eq!(magnitude_sat(0), 0);
}

#[test]
fn axis_inside_is_left_alone() {
    assert_eq!(contain_axis(0, 5, 5, 10, 300), (5, 5));
    assert_eq!(contain_axis(0, -5, -5, 10, 300), (-5, -5));
    assert_eq!(contain_axis(280, 9, 9, 10, 300), (289, 9));
    assert_eq!(contain_axis(-280, -9, -9, 10, 300), (-289, -9));
}

#[test]
fn axis_at_the_upper_limit_turns_back() {
    // reaching the limit exactly already counts as leaving
    assert_eq!(contain_axis(280, 10, 10, 10, 300), (290, -10));
    assert_eq!(contain_axis(280, 11, 11, 10, 300), (290, -11));
    assert_eq!(contain_axis(500, 0, -3, 10, 300), (290, -3));
    assert_eq!(contain_axis(500, 0, 0, 10, 300), (290, 0));
}

#[test]
fn axis_at_the_lower_limit_turns_back() {
    assert_eq!(contain_axis(-280, -10, -10, 10, 300), (-290, 10));
    assert_eq!(contain_axis(-280, -11, -11, 10, 300), (-290, 11));
    assert_eq!(contain_axis(-500, 0, 3, 10, 300), (-290, 3));
}

#[test]
fn axis_with_no_room_goes_to_the_upper_limit() {
    // a body wider than the arena: the limits cross, the upper one wins
    assert_eq!(contain_axis(0, 0, 7, 400, 300), (-100, -7));
    assert_eq!(contain_axis(-1_000, 0, -7, 400, 300), (-100, -7));
    assert_eq!(contain_axis(1_000, 0, 7, 400, 300), (-100, -7));
    // the limits meet
    assert_eq!(contain_axis(0, 0, 7, 300, 300), (0, -7));
}

#[test]
fn axis_survives_the_ends_of_the_range() {
    assert_eq!(contain_axis(i64::MAX, i64::MAX, i64::MAX, 10, 300), (290, -i64::MAX));
    assert_eq!(contain_axis(i64::MIN, i64::MIN, i64::MIN, 10, 300), (-290, i64::MAX));
    assert_eq!(contain_axis(i64::MAX, 1, i64::MIN, 1, i64::MAX), (i64::MAX - 1, -i64::MAX));
}

#[test]
fn ball_outside_on_the_right_is_clamped() {
    let arena = Arena { half_width: 300 * ONE, half_height: 400 * ONE };
    for vx in [5 * ONE, -5 * ONE, 0, 1, -1] {
        let mut b = ball(500 * ONE, 0, vx, 2 * ONE, 10 * ONE);
        contain_ball(&mut b, Vec2::new(0, 0), &arena);
        assert_eq!(b.position.value.x, 290 * ONE);
        assert!(b.velocity.value.x <= 0);
        assert_eq!(b.velocity.value.x, -vx.abs());
        assert_eq!(b.position.value.y, 0);
        assert_eq!(b.velocity.value.y, 2 * ONE);
    }
}

#[test]
fn ball_is_contained_on_both_axes() {
    let arena = Arena { half_width: 300 * ONE, half_height: 400 * ONE };
    let mut b = ball(-289 * ONE, 389 * ONE, -3 * ONE, 4 * ONE, 10 * ONE);
    contain_ball(&mut b, Vec2::new(-3 * ONE, 4 * ONE), &arena);
    assert_eq!(b.position.value, Vec2::new(-290 * ONE, 390 * ONE));
    assert_eq!(b.velocity.value, Vec2::new(3 * ONE, -4 * ONE));
    assert_eq!(b.ball.radius, 10 * ONE);
}

#[test]
fn ball_inside_moves_by_the_displacement() {
    let arena = Arena { half_width: 300 * ONE, half_height: 400 * ONE };
    let mut b = ball(10 * ONE, 20 * ONE, 3 * ONE, -4 * ONE, 10 * ONE);
    contain_ball(&mut b, Vec2::new(3 * ONE, -4 * ONE), &arena);
    assert_eq!(b.position.value, Vec2::new(13 * ONE, 16 * ONE));
    assert_eq!(b.velocity.value, Vec2::new(3 * ONE, -4 * ONE));
}

#[test]
fn contained_ball_lies_in_the_arena_wherever_it_was() {
    let arena = Arena { half_width: 300 * ONE, half_height: 400 * ONE };
    let r = 10 * ONE;
    let spots: [i64; 9] = [i64::MIN, -1_000 * ONE, -290 * ONE, -1, 0, 1, 290 * ONE, 1_000 * ONE, i64::MAX];
    let steps: [i64; 5] = [i64::MIN, -7 * ONE, 0, 7 * ONE, i64::MAX];
    for x in spots {
        for y in spots {
            for d in steps {
                let mut b = ball(x, y, d, d, r);
                contain_ball(&mut b, Vec2::new(d, d), &arena);
                let p = b.position.value;
                assert!(-arena.half_width + r <= p.x && p.x <= arena.half_width - r);
                assert!(-arena.half_height + r <= p.y && p.y <= arena.half_height - r);
            }
        }
    }
}

#[test]
fn block_is_contained_from_side_to_side_only() {
    let arena = Arena { half_width: 300 * ONE, half_height: 400 * ONE };
    let mut b = BlockBundle {
        block: Block { height: 24 * ONE, width: 60 * ONE },
        velocity: Velocity { value: Vec2::new(2 * ONE, 0) },
        position: Position { value: Vec2::new(269 * ONE, 1_000 * ONE) },
    };
    contain_block(&mut b, Vec2::new(2 * ONE, 5 * ONE), &arena);
    // the limit on the right is 300 - 30 = 270
    assert_eq!(b.position.value, Vec2::new(270 * ONE, 1_005 * ONE));
    assert_eq!(b.velocity.value, Vec2::new(-2 * ONE, 0));
    contain_block(&mut b, Vec2::new(-2 * ONE, 0), &arena);
    assert_eq!(b.position.value, Vec2::new(268 * ONE, 1_005 * ONE));
    assert_eq!(b.velocity.value, Vec2::new(-2 * ONE, 0));
    let mut c = BlockBundle {
        block: Block { height: 24 * ONE, width: 60 * ONE },
        velocity: Velocity { value: Vec2::new(-2 * ONE, 0) },
        position: Position { value: Vec2::new(-269 * ONE, 0) },
    };
    contain_block(&mut c, Vec2::new(-2 * ONE, 0), &arena);
    assert_eq!(c.position.value, Vec2::new(-270 * ONE, 0));
    assert_eq!(c.velocity.value, Vec2::new(2 * ONE, 0));
}

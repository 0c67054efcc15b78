use arcade_physics::common::{Position, Velocity};
use arcade_physics::detector::detect;
use arcade_physics::fixed::ONE;
use arcade_physics::resolver::{deflect, resolve, resolve_with, JITTER_MAX};
use arcade_physics::rotation::Rotation;
use arcade_physics::vector::Vec2;

const NO_TURN: u32 = 0x8000_0000;

fn pos(x: i64, y: i64) -> Position {
    Position { value: Vec2::new(x, y) }
}

fn vel(x: i64, y: i64) -> Velocity {
    Velocity { value: Vec2::new(x, y) }
}

#[test]
fn jitter_is_two_and_a_half_degrees() {
    assert_eq!(JITTER_MAX, 43_633);
    let degrees = JITTER_MAX as f64 / 1e6 * 180.0 / std::f64::consts::PI;
    assert!(degrees <= 2.5 && degrees > 2.4999);
}

#[test]
fn ball_meets_the_block_from_below() {
    // ball at (0,0) of radius 10 moving by (0,5); block over x in [-30,30], y in [15,25]
    for _ in 0..200 {
        let mut p = pos(0, 0);
        let mut v = vel(0, 5 * ONE);
        p.value = p.value.translated(v.value);
        let c = detect(p.value, 10 * ONE, Vec2::new(-30 * ONE, 15 * ONE), Vec2::new(60 * ONE, 10 * ONE))
            .unwrap();
        resolve(&mut p, &mut v, &vel(0, 0), c.normal, c.penetration);
        assert!(v.value.y < 0);
        assert!(p.value.y >= 5 * ONE);
        assert_eq!(p.value, Vec2::new(0, 5 * ONE));
    }
}

#[test]
fn resolve_without_turn_reflects_exactly() {
    let mut p = pos(0, 5 * ONE);
    let mut v = vel(0, 5 * ONE);
    resolve_with(&mut p, &mut v, &vel(0, 0), Vec2::new(0, -ONE), 0, NO_TURN);
    assert_eq!(p, pos(0, 5 * ONE));
    assert_eq!(v, vel(0, -5 * ONE));

    let mut p = pos(0, 8 * ONE);
    let mut v = vel(3 * ONE, 4 * ONE);
    resolve_with(&mut p, &mut v, &vel(0, 0), Vec2::new(0, -ONE), 3 * ONE, NO_TURN);
    assert_eq!(p, pos(0, 5 * ONE));
    assert_eq!(v, vel(3 * ONE, -4 * ONE));
}

#[test]
fn resolve_turns_by_the_angle_of_the_draw() {
    let mut p = pos(0, 5 * ONE);
    let mut v = vel(0, 5 * ONE);
    resolve_with(&mut p, &mut v, &vel(0, 0), Vec2::new(0, -ONE), 0, 0);
    assert_eq!(v, vel(-218_090, -4_995_241));

    let mut v = vel(0, 5 * ONE);
    resolve_with(&mut p, &mut v, &vel(0, 0), Vec2::new(0, -ONE), 0, u32::MAX);
    assert_eq!(v, vel(218_090, -4_995_241));

    let mut v = vel(0, 5 * ONE);
    resolve_with(&mut p, &mut v, &vel(0, 0), Vec2::new(0, -ONE), 0, 0x4000_0000);
    assert_eq!(v, vel(-109_065, -4_998_810));

    let mut p = pos(0, 8 * ONE);
    let mut v = vel(3 * ONE, 4 * ONE);
    resolve_with(&mut p, &mut v, &vel(0, 0), Vec2::new(0, -ONE), 3 * ONE, 0);
    assert_eq!(v, vel(2_822_672, -4_127_047));
    let mut v = vel(3 * ONE, 4 * ONE);
    resolve_with(&mut p, &mut v, &vel(0, 0), Vec2::new(0, -ONE), 3 * ONE, u32::MAX);
    assert_eq!(v, vel(3_171_616, -3_865_339));
}

#[test]
fn resolve_at_a_corner() {
    let c = detect(Vec2::new(-33 * ONE, 11 * ONE), 10 * ONE, Vec2::new(-30 * ONE, 15 * ONE), Vec2::new(60 * ONE, 10 * ONE))
        .unwrap();
    let mut p = pos(-33 * ONE, 11 * ONE);
    let mut v = vel(6 * ONE, 8 * ONE);
    resolve_with(&mut p, &mut v, &vel(0, 0), c.normal, c.penetration, NO_TURN);
    // pushed out by 5 along (-0.6, -0.8), and turned straight back
    assert_eq!(p, pos(-36 * ONE, 7 * ONE));
    assert_eq!(v, vel(-6 * ONE, -8 * ONE));
}

#[test]
fn separating_contact_leaves_the_velocity() {
    let normal = Vec2::new(0, -ONE);
    for (vx, vy) in [(0, -5 * ONE), (3 * ONE, -1), (7 * ONE, 0), (-2 * ONE, -9 * ONE)] {
        for _ in 0..20 {
            let mut p = pos(0, 8 * ONE);
            let mut v = vel(vx, vy);
            resolve(&mut p, &mut v, &vel(0, 0), normal, 3 * ONE);
            assert_eq!(v, vel(vx, vy));
            assert_eq!(p, pos(0, 5 * ONE));
        }
    }
    // the obstacle runs away faster than the ball follows
    let mut p = pos(0, 8 * ONE);
    let mut v = vel(0, 5 * ONE);
    resolve(&mut p, &mut v, &vel(0, 6 * ONE), normal, 0);
    assert_eq!(v, vel(0, 5 * ONE));
}

#[test]
fn resolved_speed_equals_the_speed_before() {
    let normals = [Vec2::new(0, -ONE), Vec2::new(-600_000, -800_000), Vec2::new(707_106, -707_106)];
    let speeds = [(0, 5 * ONE), (3 * ONE, 4 * ONE), (-6 * ONE, 8 * ONE), (1, 150_000), (9_999_999, 1)];
    for n in normals {
        for (vx, vy) in speeds {
            for _ in 0..50 {
                let mut p = pos(0, 0);
                let mut v = vel(vx, vy);
                let before = v.value.length() as u128;
                resolve(&mut p, &mut v, &vel(0, 0), n, 0);
                let after = v.value.length_squared();
                assert!(after >= (before - 2) * (before - 2));
                assert!(after < (before + 1) * (before + 1));
            }
        }
    }
}

#[test]
fn resolved_direction_is_within_the_jitter_of_the_mirror_image() {
    let limit = 2.5f64.to_radians() + 1e-5;
    for _ in 0..500 {
        let mut p = pos(0, 0);
        let mut v = vel(3 * ONE, 4 * ONE);
        resolve(&mut p, &mut v, &vel(0, 0), Vec2::new(0, -ONE), 0);
        let got = (v.value.y as f64).atan2(v.value.x as f64);
        let mirror = (-4.0f64).atan2(3.0);
        assert!((got - mirror).abs() <= limit, "turned by {}", got - mirror);
    }
}

#[test]
fn moving_obstacle_changes_the_direction_not_the_speed() {
    let mut p = pos(-33 * ONE, 11 * ONE);
    let mut v = vel(6 * ONE, 8 * ONE);
    resolve_with(&mut p, &mut v, &vel(ONE, 0), Vec2::new(-600_000, -800_000), 5 * ONE, NO_TURN);
    assert_eq!(v, vel(-6 * ONE, -8 * ONE));
}

#[test]
fn bounce_that_leaves_no_direction_goes_off_along_the_normal() {
    // the ball rises at 2, the obstacle at 1: the bounce stops the ball
    let mut p = pos(0, 0);
    let mut v = vel(0, 2 * ONE);
    resolve_with(&mut p, &mut v, &vel(0, ONE), Vec2::new(0, -ONE), 0, NO_TURN);
    assert_eq!(v, vel(0, -2 * ONE));
    let mut v = vel(0, 2 * ONE);
    resolve_with(&mut p, &mut v, &vel(0, ONE), Vec2::new(0, -ONE), 0, u32::MAX);
    assert_eq!(v, vel(87_236, -1_998_096));
}

#[test]
fn push_out_saturates() {
    let mut p = pos(i64::MAX - 1, i64::MIN + 1);
    let mut v = vel(0, 0);
    resolve_with(&mut p, &mut v, &vel(0, 0), Vec2::new(ONE, -ONE), 5, NO_TURN);
    assert_eq!(p, pos(i64::MAX, i64::MIN));
    assert_eq!(v, vel(0, 0));
}

#[test]
fn resolve_survives_the_ends_of_the_range() {
    let mut p = pos(0, 0);
    let mut v = vel(i64::MAX, i64::MAX);
    resolve_with(&mut p, &mut v, &vel(i64::MIN, i64::MIN), Vec2::new(-ONE, -ONE), i64::MAX, 0);
    assert_eq!(p, pos(-i64::MAX, -i64::MAX));
    let mut v = vel(i64::MIN, i64::MIN);
    resolve_with(&mut p, &mut v, &vel(i64::MAX, i64::MAX), Vec2::new(ONE, ONE), i64::MIN, u32::MAX);
    assert!(v.value.x > 0 && v.value.y > 0);
}

#[test]
fn deflect_gives_the_speed_asked_for() {
    let turn = Rotation::from_angle(0);
    assert_eq!(deflect(Vec2::new(0, -3), Vec2::new(0, 0), turn, 5_000_000), Vec2::new(0, -5_000_000));
    assert_eq!(deflect(Vec2::new(0, 0), Vec2::new(ONE, 0), turn, 5_000_000), Vec2::new(5_000_000, 0));
    assert_eq!(deflect(Vec2::new(0, 0), Vec2::new(0, 0), turn, 5_000_000), Vec2::new(0, 0));
    let quarter = Rotation::from_angle(1_570_796);
    assert_eq!(deflect(Vec2::new(7, 0), Vec2::new(0, 0), quarter, 5_000_000), Vec2::new(0, 5_000_000));
}

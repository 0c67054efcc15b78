use arcade_physics::fixed::ONE;
use arcade_physics::rotation::{Rotation, EIGHTH_TURN, PI, QUARTER_TURN, TAU};
use arcade_physics::vector::Vec2;

#[test]
fn angle_constants() {
    assert_eq!(PI, 3_141_593);
    assert_eq!(TAU, 6_283_185);
    assert_eq!(QUARTER_TURN, 1_570_796);
    assert_eq!(EIGHTH_TURN, 785_398);
}

#[test]
fn no_turn_leaves_a_vector_as_it_is() {
    let r = Rotation::from_angle(0);
    assert_eq!(r, Rotation { cos: ONE, sin: 0 });
    assert_eq!(r.apply(Vec2::new(12, -34)), Vec2::new(12, -34));
}

#[test]
fn from_angle_at_the_quarter_turns() {
    assert_eq!(Rotation::from_angle(0), Rotation { cos: 1_000_000, sin: 0 });
    assert_eq!(Rotation::from_angle(QUARTER_TURN), Rotation { cos: 0, sin: 1_000_000 });
    assert_eq!(Rotation::from_angle(2 * QUARTER_TURN), Rotation { cos: -1_000_000, sin: 0 });
    assert_eq!(Rotation::from_angle(3 * QUARTER_TURN), Rotation { cos: 0, sin: -1_000_000 });
}

#[test]
fn from_angle_exact_values() {
    assert_eq!(Rotation::from_angle(43_633), Rotation { cos: 999_048, sin: 43_619 });
    assert_eq!(Rotation::from_angle(98_174), Rotation { cos: 995_184, sin: 98_016 });
    assert_eq!(Rotation::from_angle(785_398), Rotation { cos: 707_106, sin: 707_107 });
    assert_eq!(Rotation::from_angle(1_000_000), Rotation { cos: 540_302, sin: 841_471 });
    assert_eq!(Rotation::from_angle(2_000_000), Rotation { cos: -416_147, sin: 909_297 });
    assert_eq!(Rotation::from_angle(PI), Rotation { cos: -999_999, sin: -1 });
}

#[test]
fn from_angle_wraps_around() {
    assert_eq!(Rotation::from_angle(TAU), Rotation::from_angle(0));
    assert_eq!(Rotation::from_angle(TAU + 1_000_000), Rotation::from_angle(1_000_000));
    assert_eq!(Rotation::from_angle(-TAU + 1_000_000), Rotation::from_angle(1_000_000));
    assert_eq!(Rotation::from_angle(-1), Rotation::from_angle(TAU - 1));
    assert_eq!(Rotation::from_angle(i64::MIN).cos.abs() <= ONE, true);
    assert_eq!(Rotation::from_angle(i64::MAX).sin.abs() <= ONE, true);
}

#[test]
fn from_angle_is_close_to_cosine_and_sine() {
    let mut angle: i64 = -TAU;
    while angle < 2 * TAU {
        let r = Rotation::from_angle(angle);
        let a = angle as f64 / 1e6;
        assert!((r.cos as f64 - a.cos() * 1e6).abs() < 3.5, "cos at {}", angle);
        assert!((r.sin as f64 - a.sin() * 1e6).abs() < 3.5, "sin at {}", angle);
        angle += 997;
    }
}

#[test]
fn from_angle_is_a_unit_vector() {
    let mut angle: i64 = 0;
    while angle < TAU {
        let r = Rotation::from_angle(angle);
        let n = (r.cos as i128) * (r.cos as i128) + (r.sin as i128) * (r.sin as i128);
        let one = ONE as i128;
        assert!(n <= one * one);
        assert!(n >= one * one - 2 * one);
        angle += 1_231;
    }
}

#[test]
fn apply_turns_anticlockwise() {
    let quarter = Rotation::from_angle(QUARTER_TURN);
    assert_eq!(quarter.apply(Vec2::new(5_000_000, 0)), Vec2::new(0, 5_000_000));
    assert_eq!(quarter.apply(Vec2::new(0, 5_000_000)), Vec2::new(-5_000_000, 0));
    let half = Rotation::from_angle(2 * QUARTER_TURN);
    assert_eq!(half.apply(Vec2::new(3, -4)), Vec2::new(-3, 4));
}

#[test]
fn apply_exact_value() {
    // (8, 0) turned by one radian: 8 * (0.540302, 0.841471)
    let r = Rotation::from_angle(1_000_000);
    assert_eq!(r.apply(Vec2::new(8_000_000, 0)), Vec2::new(4_322_416, 6_731_768));
    // rounding is toward zero on both sides
    assert_eq!(r.apply(Vec2::new(-8_000_001, 0)), Vec2::new(-4_322_416, -6_731_768));
}

#[test]
fn apply_saturates() {
    let eighth = Rotation::from_angle(EIGHTH_TURN);
    let v = eighth.apply(Vec2::new(i64::MAX, i64::MAX));
    assert_eq!(v.y, i64::MAX);
    let w = eighth.apply(Vec2::new(i64::MIN, i64::MIN));
    assert_eq!(w.y, i64::MIN);
}

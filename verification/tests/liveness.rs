use arcade_physics::common::Velocity;
use arcade_physics::fixed::ONE;
use arcade_physics::liveness::{
    is_out_of_range, is_too_flat, keep_alive, keep_alive_with, nudge_with, re_aim_with, FAST,
    NUDGE_MAX, SLOW,
};
use arcade_physics::vector::Vec2;

fn vel(x: i64, y: i64) -> Velocity {
    Velocity { value: Vec2::new(x, y) }
}

#[test]
fn liveness_thresholds() {
    assert_eq!(SLOW, ONE / 10);
    assert_eq!(FAST, 10 * ONE);
    // a sixty-fourth of a turn is pi / 32
    let exact = std::f64::consts::PI / 32.0 * 1e6;
    assert!((NUDGE_MAX as f64) <= exact && (NUDGE_MAX as f64) > exact - 1.0);
}

#[test]
fn flat_means_less_than_a_tenth_up_or_down() {
    assert!(is_too_flat(Vec2::new(8 * ONE, 0)));
    assert!(is_too_flat(Vec2::new(8 * ONE, 99_999)));
    assert!(is_too_flat(Vec2::new(8 * ONE, -99_999)));
    assert!(!is_too_flat(Vec2::new(8 * ONE, 100_000)));
    assert!(!is_too_flat(Vec2::new(8 * ONE, -100_000)));
    assert!(!is_too_flat(Vec2::new(0, i64::MIN)));
}

#[test]
fn out_of_range_means_slower_than_a_tenth_or_faster_than_ten() {
    assert!(is_out_of_range(Vec2::new(0, 0)));
    assert!(is_out_of_range(Vec2::new(0, 99_999)));
    assert!(!is_out_of_range(Vec2::new(0, 100_000)));
    assert!(!is_out_of_range(Vec2::new(60_000, 80_000)));
    assert!(is_out_of_range(Vec2::new(60_000, 79_999)));
    assert!(!is_out_of_range(Vec2::new(10 * ONE, 0)));
    assert!(is_out_of_range(Vec2::new(10 * ONE, 1)));
    assert!(!is_out_of_range(Vec2::new(-6 * ONE, 8 * ONE)));
    assert!(is_out_of_range(Vec2::new(-6 * ONE, 8 * ONE + 1)));
    assert!(is_out_of_range(Vec2::new(i64::MIN, i64::MAX)));
}

#[test]
fn stalled_ball_is_given_a_new_velocity() {
    for _ in 0..200 {
        let mut v = vel(0, 50_000);
        let before = v.value.length();
        keep_alive(&mut v);
        let after = v.value.length();
        assert!(after != before);
        assert!(after >= ONE as u64 - 2 && after <= ONE as u64);
    }
}

#[test]
fn sound_velocity_is_left_alone() {
    for (x, y) in [(3 * ONE, 4 * ONE), (0, SLOW), (0, -FAST), (-6 * ONE, 8 * ONE), (8 * ONE, -SLOW)] {
        for _ in 0..20 {
            let mut v = vel(x, y);
            keep_alive(&mut v);
            assert_eq!(v, vel(x, y));
        }
        let mut w = vel(x, y);
        keep_alive_with(&mut w, 1, 2);
        assert_eq!(w, vel(x, y));
    }
}

#[test]
fn flat_path_is_turned_by_at_most_a_sixty_fourth_of_a_turn() {
    let limit = std::f64::consts::PI / 32.0 + 1e-6;
    for _ in 0..500 {
        let mut v = vel(8 * ONE, 0);
        keep_alive(&mut v);
        let turned = (v.value.y as f64).atan2(v.value.x as f64);
        assert!(turned.abs() <= limit);
        let n = v.value.length();
        assert!(n >= 8 * ONE as u64 - 12 && n <= 8 * ONE as u64);
    }
}

#[test]
fn nudge_exact_values() {
    let mut v = vel(8 * ONE, 0);
    nudge_with(&mut v, u32::MAX);
    assert_eq!(v, vel(7_961_472, 784_120));
    let mut v = vel(8 * ONE, 0);
    nudge_with(&mut v, 0);
    assert_eq!(v, vel(7_961_472, -784_120));
    let mut v = vel(8 * ONE, 50_000);
    nudge_with(&mut v, 0x8000_0000);
    assert_eq!(v, vel(8 * ONE, 50_000));
    let mut v = vel(8 * ONE, SLOW);
    nudge_with(&mut v, 0);
    assert_eq!(v, vel(8 * ONE, SLOW));
}

#[test]
fn re_aim_exact_values() {
    let mut v = vel(20 * ONE, 0);
    re_aim_with(&mut v, 0xc000_0000);
    assert_eq!(v, vel(0, -ONE));
    let mut v = vel(0, 0);
    re_aim_with(&mut v, 0);
    assert_eq!(v, vel(ONE, 0));
    let mut v = vel(0, 99_999);
    re_aim_with(&mut v, 0x4000_0000);
    assert_eq!(v, vel(0, ONE));
    let mut v = vel(0, SLOW);
    re_aim_with(&mut v, 0x4000_0000);
    assert_eq!(v, vel(0, SLOW));
}

#[test]
fn both_corrections_may_fire_in_one_tick() {
    let mut v = vel(0, 50_000);
    keep_alive_with(&mut v, 0x8000_0000, 0x8000_0000);
    assert_eq!(v, vel(-ONE, 0));
    let mut v = vel(0, 50_000);
    keep_alive_with(&mut v, 0, 0x4000_0000);
    assert_eq!(v, vel(0, ONE));
    // only the nudge
    let mut v = vel(8 * ONE, 0);
    keep_alive_with(&mut v, u32::MAX, 0);
    assert_eq!(v, vel(7_961_472, 784_120));
    // only the new aim
    let mut v = vel(FAST, SLOW);
    keep_alive_with(&mut v, 0, 0x8000_0000);
    assert_eq!(v, vel(-ONE, 0));
}

#[test]
fn speed_is_in_range_after_the_policy_whatever_came_in() {
    let xs: [i64; 9] = [i64::MIN, -FAST - 1, -FAST, -1, 0, 1, SLOW, FAST, i64::MAX];
    for x in xs {
        for y in xs {
            for _ in 0..5 {
                let mut v = vel(x, y);
                keep_alive(&mut v);
                let n2 = v.value.length_squared();
                assert!(n2 >= (SLOW as u128) * (SLOW as u128));
                assert!(n2 <= (FAST as u128) * (FAST as u128));
            }
        }
    }
}

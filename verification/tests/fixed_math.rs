use arcade_physics::fixed::{isqrt, quotient, saturate, ONE};
use arcade_physics::vector::{magnitude, scale_to, Vec2};

#[test]
fn one_is_a_million_sub_units() {
    assert_eq!(ONE, 1_000_000);
}

#[test]
fn isqrt_of_small_numbers() {
    assert_eq!(isqrt(0), 0);
    assert_eq!(isqrt(1), 1);
    assert_eq!(isqrt(2), 1);
    assert_eq!(isqrt(3), 1);
    assert_eq!(isqrt(4), 2);
    assert_eq!(isqrt(8), 2);
    assert_eq!(isqrt(9), 3);
    assert_eq!(isqrt(99), 9);
    assert_eq!(isqrt(100), 10);
}

#[test]
fn isqrt_rounds_down_at_every_square() {
    let mut r: u128 = 1;
    while r < 2_000 {
        assert_eq!(isqrt(r * r - 1), (r - 1) as u64);
        assert_eq!(isqrt(r * r), r as u64);
        assert_eq!(isqrt(r * r + 2 * r), r as u64);
        r += 1;
    }
}

#[test]
fn isqrt_of_large_numbers() {
    assert_eq!(isqrt(1_000_000_000_000), 1_000_000);
    assert_eq!(isqrt(999_999_999_999), 999_999);
    assert_eq!(isqrt(u128::MAX), u64::MAX);
    assert_eq!(isqrt(1u128 << 126), 1u64 << 63);
    assert_eq!(isqrt((1u128 << 126) - 1), (1u64 << 63) - 1);
}

#[test]
fn saturate_stops_at_the_ends() {
    assert_eq!(saturate(0), 0);
    assert_eq!(saturate(-5), -5);
    assert_eq!(saturate(i64::MAX as i128), i64::MAX);
    assert_eq!(saturate(i64::MAX as i128 + 1), i64::MAX);
    assert_eq!(saturate(i64::MIN as i128), i64::MIN);
    assert_eq!(saturate(i64::MIN as i128 - 1), i64::MIN);
    assert_eq!(saturate(i128::MAX), i64::MAX);
    assert_eq!(saturate(i128::MIN), i64::MIN);
}

#[test]
fn quotient_rounds_toward_zero() {
    assert_eq!(quotient(7, 2), 3);
    assert_eq!(quotient(-7, 2), -3);
    assert_eq!(quotient(6, 2), 3);
    assert_eq!(quotient(-6, 2), -3);
    assert_eq!(quotient(1, 2), 0);
    assert_eq!(quotient(-1, 2), 0);
    assert_eq!(quotient(0, 5), 0);
}

#[test]
fn magnitude_drops_the_sign() {
    assert_eq!(magnitude(0), 0);
    assert_eq!(magnitude(12), 12);
    assert_eq!(magnitude(-12), 12);
    assert_eq!(magnitude(i128::MIN + 1), i128::MAX as u128);
}

#[test]
fn vector_length_is_rounded_down() {
    assert_eq!(Vec2::new(3, 4).length(), 5);
    assert_eq!(Vec2::new(-3, 4).length_squared(), 25);
    assert_eq!(Vec2::new(1, 1).length(), 1);
    assert_eq!(Vec2::new(0, 0).length(), 0);
    assert_eq!(Vec2::new(0, -5_000_000).length(), 5_000_000);
    assert_eq!(Vec2::new(i64::MIN, i64::MIN).length_squared(), 1u128 << 127);
    assert_eq!(Vec2::new(i64::MIN, i64::MIN).length(), 13_043_817_825_332_782_212);
}

#[test]
fn translated_adds_and_saturates() {
    assert_eq!(Vec2::new(1, 2).translated(Vec2::new(10, -20)), Vec2::new(11, -18));
    assert_eq!(Vec2::new(i64::MAX, i64::MIN).translated(Vec2::new(1, -1)), Vec2::new(i64::MAX, i64::MIN));
    assert_eq!(Vec2::new(i64::MAX, i64::MIN).translated(Vec2::new(-1, 1)), Vec2::new(i64::MAX - 1, i64::MIN + 1));
}

#[test]
fn with_length_keeps_the_direction() {
    assert_eq!(Vec2::new(3, 4).with_length(1_000_000), Vec2::new(600_000, 800_000));
    assert_eq!(Vec2::new(3, 4).with_length(10), Vec2::new(6, 8));
    assert_eq!(Vec2::new(0, -7).with_length(1_000_000), Vec2::new(0, -1_000_000));
    assert_eq!(Vec2::new(-5_000_000, 0).with_length(8_000_000), Vec2::new(-8_000_000, 0));
}

#[test]
fn with_length_is_exact_for_short_vectors() {
    // a vector one sub-unit long along each axis still yields a unit diagonal
    assert_eq!(Vec2::new(1, 1).with_length(1_000_000), Vec2::new(707_106, 707_106));
    assert_eq!(Vec2::new(-1, 1).with_length(1_000_000), Vec2::new(-707_106, 707_106));
}

#[test]
fn with_length_of_the_zero_vector_is_zero() {
    assert_eq!(Vec2::new(0, 0).with_length(1_000_000), Vec2::new(0, 0));
    assert_eq!(scale_to(0, 0, 5), Vec2::new(0, 0));
}

#[test]
fn with_length_zero_is_zero() {
    assert_eq!(Vec2::new(3, 4).with_length(0), Vec2::new(0, 0));
}

#[test]
fn with_length_saturates_beyond_i64() {
    let v = Vec2::new(1, 0).with_length(u64::MAX);
    assert_eq!(v, Vec2::new(i64::MAX, 0));
    let w = Vec2::new(-1, 0).with_length(u64::MAX);
    assert_eq!(w, Vec2::new(i64::MIN, 0));
}

#[test]
fn with_length_misses_by_less_than_two_sub_units() {
    let lens: [u64; 5] = [2, 17, 1_000_000, 8_000_000, 123_456_789];
    let dirs: [(i64, i64); 7] = [(1, 0), (1, 1), (-3, 7), (1_000, -1), (123_456, 654_321), (-9, -9), (5, 12)];
    for len in lens {
        for (x, y) in dirs {
            let v = Vec2::new(x, y).with_length(len);
            let n2 = v.length_squared();
            let l = len as u128;
            assert!(n2 >= (l - 2) * (l - 2), "too short: {:?} for {}", v, len);
            assert!(n2 < (l + 1) * (l + 1), "too long: {:?} for {}", v, len);
        }
    }
}

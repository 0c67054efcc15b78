use arcade_physics::detector::{covers_centre, detect, Contact};
use arcade_physics::fixed::ONE;
use arcade_physics::vector::Vec2;

fn block_min() -> Vec2 {
    Vec2::new(-30 * ONE, 15 * ONE)
}

fn block_size() -> Vec2 {
    Vec2::new(60 * ONE, 10 * ONE)
}

#[test]
fn far_circle_has_no_contact() {
    // the edge of the block is 15 away, the radius is 10
    assert_eq!(detect(Vec2::new(0, 0), 10 * ONE, block_min(), block_size()), None);
    assert_eq!(detect(Vec2::new(0, 5 * ONE - 1), 10 * ONE, block_min(), block_size()), None);
    assert_eq!(detect(Vec2::new(1_000 * ONE, 20 * ONE), 10 * ONE, block_min(), block_size()), None);
}

#[test]
fn touching_circle_has_a_contact_of_depth_zero() {
    let c = detect(Vec2::new(0, 5 * ONE), 10 * ONE, block_min(), block_size());
    assert_eq!(c, Some(Contact { normal: Vec2::new(0, -ONE), penetration: 0 }));
}

#[test]
fn overlapping_circle_has_depth_radius_less_distance() {
    let c = detect(Vec2::new(0, 8 * ONE), 10 * ONE, block_min(), block_size());
    assert_eq!(c, Some(Contact { normal: Vec2::new(0, -ONE), penetration: 3 * ONE }));
    let d = detect(Vec2::new(40 * ONE - 1, 20 * ONE), 10 * ONE, block_min(), block_size());
    assert_eq!(d, Some(Contact { normal: Vec2::new(ONE, 0), penetration: 1 }));
}

#[test]
fn corner_contact_has_a_slanted_normal() {
    // nearest point is the corner (-30, 15); the way to the centre is (-3, -4)
    let c = detect(Vec2::new(-33 * ONE, 11 * ONE), 10 * ONE, block_min(), block_size());
    assert_eq!(c, Some(Contact { normal: Vec2::new(-600_000, -800_000), penetration: 5 * ONE }));
    let d = detect(Vec2::new(-36 * ONE, 7 * ONE), 10 * ONE, block_min(), block_size());
    assert_eq!(d, Some(Contact { normal: Vec2::new(-600_000, -800_000), penetration: 0 }));
    let e = detect(Vec2::new(-36 * ONE - 1, 7 * ONE), 10 * ONE, block_min(), block_size());
    assert_eq!(e, None);
}

#[test]
fn distance_of_one_sub_unit_still_gives_a_unit_normal() {
    let c = detect(Vec2::new(30 * ONE + 1, 25 * ONE + 1), 10 * ONE, block_min(), block_size());
    assert_eq!(c, Some(Contact { normal: Vec2::new(707_106, 707_106), penetration: 9_999_999 }));
}

#[test]
fn covered_centre_is_reported_as_no_contact() {
    // inside the block
    assert_eq!(detect(Vec2::new(0, 20 * ONE), 10 * ONE, block_min(), block_size()), None);
    assert!(covers_centre(Vec2::new(0, 20 * ONE), block_min(), block_size()));
    // on its edge and on its corner
    assert_eq!(detect(Vec2::new(0, 15 * ONE), 10 * ONE, block_min(), block_size()), None);
    assert!(covers_centre(Vec2::new(0, 15 * ONE), block_min(), block_size()));
    assert_eq!(detect(Vec2::new(30 * ONE, 25 * ONE), 10 * ONE, block_min(), block_size()), None);
    assert!(covers_centre(Vec2::new(30 * ONE, 25 * ONE), block_min(), block_size()));
    // outside
    assert!(!covers_centre(Vec2::new(0, 15 * ONE - 1), block_min(), block_size()));
    assert!(!covers_centre(Vec2::new(30 * ONE + 1, 20 * ONE), block_min(), block_size()));
}

#[test]
fn detect_survives_the_ends_of_the_range() {
    let far = Vec2::new(i64::MAX, i64::MAX);
    let near = Vec2::new(i64::MIN, i64::MIN);
    assert_eq!(detect(far, i64::MAX, near, Vec2::new(1, 1)), None);
    assert_eq!(detect(near, 1, Vec2::new(i64::MAX - 1, i64::MAX - 1), Vec2::new(i64::MAX, i64::MAX)), None);
    let c = detect(Vec2::new(0, 0), i64::MAX, Vec2::new(3, -10), Vec2::new(i64::MAX, 20));
    assert_eq!(c, Some(Contact { normal: Vec2::new(-ONE, 0), penetration: i64::MAX - 3 }));
}

#[test]
fn every_contact_has_a_unit_normal_and_a_depth_below_the_radius() {
    let r = 10 * ONE;
    let mut x: i64 = -45 * ONE;
    while x <= 45 * ONE {
        let mut y: i64 = 0;
        while y <= 40 * ONE {
            if let Some(c) = detect(Vec2::new(x, y), r, block_min(), block_size()) {
                let n2 = c.normal.length_squared();
                let one = ONE as u128;
                assert!(n2 >= (one - 2) * (one - 2) && n2 < (one + 1) * (one + 1));
                assert!(0 <= c.penetration && c.penetration < r);
            }
            y += 1_370_001;
        }
        x += 1_730_003;
    }
}

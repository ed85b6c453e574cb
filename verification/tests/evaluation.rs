use anim_curve::geometry::{Vec2, COORD_MAX, UNIT};
use anim_curve::hermite;
use anim_curve::key::AnimationKey;
use anim_curve::sequence;
use anim_curve::splines;

fn key(x: i32, y: i32) -> AnimationKey {
    AnimationKey::new(Vec2::new(x, y))
}

fn shaped(x: i32, y: i32, tin: (i32, i32), tout: (i32, i32)) -> AnimationKey {
    AnimationKey {
        pos: Vec2::new(x, y),
        tangent_in: Vec2::new(tin.0, tin.1),
        tangent_out: Vec2::new(tout.0, tout.1),
        tangent_locked: false,
    }
}

fn diagonal() -> Vec<AnimationKey> {
    vec![key(0, 0), key(5_000, 5_000), key(10_000, 10_000)]
}

#[test]
fn hermite_boundary_returns_end_keys() {
    let keys = vec![key(1_000, 250), key(5_000, 5_000), key(9_000, -750)];
    assert_eq!(hermite::evaluate(&keys, 1_000), Some(250));
    assert_eq!(hermite::evaluate(&keys, 999), Some(250));
    assert_eq!(hermite::evaluate(&keys, -COORD_MAX), Some(250));
    assert_eq!(hermite::evaluate(&keys, i32::MIN), Some(250));
    assert_eq!(hermite::evaluate(&keys, 9_000), Some(-750));
    assert_eq!(hermite::evaluate(&keys, 9_001), Some(-750));
    assert_eq!(hermite::evaluate(&keys, i32::MAX), Some(-750));
}

#[test]
fn hermite_single_key_is_constant() {
    let keys = vec![key(5_000, 123)];
    assert_eq!(hermite::evaluate(&keys, 0), Some(123));
    assert_eq!(hermite::evaluate(&keys, 5_000), Some(123));
    assert_eq!(hermite::evaluate(&keys, 10_000), Some(123));
}

#[test]
fn hermite_passes_through_the_middle_key() {
    let keys = diagonal();
    assert_eq!(hermite::evaluate(&keys, 5_000), Some(5_000));
}

#[test]
fn hermite_is_continuous_across_the_middle_key() {
    let keys = diagonal();
    let below = hermite::evaluate(&keys, 4_999).unwrap();
    let above = hermite::evaluate(&keys, 5_001).unwrap();
    assert_eq!(below, 4_999);
    assert_eq!(above, 5_000);
    // a thousandth of a unit is ten steps
    assert!((below - above).abs() < 10);
    let at = hermite::evaluate(&keys, 5_000).unwrap();
    assert!((below - at).abs() < 10);
    assert!((above - at).abs() < 10);
}

#[test]
fn hermite_exact_values_with_flat_tangents() {
    let keys = diagonal();
    assert_eq!(hermite::evaluate(&keys, 1), Some(0));
    assert_eq!(hermite::evaluate(&keys, 1_000), Some(520));
    assert_eq!(hermite::evaluate(&keys, 2_500), Some(2_500));
    assert_eq!(hermite::evaluate(&keys, 7_500), Some(7_500));
}

#[test]
fn hermite_exact_values_with_slopes() {
    let keys = vec![
        shaped(0, 0, (-400, 0), (400, 200)),
        shaped(5_000, 5_000, (-400, -400), (400, 400)),
    ];
    assert_eq!(hermite::evaluate(&keys, 1_000), Some(840));
    assert_eq!(hermite::evaluate(&keys, 2_500), Some(1_875));
    assert_eq!(hermite::evaluate(&keys, 1), Some(0));
    assert_eq!(hermite::evaluate(&keys, 3_333), Some(2_592));
    assert_eq!(hermite::evaluate_pair(&keys[0], &keys[1], 3_333), Some(2_592));
}

#[test]
fn hermite_rounds_negative_values_down() {
    let keys = vec![
        shaped(0, 0, (-400, 0), (400, -4_000)),
        shaped(5_000, 0, (-400, 0), (400, 0)),
    ];
    assert_eq!(hermite::evaluate(&keys, 1_000), Some(-12_800));
    assert_eq!(hermite::evaluate(&keys, 2_500), Some(-12_500));
    // exactly -19.992...
    assert_eq!(hermite::evaluate(&keys, 1), Some(-20));
}

#[test]
fn hermite_with_a_tangent_pointing_backwards() {
    let keys = vec![
        shaped(0, 0, (-400, 0), (-400, 200)),
        shaped(5_000, 5_000, (-400, -400), (400, 400)),
    ];
    assert_eq!(hermite::evaluate(&keys, 1_000), Some(-440));
    assert_eq!(hermite::evaluate(&keys, 3_333), Some(1_851));
}

#[test]
fn hermite_vertical_tangent_has_no_value() {
    let mut keys = diagonal();
    keys[0].tangent_out = Vec2::new(0, 400);
    assert_eq!(hermite::evaluate(&keys, 2_500), None);
    // the other segment and the boundaries are not affected
    assert_eq!(hermite::evaluate(&keys, 7_500), Some(7_500));
    assert_eq!(hermite::evaluate(&keys, 0), Some(0));
    assert_eq!(hermite::evaluate(&keys, 5_000), None);
    let mut keys = diagonal();
    keys[1].tangent_in = Vec2::new(0, -400);
    assert_eq!(hermite::evaluate(&keys, 2_500), None);
    assert_eq!(hermite::evaluate_pair(&keys[0], &keys[1], 2_500), None);
    // tangents that shape no segment do not matter
    let mut keys = diagonal();
    keys[0].tangent_in = Vec2::new(0, 0);
    keys[2].tangent_out = Vec2::new(0, 0);
    keys[1].tangent_out = Vec2::new(400, 0);
    assert_eq!(hermite::evaluate(&keys, 2_500), Some(2_500));
}

#[test]
fn hermite_uses_the_first_bracketing_pair() {
    // two keys at the same x: the segment that ends at the first of them is used
    let keys = vec![key(0, 0), key(5_000, 1_000), key(5_000, 9_000), key(10_000, 10_000)];
    assert_eq!(hermite::evaluate(&keys, 5_000), Some(1_000));
}

#[test]
fn hermite_extreme_coordinates_do_not_overflow() {
    let keys = vec![
        shaped(-COORD_MAX, COORD_MAX, (-1, 0), (1, COORD_MAX)),
        shaped(COORD_MAX, -COORD_MAX, (-1, -COORD_MAX), (1, 0)),
    ];
    assert!(sequence::can_evaluate(&keys));
    assert_eq!(hermite::evaluate(&keys, -COORD_MAX), Some(COORD_MAX as i64));
    assert_eq!(hermite::evaluate(&keys, COORD_MAX), Some(-COORD_MAX as i64));
    // h10(1/2) = 1/8 and h11(1/2) = -1/8, both slopes are a million
    assert_eq!(hermite::evaluate(&keys, 0), Some(0));
    let steep = vec![
        shaped(-COORD_MAX, 0, (-1, 0), (1, COORD_MAX)),
        shaped(COORD_MAX, 0, (1, -COORD_MAX), (1, 0)),
    ];
    // 10_000 * (1_000_000 / 8 + 1_000_000 / 8)
    assert_eq!(hermite::evaluate(&steep, 0), Some(2_500_000_000));
}

#[test]
fn can_evaluate_checks_the_preconditions() {
    assert!(sequence::can_evaluate(&diagonal()));
    assert!(!sequence::can_evaluate(&Vec::new()));
    assert!(sequence::can_evaluate(&vec![key(5, 5)]));
    assert!(sequence::can_evaluate(&vec![key(5, 5), key(5, 6)]));
    assert!(!sequence::can_evaluate(&vec![key(5, 5), key(4, 6)]));
    assert!(!sequence::can_evaluate(&vec![key(0, 0), key(5, 5), key(4, 6)]));
    assert!(!sequence::can_evaluate(&vec![key(0, 0), key(COORD_MAX + 1, 0)]));
}

#[test]
fn bezier_boundary_returns_end_keys() {
    let keys = vec![key(1_000, 250), key(5_000, 5_000), key(9_000, -750)];
    assert_eq!(splines::evaluate(&keys, 1_000), 250);
    assert_eq!(splines::evaluate(&keys, i32::MIN), 250);
    assert_eq!(splines::evaluate(&keys, 9_000), -750);
    assert_eq!(splines::evaluate(&keys, i32::MAX), -750);
}

#[test]
fn bezier_exact_values() {
    let keys = diagonal();
    assert_eq!(splines::evaluate(&keys, 5_000), 5_000);
    assert_eq!(splines::evaluate(&keys, 1), 0);
    assert_eq!(splines::evaluate(&keys, 1_000), 520);
    assert_eq!(splines::evaluate(&keys, 2_500), 2_500);
    assert_eq!(splines::evaluate(&keys, 3_333), 3_703);
    assert_eq!(splines::evaluate(&keys, 4_999), 4_999);
    assert_eq!(splines::evaluate(&keys, 7_500), 7_500);
}

#[test]
fn bezier_pair_points() {
    let k0 = key(0, 0);
    let k1 = key(5_000, 5_000);
    assert_eq!(splines::evaluate_pair_bezier(&k0, &k1, 0, 1), Vec2::new(0, 0));
    assert_eq!(splines::evaluate_pair_bezier(&k0, &k1, 1, 1), Vec2::new(5_000, 5_000));
    assert_eq!(splines::evaluate_pair_bezier(&k0, &k1, 7, 7), Vec2::new(5_000, 5_000));
    assert_eq!(splines::evaluate_pair_bezier(&k0, &k1, 1, 2), Vec2::new(2_500, 2_500));
    assert_eq!(splines::evaluate_pair_bezier(&k0, &k1, 1_000, 5_000), Vec2::new(635, 520));
    assert_eq!(splines::evaluate_pair_bezier(&k0, &k1, 1, 3), Vec2::new(1_385, 1_296));
    let a = shaped(0, 0, (-400, 0), (400, 300));
    let b = shaped(5_000, 5_000, (-400, -100), (400, 0));
    assert_eq!(splines::evaluate_pair_bezier(&a, &b, 1, 3), Vec2::new(1_385, 1_407));
    assert_eq!(splines::evaluate_pair_bezier(&a, &b, 2, 7), Vec2::new(1_096, 1_104));
}

#[test]
fn bezier_rounds_negative_values_down() {
    let a = shaped(0, -10_000, (-400, 0), (400, -300));
    let b = shaped(10_000, -5_000, (-400, -100), (400, 0));
    // y is exactly -8859.26...
    assert_eq!(splines::evaluate_pair_bezier(&a, &b, 1, 3), Vec2::new(2_681, -8_860));
}

#[test]
fn bezier_extreme_values_do_not_overflow() {
    let a = shaped(-COORD_MAX, COORD_MAX, (0, 0), (COORD_MAX, COORD_MAX));
    let b = shaped(COORD_MAX, -COORD_MAX, (-COORD_MAX, -COORD_MAX), (0, 0));
    let p = splines::evaluate_pair_bezier(&a, &b, i32::MAX - 1, i32::MAX);
    assert!(-2 * COORD_MAX <= p.x && p.x <= 2 * COORD_MAX);
    assert!(-2 * COORD_MAX <= p.y && p.y <= 2 * COORD_MAX);
    assert_eq!(
        splines::evaluate_pair_bezier(&a, &b, i32::MAX, i32::MAX),
        Vec2::new(COORD_MAX, -COORD_MAX)
    );
    assert_eq!(
        splines::evaluate_pair_bezier(&a, &b, 0, i32::MAX),
        Vec2::new(-COORD_MAX, COORD_MAX)
    );
}

#[test]
fn samples_cover_the_unit_interval() {
    let keys = diagonal();
    let pts = splines::get_hermite(&keys, 5);
    let xs: Vec<i32> = pts.iter().map(|p| p.x).collect();
    assert_eq!(xs, vec![0, 2_000, 4_000, 6_000, 8_000, 10_000]);
    for p in pts.iter() {
        assert_eq!(p.y, splines::evaluate(&keys, p.x));
    }
    let pts = splines::get_hermite(&keys, 7);
    assert_eq!(pts.len(), 8);
    assert_eq!(pts[0], Vec2::new(0, 0));
    assert_eq!(pts[1], Vec2::new(1_428, 990));
    assert_eq!(pts[2], Vec2::new(2_857, 3_031));
    assert_eq!(pts[3], Vec2::new(4_285, 4_722));
    assert_eq!(pts[7], Vec2::new(UNIT, UNIT));
    assert_eq!(splines::get_hermite(&keys, 1), vec![Vec2::new(0, 0), Vec2::new(UNIT, UNIT)]);
    assert_eq!(splines::get_hermite(&keys, 500).len(), 501);
}

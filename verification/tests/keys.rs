use anim_curve::geometry::{add_coord, clamp_coord, floor_div, Vec2, COORD_MAX, UNIT};
use anim_curve::key::{AnimationKey, AnimationKeyPointField, CIRCLE_CLICK_RADIUS, TANGENT_LENGTH};

fn key(x: i32, y: i32) -> AnimationKey {
    AnimationKey::new(Vec2::new(x, y))
}

#[test]
fn new_key_has_locked_horizontal_tangents() {
    let k = key(3_000, 2_000);
    assert_eq!(k.pos, Vec2::new(3_000, 2_000));
    assert_eq!(k.tangent_in, Vec2::new(-TANGENT_LENGTH, 0));
    assert_eq!(k.tangent_out, Vec2::new(TANGENT_LENGTH, 0));
    assert!(k.tangent_locked);
    assert_eq!(TANGENT_LENGTH, 400);
    assert_eq!(UNIT, 10_000);
}

#[test]
fn translate_position_leaves_tangents() {
    let mut k = key(1_000, 1_000);
    k.translate(&AnimationKeyPointField::Pos, Vec2::new(250, -125));
    assert_eq!(k.pos, Vec2::new(1_250, 875));
    assert_eq!(k.tangent_in, Vec2::new(-400, 0));
    assert_eq!(k.tangent_out, Vec2::new(400, 0));
}

#[test]
fn translate_locked_tangent_in_mirrors_out() {
    let mut k = key(0, 0);
    k.translate(&AnimationKeyPointField::TanIn, Vec2::new(100, 50));
    assert_eq!(k.tangent_in, Vec2::new(-300, 50));
    assert_eq!(k.tangent_out, Vec2::new(300, -50));
    assert!(k.tangent_locked);
}

#[test]
fn translate_locked_tangent_out_mirrors_in() {
    let mut k = key(0, 0);
    k.translate(&AnimationKeyPointField::TanOut, Vec2::new(-30, 70));
    assert_eq!(k.tangent_out, Vec2::new(370, 70));
    assert_eq!(k.tangent_in, Vec2::new(-370, -70));
}

#[test]
fn translate_unlocked_tangent_is_independent() {
    let mut k = key(0, 0);
    k.tangent_locked = false;
    k.translate(&AnimationKeyPointField::TanIn, Vec2::new(100, 50));
    assert_eq!(k.tangent_in, Vec2::new(-300, 50));
    assert_eq!(k.tangent_out, Vec2::new(400, 0));
    k.translate(&AnimationKeyPointField::TanOut, Vec2::new(1, 2));
    assert_eq!(k.tangent_in, Vec2::new(-300, 50));
    assert_eq!(k.tangent_out, Vec2::new(401, 2));
}

#[test]
fn locked_tangents_stay_opposite_over_many_moves() {
    let mut k = key(5_000, 5_000);
    let moves = [
        (AnimationKeyPointField::TanIn, Vec2::new(17, -9)),
        (AnimationKeyPointField::Pos, Vec2::new(-300, 20)),
        (AnimationKeyPointField::TanOut, Vec2::new(-1_000, 333)),
        (AnimationKeyPointField::TanIn, Vec2::new(2_000_000, -2_000_000)),
        (AnimationKeyPointField::TanOut, Vec2::new(5, 5)),
    ];
    for (field, delta) in moves.iter() {
        k.translate(field, *delta);
        assert!(k.tangent_locked);
        assert_eq!(k.tangent_out.x, -k.tangent_in.x);
        assert_eq!(k.tangent_out.y, -k.tangent_in.y);
    }
}

#[test]
fn translate_saturates_at_the_coordinate_range() {
    let mut k = key(999_990, -999_990);
    k.translate(&AnimationKeyPointField::Pos, Vec2::new(20, -20));
    assert_eq!(k.pos, Vec2::new(COORD_MAX, -COORD_MAX));
    k.translate(&AnimationKeyPointField::Pos, Vec2::new(i32::MAX, i32::MIN));
    assert_eq!(k.pos, Vec2::new(COORD_MAX, -COORD_MAX));
    k.translate(&AnimationKeyPointField::Pos, Vec2::new(i32::MIN, i32::MAX));
    assert_eq!(k.pos, Vec2::new(-COORD_MAX, COORD_MAX));
}

#[test]
fn toggle_lock_on_unlocked_key_mirrors_from_tangent_in() {
    let mut k = AnimationKey {
        pos: Vec2::new(5_000, 5_000),
        tangent_in: Vec2::new(-200, 100),
        tangent_out: Vec2::new(500, 300),
        tangent_locked: false,
    };
    k.toggle_tangent(AnimationKeyPointField::TanIn);
    assert!(k.tangent_locked);
    assert_eq!(k.tangent_out, Vec2::new(200, -100));
    assert_eq!(k.tangent_in, Vec2::new(-200, 100));
    assert_eq!(k.pos, Vec2::new(5_000, 5_000));
}

#[test]
fn toggle_lock_from_tangent_out_mirrors_in() {
    let mut k = AnimationKey {
        pos: Vec2::new(0, 0),
        tangent_in: Vec2::new(-200, 100),
        tangent_out: Vec2::new(500, 300),
        tangent_locked: false,
    };
    k.toggle_tangent(AnimationKeyPointField::TanOut);
    assert!(k.tangent_locked);
    assert_eq!(k.tangent_in, Vec2::new(-500, -300));
    assert_eq!(k.tangent_out, Vec2::new(500, 300));
}

#[test]
fn toggle_lock_named_by_position_keeps_the_incoming_tangent() {
    let mut k = AnimationKey {
        pos: Vec2::new(0, 0),
        tangent_in: Vec2::new(-200, 100),
        tangent_out: Vec2::new(500, 300),
        tangent_locked: false,
    };
    k.toggle_tangent(AnimationKeyPointField::Pos);
    assert!(k.tangent_locked);
    assert_eq!(k.tangent_in, Vec2::new(-200, 100));
    assert_eq!(k.tangent_out, Vec2::new(200, -100));
}

#[test]
fn toggle_lock_off_changes_no_handle() {
    let mut k = key(1, 2);
    k.toggle_tangent(AnimationKeyPointField::TanOut);
    assert!(!k.tangent_locked);
    assert_eq!(k.tangent_in, Vec2::new(-400, 0));
    assert_eq!(k.tangent_out, Vec2::new(400, 0));
}

#[test]
fn toggle_lock_on_already_opposite_tangents_changes_no_handle() {
    let mut k = key(1, 2);
    k.tangent_locked = false;
    k.toggle_tangent(AnimationKeyPointField::TanIn);
    assert!(k.tangent_locked);
    assert_eq!(k.tangent_in, Vec2::new(-400, 0));
    assert_eq!(k.tangent_out, Vec2::new(400, 0));
}

#[test]
fn hit_test_picks_the_nearest_handle() {
    let k = key(5_000, 5_000);
    assert_eq!(k.intersects(Vec2::new(5_000, 5_000)), Some(AnimationKeyPointField::Pos));
    assert_eq!(k.intersects(Vec2::new(4_600, 5_000)), Some(AnimationKeyPointField::TanIn));
    assert_eq!(k.intersects(Vec2::new(5_400, 5_010)), Some(AnimationKeyPointField::TanOut));
    // 199 from the position, 201 from the outgoing tangent
    assert_eq!(k.intersects(Vec2::new(5_199, 5_000)), Some(AnimationKeyPointField::Pos));
    // 201 from the position, 199 from the outgoing tangent
    assert_eq!(k.intersects(Vec2::new(5_201, 5_000)), Some(AnimationKeyPointField::TanOut));
}

#[test]
fn hit_test_tie_goes_to_the_earlier_handle() {
    let k = key(5_000, 5_000);
    // 200 from the position and from each tangent end
    assert_eq!(k.intersects(Vec2::new(5_200, 5_000)), Some(AnimationKeyPointField::Pos));
    assert_eq!(k.intersects(Vec2::new(4_800, 5_000)), Some(AnimationKeyPointField::Pos));
    let folded = AnimationKey {
        pos: Vec2::new(0, 0),
        tangent_in: Vec2::new(400, 0),
        tangent_out: Vec2::new(400, 0),
        tangent_locked: false,
    };
    assert_eq!(folded.intersects(Vec2::new(400, 0)), Some(AnimationKeyPointField::TanIn));
    assert_eq!(folded.hit_test(Vec2::new(400, 0), false, true), Some(AnimationKeyPointField::TanOut));
}

#[test]
fn hit_test_radius_is_exclusive() {
    let k = key(0, 0);
    assert_eq!(CIRCLE_CLICK_RADIUS, 300);
    assert_eq!(k.intersects(Vec2::new(0, 299)), Some(AnimationKeyPointField::Pos));
    assert_eq!(k.intersects(Vec2::new(0, 300)), None);
    assert_eq!(k.intersects(Vec2::new(0, -300)), None);
    // 3-4-5 triangle: distance 300 exactly
    assert_eq!(k.intersects(Vec2::new(180, 240)), None);
    assert_eq!(k.intersects(Vec2::new(179, 240)), Some(AnimationKeyPointField::Pos));
    assert_eq!(k.intersects(Vec2::new(700, 0)), None);
    assert_eq!(k.intersects(Vec2::new(699, 0)), Some(AnimationKeyPointField::TanOut));
}

#[test]
fn hit_test_skips_disabled_tangents() {
    let k = key(5_000, 5_000);
    assert_eq!(k.hit_test(Vec2::new(4_600, 5_000), false, true), None);
    assert_eq!(k.hit_test(Vec2::new(5_400, 5_000), true, false), None);
    // with the nearer tangent disabled, the position inside the radius wins
    assert_eq!(
        k.hit_test(Vec2::new(4_750, 5_000), false, true),
        Some(AnimationKeyPointField::Pos)
    );
    assert_eq!(
        k.hit_test(Vec2::new(4_750, 5_000), true, true),
        Some(AnimationKeyPointField::TanIn)
    );
}

#[test]
fn hit_test_far_pointer_does_not_overflow() {
    let k = key(COORD_MAX, COORD_MAX);
    assert_eq!(k.intersects(Vec2::new(i32::MIN, i32::MIN)), None);
    assert_eq!(k.intersects(Vec2::new(i32::MAX, i32::MAX)), None);
}

#[test]
fn tangent_end_points() {
    let k = AnimationKey {
        pos: Vec2::new(5_000, -5_000),
        tangent_in: Vec2::new(-200, 100),
        tangent_out: Vec2::new(500, 300),
        tangent_locked: false,
    };
    assert!(k.is_in_range());
    assert_eq!(k.tangent_in_screen(), Vec2::new(4_800, -4_900));
    assert_eq!(k.tangent_out_screen(), Vec2::new(5_500, -4_700));
}

#[test]
fn range_check_of_a_key() {
    let mut k = key(COORD_MAX, -COORD_MAX);
    assert!(k.is_in_range());
    k.tangent_out.y = COORD_MAX + 1;
    assert!(!k.is_in_range());
    k.tangent_out.y = 0;
    k.pos.x = -COORD_MAX - 1;
    assert!(!k.is_in_range());
}

#[test]
fn vector_arithmetic() {
    assert_eq!(Vec2::new(1, 2).plus(Vec2::new(10, -20)), Vec2::new(11, -18));
    assert_eq!(Vec2::new(COORD_MAX, 0).plus(Vec2::new(1, 0)), Vec2::new(COORD_MAX, 0));
    assert_eq!(Vec2::new(3, -4).negated(), Vec2::new(-3, 4));
    assert_eq!(
        Vec2::new(-5, 20_000).clamp(Vec2::new(0, -UNIT), Vec2::new(UNIT, UNIT)),
        Vec2::new(0, UNIT)
    );
    assert_eq!(Vec2::new(0, 0).dist_sq(Vec2::new(3, 4)), 25);
    assert_eq!(
        Vec2::new(i32::MIN, i32::MIN).dist_sq(Vec2::new(i32::MAX, i32::MAX)),
        2 * (u32::MAX as i128) * (u32::MAX as i128)
    );
    assert_eq!(add_coord(-999_999, -5), -COORD_MAX);
    assert_eq!(add_coord(7, 8), 15);
    assert_eq!(clamp_coord(5, 0, 3), 3);
    assert_eq!(clamp_coord(-5, 0, 3), 0);
    assert_eq!(clamp_coord(2, 0, 3), 2);
}

#[test]
fn floor_division_rounds_down() {
    assert_eq!(floor_div(7, 2), 3);
    assert_eq!(floor_div(-7, 2), -4);
    assert_eq!(floor_div(-8, 2), -4);
    assert_eq!(floor_div(-1, 1_000_000), -1);
    assert_eq!(floor_div(0, 5), 0);
    assert_eq!(floor_div(i128::MIN, 1), i128::MIN);
    assert_eq!(floor_div(i128::MIN, i128::MAX), -2);
    assert_eq!(floor_div(i128::MAX, i128::MAX), 1);
}

use anim_curve::geometry::Vec2;
use anim_curve::key::AnimationKey;
use anim_curve::sequence::{position_of, sort_keys};

fn tagged(x: i32, tag: i32) -> AnimationKey {
    AnimationKey::new(Vec2::new(x, tag))
}

#[test]
fn sort_orders_by_x() {
    let mut v = vec![tagged(5, 0), tagged(-3, 1), tagged(9, 2), tagged(0, 3)];
    sort_keys(&mut v);
    let xs: Vec<i32> = v.iter().map(|k| k.pos.x).collect();
    assert_eq!(xs, vec![-3, 0, 5, 9]);
}

#[test]
fn sort_is_stable() {
    let mut v = vec![tagged(5, 0), tagged(1, 1), tagged(5, 2), tagged(1, 3), tagged(5, 4)];
    sort_keys(&mut v);
    let got: Vec<(i32, i32)> = v.iter().map(|k| (k.pos.x, k.pos.y)).collect();
    assert_eq!(got, vec![(1, 1), (1, 3), (5, 0), (5, 2), (5, 4)]);
}

#[test]
fn sort_leaves_sorted_and_short_sequences() {
    let mut empty: Vec<AnimationKey> = Vec::new();
    sort_keys(&mut empty);
    assert!(empty.is_empty());
    let mut one = vec![tagged(3, 0)];
    sort_keys(&mut one);
    assert_eq!(one, vec![tagged(3, 0)]);
    let mut sorted = vec![tagged(1, 0), tagged(2, 0), tagged(2, 1), tagged(3, 0)];
    let before = sorted.clone();
    sort_keys(&mut sorted);
    assert_eq!(sorted, before);
}

#[test]
fn sort_reversed_input() {
    let mut v: Vec<AnimationKey> = (0..20).rev().map(|i| tagged(i, i)).collect();
    sort_keys(&mut v);
    for i in 0..20 {
        assert_eq!(v[i as usize], tagged(i, i));
    }
}

#[test]
fn position_of_finds_the_first_equal_key() {
    let v = vec![tagged(1, 0), tagged(2, 0), tagged(2, 0), tagged(3, 0)];
    assert_eq!(position_of(&v, &tagged(2, 0)), Some(1));
    assert_eq!(position_of(&v, &tagged(1, 0)), Some(0));
    assert_eq!(position_of(&v, &tagged(3, 0)), Some(3));
    assert_eq!(position_of(&v, &tagged(2, 1)), None);
    let mut unlocked = tagged(2, 0);
    unlocked.tangent_locked = false;
    assert_eq!(position_of(&v, &unlocked), None);
    assert_eq!(position_of(&Vec::new(), &tagged(2, 0)), None);
}

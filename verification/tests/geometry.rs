use invaders::geometry::{Aabb, Vec2};

fn square(x: i64, y: i64, half: i64) -> Aabb {
    Aabb::new(Vec2::new(x, y), Vec2::new(half, half))
}

#[test]
fn boxes_that_overlap_intersect() {
    assert!(square(0, 0, 10).intersects(&square(15, -15, 10)));
}

#[test]
fn boxes_that_touch_intersect() {
    let a = square(0, 0, 10);
    assert!(a.intersects(&square(20, 0, 10)));
    assert!(a.intersects(&square(0, -20, 10)));
    assert!(a.intersects(&square(20, 20, 10)));
}

#[test]
fn boxes_with_a_gap_do_not_intersect() {
    let a = square(0, 0, 10);
    assert!(!a.intersects(&square(21, 0, 10)));
    assert!(!a.intersects(&square(0, 21, 10)));
    assert!(!a.intersects(&square(-21, 0, 10)));
}

#[test]
fn boxes_must_meet_on_both_axes() {
    let a = square(0, 0, 10);
    assert!(!a.intersects(&square(5, 100, 10)));
    assert!(!a.intersects(&square(100, 5, 10)));
}

#[test]
fn intersection_does_not_depend_on_the_order() {
    let a = Aabb::new(Vec2::new(3, 4), Vec2::new(5, 1));
    let b = Aabb::new(Vec2::new(9, 4), Vec2::new(1, 7));
    let c = Aabb::new(Vec2::new(10, 4), Vec2::new(1, 7));
    assert_eq!(a.intersects(&b), b.intersects(&a));
    assert_eq!(a.intersects(&c), c.intersects(&a));
    assert!(a.intersects(&b));
    assert!(!a.intersects(&c));
}

#[test]
fn intersection_at_the_ends_of_the_range() {
    let a = Aabb::new(Vec2::new(i64::MAX, i64::MAX), Vec2::new(i64::MAX, i64::MAX));
    let b = Aabb::new(Vec2::new(i64::MIN, i64::MIN), Vec2::new(i64::MAX, i64::MAX));
    assert!(!a.intersects(&b));
    let c = Aabb::new(Vec2::new(i64::MIN, i64::MIN), Vec2::new(i64::MAX, i64::MAX));
    let d = Aabb::new(Vec2::new(0, 0), Vec2::new(1, 1));
    assert!(c.intersects(&d));
}

#[test]
fn recentering_keeps_the_half_extent() {
    let a = Aabb::new(Vec2::new(1, 2), Vec2::new(3, 4));
    let b = a.recentered(Vec2::new(-7, 9));
    assert_eq!(b, Aabb { center: Vec2 { x: -7, y: 9 }, half: Vec2 { x: 3, y: 4 } });
}

use collisions::components::{Collider, Position, ENTITY_SIZE, UNIT};
use collisions::geometry::{choose_dynamic_axis, choose_static_axis, Axis, Rect};
use collisions::input::{heading, Heading};

#[test]
fn a_box_is_centred_on_its_position() {
    let r = Rect::centered(Position { x: 100, y: -50 }, Collider { w: 64, h: 20 });
    assert_eq!(r, Rect { x: 68, y: -60, w: 64, h: 20 });
    assert_eq!(r.left(), 68);
    assert_eq!(r.right(), 132);
    assert_eq!(r.top(), -60);
    assert_eq!(r.bottom(), -40);
}

#[test]
fn an_odd_extent_leaves_the_longer_half_after_the_centre() {
    let r = Rect::centered(Position { x: 0, y: 0 }, Collider { w: 5, h: 1 });
    assert_eq!(r, Rect { x: -2, y: 0, w: 5, h: 1 });
    assert_eq!(r.right(), 3);
    assert_eq!(r.bottom(), 1);
}

#[test]
fn overlapping_boxes_share_a_box() {
    let a = Rect { x: 0, y: 0, w: 10, h: 10 };
    let b = Rect { x: 6, y: -3, w: 10, h: 10 };
    assert_eq!(a.intersect(b), Some(Rect { x: 6, y: 0, w: 4, h: 7 }));
    assert_eq!(b.intersect(a), Some(Rect { x: 6, y: 0, w: 4, h: 7 }));
    assert!(a.overlaps(b));
}

#[test]
fn a_box_inside_another_is_their_common_box() {
    let outer = Rect { x: 0, y: 0, w: 10, h: 10 };
    let inner = Rect { x: 2, y: 3, w: 4, h: 5 };
    assert_eq!(outer.intersect(inner), Some(inner));
    assert_eq!(inner.intersect(outer), Some(inner));
}

#[test]
fn touching_boxes_share_a_box_without_area() {
    let a = Rect { x: 0, y: 0, w: 10, h: 10 };
    let beside = Rect { x: 10, y: 0, w: 10, h: 10 };
    let below = Rect { x: 0, y: 10, w: 10, h: 10 };
    assert_eq!(a.intersect(beside), Some(Rect { x: 10, y: 0, w: 0, h: 10 }));
    assert_eq!(a.intersect(below), Some(Rect { x: 0, y: 10, w: 10, h: 0 }));
    assert!(!a.overlaps(beside));
    assert!(!a.overlaps(below));
}

#[test]
fn distant_boxes_share_nothing() {
    let a = Rect { x: 0, y: 0, w: 10, h: 10 };
    assert_eq!(a.intersect(Rect { x: 11, y: 0, w: 10, h: 10 }), None);
    assert_eq!(a.intersect(Rect { x: 0, y: -11, w: 10, h: 10 }), None);
    assert!(!a.overlaps(Rect { x: 11, y: 0, w: 10, h: 10 }));
}

#[test]
fn the_static_axis_is_vertical_within_one_size() {
    assert_eq!(choose_static_axis(0, 0, ENTITY_SIZE), Axis::Vertical);
    assert_eq!(choose_static_axis(ENTITY_SIZE - 1, 0, ENTITY_SIZE), Axis::Vertical);
    assert_eq!(choose_static_axis(ENTITY_SIZE, 0, ENTITY_SIZE), Axis::Horizontal);
    assert_eq!(choose_static_axis(0, ENTITY_SIZE - 1, ENTITY_SIZE), Axis::Vertical);
    assert_eq!(choose_static_axis(0, ENTITY_SIZE, ENTITY_SIZE), Axis::Horizontal);
    assert_eq!(choose_static_axis(i64::MIN, i64::MAX, ENTITY_SIZE), Axis::Horizontal);
}

#[test]
fn the_static_axis_depends_on_the_difference_alone() {
    for shift in [-7_000_000i64, 0, 13, 9_000_000_000] {
        assert_eq!(
            choose_static_axis(500_000 + shift, -139_999 + shift, ENTITY_SIZE),
            Axis::Vertical
        );
        assert_eq!(
            choose_static_axis(500_000 + shift, -140_000 + shift, ENTITY_SIZE),
            Axis::Horizontal
        );
    }
}

#[test]
fn the_dynamic_axis_rounds_to_whole_units() {
    let below_half = 64 * UNIT - UNIT / 2 - 1;
    let half = 64 * UNIT - UNIT / 2;
    assert_eq!(choose_dynamic_axis(0, below_half, ENTITY_SIZE), Axis::Vertical);
    assert_eq!(choose_dynamic_axis(below_half, 0, ENTITY_SIZE), Axis::Vertical);
    assert_eq!(choose_dynamic_axis(0, half, ENTITY_SIZE), Axis::Horizontal);
    assert_eq!(choose_dynamic_axis(half, 0, ENTITY_SIZE), Axis::Horizontal);
    assert_eq!(choose_dynamic_axis(0, 64 * UNIT, ENTITY_SIZE), Axis::Horizontal);
    assert_eq!(choose_dynamic_axis(5, 5, ENTITY_SIZE), Axis::Vertical);
    assert_eq!(choose_dynamic_axis(i64::MAX, i64::MIN, ENTITY_SIZE), Axis::Horizontal);
}

#[test]
fn the_same_places_always_give_the_same_axis() {
    let first = choose_dynamic_axis(123_456, -400_000, ENTITY_SIZE);
    for _ in 0..10 {
        assert_eq!(choose_dynamic_axis(123_456, -400_000, ENTITY_SIZE), first);
    }
}

#[test]
fn held_keys_give_a_heading() {
    assert_eq!(heading(false, false, false, false), Heading { x: 0, y: 0 });
    assert_eq!(heading(true, false, false, false), Heading { x: 0, y: -1 });
    assert_eq!(heading(false, true, false, false), Heading { x: -1, y: 0 });
    assert_eq!(heading(false, false, true, false), Heading { x: 0, y: 1 });
    assert_eq!(heading(false, false, false, true), Heading { x: 1, y: 0 });
    assert_eq!(heading(true, false, false, true), Heading { x: 1, y: -1 });
    assert_eq!(heading(true, true, true, true), Heading { x: 0, y: 0 });
    assert_eq!(heading(true, false, true, true), Heading { x: 1, y: 0 });
}

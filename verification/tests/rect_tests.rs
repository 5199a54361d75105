use boids::rect::{
    magnify_rect, partition_rect, rect_contains_point, rect_contains_rect, transform_to_rect,
    Rect, Vec2i,
};

fn r(ax: i64, ay: i64, bx: i64, by: i64) -> Rect {
    Rect { min: Vec2i { x: ax, y: ay }, max: Vec2i { x: bx, y: by } }
}

#[test]
fn contains_point_is_strict() {
    let rect = r(0, 0, 10, 10);
    assert!(rect_contains_point(&rect, &Vec2i { x: 5, y: 5 }));
    assert!(!rect_contains_point(&rect, &Vec2i { x: 0, y: 5 }));
    assert!(!rect_contains_point(&rect, &Vec2i { x: 10, y: 5 }));
    assert!(!rect_contains_point(&rect, &Vec2i { x: 5, y: 10 }));
}

#[test]
fn contains_rect_is_strict() {
    let outer = r(0, 0, 10, 10);
    assert!(rect_contains_rect(&outer, &r(1, 1, 9, 9)));
    // Boundary-touching rectangles are not contained, and a rectangle does
    // not contain itself.
    assert!(!rect_contains_rect(&outer, &r(0, 0, 5, 5)));
    assert!(!rect_contains_rect(&outer, &outer));
}

#[test]
fn partition_splits_at_midpoint() {
    let quads = partition_rect(&r(0, 0, 10, 10));
    assert_eq!(quads[0], r(0, 0, 5, 5));
    assert_eq!(quads[1], r(5, 0, 10, 5));
    assert_eq!(quads[2], r(0, 5, 5, 10));
    assert_eq!(quads[3], r(5, 5, 10, 10));
}

#[test]
fn partition_covers_negative_world() {
    let quads = partition_rect(&r(-100, -100, 100, 100));
    assert_eq!(quads[0], r(-100, -100, 0, 0));
    assert_eq!(quads[1], r(0, -100, 100, 0));
    assert_eq!(quads[2], r(-100, 0, 0, 100));
    assert_eq!(quads[3], r(0, 0, 100, 100));
}

#[test]
fn partition_area_is_exact_on_odd_sides() {
    let rect = r(0, 0, 5, 5);
    let quads = partition_rect(&rect);
    let area = |q: &Rect| (q.max.x - q.min.x) * (q.max.y - q.min.y);
    let total: i64 = quads.iter().map(area).sum();
    assert_eq!(total, 25);
    // The fixed order: low quadrants end at the midpoint, high ones start
    // there, so the union tiles the parent with no overlap.
    assert_eq!(quads[0], r(0, 0, 2, 2));
    assert_eq!(quads[3], r(2, 2, 5, 5));
}

#[test]
fn partition_is_reproducible() {
    let rect = r(-7, 3, 12, 44);
    assert_eq!(partition_rect(&rect), partition_rect(&rect));
}

#[test]
fn magnify_scales_about_center() {
    let rect = r(0, 0, 10, 10);
    let grown = magnify_rect(&rect, Vec2i { x: 1500, y: 2000 });
    assert_eq!(grown, r(-2, -5, 12, 15));
    let same = magnify_rect(&rect, Vec2i { x: 1000, y: 1000 });
    assert_eq!(same, rect);
}

#[test]
fn transform_builds_rect_from_position_and_size() {
    let rect = transform_to_rect(Vec2i { x: 3, y: 4 }, Vec2i { x: 2, y: 2 });
    assert_eq!(rect, r(3, 4, 5, 6));
}

use tinyrender::{BoundingBox, Triangle, Vec2i};

fn tri(ax: i32, ay: i32, bx: i32, by: i32, cx: i32, cy: i32) -> Triangle {
    Triangle(Vec2i::new(ax, ay), Vec2i::new(bx, by), Vec2i::new(cx, cy))
}

#[test]
fn contains_interior_and_boundary_points() {
    let t = tri(0, 0, 10, 0, 0, 10);
    assert!(t.contains(Vec2i::new(1, 1)));
    assert!(t.contains(Vec2i::new(3, 3)));
    // points on an edge count as contained
    assert!(t.contains(Vec2i::new(5, 0)));
    assert!(t.contains(Vec2i::new(5, 5)));
}

#[test]
fn contains_rejects_outside_points() {
    let t = tri(0, 0, 10, 0, 0, 10);
    assert!(!t.contains(Vec2i::new(9, 9)));
    assert!(!t.contains(Vec2i::new(-1, 0)));
    assert!(!t.contains(Vec2i::new(11, 0)));
    assert!(!t.contains(Vec2i::new(0, 11)));
}

#[test]
fn contains_own_vertices() {
    let t = tri(2, 3, 11, 5, 4, 9);
    assert!(t.contains(t.0));
    assert!(t.contains(t.1));
    assert!(t.contains(t.2));
}

#[test]
fn barycentric_cross_product_values() {
    let t = tri(0, 0, 10, 0, 0, 10);
    let (ux, uy, uz) = t.barycentric(Vec2i::new(1, 1));
    assert_eq!((ux, uy, uz), (-10, -10, -100));
}

#[test]
fn degenerate_triangle_contains_nothing() {
    // three collinear vertices: zero signed area
    let t = tri(0, 0, 5, 5, 10, 10);
    assert!(!t.contains(Vec2i::new(5, 5)));
    assert!(!t.contains(t.0));
    assert!(!t.contains(t.1));
    assert!(!t.contains(t.2));
}

#[test]
fn bounding_box_is_componentwise_min_max() {
    let t = tri(5, -2, -3, 7, 9, 4);
    let b = t.bounding_box();
    assert_eq!((b.min.x, b.min.y), (-3, -2));
    assert_eq!((b.max.x, b.max.y), (9, 7));
}

#[test]
fn clamp_restricts_box_to_range() {
    let t = tri(-5, -5, 50, 3, 10, 30);
    let mut b = t.bounding_box();
    b.clamp(Vec2i::new(0, 0), Vec2i::new(19, 19));
    assert_eq!((b.min.x, b.min.y), (0, 0));
    assert_eq!((b.max.x, b.max.y), (19, 19));
    // the clamped box lies within [0, 19] on both axes
    assert!(0 <= b.min.x && b.min.x <= b.max.x && b.max.x <= 19);
    assert!(0 <= b.min.y && b.min.y <= b.max.y && b.max.y <= 19);
}

#[test]
fn clamp_of_outside_box_becomes_empty() {
    let t = tri(30, 40, 35, 45, 32, 50);
    let mut b = t.bounding_box();
    b.clamp(Vec2i::new(0, 0), Vec2i::new(19, 19));
    // fully outside the range: the box inverts and enumerates nothing
    assert!(b.min.x > b.max.x || b.min.y > b.max.y);
    let mut it = b.into_iter();
    assert_eq!(it.next(), None);
}

#[test]
fn box_iterator_row_major_x_fastest() {
    let b = BoundingBox { min: Vec2i::new(2, 5), max: Vec2i::new(3, 6) };
    let mut it = b.into_iter();
    assert_eq!(it.next(), Some(Vec2i::new(2, 5)));
    assert_eq!(it.next(), Some(Vec2i::new(3, 5)));
    assert_eq!(it.next(), Some(Vec2i::new(2, 6)));
    assert_eq!(it.next(), Some(Vec2i::new(3, 6)));
    assert_eq!(it.next(), None);
    assert_eq!(it.next(), None);
}

#[test]
fn box_iterator_is_restartable() {
    let b = BoundingBox { min: Vec2i::new(0, 0), max: Vec2i::new(1, 1) };
    let mut first = Vec::new();
    let mut it = b.into_iter();
    while let Some(p) = it.next() {
        first.push(p);
    }
    let mut second = Vec::new();
    let mut it = b.into_iter();
    while let Some(p) = it.next() {
        second.push(p);
    }
    assert_eq!(first, second);
    assert_eq!(first.len(), 4);
}

#[test]
fn box_iterator_single_point() {
    let b = BoundingBox { min: Vec2i::new(7, 7), max: Vec2i::new(7, 7) };
    let mut it = b.into_iter();
    assert_eq!(it.next(), Some(Vec2i::new(7, 7)));
    assert_eq!(it.next(), None);
}

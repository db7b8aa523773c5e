use wallsweep::geometry::{Point, Segment};
use wallsweep::raycast::cast;
use wallsweep::store::SegmentStore;

fn pt(x: i64, y: i64) -> Point {
    Point { x, y }
}

fn seg(x0: i64, y0: i64, x1: i64, y1: i64) -> Segment {
    Segment { start: pt(x0, y0), end: pt(x1, y1) }
}

#[test]
fn one_hit_point_per_ray() {
    let mut store = SegmentStore::new();
    store.insert(seg(0, 100, 200, 100)).unwrap();
    store.insert(seg(300, 0, 300, 300)).unwrap();
    let focal = pt(100, 0);
    let targets = vec![pt(1100, 0), pt(100, 1000), pt(-900, 0), pt(100, -1000)];
    let out = cast(focal, &targets, &store);
    assert_eq!(out.len(), targets.len());
}

#[test]
fn empty_store_yields_far_endpoints_exactly() {
    let store = SegmentStore::new();
    let focal = pt(7, 9);
    let targets = vec![pt(1007, 9), pt(7, 1009)];
    let out = cast(focal, &targets, &store);
    assert_eq!(out.len(), 2);
    assert_eq!((out[0].xn, out[0].yn, out[0].den), (1007, 9, 1));
    assert_eq!((out[1].xn, out[1].yn, out[1].den), (7, 1009, 1));
}

#[test]
fn ray_straight_down_hits_horizontal_wall() {
    // A single horizontal wall from (0, 100) to (200, 100), focal point
    // (100, 0): the ray aimed straight down must stop at (100, 100), not at
    // its unclipped far endpoint (100, 1000).
    let mut store = SegmentStore::new();
    store.insert(seg(0, 100, 200, 100)).unwrap();
    let focal = pt(100, 0);
    let targets = vec![pt(100, 1000)];
    let out = cast(focal, &targets, &store);
    assert_eq!(out.len(), 1);
    assert!(out[0].is_point(100, 100));
    assert!(!out[0].is_point(100, 1000));
}

#[test]
fn ray_that_misses_keeps_its_far_endpoint() {
    // The same wall, but the ray aimed straight up misses it.
    let mut store = SegmentStore::new();
    store.insert(seg(0, 100, 200, 100)).unwrap();
    let focal = pt(100, 0);
    let targets = vec![pt(100, -1000)];
    let out = cast(focal, &targets, &store);
    assert_eq!((out[0].xn, out[0].yn, out[0].den), (100, -1000, 1));
}

#[test]
fn nearest_of_two_walls_wins() {
    let mut store = SegmentStore::new();
    store.insert(seg(60, -10, 60, 10)).unwrap();
    store.insert(seg(30, -10, 30, 10)).unwrap();
    let out = cast(pt(0, 0), &vec![pt(100, 0)], &store);
    assert!(out[0].is_point(30, 0));
}

#[test]
fn equidistant_tie_falls_to_the_earlier_entry() {
    // Both walls cross the ray at (30, 0); the hit must come from the wall
    // inserted first, recognizable by its denominator |det| = 100 * 20.
    let mut store = SegmentStore::new();
    store.insert(seg(30, -10, 30, 10)).unwrap();
    store.insert(seg(30, -20, 30, 20)).unwrap();
    let out = cast(pt(0, 0), &vec![pt(100, 0)], &store);
    assert!(out[0].is_point(30, 0));
    assert_eq!(out[0].den, 2000);
    assert_eq!(out[0].xn, 60000);
    assert_eq!(out[0].yn, 0);
}

#[test]
fn cast_tracks_store_mutation() {
    // The sweep reads the store fresh: removing the blocking wall restores
    // the unclipped far endpoint.
    let mut store = SegmentStore::new();
    let id = store.insert(seg(0, 100, 200, 100)).unwrap();
    let focal = pt(100, 0);
    let targets = vec![pt(100, 1000)];
    let before = cast(focal, &targets, &store);
    assert!(before[0].is_point(100, 100));
    store.remove(id);
    let after = cast(focal, &targets, &store);
    assert!(after[0].is_point(100, 1000));
}

#[test]
fn degenerate_ray_stays_at_the_focal_point() {
    let mut store = SegmentStore::new();
    store.insert(seg(0, 100, 200, 100)).unwrap();
    let out = cast(pt(5, 5), &vec![pt(5, 5)], &store);
    assert_eq!((out[0].xn, out[0].yn, out[0].den), (5, 5, 1));
}

use wallsweep::geometry::{intersect, normalize_rect, point_in_rect, Point, Segment};

fn pt(x: i64, y: i64) -> Point {
    Point { x, y }
}

fn seg(x0: i64, y0: i64, x1: i64, y1: i64) -> Segment {
    Segment { start: pt(x0, y0), end: pt(x1, y1) }
}

#[test]
fn crossing_diagonals() {
    // The two diagonals of a square cross in its middle.
    let r = intersect(seg(0, 0, 10, 10), seg(0, 10, 10, 0));
    let p = r.expect("diagonals must cross");
    assert!(p.is_point(5, 5));
    assert!(!p.is_point(5, 6));
}

#[test]
fn crossing_at_fractional_point() {
    // y = 2x against y = 1 cross at (1/2, 1).
    let r = intersect(seg(0, 0, 1, 2), seg(0, 1, 2, 1));
    let p = r.expect("segments must cross");
    assert!(!p.is_point(0, 1));
    assert_eq!(p.xn, 2);
    assert_eq!(p.yn, 4);
    assert_eq!(p.den, 4);
}

#[test]
fn parallel_segments_do_not_cross() {
    assert!(intersect(seg(0, 0, 10, 0), seg(0, 5, 10, 5)).is_none());
}

#[test]
fn collinear_overlap_counts_as_parallel() {
    assert!(intersect(seg(0, 0, 10, 0), seg(5, 0, 15, 0)).is_none());
}

#[test]
fn lines_cross_but_segments_do_not() {
    // The infinite lines meet at (25, 25), outside both segments.
    assert!(intersect(seg(0, 0, 10, 10), seg(20, 30, 30, 20)).is_none());
}

#[test]
fn touching_at_an_endpoint_counts() {
    // One segment starts exactly on the other: parameter 0 is inside [0, 1].
    let r = intersect(seg(0, 0, 10, 0), seg(5, 0, 5, 8));
    let p = r.expect("touch point must count");
    assert!(p.is_point(5, 0));
}

#[test]
fn degenerate_operand_never_crosses() {
    assert!(intersect(seg(5, 5, 5, 5), seg(0, 0, 10, 10)).is_none());
}

#[test]
fn normalize_rect_all_quadrants() {
    // Whatever direction the drag points, min stays min and max stays max.
    for (dx, dy) in [(40, 40), (-40, 40), (40, -40), (-40, -40)] {
        let (lo, hi) = normalize_rect(pt(50, 50), pt(dx, dy));
        assert!(lo.x <= hi.x && lo.y <= hi.y);
        assert_eq!((lo.x + hi.x, lo.y + hi.y), (100 + dx, 100 + dy));
    }
}

#[test]
fn drag_up_left_equals_drag_down_right() {
    // Dragging from (50, 50) to (10, 10) gives the same rectangle as
    // dragging from (10, 10) to (50, 50).
    let up_left = normalize_rect(pt(50, 50), pt(-40, -40));
    let down_right = normalize_rect(pt(10, 10), pt(40, 40));
    assert_eq!(up_left, down_right);
    assert_eq!(up_left, (pt(10, 10), pt(50, 50)));
}

#[test]
fn point_in_rect_is_inclusive() {
    let lo = pt(10, 10);
    let hi = pt(50, 50);
    assert!(point_in_rect(pt(10, 50), lo, hi));
    assert!(point_in_rect(pt(50, 10), lo, hi));
    assert!(point_in_rect(pt(30, 30), lo, hi));
    assert!(!point_in_rect(pt(9, 30), lo, hi));
    assert!(!point_in_rect(pt(30, 51), lo, hi));
}

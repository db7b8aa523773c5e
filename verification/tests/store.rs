use wallsweep::geometry::{Point, Segment};
use wallsweep::selection::segments_in_rect;
use wallsweep::store::{DegenerateSegmentError, SegmentStore};

fn pt(x: i64, y: i64) -> Point {
    Point { x, y }
}

fn seg(x0: i64, y0: i64, x1: i64, y1: i64) -> Segment {
    Segment { start: pt(x0, y0), end: pt(x1, y1) }
}

#[test]
fn insert_gives_distinct_ids_and_grows_by_one() {
    let mut s = SegmentStore::new();
    let a = s.insert(seg(0, 0, 1, 1)).unwrap();
    let b = s.insert(seg(2, 2, 3, 3)).unwrap();
    assert_ne!(a, b);
    assert_eq!(s.len(), 2);
    assert!(s.contains(a) && s.contains(b));
}

#[test]
fn insert_rejects_zero_length_segment() {
    let mut s = SegmentStore::new();
    assert_eq!(s.insert(seg(5, 5, 5, 5)), Err(DegenerateSegmentError));
    assert_eq!(s.len(), 0);
}

#[test]
fn remove_is_idempotent_and_unknown_is_a_no_op() {
    let mut s = SegmentStore::new();
    let a = s.insert(seg(0, 0, 1, 1)).unwrap();
    s.remove(a.wrapping_add(1));
    assert_eq!(s.len(), 1);
    s.remove(a);
    assert_eq!(s.len(), 0);
    s.remove(a);
    assert_eq!(s.len(), 0);
}

#[test]
fn get_finds_exactly_the_stored_segment() {
    let mut s = SegmentStore::new();
    let a = s.insert(seg(1, 2, 3, 4)).unwrap();
    assert_eq!(s.get(a), Some(seg(1, 2, 3, 4)));
    s.remove(a);
    assert_eq!(s.get(a), None);
}

#[test]
fn entries_keep_insertion_order_across_removal() {
    let mut s = SegmentStore::new();
    let a = s.insert(seg(0, 0, 1, 1)).unwrap();
    let b = s.insert(seg(2, 2, 3, 3)).unwrap();
    let c = s.insert(seg(4, 4, 5, 5)).unwrap();
    s.remove(b);
    let order: Vec<u128> = s.entries().iter().map(|e| e.0).collect();
    assert_eq!(order, vec![a, c]);
}

#[test]
fn nested_rectangle_selects_a_subset() {
    let mut s = SegmentStore::new();
    let near = s.insert(seg(10, 10, 15, 15)).unwrap();
    let far = s.insert(seg(40, 40, 45, 45)).unwrap();
    let small = segments_in_rect(&s, pt(5, 5), pt(20, 20));
    let large = segments_in_rect(&s, pt(0, 0), pt(50, 50));
    assert_eq!(small, vec![near]);
    assert_eq!(large, vec![near, far]);
    for id in &small {
        assert!(large.contains(id));
    }
}

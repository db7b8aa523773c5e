//! End-to-end sessions: editor gestures feeding the visibility sweep.

use wallsweep::editor::{Editor, FrameInput, Mode};
use wallsweep::geometry::{normalize_rect, Point};
use wallsweep::raycast::cast;

fn pt(x: i64, y: i64) -> Point {
    Point { x, y }
}

fn frame(pointer: Point) -> FrameInput {
    FrameInput {
        toggle: false,
        primary_pressed: false,
        primary_down: false,
        primary_released: false,
        delete_pressed: false,
        pointer,
    }
}

#[test]
fn drawn_wall_blocks_the_sweep() {
    let mut e = Editor::new();

    // Draw a horizontal wall from (0, 100) to (200, 100) by gestures.
    let mut f = frame(pt(0, 0));
    f.toggle = true;
    e.step(f);
    let mut f = frame(pt(0, 100));
    f.primary_pressed = true;
    f.primary_down = true;
    e.step(f);
    let mut f = frame(pt(200, 100));
    f.primary_down = true;
    e.step(f);
    let mut f = frame(pt(200, 100));
    f.primary_released = true;
    let id = e.step(f).expect("the drawn wall must commit");

    // The ray straight down from (100, 0) stops at the wall.
    let focal = pt(100, 0);
    let targets = vec![pt(100, 1000)];
    let blocked = cast(focal, &targets, e.store());
    assert!(blocked[0].is_point(100, 100));

    // Back in idle mode, select and delete the wall: the ray runs free.
    let mut f = frame(pt(0, 0));
    f.toggle = true;
    e.step(f);
    assert_eq!(e.mode(), Mode::Idle);
    let mut f = frame(pt(-10, 90));
    f.primary_pressed = true;
    f.primary_down = true;
    e.step(f);
    let mut f = frame(pt(210, 110));
    f.primary_down = true;
    e.step(f);
    assert!(e.is_selected(id));
    let mut f = frame(pt(210, 110));
    f.delete_pressed = true;
    e.step(f);
    let open = cast(focal, &targets, e.store());
    assert!(open[0].is_point(100, 1000));
}

#[test]
fn zero_delta_drag_is_a_point_rectangle() {
    let (lo, hi) = normalize_rect(pt(33, 44), pt(0, 0));
    assert_eq!((lo, hi), (pt(33, 44), pt(33, 44)));
}

#[test]
fn new_drag_clears_the_previous_selection() {
    let mut e = Editor::new();
    let a = e
        .add_wall(wallsweep::geometry::Segment { start: pt(10, 10), end: pt(20, 20) })
        .unwrap();
    e.begin_drag(pt(0, 0));
    e.update_drag(pt(30, 30));
    assert!(e.is_selected(a));
    e.end_drag();
    // A fresh drag far away starts from an empty selection.
    e.begin_drag(pt(200, 200));
    assert!(e.selected().is_empty());
}

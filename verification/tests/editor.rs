use wallsweep::editor::{Editor, FrameInput, Mode};
use wallsweep::geometry::{Point, Segment};

fn pt(x: i64, y: i64) -> Point {
    Point { x, y }
}

fn seg(x0: i64, y0: i64, x1: i64, y1: i64) -> Segment {
    Segment { start: pt(x0, y0), end: pt(x1, y1) }
}

fn quiet_frame(pointer: Point) -> FrameInput {
    FrameInput {
        toggle: false,
        primary_pressed: false,
        primary_down: false,
        primary_released: false,
        delete_pressed: false,
        pointer,
    }
}

#[test]
fn new_editor_is_idle_and_empty() {
    let e = Editor::new();
    assert_eq!(e.mode(), Mode::Idle);
    assert_eq!(e.store().len(), 0);
    assert_eq!(e.wall_creation(), seg(0, 0, 0, 0));
    assert!(e.selected().is_empty());
}

#[test]
fn toggle_flips_both_ways() {
    let mut e = Editor::new();
    e.toggle_mode();
    assert_eq!(e.mode(), Mode::WallCreation);
    e.toggle_mode();
    assert_eq!(e.mode(), Mode::Idle);
}

#[test]
fn commit_increases_store_by_one_canonicalized() {
    let mut e = Editor::new();
    e.toggle_mode();
    e.start_wall(pt(5, 6));
    e.move_wall(pt(1, 2));
    let id = e.release_wall().expect("non-degenerate gesture must commit");
    assert_eq!(e.store().len(), 1);
    // Canonical form: start has the smaller x.
    assert_eq!(e.store().get(id), Some(seg(1, 2, 5, 6)));
    // The in-progress wall resets after the gesture.
    assert_eq!(e.wall_creation(), seg(0, 0, 0, 0));
}

#[test]
fn commit_canonicalizes_x_tie_by_y() {
    let mut e = Editor::new();
    e.toggle_mode();
    e.start_wall(pt(3, 9));
    e.move_wall(pt(3, 2));
    let id = e.release_wall().expect("vertical wall must commit");
    assert_eq!(e.store().get(id), Some(seg(3, 2, 3, 9)));
}

#[test]
fn degenerate_gesture_commits_nothing() {
    let mut e = Editor::new();
    e.toggle_mode();
    e.start_wall(pt(7, 7));
    assert!(e.release_wall().is_none());
    assert_eq!(e.store().len(), 0);
}

#[test]
fn add_wall_rejects_degenerate() {
    let mut e = Editor::new();
    assert!(e.add_wall(seg(4, 4, 4, 4)).is_err());
    assert_eq!(e.store().len(), 0);
}

#[test]
fn selection_requires_both_endpoints_inside() {
    let mut e = Editor::new();
    let a = e.add_wall(seg(10, 10, 20, 20)).unwrap();
    let half_in = e.add_wall(seg(15, 15, 40, 15)).unwrap();
    let outside = e.add_wall(seg(100, 100, 120, 120)).unwrap();
    e.begin_drag(pt(0, 0));
    e.update_drag(pt(30, 30));
    assert!(e.is_selected(a));
    assert!(!e.is_selected(half_in));
    assert!(!e.is_selected(outside));
    assert_eq!(e.selected().len(), 1);
}

#[test]
fn selection_boundary_is_inclusive() {
    let mut e = Editor::new();
    let on_edge = e.add_wall(seg(0, 0, 30, 30)).unwrap();
    e.begin_drag(pt(0, 0));
    e.update_drag(pt(30, 30));
    assert!(e.is_selected(on_edge));
}

#[test]
fn selection_toggles_out_when_rectangle_shrinks() {
    let mut e = Editor::new();
    let a = e.add_wall(seg(10, 10, 20, 20)).unwrap();
    e.begin_drag(pt(0, 0));
    e.update_drag(pt(30, 30));
    assert!(e.is_selected(a));
    // Live recompute: dragging back shrinks the rectangle and drops the wall.
    e.update_drag(pt(15, 15));
    assert!(!e.is_selected(a));
}

#[test]
fn up_left_drag_selects_like_down_right_drag() {
    // Dragging from (50, 50) up-left to (10, 10) selects the same wall as
    // the straight drag, and freezes to the same rectangle.
    let mut e = Editor::new();
    let a = e.add_wall(seg(20, 20, 40, 40)).unwrap();
    e.begin_drag(pt(50, 50));
    e.update_drag(pt(10, 10));
    assert_eq!(e.selection_rect(), (pt(10, 10), pt(50, 50)));
    assert!(e.is_selected(a));
    e.end_drag();
    assert_eq!(e.selection_rect(), (pt(10, 10), pt(50, 50)));
    assert!(e.is_selected(a));
}

#[test]
fn toggle_during_selection_clears_it() {
    // Toggling the mode while a selection rectangle is active empties the
    // selected-id set and leaves a degenerate in-progress wall.
    let mut e = Editor::new();
    let a = e.add_wall(seg(10, 10, 20, 20)).unwrap();
    e.begin_drag(pt(0, 0));
    e.update_drag(pt(30, 30));
    assert!(e.is_selected(a));
    e.toggle_mode();
    assert!(e.selected().is_empty());
    let wc = e.wall_creation();
    assert_eq!(wc.start, wc.end);
}

#[test]
fn delete_removes_exactly_the_selected_walls() {
    // Store {A, B, C}, selected {A, B}: afterwards the store holds exactly
    // {C} and the selection is empty.
    let mut e = Editor::new();
    let a = e.add_wall(seg(10, 10, 20, 20)).unwrap();
    let b = e.add_wall(seg(12, 18, 25, 25)).unwrap();
    let c = e.add_wall(seg(100, 100, 120, 120)).unwrap();
    e.begin_drag(pt(0, 0));
    e.update_drag(pt(40, 40));
    assert!(e.is_selected(a) && e.is_selected(b) && !e.is_selected(c));
    e.delete_selected();
    assert_eq!(e.store().len(), 1);
    assert!(!e.store().contains(a));
    assert!(!e.store().contains(b));
    assert!(e.store().contains(c));
    assert!(e.selected().is_empty());
}

#[test]
fn delete_with_empty_selection_is_a_no_op() {
    let mut e = Editor::new();
    let a = e.add_wall(seg(10, 10, 20, 20)).unwrap();
    e.delete_selected();
    assert_eq!(e.store().len(), 1);
    assert!(e.store().contains(a));
}

#[test]
fn step_drives_a_whole_session() {
    let mut e = Editor::new();

    // Toggle into wall creation.
    let mut f = quiet_frame(pt(0, 0));
    f.toggle = true;
    assert!(e.step(f).is_none());
    assert_eq!(e.mode(), Mode::WallCreation);

    // Press at (5, 5), drag to (25, 5), release: one wall committed.
    let mut f = quiet_frame(pt(5, 5));
    f.primary_pressed = true;
    f.primary_down = true;
    e.step(f);
    let mut f = quiet_frame(pt(25, 5));
    f.primary_down = true;
    e.step(f);
    let mut f = quiet_frame(pt(25, 5));
    f.primary_released = true;
    let id = e.step(f).expect("release must commit the drawn wall");
    assert_eq!(e.store().get(id), Some(seg(5, 5, 25, 5)));

    // Back to idle; select the wall and delete it.
    let mut f = quiet_frame(pt(0, 0));
    f.toggle = true;
    e.step(f);
    assert_eq!(e.mode(), Mode::Idle);
    let mut f = quiet_frame(pt(0, 0));
    f.primary_pressed = true;
    f.primary_down = true;
    e.step(f);
    let mut f = quiet_frame(pt(30, 10));
    f.primary_down = true;
    e.step(f);
    assert!(e.is_selected(id));
    let mut f = quiet_frame(pt(30, 10));
    f.primary_released = true;
    e.step(f);
    let mut f = quiet_frame(pt(30, 10));
    f.delete_pressed = true;
    e.step(f);
    assert_eq!(e.store().len(), 0);
    assert!(e.selected().is_empty());
}

#[test]
fn step_release_of_degenerate_gesture_commits_nothing() {
    let mut e = Editor::new();
    let mut f = quiet_frame(pt(0, 0));
    f.toggle = true;
    e.step(f);
    let mut f = quiet_frame(pt(9, 9));
    f.primary_pressed = true;
    f.primary_down = true;
    e.step(f);
    let mut f = quiet_frame(pt(9, 9));
    f.primary_released = true;
    assert!(e.step(f).is_none());
    assert_eq!(e.store().len(), 0);
}

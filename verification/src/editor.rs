//! Editor state machine: the current mode (idle vs. wall creation), the
//! in-progress wall, the live selection rectangle with its selected-id set,
//! and the segment store, driven by one input snapshot per frame.
//!
//! Toggling the mode abandons any in-flight gesture: the in-progress wall
//! resets to a degenerate segment and the selected-id set empties.

use vstd::prelude::*;
use crate::geometry::{valid_point, valid_seg, Point, Segment};
use crate::selection::{
    distinct_id_seq, lemma_selected_ids, seg_in_rect, segments_in_rect, selected_ids,
};
use crate::store::{
    has_id, lemma_without_ids, without_ids, DegenerateSegmentError, Entry, SegmentStore,
};

verus! {

/// The two editor modes. Exactly one is active; a dedicated toggle event
/// flips between them and nothing else sets them.
#[derive(Clone, Copy, PartialEq, Eq, Structural, Debug)]
pub enum Mode {
    Idle,
    WallCreation,
}

/// One frame's input snapshot: edge and level state of the primary and
/// delete actions, the mode toggle edge, and the pointer position.
#[derive(Clone, Copy, PartialEq, Eq, Structural, Debug)]
pub struct FrameInput {
    /// The mode-toggle key went down this frame.
    pub toggle: bool,
    /// The primary button went down this frame.
    pub primary_pressed: bool,
    /// The primary button is held this frame.
    pub primary_down: bool,
    /// The primary button went up this frame.
    pub primary_released: bool,
    /// The delete key went down this frame.
    pub delete_pressed: bool,
    /// The pointer position this frame.
    pub pointer: Point,
}

/// Mathematical model of the editor session.
#[verifier::ext_equal]
pub ghost struct EditorView {
    pub mode: Mode,
    pub walls: Seq<Entry>,
    pub wall_creation: Segment,
    pub drag_origin: Point,
    pub sel_min: Point,
    pub sel_max: Point,
    pub selected: Seq<u128>,
}

pub open spec fn zero_point() -> Point {
    Point { x: 0, y: 0 }
}

/// The reset value of the in-progress wall: degenerate at the origin.
pub open spec fn zero_segment() -> Segment {
    Segment { start: zero_point(), end: zero_point() }
}

pub open spec fn flip(m: Mode) -> Mode {
    match m {
        Mode::Idle => Mode::WallCreation,
        Mode::WallCreation => Mode::Idle,
    }
}

/// `start` is lexicographically no greater than `end`: smaller x, or equal
/// x and no greater y.
pub open spec fn canonical_seg(s: Segment) -> bool {
    s.start.x < s.end.x || (s.start.x == s.end.x && s.start.y <= s.end.y)
}

/// The committed form of a drawn wall: endpoints swapped if needed, so that
/// `start` has the smaller x (tie broken by smaller y).
pub open spec fn canon_seg(s: Segment) -> Segment {
    if s.start.x > s.end.x || (s.start.x == s.end.x && s.start.y > s.end.y) {
        Segment { start: s.end, end: s.start }
    } else {
        s
    }
}

pub open spec fn init_view() -> EditorView {
    EditorView {
        mode: Mode::Idle,
        walls: Seq::empty(),
        wall_creation: zero_segment(),
        drag_origin: zero_point(),
        sel_min: zero_point(),
        sel_max: zero_point(),
        selected: Seq::empty(),
    }
}

/// Mode toggle: flips the mode, discards the in-progress wall, clears the
/// selected-id set; walls and rectangle stay.
pub open spec fn toggled_view(v: EditorView) -> EditorView {
    EditorView { mode: flip(v.mode), wall_creation: zero_segment(), selected: Seq::empty(), ..v }
}

/// Delete action: drops every selected wall from the store and empties the
/// selected-id set.
pub open spec fn delete_view(v: EditorView) -> EditorView {
    EditorView { walls: without_ids(v.walls, v.selected), selected: Seq::empty(), ..v }
}

/// Drag start: a zero-size rectangle at the origin point and an empty
/// selected-id set.
pub open spec fn begin_drag_view(v: EditorView, p: Point) -> EditorView {
    EditorView { drag_origin: p, sel_min: p, sel_max: p, selected: Seq::empty(), ..v }
}

/// Drag update: the normalized rectangle spanned by the drag origin and the
/// pointer, and the selection recomputed from scratch over every stored
/// wall.
pub open spec fn update_drag_view(v: EditorView, p: Point) -> EditorView {
    let lo = Point {
        x: if p.x < v.drag_origin.x { p.x } else { v.drag_origin.x },
        y: if p.y < v.drag_origin.y { p.y } else { v.drag_origin.y },
    };
    let hi = Point {
        x: if p.x < v.drag_origin.x { v.drag_origin.x } else { p.x },
        y: if p.y < v.drag_origin.y { v.drag_origin.y } else { p.y },
    };
    EditorView { sel_min: lo, sel_max: hi, selected: selected_ids(v.walls, lo, hi), ..v }
}

/// Draw start: both endpoints of the in-progress wall at the pointer.
pub open spec fn start_wall_view(v: EditorView, p: Point) -> EditorView {
    EditorView { wall_creation: Segment { start: p, end: p }, ..v }
}

/// Draw update: the in-progress wall's end tracks the pointer.
pub open spec fn move_wall_view(v: EditorView, p: Point) -> EditorView {
    EditorView { wall_creation: Segment { start: v.wall_creation.start, end: p }, ..v }
}

/// Draw release: a non-degenerate wall is canonicalized and committed under
/// `id`; a degenerate one commits nothing; either way the in-progress wall
/// resets.
pub open spec fn release_wall_view(v: EditorView, id: u128) -> EditorView {
    if v.wall_creation.start == v.wall_creation.end {
        EditorView { wall_creation: zero_segment(), ..v }
    } else {
        EditorView {
            walls: v.walls.push((id, canon_seg(v.wall_creation))),
            wall_creation: zero_segment(),
            ..v
        }
    }
}

/// One frame: the toggle first, then — depending on the mode the frame ends
/// up in — either the idle-mode actions (delete, then the selection
/// gesture) or the wall-creation gesture, in the order the events fire
/// within a frame. `id` is the identifier a commit gets, if one happens.
pub open spec fn step_view(v: EditorView, inp: FrameInput, id: u128) -> EditorView {
    let v1 = if inp.toggle { toggled_view(v) } else { v };
    match v1.mode {
        Mode::Idle => {
            let v2 = if inp.delete_pressed { delete_view(v1) } else { v1 };
            let v3 = if inp.primary_pressed { begin_drag_view(v2, inp.pointer) } else { v2 };
            if inp.primary_down { update_drag_view(v3, inp.pointer) } else { v3 }
        },
        Mode::WallCreation => {
            let v2 = if inp.primary_pressed { start_wall_view(v1, inp.pointer) } else { v1 };
            let v3 = if inp.primary_down { move_wall_view(v2, inp.pointer) } else { v2 };
            if inp.primary_released { release_wall_view(v3, id) } else { v3 }
        },
    }
}

/// Whether this frame commits a wall: it ends in wall-creation mode, the
/// primary button is released, and the in-progress wall at that moment is
/// non-degenerate.
pub open spec fn step_commits(v: EditorView, inp: FrameInput) -> bool {
    let v1 = if inp.toggle { toggled_view(v) } else { v };
    match v1.mode {
        Mode::Idle => false,
        Mode::WallCreation => {
            let v2 = if inp.primary_pressed { start_wall_view(v1, inp.pointer) } else { v1 };
            let v3 = if inp.primary_down { move_wall_view(v2, inp.pointer) } else { v2 };
            inp.primary_released && v3.wall_creation.start != v3.wall_creation.end
        },
    }
}

/// Well-formedness of the model: store invariants hold, every retained
/// point is inside coordinate bounds, and no selected identifier repeats.
pub open spec fn view_wf(v: EditorView) -> bool {
    &&& crate::store::distinct_ids(v.walls)
    &&& crate::store::entries_ok(v.walls)
    &&& valid_seg(v.wall_creation)
    &&& valid_point(v.drag_origin)
    &&& valid_point(v.sel_min)
    &&& valid_point(v.sel_max)
    &&& distinct_id_seq(v.selected)
}

/// The editor session: every piece of state the frame loop mutates, behind
/// the transition methods below.
pub struct Editor {
    mode: Mode,
    store: SegmentStore,
    wall_creation: Segment,
    drag_origin: Point,
    sel_min: Point,
    sel_max: Point,
    selected: Vec<u128>,
}

impl View for Editor {
    type V = EditorView;

    closed spec fn view(&self) -> EditorView {
        EditorView {
            mode: self.mode,
            walls: self.store@,
            wall_creation: self.wall_creation,
            drag_origin: self.drag_origin,
            sel_min: self.sel_min,
            sel_max: self.sel_max,
            selected: self.selected@,
        }
    }
}

impl Editor {
    pub open spec fn wf(self) -> bool {
        view_wf(self@)
    }

    pub fn new() -> (e: Editor)
        ensures
            e@ == init_view(),
            e.wf(),
    {
        let e = Editor {
            mode: Mode::Idle,
            store: SegmentStore::new(),
            wall_creation: Segment { start: Point { x: 0, y: 0 }, end: Point { x: 0, y: 0 } },
            drag_origin: Point { x: 0, y: 0 },
            sel_min: Point { x: 0, y: 0 },
            sel_max: Point { x: 0, y: 0 },
            selected: Vec::new(),
        };
        proof {
            assert(e@ =~= init_view());
        }
        e
    }

    /// Current mode.
    pub fn mode(&self) -> (m: Mode)
        ensures
            m == self@.mode,
    {
        self.mode
    }

    /// Read access to the stored walls.
    pub fn store(&self) -> (s: &SegmentStore)
        ensures
            s@ == self@.walls,
            self.wf() ==> s.wf(),
    {
        &self.store
    }

    /// The in-progress wall (degenerate while no draw gesture is active).
    pub fn wall_creation(&self) -> (s: Segment)
        ensures
            s == self@.wall_creation,
    {
        self.wall_creation
    }

    /// The current normalized selection rectangle.
    pub fn selection_rect(&self) -> (r: (Point, Point))
        ensures
            r.0 == self@.sel_min,
            r.1 == self@.sel_max,
    {
        (self.sel_min, self.sel_max)
    }

    /// The selected identifiers, in store order.
    pub fn selected(&self) -> (v: &Vec<u128>)
        ensures
            v@ == self@.selected,
    {
        &self.selected
    }

    /// Whether the wall with identifier `id` is currently selected.
    pub fn is_selected(&self, id: u128) -> (r: bool)
        ensures
            r == self@.selected.contains(id),
    {
        let n = self.selected.len();
        let mut k: usize = 0;
        while k < n
            invariant
                k <= n,
                n == self@.selected.len(),
                self@.selected == self.selected@,
                forall|j: int| 0 <= j < k ==> self@.selected[j] != id,
            decreases n - k,
        {
            if self.selected[k] == id {
                return true;
            }
            k += 1;
        }
        false
    }

    /// Seeds a wall directly (the initial scene); same contract as the
    /// store's insert.
    pub fn add_wall(&mut self, seg: Segment) -> (r: Result<u128, DegenerateSegmentError>)
        requires
            old(self).wf(),
            valid_seg(seg),
        ensures
            final(self).wf(),
            seg.start == seg.end ==> r.is_err() && final(self)@ == old(self)@,
            seg.start != seg.end ==> {
                &&& r.is_ok()
                &&& !has_id(old(self)@.walls, r.unwrap())
                &&& final(self)@ == (EditorView {
                    walls: old(self)@.walls.push((r.unwrap(), seg)),
                    ..old(self)@
                })
            },
    {
        let r = self.store.insert(seg);
        proof {
            if seg.start != seg.end {
                assert(self@ =~= (EditorView {
                    walls: old(self)@.walls.push((r.unwrap(), seg)),
                    ..old(self)@
                }));
            } else {
                assert(self@ =~= old(self)@);
            }
        }
        r
    }

    /// Flips the mode; the in-progress wall and the selected-id set are
    /// abandoned.
    pub fn toggle_mode(&mut self)
        requires
            old(self).wf(),
        ensures
            final(self).wf(),
            final(self)@ == toggled_view(old(self)@),
    {
        self.mode = match self.mode {
            Mode::Idle => Mode::WallCreation,
            Mode::WallCreation => Mode::Idle,
        };
        self.wall_creation = Segment { start: Point { x: 0, y: 0 }, end: Point { x: 0, y: 0 } };
        self.selected = Vec::new();
        proof {
            assert(self@ =~= toggled_view(old(self)@));
        }
    }

    /// Starts a selection drag: zero-size rectangle at `p`, selection
    /// cleared.
    pub fn begin_drag(&mut self, p: Point)
        requires
            old(self).wf(),
            valid_point(p),
            old(self)@.mode == Mode::Idle,
        ensures
            final(self).wf(),
            final(self)@ == begin_drag_view(old(self)@, p),
    {
        self.drag_origin = p;
        self.sel_min = p;
        self.sel_max = p;
        self.selected = Vec::new();
        proof {
            assert(self@ =~= begin_drag_view(old(self)@, p));
        }
    }

    /// Live drag update: renormalizes the rectangle from the drag origin
    /// and the pointer, then recomputes membership from scratch — a wall is
    /// selected exactly when both its endpoints are inside the rectangle.
    pub fn update_drag(&mut self, p: Point)
        requires
            old(self).wf(),
            valid_point(p),
            old(self)@.mode == Mode::Idle,
        ensures
            final(self).wf(),
            final(self)@ == update_drag_view(old(self)@, p),
            forall|x: u128|
                final(self)@.selected.contains(x) <==> exists|k: int|
                    0 <= k < final(self)@.walls.len() && (#[trigger] final(self)@.walls[k]).0 == x
                        && seg_in_rect(
                        final(self)@.walls[k].1,
                        final(self)@.sel_min,
                        final(self)@.sel_max,
                    ),
    {
        let delta = Point { x: p.x - self.drag_origin.x, y: p.y - self.drag_origin.y };
        let (lo, hi) = crate::geometry::normalize_rect(self.drag_origin, delta);
        self.sel_min = lo;
        self.sel_max = hi;
        let sel = segments_in_rect(&self.store, lo, hi);
        self.selected = sel;
        proof {
            lemma_selected_ids(self.store@, lo, hi);
            assert(self@ =~= update_drag_view(old(self)@, p));
        }
    }

    /// Ends a selection drag: the rectangle freezes (it simply stops being
    /// updated) and the selected-id set stays for a later delete action.
    pub fn end_drag(&mut self)
        requires
            old(self).wf(),
        ensures
            final(self).wf(),
            final(self)@ == old(self)@,
    {
    }

    /// Removes every selected wall from the store, then clears the
    /// selected-id set. Unselected walls stay, in order.
    pub fn delete_selected(&mut self)
        requires
            old(self).wf(),
            old(self)@.mode == Mode::Idle,
        ensures
            final(self).wf(),
            final(self)@ == delete_view(old(self)@),
            forall|x: u128|
                has_id(final(self)@.walls, x) <==> (has_id(old(self)@.walls, x) && !old(
                    self,
                )@.selected.contains(x)),
            final(self)@.selected == Seq::<u128>::empty(),
    {
        let n = self.selected.len();
        let mut k: usize = 0;
        while k < n
            invariant
                k <= n,
                n == old(self)@.selected.len(),
                self.selected@ == old(self)@.selected,
                self.mode == old(self)@.mode,
                self.wall_creation == old(self)@.wall_creation,
                self.drag_origin == old(self)@.drag_origin,
                self.sel_min == old(self)@.sel_min,
                self.sel_max == old(self)@.sel_max,
                old(self).wf(),
                self.store.wf(),
                self.store@ == without_ids(old(self)@.walls, old(self)@.selected.take(k as int)),
            decreases n - k,
        {
            let id = self.selected[k];
            proof {
                assert(old(self)@.selected.take(k as int + 1).drop_last() =~= old(
                    self,
                )@.selected.take(k as int));
                assert(old(self)@.selected.take(k as int + 1).last() == old(self)@.selected[k as int]);
            }
            self.store.remove(id);
            k += 1;
        }
        proof {
            assert(old(self)@.selected.take(n as int) =~= old(self)@.selected);
        }
        self.selected = Vec::new();
        proof {
            lemma_without_ids(old(self)@.walls, old(self)@.selected);
            assert(self@ =~= delete_view(old(self)@));
        }
    }

    /// Starts a draw gesture: both endpoints of the in-progress wall at the
    /// pointer.
    pub fn start_wall(&mut self, p: Point)
        requires
            old(self).wf(),
            valid_point(p),
            old(self)@.mode == Mode::WallCreation,
        ensures
            final(self).wf(),
            final(self)@ == start_wall_view(old(self)@, p),
    {
        self.wall_creation = Segment { start: p, end: p };
        proof {
            assert(self@ =~= start_wall_view(old(self)@, p));
        }
    }

    /// Draw gesture in progress: the in-progress wall's end tracks the
    /// pointer.
    pub fn move_wall(&mut self, p: Point)
        requires
            old(self).wf(),
            valid_point(p),
            old(self)@.mode == Mode::WallCreation,
        ensures
            final(self).wf(),
            final(self)@ == move_wall_view(old(self)@, p),
    {
        self.wall_creation = Segment { start: self.wall_creation.start, end: p };
        proof {
            assert(self@ =~= move_wall_view(old(self)@, p));
        }
    }

    /// Ends a draw gesture. A non-degenerate wall is canonicalized (start
    /// gets the smaller x, tie broken by y) and committed under a fresh
    /// identifier, growing the store by exactly one; a degenerate wall
    /// commits nothing. Either way the in-progress wall resets.
    pub fn release_wall(&mut self) -> (r: Option<u128>)
        requires
            old(self).wf(),
            old(self)@.mode == Mode::WallCreation,
        ensures
            final(self).wf(),
            old(self)@.wall_creation.start == old(self)@.wall_creation.end ==> r.is_none()
                && final(self)@ == release_wall_view(old(self)@, 0)
                && final(self)@.walls == old(self)@.walls,
            old(self)@.wall_creation.start != old(self)@.wall_creation.end ==> {
                &&& r.is_some()
                &&& !has_id(old(self)@.walls, r.unwrap())
                &&& final(self)@ == release_wall_view(old(self)@, r.unwrap())
                &&& final(self)@.walls.len() == old(self)@.walls.len() + 1
                &&& canonical_seg(canon_seg(old(self)@.wall_creation))
            },
    {
        let wc = self.wall_creation;
        if wc.start == wc.end {
            self.wall_creation = Segment {
                start: Point { x: 0, y: 0 },
                end: Point { x: 0, y: 0 },
            };
            proof {
                assert(self@ =~= release_wall_view(old(self)@, 0));
            }
            return None;
        }
        let c = if wc.start.x > wc.end.x || (wc.start.x == wc.end.x && wc.start.y > wc.end.y) {
            Segment { start: wc.end, end: wc.start }
        } else {
            wc
        };
        let inserted = self.store.insert(c);
        self.wall_creation = Segment { start: Point { x: 0, y: 0 }, end: Point { x: 0, y: 0 } };
        match inserted {
            Ok(id) => {
                proof {
                    assert(self@ =~= release_wall_view(old(self)@, id));
                }
                Some(id)
            },
            Err(_) => {
                proof {
                    assert(false);
                }
                None
            },
        }
    }

    /// Runs one frame of input through the state machine: the toggle first,
    /// then the actions of whichever mode the frame ends up in, in event
    /// order. Returns the identifier of the committed wall if the frame
    /// commits one.
    pub fn step(&mut self, input: FrameInput) -> (r: Option<u128>)
        requires
            old(self).wf(),
            valid_point(input.pointer),
        ensures
            final(self).wf(),
            r.is_some() ==> step_commits(old(self)@, input) && !has_id(
                old(self)@.walls,
                r.unwrap(),
            ) && final(self)@ == step_view(old(self)@, input, r.unwrap()),
            r.is_none() ==> !step_commits(old(self)@, input) && final(self)@ == step_view(
                old(self)@,
                input,
                0,
            ),
    {
        if input.toggle {
            self.toggle_mode();
        }
        let mut committed: Option<u128> = None;
        match self.mode {
            Mode::Idle => {
                if input.delete_pressed {
                    self.delete_selected();
                }
                if input.primary_pressed {
                    self.begin_drag(input.pointer);
                }
                if input.primary_down {
                    self.update_drag(input.pointer);
                }
            },
            Mode::WallCreation => {
                if input.primary_pressed {
                    self.start_wall(input.pointer);
                }
                if input.primary_down {
                    self.move_wall(input.pointer);
                }
                if input.primary_released {
                    committed = self.release_wall();
                }
            },
        }
        committed
    }
}

} // verus!

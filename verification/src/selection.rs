//! Selection engine: which stored segments a normalized drag rectangle
//! encloses. Membership is recomputed from scratch against the whole store,
//! which is what makes segments toggle in and out live while dragging.

use vstd::prelude::*;
use crate::geometry::{in_rect, Point, Segment};
use crate::store::{distinct_ids, has_id, Entry, SegmentStore};

verus! {

/// Both endpoints of the segment lie inside the rectangle `[lo, hi]`.
pub open spec fn seg_in_rect(s: Segment, lo: Point, hi: Point) -> bool {
    in_rect(s.start, lo, hi) && in_rect(s.end, lo, hi)
}

/// No identifier repeats.
pub open spec fn distinct_id_seq(s: Seq<u128>) -> bool {
    forall|i: int, j: int| 0 <= i < j < s.len() ==> s[i] != s[j]
}

/// The identifiers of the entries whose segment lies fully inside the
/// rectangle, in store order.
pub open spec fn selected_ids(s: Seq<Entry>, lo: Point, hi: Point) -> Seq<u128>
    decreases s.len(),
{
    if s.len() == 0 {
        Seq::empty()
    } else {
        let rest = selected_ids(s.drop_last(), lo, hi);
        if seg_in_rect(s.last().1, lo, hi) {
            rest.push(s.last().0)
        } else {
            rest
        }
    }
}

/// An identifier is selected exactly when some entry carries it with both
/// endpoints inside the rectangle; with distinct store identifiers the
/// selection has no duplicates, and every selected identifier is stored.
pub proof fn lemma_selected_ids(s: Seq<Entry>, lo: Point, hi: Point)
    ensures
        forall|x: u128|
            selected_ids(s, lo, hi).contains(x) <==> exists|k: int|
                0 <= k < s.len() && (#[trigger] s[k]).0 == x && seg_in_rect(s[k].1, lo, hi),
        forall|x: u128| selected_ids(s, lo, hi).contains(x) ==> has_id(s, x),
        distinct_ids(s) ==> distinct_id_seq(selected_ids(s, lo, hi)),
    decreases s.len(),
{
    if s.len() == 0 {
    } else {
        lemma_selected_ids(s.drop_last(), lo, hi);
        let rest = selected_ids(s.drop_last(), lo, hi);
        let sel = selected_ids(s, lo, hi);
        assert(forall|k: int| 0 <= k < s.drop_last().len() ==> s.drop_last()[k] == s[k]);
        assert forall|x: u128| sel.contains(x) implies exists|k: int|
            0 <= k < s.len() && (#[trigger] s[k]).0 == x && seg_in_rect(s[k].1, lo, hi) by {
            if rest.contains(x) {
                let k = choose|k: int|
                    0 <= k < s.drop_last().len() && (#[trigger] s.drop_last()[k]).0 == x
                        && seg_in_rect(s.drop_last()[k].1, lo, hi);
                assert(s[k].0 == x && seg_in_rect(s[k].1, lo, hi));
            } else {
                assert(seg_in_rect(s.last().1, lo, hi) && s.last().0 == x);
                assert(s[s.len() - 1].0 == x && seg_in_rect(s[s.len() - 1].1, lo, hi));
            }
        }
        assert forall|x: u128|
            (exists|k: int|
                0 <= k < s.len() && (#[trigger] s[k]).0 == x && seg_in_rect(
                    s[k].1,
                    lo,
                    hi,
                )) implies sel.contains(x) by {
            let k = choose|k: int|
                0 <= k < s.len() && (#[trigger] s[k]).0 == x && seg_in_rect(s[k].1, lo, hi);
            if k < s.len() - 1 {
                assert(s.drop_last()[k].0 == x && seg_in_rect(s.drop_last()[k].1, lo, hi));
                assert(rest.contains(x));
                if seg_in_rect(s.last().1, lo, hi) {
                    let j = choose|j: int| 0 <= j < rest.len() && rest[j] == x;
                    assert(sel[j] == x);
                } else {
                    assert(sel == rest);
                }
            } else {
                assert(seg_in_rect(s.last().1, lo, hi));
                assert(sel[sel.len() - 1] == x);
            }
        }
        if distinct_ids(s) {
            assert(distinct_ids(s.drop_last()));
            if seg_in_rect(s.last().1, lo, hi) {
                assert forall|i: int, j: int| 0 <= i < j < sel.len() implies sel[i] != sel[j] by {
                    if j == sel.len() - 1 {
                        assert(rest.contains(rest[i]));
                        let k = choose|k: int|
                            0 <= k < s.drop_last().len() && (#[trigger] s.drop_last()[k]).0
                                == rest[i] && seg_in_rect(s.drop_last()[k].1, lo, hi);
                        assert(s[k].0 == rest[i]);
                        assert(s[k].0 != s[s.len() - 1].0);
                    }
                }
            }
        }
    }
}

/// A rectangle nested inside another selects a subset: growing the
/// rectangle never drops an identifier, so shrinking it never adds one.
pub proof fn lemma_selection_monotone(
    s: Seq<Entry>,
    lo1: Point,
    hi1: Point,
    lo2: Point,
    hi2: Point,
)
    requires
        lo2.x <= lo1.x,
        lo2.y <= lo1.y,
        hi1.x <= hi2.x,
        hi1.y <= hi2.y,
    ensures
        forall|x: u128|
            selected_ids(s, lo1, hi1).contains(x) ==> selected_ids(s, lo2, hi2).contains(x),
{
    lemma_selected_ids(s, lo1, hi1);
    lemma_selected_ids(s, lo2, hi2);
    assert forall|x: u128| selected_ids(s, lo1, hi1).contains(x) implies selected_ids(
        s,
        lo2,
        hi2,
    ).contains(x) by {
        let k = choose|k: int|
            0 <= k < s.len() && (#[trigger] s[k]).0 == x && seg_in_rect(s[k].1, lo1, hi1);
        assert(s[k].0 == x && seg_in_rect(s[k].1, lo2, hi2));
    }
}

/// The identifiers of all stored segments that lie fully inside the
/// rectangle `[lo, hi]`, inclusive at the boundary, in store order.
pub fn segments_in_rect(store: &SegmentStore, lo: Point, hi: Point) -> (out: Vec<u128>)
    ensures
        out@ == selected_ids(store@, lo, hi),
{
    let entries = store.entries();
    let n = entries.len();
    let mut out: Vec<u128> = Vec::new();
    let mut k: usize = 0;
    while k < n
        invariant
            k <= n,
            n == store@.len(),
            entries@ == store@,
            out@ == selected_ids(store@.take(k as int), lo, hi),
        decreases n - k,
    {
        let e = entries[k];
        proof {
            assert(store@.take(k as int + 1).drop_last() =~= store@.take(k as int));
            assert(store@.take(k as int + 1).last() == store@[k as int]);
        }
        let both_in = crate::geometry::point_in_rect(e.1.start, lo, hi)
            && crate::geometry::point_in_rect(e.1.end, lo, hi);
        if both_in {
            out.push(e.0);
        }
        k += 1;
    }
    proof {
        assert(store@.take(n as int) =~= store@);
    }
    out
}

} // verus!

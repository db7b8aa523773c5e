//! Ray-cast visibility engine: for each supplied ray the nearest crossing
//! with any stored segment, or the ray's unclipped far endpoint when it
//! crosses none. The caller supplies one far endpoint per sampled angle, in
//! increasing angle order; the result keeps that order, one hit per ray.
//!
//! Ties in distance go to the entry that comes first in store order, a
//! deterministic stand-in for the unspecified iteration order of a hash map.

use vstd::prelude::*;
use crate::geometry::{
    crossing_den, crossing_xn, crossing_yn, has_crossing, intersect_with_t, lemma_crossing_on_segments,
    lemma_mul_bound, on_line, t_norm, valid_point, within_box, Point, RatPoint, Segment,
};
use crate::store::{Entry, SegmentStore};

verus! {

/// The ray from `f` toward its far endpoint `g`, as a segment.
pub open spec fn ray_seg(f: Point, g: Point) -> Segment {
    Segment { start: f, end: g }
}

/// The ray from `f` to `g` truly crosses `s`.
pub open spec fn ray_hits(f: Point, g: Point, s: Segment) -> bool {
    has_crossing(ray_seg(f, g), s)
}

/// Numerator of the crossing parameter along the ray (0 at `f`, `hit_den`
/// at `g`): the fraction `hit_t / hit_den` measures distance along the ray.
pub open spec fn hit_t(f: Point, g: Point, s: Segment) -> int {
    t_norm(ray_seg(f, g), s)
}

pub open spec fn hit_den(f: Point, g: Point, s: Segment) -> int {
    crossing_den(ray_seg(f, g), s)
}

/// `tn1 / den1 < tn2 / den2`, cross-multiplied (denominators positive).
pub open spec fn frac_lt(tn1: int, den1: int, tn2: int, den2: int) -> bool {
    tn1 * den2 < tn2 * den1
}

/// Index of the stored entry the ray stops at: among all entries the ray
/// crosses, the one with the smallest crossing parameter, earliest in store
/// order on a tie; `None` when the ray crosses nothing.
pub open spec fn best_hit(f: Point, g: Point, s: Seq<Entry>) -> Option<int>
    decreases s.len(),
{
    if s.len() == 0 {
        None
    } else {
        let prev = best_hit(f, g, s.drop_last());
        let j = s.len() - 1;
        if !ray_hits(f, g, s[j].1) {
            prev
        } else {
            match prev {
                None => Some(j as int),
                Some(i) => if frac_lt(
                    hit_t(f, g, s[j].1),
                    hit_den(f, g, s[j].1),
                    hit_t(f, g, s[i].1),
                    hit_den(f, g, s[i].1),
                ) {
                    Some(j as int)
                } else {
                    Some(i)
                },
            }
        }
    }
}

/// `p` is the hit point of the ray from `f` to `g` against the stored
/// entries: the exact crossing with the `best_hit` entry, or the far
/// endpoint `g` itself when the ray crosses nothing.
pub open spec fn is_ray_hit_point(p: RatPoint, f: Point, g: Point, s: Seq<Entry>) -> bool {
    match best_hit(f, g, s) {
        None => p.xn == g.x && p.yn == g.y && p.den == 1,
        Some(k) => {
            &&& p.xn == crossing_xn(ray_seg(f, g), s[k].1)
            &&& p.yn == crossing_yn(ray_seg(f, g), s[k].1)
            &&& p.den == crossing_den(ray_seg(f, g), s[k].1)
        },
    }
}

/// Transitivity of the fraction order with positive denominators:
/// from `t1/d1 < t2/d2` and `t2/d2 <= t3/d3` follows `t1/d1 < t3/d3`.
proof fn lemma_frac_lt_le_trans(t1: int, d1: int, t2: int, d2: int, t3: int, d3: int)
    by (nonlinear_arith)
    requires
        d1 >= 1,
        d2 >= 1,
        d3 >= 1,
        t1 * d2 < t2 * d1,
        t2 * d3 <= t3 * d2,
    ensures
        t1 * d3 < t3 * d1,
{
}

/// The `best_hit` entry really is the nearest: no crossed entry sits at a
/// strictly smaller parameter, and every crossed entry earlier in store
/// order sits strictly farther (which is how a tie falls to the earlier
/// entry); when `best_hit` is `None` the ray crosses no entry at all.
pub proof fn lemma_best_hit_nearest(f: Point, g: Point, s: Seq<Entry>)
    ensures
        best_hit(f, g, s).is_none() ==> forall|j: int|
            0 <= j < s.len() ==> !ray_hits(f, g, (#[trigger] s[j]).1),
        best_hit(f, g, s).is_some() ==> {
            let i = best_hit(f, g, s).unwrap();
            &&& 0 <= i < s.len()
            &&& ray_hits(f, g, s[i].1)
            &&& forall|j: int|
                0 <= j < s.len() && ray_hits(f, g, (#[trigger] s[j]).1) ==> !frac_lt(
                    hit_t(f, g, s[j].1),
                    hit_den(f, g, s[j].1),
                    hit_t(f, g, s[i].1),
                    hit_den(f, g, s[i].1),
                )
            &&& forall|j: int|
                0 <= j < i && ray_hits(f, g, (#[trigger] s[j]).1) ==> frac_lt(
                    hit_t(f, g, s[i].1),
                    hit_den(f, g, s[i].1),
                    hit_t(f, g, s[j].1),
                    hit_den(f, g, s[j].1),
                )
        },
        best_hit(f, g, s).is_some() ==> 1 <= hit_den(f, g, s[best_hit(f, g, s).unwrap()].1),
    decreases s.len(),
{
    if s.len() == 0 {
    } else {
        lemma_best_hit_nearest(f, g, s.drop_last());
        assert(forall|k: int| 0 <= k < s.len() - 1 ==> s.drop_last()[k] == s[k]);
        let prev = best_hit(f, g, s.drop_last());
        let j0 = s.len() - 1;
        if !ray_hits(f, g, s[j0].1) {
        } else {
            assert(hit_den(f, g, s[j0].1) >= 1);
            match prev {
                None => {},
                Some(i) => {
                    let ti = hit_t(f, g, s[i].1);
                    let di = hit_den(f, g, s[i].1);
                    let tj = hit_t(f, g, s[j0].1);
                    let dj = hit_den(f, g, s[j0].1);
                    if frac_lt(tj, dj, ti, di) {
                        // The new entry is strictly nearer than everything
                        // the prefix offered.
                        assert forall|j: int|
                            0 <= j < j0 && ray_hits(f, g, (#[trigger] s[j]).1) implies frac_lt(
                            tj,
                            dj,
                            hit_t(f, g, s[j].1),
                            hit_den(f, g, s[j].1),
                        ) by {
                            lemma_frac_lt_le_trans(
                                tj,
                                dj,
                                ti,
                                di,
                                hit_t(f, g, s[j].1),
                                hit_den(f, g, s[j].1),
                            );
                        }
                    } else {
                    }
                },
            }
        }
    }
}

/// Compares two crossing parameters exactly: `tn1 / den1 < tn2 / den2`.
fn frac_lt_exec(tn1: i64, den1: i64, tn2: i64, den2: i64) -> (r: bool)
    ensures
        r == frac_lt(tn1 as int, den1 as int, tn2 as int, den2 as int),
{
    proof {
        lemma_mul_bound(tn1 as int, den2 as int, 0x8000_0000_0000_0000, 0x8000_0000_0000_0000);
        lemma_mul_bound(tn2 as int, den1 as int, 0x8000_0000_0000_0000, 0x8000_0000_0000_0000);
    }
    (tn1 as i128) * (den2 as i128) < (tn2 as i128) * (den1 as i128)
}

/// Nearest crossing of one ray against every stored segment, or the far
/// endpoint `g` when the ray crosses none.
fn nearest_hit(f: Point, g: Point, store: &SegmentStore) -> (p: RatPoint)
    requires
        valid_point(f),
        valid_point(g),
        store.wf(),
    ensures
        is_ray_hit_point(p, f, g, store@),
        p.den >= 1,
{
    let entries = store.entries();
    let n = entries.len();
    let rs = Segment { start: f, end: g };
    let mut best_p = RatPoint { xn: g.x, yn: g.y, den: 1 };
    let mut best_t: i64 = 0;
    let mut best_den: i64 = 1;
    let mut have: bool = false;
    let ghost mut best_i: int = 0;
    let mut k: usize = 0;
    while k < n
        invariant
            k <= n,
            n == store@.len(),
            entries@ == store@,
            rs == ray_seg(f, g),
            valid_point(f),
            valid_point(g),
            store.wf(),
            !have ==> best_hit(f, g, store@.take(k as int)).is_none() && best_p == (RatPoint {
                xn: g.x,
                yn: g.y,
                den: 1,
            }),
            have ==> {
                &&& best_hit(f, g, store@.take(k as int)) == Some(best_i)
                &&& 0 <= best_i < k
                &&& best_t == hit_t(f, g, store@[best_i].1)
                &&& best_den == hit_den(f, g, store@[best_i].1)
                &&& best_p.xn == crossing_xn(rs, store@[best_i].1)
                &&& best_p.yn == crossing_yn(rs, store@[best_i].1)
                &&& best_p.den == crossing_den(rs, store@[best_i].1)
            },
            best_den >= 1,
            best_p.den >= 1,
        decreases n - k,
    {
        let e = entries[k];
        proof {
            assert(store@.take(k as int + 1).drop_last() =~= store@.take(k as int));
            assert(store@.take(k as int + 1).last() == store@[k as int]);
            assert(e.1 == store@[k as int].1);
        }
        match intersect_with_t(rs, e.1) {
            None => {
                proof {
                    assert(!ray_hits(f, g, store@[k as int].1));
                    assert(best_hit(f, g, store@.take(k as int + 1)) == best_hit(
                        f,
                        g,
                        store@.take(k as int),
                    ));
                }
            },
            Some((p, tn, den)) => {
                if !have || frac_lt_exec(tn, den, best_t, best_den) {
                    best_p = p;
                    best_t = tn;
                    best_den = den;
                    have = true;
                    proof {
                        best_i = k as int;
                    }
                } else {
                }
            },
        }
        k += 1;
    }
    proof {
        assert(store@.take(n as int) =~= store@);
    }
    best_p
}

/// Casts one ray per supplied far endpoint and returns the hit points in
/// the same order: for each ray the exact nearest crossing with any stored
/// segment, ties to the earliest entry in store order, or the unclipped far
/// endpoint itself when the ray crosses nothing. Every returned point lies
/// on its ray: on the line through `focal` and its far endpoint, no farther
/// out than the far endpoint. Reads the store only; mutates nothing.
pub fn cast(focal: Point, targets: &Vec<Point>, store: &SegmentStore) -> (out: Vec<RatPoint>)
    requires
        valid_point(focal),
        forall|i: int| 0 <= i < targets@.len() ==> valid_point(#[trigger] targets@[i]),
        store.wf(),
    ensures
        out@.len() == targets@.len(),
        forall|i: int|
            0 <= i < targets@.len() ==> is_ray_hit_point(
                #[trigger] out@[i],
                focal,
                targets@[i],
                store@,
            ),
        forall|i: int|
            0 <= i < targets@.len() ==> (#[trigger] out@[i]).den >= 1 && on_line(
                out@[i].xn as int,
                out@[i].yn as int,
                out@[i].den as int,
                ray_seg(focal, targets@[i]),
            ) && within_box(
                out@[i].xn as int,
                out@[i].yn as int,
                out@[i].den as int,
                ray_seg(focal, targets@[i]),
            ),
{
    let n = targets.len();
    let mut out: Vec<RatPoint> = Vec::new();
    let mut k: usize = 0;
    while k < n
        invariant
            k <= n,
            n == targets@.len(),
            valid_point(focal),
            forall|i: int| 0 <= i < targets@.len() ==> valid_point(#[trigger] targets@[i]),
            store.wf(),
            out@.len() == k,
            forall|i: int|
                0 <= i < k ==> is_ray_hit_point(#[trigger] out@[i], focal, targets@[i], store@),
            forall|i: int|
                0 <= i < k ==> (#[trigger] out@[i]).den >= 1 && on_line(
                    out@[i].xn as int,
                    out@[i].yn as int,
                    out@[i].den as int,
                    ray_seg(focal, targets@[i]),
                ) && within_box(
                    out@[i].xn as int,
                    out@[i].yn as int,
                    out@[i].den as int,
                    ray_seg(focal, targets@[i]),
                ),
        decreases n - k,
    {
        let g = targets[k];
        let p = nearest_hit(focal, g, store);
        proof {
            lemma_hit_point_on_ray(p, focal, g, store@);
        }
        out.push(p);
        k += 1;
    }
    out
}

/// Every hit point stays within the ray's length: its squared Euclidean
/// distance from the focal point is at most the squared distance to the
/// far endpoint, both scaled by the hit's denominator squared.
pub proof fn lemma_hit_within_ray_length(p: RatPoint, f: Point, g: Point, s: Seq<Entry>)
    requires
        is_ray_hit_point(p, f, g, s),
    ensures
        (p.xn - f.x * p.den) * (p.xn - f.x * p.den) + (p.yn - f.y * p.den) * (p.yn - f.y
            * p.den) <= ((g.x - f.x) * (g.x - f.x) + (g.y - f.y) * (g.y - f.y)) * (p.den * p.den),
{
    let dx = g.x - f.x;
    let dy = g.y - f.y;
    match best_hit(f, g, s) {
        None => {
            assert(p.xn == g.x && p.yn == g.y && p.den == 1);
            assert((g.x - f.x * 1) * (g.x - f.x * 1) + (g.y - f.y * 1) * (g.y - f.y * 1) <= (dx
                * dx + dy * dy) * (1 * 1)) by (nonlinear_arith)
                requires
                    dx == g.x - f.x,
                    dy == g.y - f.y;
        },
        Some(k) => {
            lemma_best_hit_nearest(f, g, s);
            let rs = ray_seg(f, g);
            let w = s[k].1;
            let tn = crate::geometry::t_norm(rs, w);
            let den = crate::geometry::crossing_den(rs, w);
            assert(0 <= tn <= den && den >= 1);
            assert(p.xn - f.x * den == tn * dx && p.yn - f.y * den == tn * dy);
            assert((tn * dx) * (tn * dx) + (tn * dy) * (tn * dy) <= (dx * dx + dy * dy) * (den
                * den)) by (nonlinear_arith)
                requires
                    0 <= tn <= den;
        },
    }
}

/// Every hit point lies on its ray: collinear with the stretch from the
/// focal point to the far endpoint, and between the two — so its distance
/// from the focal point never exceeds the ray's length.
pub proof fn lemma_hit_point_on_ray(p: RatPoint, f: Point, g: Point, s: Seq<Entry>)
    requires
        is_ray_hit_point(p, f, g, s),
    ensures
        on_line(p.xn as int, p.yn as int, p.den as int, ray_seg(f, g)),
        within_box(p.xn as int, p.yn as int, p.den as int, ray_seg(f, g)),
{
    let rs = ray_seg(f, g);
    match best_hit(f, g, s) {
        None => {
            assert(p.xn == g.x && p.yn == g.y && p.den == 1);
            assert((g.x - f.x * 1) * (g.y - f.y) == (g.y - f.y * 1) * (g.x - f.x))
                by (nonlinear_arith);
            assert(g.x * 1 == g.x && g.y * 1 == g.y) by (nonlinear_arith);
            assert(f.x * 1 == f.x && f.y * 1 == f.y) by (nonlinear_arith);
        },
        Some(k) => {
            lemma_best_hit_nearest(f, g, s);
            assert(0 <= k < s.len() && ray_hits(f, g, s[k].1));
            lemma_crossing_on_segments(rs, s[k].1);
        },
    }
}

} // verus!

//! Geometry kernel: points, segments, exact segment-segment intersection,
//! rectangle normalization and inclusive point-in-rectangle containment.
//!
//! Coordinates are integers (window pixels). Intersection points are exact
//! rationals, so the near-parallel epsilon of floating-point formulations
//! degenerates to an exact zero-determinant test.

use vstd::prelude::*;

verus! {

/// Largest magnitude a coordinate may take. The bound is what keeps every
/// intermediate product of the intersection arithmetic inside `i64`.
pub const COORD_LIMIT: i64 = 500_000;

/// A point in window coordinates.
#[derive(Clone, Copy, PartialEq, Eq, Structural, Debug)]
pub struct Point {
    pub x: i64,
    pub y: i64,
}

/// A wall: a straight segment between two points.
#[derive(Clone, Copy, PartialEq, Eq, Structural, Debug)]
pub struct Segment {
    pub start: Point,
    pub end: Point,
}

/// An exact rational point `(xn / den, yn / den)`, with `den >= 1`.
/// Intersections of integer segments land on such points.
#[derive(Clone, Copy, PartialEq, Eq, Structural, Debug)]
pub struct RatPoint {
    pub xn: i64,
    pub yn: i64,
    pub den: i64,
}

impl RatPoint {
    /// Whether this exact rational point equals the integer point `(x, y)`.
    pub fn is_point(&self, x: i64, y: i64) -> (r: bool)
        ensures
            r == rat_is_point(*self, x as int, y as int),
    {
        proof {
            lemma_mul_bound(
                x as int,
                self.den as int,
                0x8000_0000_0000_0000,
                0x8000_0000_0000_0000,
            );
            lemma_mul_bound(
                y as int,
                self.den as int,
                0x8000_0000_0000_0000,
                0x8000_0000_0000_0000,
            );
        }
        (self.xn as i128) == (x as i128) * (self.den as i128) && (self.yn as i128) == (y as i128)
            * (self.den as i128)
    }
}

pub open spec fn valid_point(p: Point) -> bool {
    &&& -COORD_LIMIT <= p.x <= COORD_LIMIT
    &&& -COORD_LIMIT <= p.y <= COORD_LIMIT
}

pub open spec fn valid_seg(s: Segment) -> bool {
    valid_point(s.start) && valid_point(s.end)
}

pub open spec fn rat_is_point(p: RatPoint, x: int, y: int) -> bool {
    p.xn == x * p.den && p.yn == y * p.den
}

pub open spec fn cross(ax: int, ay: int, bx: int, by: int) -> int {
    ax * by - ay * bx
}

pub open spec fn dir_x(s: Segment) -> int {
    s.end.x - s.start.x
}

pub open spec fn dir_y(s: Segment) -> int {
    s.end.y - s.start.y
}

/// Determinant of the two direction vectors; zero means parallel (or a
/// degenerate operand).
pub open spec fn det(a: Segment, b: Segment) -> int {
    cross(dir_x(a), dir_y(a), dir_x(b), dir_y(b))
}

/// Numerator of the intersection parameter along `a` (denominator `det`).
pub open spec fn t_num(a: Segment, b: Segment) -> int {
    cross(b.start.x - a.start.x, b.start.y - a.start.y, dir_x(b), dir_y(b))
}

/// Numerator of the intersection parameter along `b` (denominator `det`).
pub open spec fn u_num(a: Segment, b: Segment) -> int {
    cross(b.start.x - a.start.x, b.start.y - a.start.y, dir_x(a), dir_y(a))
}

/// `num / den` lies in `[0, 1]`, for `den != 0` of either sign.
pub open spec fn param_in_unit(num: int, den: int) -> bool {
    if den > 0 {
        0 <= num <= den
    } else {
        den <= num <= 0
    }
}

/// The two segments have a true crossing: non-parallel, and both intersection
/// parameters inside `[0, 1]`.
pub open spec fn has_crossing(a: Segment, b: Segment) -> bool {
    &&& det(a, b) != 0
    &&& param_in_unit(t_num(a, b), det(a, b))
    &&& param_in_unit(u_num(a, b), det(a, b))
}

/// Positive denominator of the crossing point: `|det(a, b)|`.
pub open spec fn crossing_den(a: Segment, b: Segment) -> int {
    if det(a, b) >= 0 {
        det(a, b)
    } else {
        -det(a, b)
    }
}

/// Intersection parameter along `a`, normalized to the positive denominator:
/// the crossing sits at parameter `t_norm / crossing_den` of `a`.
pub open spec fn t_norm(a: Segment, b: Segment) -> int {
    if det(a, b) >= 0 {
        t_num(a, b)
    } else {
        -t_num(a, b)
    }
}

/// Intersection parameter along `b`, normalized like `t_norm`.
pub open spec fn u_norm(a: Segment, b: Segment) -> int {
    if det(a, b) >= 0 {
        u_num(a, b)
    } else {
        -u_num(a, b)
    }
}

pub open spec fn crossing_xn(a: Segment, b: Segment) -> int {
    a.start.x * crossing_den(a, b) + t_norm(a, b) * dir_x(a)
}

pub open spec fn crossing_yn(a: Segment, b: Segment) -> int {
    a.start.y * crossing_den(a, b) + t_norm(a, b) * dir_y(a)
}

/// The rational point `(xn / den, yn / den)` lies on the infinite line
/// through `s`, stated cross-multiplied so no division appears.
pub open spec fn on_line(xn: int, yn: int, den: int, s: Segment) -> bool {
    (xn - s.start.x * den) * dir_y(s) == (yn - s.start.y * den) * dir_x(s)
}

/// The rational point `(xn / den, yn / den)` lies inside the coordinate-wise
/// bounding box of `s` (for `den > 0`).
pub open spec fn within_box(xn: int, yn: int, den: int, s: Segment) -> bool {
    &&& if s.start.x <= s.end.x {
        s.start.x * den <= xn <= s.end.x * den
    } else {
        s.end.x * den <= xn <= s.start.x * den
    }
    &&& if s.start.y <= s.end.y {
        s.start.y * den <= yn <= s.end.y * den
    } else {
        s.end.y * den <= yn <= s.start.y * den
    }
}

/// Inclusive containment in the axis-aligned rectangle `[lo, hi]`.
pub open spec fn in_rect(p: Point, lo: Point, hi: Point) -> bool {
    lo.x <= p.x <= hi.x && lo.y <= p.y <= hi.y
}

pub proof fn lemma_mul_bound(a: int, b: int, am: int, bm: int)
    by (nonlinear_arith)
    requires
        -am <= a <= am,
        -bm <= b <= bm,
    ensures
        -(am * bm) <= a * b <= am * bm,
{
}

/// Intersection parameter of the crossing of `a` and `b` along `a`, as the
/// exact fraction `tn / den` with `0 <= tn <= den`; `None` when the segments
/// are parallel (determinant exactly zero) or the crossing falls outside
/// either segment.
fn ray_param(a: Segment, b: Segment) -> (r: Option<(i64, i64)>)
    requires
        valid_seg(a),
        valid_seg(b),
    ensures
        r.is_some() <==> has_crossing(a, b),
        r.is_some() ==> {
            let (tn, den) = r.unwrap();
            &&& tn == t_norm(a, b)
            &&& den == crossing_den(a, b)
            &&& 0 <= tn <= den
            &&& 1 <= den <= 2_000_000_000_000
        },
{
    let adx = a.end.x - a.start.x;
    let ady = a.end.y - a.start.y;
    let bdx = b.end.x - b.start.x;
    let bdy = b.end.y - b.start.y;
    let qx = b.start.x - a.start.x;
    let qy = b.start.y - a.start.y;
    proof {
        lemma_mul_bound(adx as int, bdy as int, 1_000_000, 1_000_000);
        lemma_mul_bound(ady as int, bdx as int, 1_000_000, 1_000_000);
        lemma_mul_bound(qx as int, bdy as int, 1_000_000, 1_000_000);
        lemma_mul_bound(qy as int, bdx as int, 1_000_000, 1_000_000);
        lemma_mul_bound(qx as int, ady as int, 1_000_000, 1_000_000);
        lemma_mul_bound(qy as int, adx as int, 1_000_000, 1_000_000);
    }
    let d = adx * bdy - ady * bdx;
    if d == 0 {
        return None;
    }
    let t = qx * bdy - qy * bdx;
    let u = qx * ady - qy * adx;
    if d > 0 {
        if 0 <= t && t <= d && 0 <= u && u <= d {
            Some((t, d))
        } else {
            None
        }
    } else {
        if d <= t && t <= 0 && d <= u && u <= 0 {
            Some((-t, -d))
        } else {
            None
        }
    }
}

/// Exact intersection point of two segments together with the normalized
/// intersection parameter `(tn, den)` along `a`; `None` when they are
/// parallel or do not truly cross.
pub fn intersect_with_t(a: Segment, b: Segment) -> (r: Option<(RatPoint, i64, i64)>)
    requires
        valid_seg(a),
        valid_seg(b),
    ensures
        r.is_some() <==> has_crossing(a, b),
        r.is_some() ==> {
            let (p, tn, den) = r.unwrap();
            &&& p.xn == crossing_xn(a, b)
            &&& p.yn == crossing_yn(a, b)
            &&& p.den == crossing_den(a, b)
            &&& tn == t_norm(a, b)
            &&& den == crossing_den(a, b)
            &&& 0 <= tn <= den
            &&& 1 <= den <= 2_000_000_000_000
        },
{
    match ray_param(a, b) {
        None => None,
        Some((tn, den)) => {
            let adx = a.end.x - a.start.x;
            let ady = a.end.y - a.start.y;
            proof {
                lemma_mul_bound(a.start.x as int, den as int, 500_000, 2_000_000_000_000);
                lemma_mul_bound(a.start.y as int, den as int, 500_000, 2_000_000_000_000);
                lemma_mul_bound(tn as int, adx as int, 2_000_000_000_000, 1_000_000);
                lemma_mul_bound(tn as int, ady as int, 2_000_000_000_000, 1_000_000);
            }
            let xn = a.start.x * den + tn * adx;
            let yn = a.start.y * den + tn * ady;
            Some((RatPoint { xn, yn, den }, tn, den))
        },
    }
}

/// Exact intersection point of two segments, or `None` when they are
/// parallel or do not truly cross. The near-zero-determinant guard of a
/// floating-point implementation is here the exact test `det == 0`.
pub fn intersect(a: Segment, b: Segment) -> (r: Option<RatPoint>)
    requires
        valid_seg(a),
        valid_seg(b),
    ensures
        r.is_some() <==> has_crossing(a, b),
        r.is_some() ==> {
            let p = r.unwrap();
            &&& p.xn == crossing_xn(a, b)
            &&& p.yn == crossing_yn(a, b)
            &&& p.den == crossing_den(a, b)
            &&& 1 <= p.den <= 2_000_000_000_000
        },
{
    match intersect_with_t(a, b) {
        None => None,
        Some((p, _tn, _den)) => Some(p),
    }
}

/// Canonical axis-aligned rectangle from a drag origin and a signed drag
/// delta: the component-wise minimum and maximum of `origin` and
/// `origin + delta`, whichever of the four quadrants the drag points into.
pub fn normalize_rect(origin: Point, delta: Point) -> (r: (Point, Point))
    requires
        valid_point(origin),
        -COORD_LIMIT <= origin.x + delta.x <= COORD_LIMIT,
        -COORD_LIMIT <= origin.y + delta.y <= COORD_LIMIT,
    ensures
        r.0.x == if origin.x + delta.x < origin.x { origin.x + delta.x } else { origin.x as int },
        r.1.x == if origin.x + delta.x < origin.x { origin.x as int } else { origin.x + delta.x },
        r.0.y == if origin.y + delta.y < origin.y { origin.y + delta.y } else { origin.y as int },
        r.1.y == if origin.y + delta.y < origin.y { origin.y as int } else { origin.y + delta.y },
        r.0.x <= r.1.x,
        r.0.y <= r.1.y,
        valid_point(r.0),
        valid_point(r.1),
{
    let cx = origin.x + delta.x;
    let cy = origin.y + delta.y;
    let min_x = if cx < origin.x { cx } else { origin.x };
    let max_x = if cx < origin.x { origin.x } else { cx };
    let min_y = if cy < origin.y { cy } else { origin.y };
    let max_y = if cy < origin.y { origin.y } else { cy };
    (Point { x: min_x, y: min_y }, Point { x: max_x, y: max_y })
}

/// Inclusive containment test of a point in a normalized rectangle.
pub fn point_in_rect(p: Point, lo: Point, hi: Point) -> (r: bool)
    ensures
        r == in_rect(p, lo, hi),
{
    lo.x <= p.x && p.x <= hi.x && lo.y <= p.y && p.y <= hi.y
}

/// The crossing point returned by `intersect` really is the intersection:
/// it lies on the line through either segment, and inside either segment's
/// bounding box (its parameters are inside `[0, 1]`).
pub proof fn lemma_crossing_on_segments(a: Segment, b: Segment)
    requires
        has_crossing(a, b),
    ensures
        on_line(crossing_xn(a, b), crossing_yn(a, b), crossing_den(a, b), a),
        on_line(crossing_xn(a, b), crossing_yn(a, b), crossing_den(a, b), b),
        within_box(crossing_xn(a, b), crossing_yn(a, b), crossing_den(a, b), a),
        within_box(crossing_xn(a, b), crossing_yn(a, b), crossing_den(a, b), b),
{
    let dd = det(a, b);
    let tt = t_num(a, b);
    let uu = u_num(a, b);
    let den = crossing_den(a, b);
    let tn = t_norm(a, b);
    let un = u_norm(a, b);
    let xn = crossing_xn(a, b);
    let yn = crossing_yn(a, b);
    let adx = dir_x(a);
    let ady = dir_y(a);
    let bdx = dir_x(b);
    let bdy = dir_y(b);
    let qx = b.start.x - a.start.x;
    let qy = b.start.y - a.start.y;

    // On the line through a: the offset from a.start is tn * (a's direction).
    assert(xn - a.start.x * den == tn * adx);
    assert(yn - a.start.y * den == tn * ady);
    assert((tn * adx) * ady == (tn * ady) * adx) by (nonlinear_arith);

    // The same offset, seen from b.start, is un * (b's direction).
    assert(tt * adx - qx * dd == bdx * uu) by (nonlinear_arith)
        requires
            dd == adx * bdy - ady * bdx,
            tt == qx * bdy - qy * bdx,
            uu == qx * ady - qy * adx;
    assert(tt * ady - qy * dd == bdy * uu) by (nonlinear_arith)
        requires
            dd == adx * bdy - ady * bdx,
            tt == qx * bdy - qy * bdx,
            uu == qx * ady - qy * adx;
    if dd >= 0 {
        assert(xn - b.start.x * den == un * bdx) by (nonlinear_arith)
            requires
                xn == a.start.x * den + tn * adx,
                den == dd,
                tn == tt,
                un == uu,
                qx == b.start.x - a.start.x,
                tt * adx - qx * dd == bdx * uu;
        assert(yn - b.start.y * den == un * bdy) by (nonlinear_arith)
            requires
                yn == a.start.y * den + tn * ady,
                den == dd,
                tn == tt,
                un == uu,
                qy == b.start.y - a.start.y,
                tt * ady - qy * dd == bdy * uu;
    } else {
        assert(xn - b.start.x * den == un * bdx) by (nonlinear_arith)
            requires
                xn == a.start.x * den + tn * adx,
                den == -dd,
                tn == -tt,
                un == -uu,
                qx == b.start.x - a.start.x,
                tt * adx - qx * dd == bdx * uu;
        assert(yn - b.start.y * den == un * bdy) by (nonlinear_arith)
            requires
                yn == a.start.y * den + tn * ady,
                den == -dd,
                tn == -tt,
                un == -uu,
                qy == b.start.y - a.start.y,
                tt * ady - qy * dd == bdy * uu;
    }
    assert((un * bdx) * bdy == (un * bdy) * bdx) by (nonlinear_arith);

    // Parameters normalize into [0, den].
    assert(0 <= tn <= den && 0 <= un <= den);

    lemma_offset_in_box(a.start.x as int, adx, tn, den, xn);
    lemma_offset_in_box(a.start.y as int, ady, tn, den, yn);
    assert(xn - b.start.x * den == un * bdx);
    assert(yn - b.start.y * den == un * bdy);
    lemma_offset_in_box(b.start.x as int, bdx, un, den, xn);
    lemma_offset_in_box(b.start.y as int, bdy, un, den, yn);
}

/// The crossing point is the only one: any rational point `(x / d, y / d)`
/// that lies on the lines through both (non-parallel) segments equals the
/// crossing point of `intersect`, as a rational.
pub proof fn lemma_crossing_unique(a: Segment, b: Segment, x: int, y: int, d: int)
    requires
        det(a, b) != 0,
        d >= 1,
        on_line(x, y, d, a),
        on_line(x, y, d, b),
    ensures
        x * crossing_den(a, b) == crossing_xn(a, b) * d,
        y * crossing_den(a, b) == crossing_yn(a, b) * d,
{
    let adx = dir_x(a);
    let ady = dir_y(a);
    let bdx = dir_x(b);
    let bdy = dir_y(b);
    let qx = b.start.x - a.start.x;
    let qy = b.start.y - a.start.y;
    let dd = det(a, b);
    let tt = t_num(a, b);
    // Offsets of the given point from a.start, scaled by d.
    let xp = x - a.start.x * d;
    let yp = y - a.start.y * d;
    // On the line through a.
    assert(xp * ady == yp * adx);
    // On the line through b, rewritten around a.start.
    assert((xp - qx * d) * bdy == (yp - qy * d) * bdx) by (nonlinear_arith)
        requires
            xp == x - a.start.x * d,
            yp == y - a.start.y * d,
            qx == b.start.x - a.start.x,
            qy == b.start.y - a.start.y,
            (x - b.start.x * d) * bdy == (y - b.start.y * d) * bdx;
    assert(xp * bdy - yp * bdx == d * tt) by (nonlinear_arith)
        requires
            (xp - qx * d) * bdy == (yp - qy * d) * bdx,
            tt == qx * bdy - qy * bdx;
    // Substituting one equation into the other pins the x coordinate:
    // xp * dd unfolds, trades xp * ady for yp * adx, and refolds to
    // adx * (xp * bdy - yp * bdx) == adx * (d * tt).
    assert(xp * dd == adx * (xp * bdy) - (xp * ady) * bdx) by (nonlinear_arith)
        requires
            dd == adx * bdy - ady * bdx;
    assert((xp * ady) * bdx == (yp * adx) * bdx);
    assert(adx * (xp * bdy) - (yp * adx) * bdx == adx * (xp * bdy - yp * bdx))
        by (nonlinear_arith);
    assert(adx * (xp * bdy - yp * bdx) == adx * (d * tt));
    assert(adx * (d * tt) == tt * adx * d) by (nonlinear_arith);
    assert(xp * dd == tt * adx * d);
    // The same exchange pins the y coordinate.
    assert(yp * dd == (yp * adx) * bdy - ady * (yp * bdx)) by (nonlinear_arith)
        requires
            dd == adx * bdy - ady * bdx;
    assert((yp * adx) * bdy == (xp * ady) * bdy);
    assert((xp * ady) * bdy - ady * (yp * bdx) == ady * (xp * bdy - yp * bdx))
        by (nonlinear_arith);
    assert(ady * (xp * bdy - yp * bdx) == ady * (d * tt));
    assert(ady * (d * tt) == tt * ady * d) by (nonlinear_arith);
    assert(yp * dd == tt * ady * d);
    // Fold the offsets back and normalize the sign of the denominator.
    if dd >= 0 {
        assert(x * dd == (a.start.x * dd + tt * adx) * d) by (nonlinear_arith)
            requires
                xp == x - a.start.x * d,
                xp * dd == tt * adx * d;
        assert(y * dd == (a.start.y * dd + tt * ady) * d) by (nonlinear_arith)
            requires
                yp == y - a.start.y * d,
                yp * dd == tt * ady * d;
    } else {
        assert(x * (-dd) == (a.start.x * (-dd) + (-tt) * adx) * d) by (nonlinear_arith)
            requires
                xp == x - a.start.x * d,
                xp * dd == tt * adx * d;
        assert(y * (-dd) == (a.start.y * (-dd) + (-tt) * ady) * d) by (nonlinear_arith)
            requires
                yp == y - a.start.y * d,
                yp * dd == tt * ady * d;
    }
}

/// A point at parameter `s / den` (with `0 <= s <= den`) of the stretch from
/// `c0` to `c0 + d` stays between the two, scaled by `den`.
proof fn lemma_offset_in_box(c0: int, d: int, s: int, den: int, v: int)
    by (nonlinear_arith)
    requires
        0 <= s <= den,
        1 <= den,
        v == c0 * den + s * d,
    ensures
        d >= 0 ==> c0 * den <= v <= (c0 + d) * den,
        d < 0 ==> (c0 + d) * den <= v <= c0 * den,
{
}

} // verus!

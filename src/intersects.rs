//! The pairwise intersection predicate. Each pair of types has its own rule;
//! all arithmetic is exact, so a parameter that the rules compare with the
//! unit interval is compared as a fraction, never rounded.
use vstd::prelude::*;
use crate::contains::{area_contains, bbox_contains};
use crate::types::{lemma_diff_product_bound, seg, seg_count, Bbox, Coordinate, Line, LineString, Point, Polygon};

verus! {

/// Whether the fraction `num / den` (with `den != 0`) lies in `[0, 1]`.
pub open spec fn in_unit(num: int, den: int) -> bool {
    if den > 0 {
        0 <= num <= den
    } else {
        den <= num <= 0
    }
}

/// Point on segment. A degenerate segment holds only its own point; an
/// axis-parallel one needs the constant coordinate equal and the parameter
/// along the other axis in `[0, 1]`; any other needs the parameters along
/// both axes equal and in `[0, 1]`.
pub open spec fn line_meets_point(l: Line, p: Coordinate) -> bool {
    let dx = l.end.x - l.start.x;
    let dy = l.end.y - l.start.y;
    let px = p.x - l.start.x;
    let py = p.y - l.start.y;
    if dx == 0 && dy == 0 {
        p == l.start
    } else if dy == 0 {
        p.y == l.start.y && in_unit(px, dx)
    } else if dx == 0 {
        p.x == l.start.x && in_unit(py, dy)
    } else {
        px * dy == py * dx && in_unit(px, dx)
    }
}

/// Segment against segment by Cramer's rule. When the determinant is zero
/// (parallel or collinear segments) they meet only where an endpoint of one
/// lies on the other; collinear overlaps without such an endpoint are missed.
pub open spec fn lines_meet(a: Line, b: Line) -> bool {
    let a1 = a.end.x - a.start.x;
    let a2 = a.end.y - a.start.y;
    let b1 = -(b.end.x - b.start.x);
    let b2 = -(b.end.y - b.start.y);
    let c1 = b.start.x - a.start.x;
    let c2 = b.start.y - a.start.y;
    let d = a1 * b2 - a2 * b1;
    if d == 0 {
        line_meets_point(b, a.start) || line_meets_point(b, a.end) || line_meets_point(a, b.start)
            || line_meets_point(a, b.end)
    } else {
        in_unit(c1 * b2 - c2 * b1, d) && in_unit(a1 * c2 - a2 * c1, d)
    }
}

/// A segment against a path: it meets one of the path's segments.
pub open spec fn line_meets_path(l: Line, path: Seq<Coordinate>) -> bool {
    exists|i: int| 0 <= i < seg_count(path.len() as int) && #[trigger] lines_meet(l, seg(path, i))
}

/// Segment pair of two paths by the parametric form of both lines; a pair
/// with a zero denominator (parallel or degenerate) never counts.
pub open spec fn segments_cross(a: Line, b: Line) -> bool {
    let adx = a.end.x - a.start.x;
    let ady = a.end.y - a.start.y;
    let bdx = b.end.x - b.start.x;
    let bdy = b.end.y - b.start.y;
    let den = bdy * adx - bdx * ady;
    let ua = bdx * (a.start.y - b.start.y) - bdy * (a.start.x - b.start.x);
    let ub = adx * (a.start.y - b.start.y) - ady * (a.start.x - b.start.x);
    den != 0 && in_unit(ua, den) && in_unit(ub, den)
}

/// Two paths meet where a segment of one crosses a segment of the other.
pub open spec fn paths_cross(s: Seq<Coordinate>, t: Seq<Coordinate>) -> bool {
    &&& s.len() > 0
    &&& t.len() > 0
    &&& exists|i: int, j: int|
        0 <= i < seg_count(s.len() as int) && 0 <= j < seg_count(t.len() as int)
            && #[trigger] segments_cross(seg(s, i), seg(t, j))
}

/// A segment against a polygon (exterior ring `ext`, holes `holes`): it meets
/// a ring, or one of its endpoints lies inside the polygon.
pub open spec fn line_meets_area(l: Line, ext: Seq<Coordinate>, holes: Seq<Seq<Coordinate>>) -> bool {
    line_meets_path(l, ext) || (exists|k: int| 0 <= k < holes.len() && line_meets_path(l, #[trigger] holes[k]))
        || area_contains(ext, holes, l.start) || area_contains(ext, holes, l.end)
}

/// A path against a polygon: a ring crosses the path, or a vertex of the path
/// lies inside the polygon.
pub open spec fn area_meets_path(ext: Seq<Coordinate>, holes: Seq<Seq<Coordinate>>, path: Seq<Coordinate>) -> bool {
    paths_cross(ext, path) || (exists|k: int| 0 <= k < holes.len() && paths_cross(#[trigger] holes[k], path))
        || (exists|i: int| 0 <= i < path.len() && area_contains(ext, holes, #[trigger] path[i]))
}

/// Polygon against polygon: the first meets the second's exterior ring or
/// one of its holes, or the second meets the first's exterior ring.
pub open spec fn areas_meet(
    ext1: Seq<Coordinate>,
    holes1: Seq<Seq<Coordinate>>,
    ext2: Seq<Coordinate>,
    holes2: Seq<Seq<Coordinate>>,
) -> bool {
    area_meets_path(ext1, holes1, ext2) || (exists|k: int|
        0 <= k < holes2.len() && area_meets_path(ext1, holes1, #[trigger] holes2[k]))
        || area_meets_path(ext2, holes2, ext1)
}

/// The closed ring around a box, counter-clockwise from its lower left corner
/// by way of the upper left one.
pub open spec fn bbox_ring(b: Bbox) -> Seq<Coordinate> {
    seq![
        Coordinate { x: b.xmin, y: b.ymin },
        Coordinate { x: b.xmin, y: b.ymax },
        Coordinate { x: b.xmax, y: b.ymax },
        Coordinate { x: b.xmax, y: b.ymin },
        Coordinate { x: b.xmin, y: b.ymin },
    ]
}

/// On one axis, a bound of either range lies within the other range.
pub open spec fn ranges_touch(lo1: int, hi1: int, lo2: int, hi2: int) -> bool {
    (lo2 <= lo1 <= hi2) || (lo2 <= hi1 <= hi2) || (lo1 <= lo2 <= hi1) || (lo1 <= hi2 <= hi1)
}

/// Box against box. Where either box holds the other (edges included) they
/// do not intersect; otherwise they do when, on each axis, a bound of either
/// box lies within the other box's range.
pub open spec fn bboxes_meet(a: Bbox, b: Bbox) -> bool {
    &&& !bbox_contains(a, b)
    &&& !bbox_contains(b, a)
    &&& ranges_touch(a.xmin as int, a.xmax as int, b.xmin as int, b.xmax as int)
    &&& ranges_touch(a.ymin as int, a.ymax as int, b.ymin as int, b.ymax as int)
}

fn touch(lo1: i32, hi1: i32, lo2: i32, hi2: i32) -> (r: bool)
    ensures
        r == ranges_touch(lo1 as int, hi1 as int, lo2 as int, hi2 as int),
{
    (lo2 <= lo1 && lo1 <= hi2) || (lo2 <= hi1 && hi1 <= hi2) || (lo1 <= lo2 && lo2 <= hi1) || (lo1
        <= hi2 && hi2 <= hi1)
}

/// Whether `a` intersects `b`. Each implementation states its rule in
/// `spec_intersects`; where both `A: Intersects<B>` and `B: Intersects<A>`
/// exist, the two agree (see the lemmas of this module).
pub trait Intersects<Rhs = Self> {
    spec fn spec_intersects(&self, rhs: &Rhs) -> bool;

    fn intersects(&self, rhs: &Rhs) -> (r: bool)
        ensures
            r == self.spec_intersects(rhs),
    ;
}

fn within_unit(num: i128, den: i128) -> (r: bool)
    requires
        den != 0,
    ensures
        r == in_unit(num as int, den as int),
{
    if den > 0 {
        0 <= num && num <= den
    } else {
        den <= num && num <= 0
    }
}

impl Intersects<Point> for Line {
    open spec fn spec_intersects(&self, p: &Point) -> bool {
        line_meets_point(*self, p.0)
    }

    fn intersects(&self, p: &Point) -> (r: bool) {
        let dx = self.dx();
        let dy = self.dy();
        let px = p.0.x as i64 - self.start.x as i64;
        let py = p.0.y as i64 - self.start.y as i64;
        if dx == 0 && dy == 0 {
            // degenerate segment
            p.0 == self.start
        } else if dy == 0 {
            // horizontal segment
            p.0.y == self.start.y && within_unit(px as i128, dx as i128)
        } else if dx == 0 {
            // vertical segment
            p.0.x == self.start.x && within_unit(py as i128, dy as i128)
        } else {
            proof {
                lemma_diff_product_bound(px as int, dy as int);
                lemma_diff_product_bound(py as int, dx as int);
            }
            (px as i128) * (dy as i128) == (py as i128) * (dx as i128) && within_unit(
                px as i128,
                dx as i128,
            )
        }
    }
}

impl Intersects<Line> for Point {
    open spec fn spec_intersects(&self, line: &Line) -> bool {
        line_meets_point(*line, self.0)
    }

    fn intersects(&self, line: &Line) -> (r: bool) {
        line.intersects(self)
    }
}

impl Intersects<Line> for Line {
    open spec fn spec_intersects(&self, line: &Line) -> bool {
        lines_meet(*self, *line)
    }

    fn intersects(&self, line: &Line) -> (r: bool) {
        let a1 = self.dx() as i128;
        let a2 = self.dy() as i128;
        let b1 = -line.dx() as i128;
        let b2 = -line.dy() as i128;
        let c1 = line.start.x as i128 - self.start.x as i128;
        let c2 = line.start.y as i128 - self.start.y as i128;
        proof {
            lemma_diff_product_bound(a1 as int, b2 as int);
            lemma_diff_product_bound(a2 as int, b1 as int);
            lemma_diff_product_bound(c1 as int, b2 as int);
            lemma_diff_product_bound(c2 as int, b1 as int);
            lemma_diff_product_bound(a1 as int, c2 as int);
            lemma_diff_product_bound(a2 as int, c1 as int);
        }
        let d = a1 * b2 - a2 * b1;
        if d == 0 {
            // parallel or collinear: an endpoint of one must lie on the other
            let (self_start, self_end) = self.points();
            let (other_start, other_end) = line.points();
            self_start.intersects(line) || self_end.intersects(line) || other_start.intersects(self)
                || other_end.intersects(self)
        } else {
            within_unit(c1 * b2 - c2 * b1, d) && within_unit(a1 * c2 - a2 * c1, d)
        }
    }
}

impl Intersects<LineString> for Line {
    open spec fn spec_intersects(&self, linestring: &LineString) -> bool {
        line_meets_path(*self, linestring@)
    }

    fn intersects(&self, linestring: &LineString) -> (r: bool) {
        let n = linestring.0.len();
        let mut i: usize = 0;
        while i + 1 < n
            invariant
                n == linestring@.len(),
                i <= seg_count(n as int),
                forall|j: int| 0 <= j < i ==> !lines_meet(*self, #[trigger] seg(linestring@, j)),
            decreases n - i,
        {
            let edge = Line { start: linestring.0[i], end: linestring.0[i + 1] };
            if self.intersects(&edge) {
                assert(edge == seg(linestring@, i as int));
                return true;
            }
            i = i + 1;
        }
        false
    }
}

impl Intersects<Line> for LineString {
    open spec fn spec_intersects(&self, line: &Line) -> bool {
        line_meets_path(*line, self@)
    }

    fn intersects(&self, line: &Line) -> (r: bool) {
        line.intersects(self)
    }
}

impl Intersects<Polygon> for Line {
    open spec fn spec_intersects(&self, p: &Polygon) -> bool {
        line_meets_area(*self, p@.0, p@.1)
    }

    fn intersects(&self, p: &Polygon) -> (r: bool) {
        if p.exterior.intersects(self) {
            return true;
        }
        let mut k: usize = 0;
        while k < p.interiors.len()
            invariant
                k <= p@.1.len(),
                forall|j: int| 0 <= j < k ==> !line_meets_path(*self, #[trigger] p@.1[j]),
            decreases p@.1.len() - k,
        {
            assert(p@.1[k as int] == p.interiors@[k as int]@);
            if p.interiors[k].intersects(self) {
                return true;
            }
            k = k + 1;
        }
        p.contains(&self.start_point()) || p.contains(&self.end_point())
    }
}

impl Intersects<Line> for Polygon {
    open spec fn spec_intersects(&self, line: &Line) -> bool {
        line_meets_area(*line, self@.0, self@.1)
    }

    fn intersects(&self, line: &Line) -> (r: bool) {
        line.intersects(self)
    }
}

fn cross_segments(a: Line, b: Line) -> (r: bool)
    ensures
        r == segments_cross(a, b),
{
    let adx = a.dx() as i128;
    let ady = a.dy() as i128;
    let bdx = b.dx() as i128;
    let bdy = b.dy() as i128;
    let oy = a.start.y as i128 - b.start.y as i128;
    let ox = a.start.x as i128 - b.start.x as i128;
    proof {
        lemma_diff_product_bound(bdy as int, adx as int);
        lemma_diff_product_bound(bdx as int, ady as int);
        lemma_diff_product_bound(bdx as int, oy as int);
        lemma_diff_product_bound(bdy as int, ox as int);
        lemma_diff_product_bound(adx as int, oy as int);
        lemma_diff_product_bound(ady as int, ox as int);
    }
    let den = bdy * adx - bdx * ady;
    if den == 0 {
        return false;
    }
    let ua = bdx * oy - bdy * ox;
    let ub = adx * oy - ady * ox;
    within_unit(ua, den) && within_unit(ub, den)
}

impl Intersects<LineString> for LineString {
    open spec fn spec_intersects(&self, linestring: &LineString) -> bool {
        paths_cross(self@, linestring@)
    }

    fn intersects(&self, linestring: &LineString) -> (r: bool) {
        let n = self.0.len();
        let m = linestring.0.len();
        if n == 0 || m == 0 {
            return false;
        }
        let mut i: usize = 0;
        while i + 1 < n
            invariant
                n == self@.len(),
                m == linestring@.len(),
                n > 0,
                m > 0,
                i <= seg_count(n as int),
                forall|a: int, b: int|
                    0 <= a < i && 0 <= b < seg_count(m as int) ==> !#[trigger] segments_cross(
                        seg(self@, a),
                        seg(linestring@, b),
                    ),
            decreases n - i,
        {
            let a = Line { start: self.0[i], end: self.0[i + 1] };
            assert(a == seg(self@, i as int));
            let mut j: usize = 0;
            while j + 1 < m
                invariant
                    n == self@.len(),
                    m == linestring@.len(),
                    i + 1 < n,
                    a == seg(self@, i as int),
                    j <= seg_count(m as int),
                    forall|b: int| 0 <= b < j ==> !#[trigger] segments_cross(a, seg(linestring@, b)),
                decreases m - j,
            {
                let b = Line { start: linestring.0[j], end: linestring.0[j + 1] };
                if cross_segments(a, b) {
                    assert(b == seg(linestring@, j as int));
                    return true;
                }
                j = j + 1;
            }
            i = i + 1;
        }
        false
    }
}

impl Intersects<LineString> for Polygon {
    open spec fn spec_intersects(&self, linestring: &LineString) -> bool {
        area_meets_path(self@.0, self@.1, linestring@)
    }

    fn intersects(&self, linestring: &LineString) -> (r: bool) {
        // a ring crosses the path
        if self.exterior.intersects(linestring) {
            return true;
        }
        let mut k: usize = 0;
        while k < self.interiors.len()
            invariant
                k <= self@.1.len(),
                forall|j: int| 0 <= j < k ==> !paths_cross(#[trigger] self@.1[j], linestring@),
            decreases self@.1.len() - k,
        {
            assert(self@.1[k as int] == self.interiors@[k as int]@);
            if self.interiors[k].intersects(linestring) {
                return true;
            }
            k = k + 1;
        }
        // or the path lies inside the polygon
        let mut i: usize = 0;
        while i < linestring.0.len()
            invariant
                i <= linestring@.len(),
                forall|j: int| 0 <= j < i ==> !area_contains(self@.0, self@.1, #[trigger] linestring@[j]),
            decreases linestring@.len() - i,
        {
            if self.contains(&Point(linestring.0[i])) {
                return true;
            }
            i = i + 1;
        }
        false
    }
}

impl Intersects<Polygon> for LineString {
    open spec fn spec_intersects(&self, polygon: &Polygon) -> bool {
        area_meets_path(polygon@.0, polygon@.1, self@)
    }

    fn intersects(&self, polygon: &Polygon) -> (r: bool) {
        polygon.intersects(self)
    }
}

impl Intersects<Bbox> for Bbox {
    open spec fn spec_intersects(&self, bbox: &Bbox) -> bool {
        bboxes_meet(*self, *bbox)
    }

    fn intersects(&self, bbox: &Bbox) -> (r: bool) {
        // a box held by the other one does not count as intersecting it
        if bbox.contains(self) || self.contains(bbox) {
            false
        } else {
            touch(self.xmin, self.xmax, bbox.xmin, bbox.xmax) && touch(
                self.ymin,
                self.ymax,
                bbox.ymin,
                bbox.ymax,
            )
        }
    }
}

impl Intersects<Polygon> for Polygon {
    open spec fn spec_intersects(&self, polygon: &Polygon) -> bool {
        areas_meet(self@.0, self@.1, polygon@.0, polygon@.1)
    }

    fn intersects(&self, polygon: &Polygon) -> (r: bool) {
        // self meets a ring of the other polygon, or lies inside it
        if self.intersects(&polygon.exterior) {
            return true;
        }
        let mut k: usize = 0;
        while k < polygon.interiors.len()
            invariant
                k <= polygon@.1.len(),
                forall|j: int|
                    0 <= j < k ==> !area_meets_path(self@.0, self@.1, #[trigger] polygon@.1[j]),
            decreases polygon@.1.len() - k,
        {
            assert(polygon@.1[k as int] == polygon.interiors@[k as int]@);
            if self.intersects(&polygon.interiors[k]) {
                return true;
            }
            k = k + 1;
        }
        polygon.intersects(&self.exterior)
    }
}

impl Intersects<Bbox> for Polygon {
    open spec fn spec_intersects(&self, bbox: &Bbox) -> bool {
        areas_meet(self@.0, self@.1, bbox_ring(*bbox), Seq::empty())
    }

    fn intersects(&self, bbox: &Bbox) -> (r: bool) {
        let ring = vec![
            Coordinate { x: bbox.xmin, y: bbox.ymin },
            Coordinate { x: bbox.xmin, y: bbox.ymax },
            Coordinate { x: bbox.xmax, y: bbox.ymax },
            Coordinate { x: bbox.xmax, y: bbox.ymin },
            Coordinate { x: bbox.xmin, y: bbox.ymin },
        ];
        let p = Polygon::new(LineString(ring), Vec::new());
        assert(p@.0 =~= bbox_ring(*bbox));
        assert(p@.1 =~= Seq::<Seq<Coordinate>>::empty());
        self.intersects(&p)
    }
}

impl Intersects<Polygon> for Bbox {
    open spec fn spec_intersects(&self, polygon: &Polygon) -> bool {
        areas_meet(polygon@.0, polygon@.1, bbox_ring(*self), Seq::empty())
    }

    fn intersects(&self, polygon: &Polygon) -> (r: bool) {
        polygon.intersects(self)
    }
}

/// `in_unit` does not change when numerator and denominator change sign.
proof fn lemma_in_unit_neg(num: int, den: int)
    requires
        den != 0,
    ensures
        in_unit(-num, -den) == in_unit(num, den),
{
}

/// Swapping the two segments negates the determinant and swaps the two
/// numerators of Cramer's rule, negated.
proof fn lemma_cramer_swap(ax: int, ay: int, bx: int, by: int, cx: int, cy: int)
    by (nonlinear_arith)
    ensures
        bx * (-ay) - by * (-ax) == -(ax * (-by) - ay * (-bx)),
        (-cx) * (-ay) - (-cy) * (-ax) == -(ax * cy - ay * cx),
        bx * (-cy) - by * (-cx) == -(cx * (-by) - cy * (-bx)),
{
}

/// A point meets a segment exactly when the segment meets the point.
pub proof fn lemma_point_line_symmetric(p: Point, l: Line)
    ensures
        p.spec_intersects(&l) == l.spec_intersects(&p),
{
}

/// Segment intersection does not depend on the order of the two segments.
pub proof fn lemma_line_line_symmetric(a: Line, b: Line)
    ensures
        a.spec_intersects(&b) == b.spec_intersects(&a),
{
    let ax = a.end.x - a.start.x;
    let ay = a.end.y - a.start.y;
    let bx = b.end.x - b.start.x;
    let by = b.end.y - b.start.y;
    let cx = b.start.x - a.start.x;
    let cy = b.start.y - a.start.y;
    let d = ax * (-by) - ay * (-bx);
    let s = cx * (-by) - cy * (-bx);
    let t = ax * cy - ay * cx;
    lemma_cramer_swap(ax, ay, bx, by, cx, cy);
    if d != 0 {
        lemma_in_unit_neg(t, d);
        lemma_in_unit_neg(s, d);
    }
}

/// Swapping the two segments negates the denominator and swaps the two
/// numerators, negated.
proof fn lemma_segment_swap(ax: int, ay: int, bx: int, by: int, ox: int, oy: int)
    by (nonlinear_arith)
    ensures
        ay * bx - ax * by == -(by * ax - bx * ay),
        ax * (-oy) - ay * (-ox) == -(ax * oy - ay * ox),
        bx * (-oy) - by * (-ox) == -(bx * oy - by * ox),
{
}

/// A segment pair crosses in either order.
pub proof fn lemma_segments_cross_symmetric(a: Line, b: Line)
    ensures
        segments_cross(a, b) == segments_cross(b, a),
{
    let adx = a.end.x - a.start.x;
    let ady = a.end.y - a.start.y;
    let bdx = b.end.x - b.start.x;
    let bdy = b.end.y - b.start.y;
    let ox = a.start.x - b.start.x;
    let oy = a.start.y - b.start.y;
    lemma_segment_swap(adx, ady, bdx, bdy, ox, oy);
    let den = bdy * adx - bdx * ady;
    if den != 0 {
        lemma_in_unit_neg(bdx * oy - bdy * ox, den);
        lemma_in_unit_neg(adx * oy - ady * ox, den);
    }
}

/// A segment meets a path exactly when the path meets the segment.
pub proof fn lemma_line_linestring_symmetric(l: Line, s: LineString)
    ensures
        l.spec_intersects(&s) == s.spec_intersects(&l),
{
}

/// A segment meets a polygon exactly when the polygon meets the segment.
pub proof fn lemma_line_polygon_symmetric(l: Line, p: Polygon)
    ensures
        l.spec_intersects(&p) == p.spec_intersects(&l),
{
}

/// Two paths meet in either order.
pub proof fn lemma_linestring_linestring_symmetric(s: LineString, t: LineString)
    ensures
        s.spec_intersects(&t) == t.spec_intersects(&s),
{
    assert forall|a: Line, b: Line| #[trigger] segments_cross(a, b) == segments_cross(b, a) by {
        lemma_segments_cross_symmetric(a, b);
    }
    if paths_cross(s@, t@) {
        let (i, j) = choose|i: int, j: int|
            0 <= i < seg_count(s@.len() as int) && 0 <= j < seg_count(t@.len() as int)
                && #[trigger] segments_cross(seg(s@, i), seg(t@, j));
        assert(segments_cross(seg(t@, j), seg(s@, i)));
    }
    if paths_cross(t@, s@) {
        let (j, i) = choose|j: int, i: int|
            0 <= j < seg_count(t@.len() as int) && 0 <= i < seg_count(s@.len() as int)
                && #[trigger] segments_cross(seg(t@, j), seg(s@, i));
        assert(segments_cross(seg(s@, i), seg(t@, j)));
    }
}

/// A polygon meets a path exactly when the path meets the polygon.
pub proof fn lemma_polygon_linestring_symmetric(p: Polygon, s: LineString)
    ensures
        p.spec_intersects(&s) == s.spec_intersects(&p),
{
}

/// A box meets a polygon exactly when the polygon meets the box.
pub proof fn lemma_bbox_polygon_symmetric(b: Bbox, p: Polygon)
    ensures
        b.spec_intersects(&p) == p.spec_intersects(&b),
{
}

/// A box is well formed when its bounds are ordered on both axes.
pub open spec fn bbox_normal(b: Bbox) -> bool {
    b.xmin <= b.xmax && b.ymin <= b.ymax
}

/// Boxes meet in either order.
pub proof fn lemma_bbox_bbox_symmetric(a: Bbox, b: Bbox)
    ensures
        a.spec_intersects(&b) == b.spec_intersects(&a),
{
}

/// A box that holds another (edges included) meets it in neither order.
pub proof fn lemma_bbox_containment_excludes(outer: Bbox, inner: Bbox)
    requires
        bbox_contains(outer, inner),
    ensures
        !outer.spec_intersects(&inner),
        !inner.spec_intersects(&outer),
{
}

/// Boxes whose ranges are apart along some axis meet in neither order.
pub proof fn lemma_bbox_apart(a: Bbox, b: Bbox)
    requires
        bbox_normal(a),
        bbox_normal(b),
        a.xmax < b.xmin || b.xmax < a.xmin || a.ymax < b.ymin || b.ymax < a.ymin,
    ensures
        !a.spec_intersects(&b),
        !b.spec_intersects(&a),
{
}

/// Partly overlapping boxes (their ranges overlap on both axes, and neither
/// holds the other) meet in both orders.
pub proof fn lemma_bbox_partial_overlap(a: Bbox, b: Bbox)
    requires
        bbox_normal(a),
        bbox_normal(b),
        a.xmin <= b.xmax && b.xmin <= a.xmax,
        a.ymin <= b.ymax && b.ymin <= a.ymax,
        !bbox_contains(a, b),
        !bbox_contains(b, a),
    ensures
        a.spec_intersects(&b),
        b.spec_intersects(&a),
{
}

/// An empty path meets no segment, path or polygon, in either order.
pub proof fn lemma_empty_linestring_meets_nothing(e: LineString, l: Line, s: LineString, p: Polygon)
    requires
        e@.len() == 0,
    ensures
        !e.spec_intersects(&l),
        !l.spec_intersects(&e),
        !e.spec_intersects(&s),
        !s.spec_intersects(&e),
        !e.spec_intersects(&p),
        !p.spec_intersects(&e),
{
}

} // verus!

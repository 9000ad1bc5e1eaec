//! Ramer-Douglas-Peucker simplification of paths, and of the rings of
//! polygons. Distances are compared squared and scaled to integers, so the
//! choice of the farthest point and the comparison with epsilon are exact.
use vstd::prelude::*;
use crate::types::{cross, Coordinate, LineString, MultiLineString, MultiPolygon, Point, Polygon};

verus! {

/// Coordinates that simplification accepts lie within this bound, so that
/// every squared distance it compares fits in 128 bits.
pub const COORD_BOUND: i32 = 0x4000_0000;

pub open spec fn coord_in_bounds(c: Coordinate) -> bool {
    -COORD_BOUND <= c.x <= COORD_BOUND && -COORD_BOUND <= c.y <= COORD_BOUND
}

pub open spec fn path_in_bounds(pts: Seq<Coordinate>) -> bool {
    forall|i: int| 0 <= i < pts.len() ==> coord_in_bounds(#[trigger] pts[i])
}

/// Squared Euclidean distance between two positions.
pub open spec fn dist_sq(a: Coordinate, b: Coordinate) -> int {
    (a.x - b.x) * (a.x - b.x) + (a.y - b.y) * (a.y - b.y)
}

/// The factor by which `scaled_dist_sq` scales squared distances to the
/// segment `[s, e]`: its squared length, or 1 for a degenerate segment.
pub open spec fn scale(s: Coordinate, e: Coordinate) -> int {
    if dist_sq(e, s) == 0 {
        1
    } else {
        dist_sq(e, s)
    }
}

/// The squared distance from `p` to the closest point of the segment
/// `[s, e]`, times `scale(s, e)`: the distance to an endpoint where the
/// perpendicular foot falls outside the segment, the perpendicular distance
/// otherwise.
pub open spec fn scaled_dist_sq(p: Coordinate, s: Coordinate, e: Coordinate) -> int {
    let l = dist_sq(e, s);
    let dot = (p.x - s.x) * (e.x - s.x) + (p.y - s.y) * (e.y - s.y);
    if l == 0 {
        dist_sq(p, s)
    } else if dot <= 0 {
        dist_sq(p, s) * l
    } else if dot >= l {
        dist_sq(p, e) * l
    } else {
        cross(s, e, p) * cross(s, e, p)
    }
}

/// The distance from vertex `i` to the segment joining the path's ends,
/// scaled as in `scaled_dist_sq`.
pub open spec fn key(pts: Seq<Coordinate>, i: int) -> int {
    scaled_dist_sq(pts[i], pts[0], pts[pts.len() - 1])
}

/// Among vertices `1 .. n - 1`, the first one farthest from the segment
/// joining the path's ends; 0 when none lies off it.
pub open spec fn farthest(pts: Seq<Coordinate>, n: int) -> int
    decreases n,
{
    if n <= 1 {
        0
    } else {
        let k = farthest(pts, n - 1);
        if key(pts, n - 1) > key(pts, k) {
            n - 1
        } else {
            k
        }
    }
}

/// The distance of a vertex to the segment joining the path's ends is
/// greater than `eps`.
pub open spec fn beyond(pts: Seq<Coordinate>, i: int, eps: int) -> bool {
    key(pts, i) > eps * eps * scale(pts[0], pts[pts.len() - 1])
}

/// Ramer-Douglas-Peucker. A path of at most two vertices stays as it is.
/// Otherwise, where the farthest interior vertex lies more than `eps` from
/// the segment joining the ends, the path is split there, both halves are
/// simplified, and the results are joined at the shared vertex; else only
/// the two ends remain.
pub open spec fn rdp_path(pts: Seq<Coordinate>, eps: int) -> Seq<Coordinate>
    decreases pts.len(),
{
    if pts.len() <= 2 {
        pts
    } else {
        let k = farthest(pts, pts.len() - 1);
        if 0 < k < pts.len() - 1 && beyond(pts, k, eps) {
            rdp_path(pts.subrange(0, k + 1), eps).drop_last() + rdp_path(pts.subrange(k, pts.len() as int), eps)
        } else {
            seq![pts[0], pts[pts.len() - 1]]
        }
    }
}

/// The positions of a sequence of points.
pub open spec fn coords(pts: Seq<Point>) -> Seq<Coordinate> {
    pts.map_values(|p: Point| p.0)
}

proof fn lemma_sum_sq_bound(a: int, b: int)
    requires
        -0x8000_0000 <= a <= 0x8000_0000,
        -0x8000_0000 <= b <= 0x8000_0000,
    ensures
        0 <= a * a <= 0x4000_0000_0000_0000,
        0 <= b * b <= 0x4000_0000_0000_0000,
        0 <= a * a + b * b <= 0x8000_0000_0000_0000,
{
    assert(0 <= a * a <= 0x4000_0000_0000_0000) by (nonlinear_arith)
        requires
            -0x8000_0000 <= a <= 0x8000_0000,
    ;
    assert(0 <= b * b <= 0x4000_0000_0000_0000) by (nonlinear_arith)
        requires
            -0x8000_0000 <= b <= 0x8000_0000,
    ;
}

proof fn lemma_wide_product_bound(a: int, b: int)
    requires
        0 <= a <= 0x8000_0000_0000_0000,
        0 <= b <= 0x8000_0000_0000_0000,
    ensures
        0 <= a * b <= 0x4000_0000_0000_0000_0000_0000_0000_0000,
{
    assert(0 <= a * b <= 0x4000_0000_0000_0000_0000_0000_0000_0000) by (nonlinear_arith)
        requires
            0 <= a <= 0x8000_0000_0000_0000,
            0 <= b <= 0x8000_0000_0000_0000,
    ;
}

proof fn lemma_cross_bound(a: int, b: int, c: int, d: int)
    requires
        -0x8000_0000 <= a <= 0x8000_0000,
        -0x8000_0000 <= b <= 0x8000_0000,
        -0x8000_0000 <= c <= 0x8000_0000,
        -0x8000_0000 <= d <= 0x8000_0000,
    ensures
        -0x4000_0000_0000_0000 <= a * b <= 0x4000_0000_0000_0000,
        -0x4000_0000_0000_0000 <= c * d <= 0x4000_0000_0000_0000,
        -0x8000_0000_0000_0000 <= a * b - c * d <= 0x8000_0000_0000_0000,
        0 <= (a * b - c * d) * (a * b - c * d) <= 0x4000_0000_0000_0000_0000_0000_0000_0000,
{
    assert(-0x4000_0000_0000_0000 <= a * b <= 0x4000_0000_0000_0000) by (nonlinear_arith)
        requires
            -0x8000_0000 <= a <= 0x8000_0000,
            -0x8000_0000 <= b <= 0x8000_0000,
    ;
    assert(-0x4000_0000_0000_0000 <= c * d <= 0x4000_0000_0000_0000) by (nonlinear_arith)
        requires
            -0x8000_0000 <= c <= 0x8000_0000,
            -0x8000_0000 <= d <= 0x8000_0000,
    ;
    let x = a * b - c * d;
    assert(0 <= x * x <= 0x4000_0000_0000_0000_0000_0000_0000_0000) by (nonlinear_arith)
        requires
            -0x8000_0000_0000_0000 <= x <= 0x8000_0000_0000_0000,
    ;
}

/// `scaled_dist_sq`, computed exactly.
fn scaled_distance(p: Coordinate, s: Coordinate, e: Coordinate) -> (r: i128)
    requires
        coord_in_bounds(p),
        coord_in_bounds(s),
        coord_in_bounds(e),
    ensures
        r == scaled_dist_sq(p, s, e),
        0 <= r,
{
    let ex = e.x as i128 - s.x as i128;
    let ey = e.y as i128 - s.y as i128;
    let px = p.x as i128 - s.x as i128;
    let py = p.y as i128 - s.y as i128;
    let qx = p.x as i128 - e.x as i128;
    let qy = p.y as i128 - e.y as i128;
    proof {
        lemma_sum_sq_bound(ex as int, ey as int);
        lemma_sum_sq_bound(px as int, py as int);
        lemma_sum_sq_bound(qx as int, qy as int);
        lemma_sum_sq_bound(px as int, ex as int);
        lemma_sum_sq_bound(py as int, ey as int);
        assert(-0x4000_0000_0000_0000 <= px * ex <= 0x4000_0000_0000_0000) by (nonlinear_arith)
            requires
                -0x8000_0000 <= px <= 0x8000_0000,
                -0x8000_0000 <= ex <= 0x8000_0000,
        ;
        assert(-0x4000_0000_0000_0000 <= py * ey <= 0x4000_0000_0000_0000) by (nonlinear_arith)
            requires
                -0x8000_0000 <= py <= 0x8000_0000,
                -0x8000_0000 <= ey <= 0x8000_0000,
        ;
    }
    let l = ex * ex + ey * ey;
    let dot = px * ex + py * ey;
    let ds = px * px + py * py;
    if l == 0 {
        ds
    } else if dot <= 0 {
        proof {
            lemma_wide_product_bound(ds as int, l as int);
        }
        ds * l
    } else if dot >= l {
        let de = qx * qx + qy * qy;
        proof {
            lemma_wide_product_bound(de as int, l as int);
        }
        de * l
    } else {
        proof {
            lemma_cross_bound(ex as int, py as int, ey as int, px as int);
        }
        let c = ex * py - ey * px;
        c * c
    }
}

/// The first vertex lies at distance zero from a segment that starts there.
proof fn lemma_key_first(pts: Seq<Coordinate>)
    requires
        pts.len() > 0,
    ensures
        key(pts, 0) == 0,
{
    let s = pts[0];
    assert(dist_sq(s, s) == 0);
    assert((s.x - s.x) * (pts[pts.len() - 1].x - s.x) + (s.y - s.y) * (pts[pts.len() - 1].y - s.y) == 0);
}

proof fn lemma_eps_threshold_bound(eps: int, sc: int)
    requires
        0 <= eps <= 0x8000_0000,
        1 <= sc <= 0x8000_0000_0000_0000,
    ensures
        0 <= eps * eps <= 0x4000_0000_0000_0000,
        0 <= eps * eps * sc <= 0x4000_0000_0000_0000_0000_0000_0000_0000,
{
    assert(0 <= eps * eps <= 0x4000_0000_0000_0000) by (nonlinear_arith)
        requires
            0 <= eps <= 0x8000_0000,
    ;
    lemma_wide_product_bound(eps * eps, sc);
}

/// Simplification keeps the first and the last vertex, never lengthens a
/// path, and leaves at least two vertices of a path that had two.
pub proof fn lemma_rdp_shape(pts: Seq<Coordinate>, eps: int)
    ensures
        rdp_path(pts, eps).len() <= pts.len(),
        pts.len() >= 2 ==> rdp_path(pts, eps).len() >= 2,
        pts.len() >= 1 ==> rdp_path(pts, eps).len() >= 1 && rdp_path(pts, eps)[0] == pts[0]
            && rdp_path(pts, eps)[rdp_path(pts, eps).len() - 1] == pts[pts.len() - 1],
    decreases pts.len(),
{
    if pts.len() > 2 {
        let k = farthest(pts, pts.len() - 1);
        if 0 < k < pts.len() - 1 && beyond(pts, k, eps) {
            let pre = pts.subrange(0, k + 1);
            let suf = pts.subrange(k, pts.len() as int);
            lemma_rdp_shape(pre, eps);
            lemma_rdp_shape(suf, eps);
            let a = rdp_path(pre, eps);
            let b = rdp_path(suf, eps);
            assert(rdp_path(pts, eps) == a.drop_last() + b);
            assert((a.drop_last() + b)[0] == a[0]);
        }
    }
}

/// A larger epsilon never keeps more vertices.
pub proof fn lemma_rdp_monotone(pts: Seq<Coordinate>, e1: int, e2: int)
    requires
        0 <= e1 <= e2,
    ensures
        rdp_path(pts, e2).len() <= rdp_path(pts, e1).len(),
    decreases pts.len(),
{
    if pts.len() > 2 {
        let k = farthest(pts, pts.len() - 1);
        let s = pts[0];
        let e = pts[pts.len() - 1];
        let sc = scale(s, e);
        assert(sc >= 1) by {
            assert((e.x - s.x) * (e.x - s.x) >= 0) by (nonlinear_arith);
            assert((e.y - s.y) * (e.y - s.y) >= 0) by (nonlinear_arith);
        }
        assert(e1 * e1 * sc <= e2 * e2 * sc) by (nonlinear_arith)
            requires
                0 <= e1 <= e2,
                sc >= 1,
        ;
        if 0 < k < pts.len() - 1 && beyond(pts, k, e2) {
            let pre = pts.subrange(0, k + 1);
            let suf = pts.subrange(k, pts.len() as int);
            assert(beyond(pts, k, e1));
            lemma_rdp_monotone(pre, e1, e2);
            lemma_rdp_monotone(suf, e1, e2);
            lemma_rdp_shape(pre, e1);
            lemma_rdp_shape(pre, e2);
            assert(rdp_path(pts, e1) == rdp_path(pre, e1).drop_last() + rdp_path(suf, e1));
            assert(rdp_path(pts, e2) == rdp_path(pre, e2).drop_last() + rdp_path(suf, e2));
        } else if 0 < k < pts.len() - 1 && beyond(pts, k, e1) {
            let pre = pts.subrange(0, k + 1);
            let suf = pts.subrange(k, pts.len() as int);
            lemma_rdp_shape(pre, e1);
            lemma_rdp_shape(suf, e1);
            assert(rdp_path(pts, e1) == rdp_path(pre, e1).drop_last() + rdp_path(suf, e1));
        }
    }
}

/// `rdp_path` of the vertices `lo ..= hi` of `pts`.
fn rdp_range(pts: &Vec<Coordinate>, lo: usize, hi: usize, epsilon: i32) -> (r: Vec<Coordinate>)
    requires
        lo <= hi < pts@.len(),
        path_in_bounds(pts@),
        0 <= epsilon,
    ensures
        r@ == rdp_path(pts@.subrange(lo as int, hi + 1), epsilon as int),
    decreases hi - lo,
{
    let ghost sub = pts@.subrange(lo as int, hi + 1);
    let len = pts.len();
    let n = hi - lo + 1;
    if n <= 2 {
        let mut v: Vec<Coordinate> = Vec::new();
        let mut i: usize = lo;
        while i <= hi
            invariant
                lo <= i <= hi + 1,
                hi < pts@.len(),
                len == pts@.len(),
                v@ == pts@.subrange(lo as int, i as int),
            decreases hi + 1 - i,
        {
            v.push(pts[i]);
            i = i + 1;
            assert(v@ =~= pts@.subrange(lo as int, i as int));
        }
        return v;
    }
    let s = pts[lo];
    let e = pts[hi];
    assert(sub[0] == s && sub[sub.len() - 1] == e);
    proof {
        lemma_key_first(sub);
    }
    let mut dmax: i128 = 0;
    let mut index: usize = 0;
    let mut i: usize = 1;
    while i + 1 < n
        invariant
            n == sub.len(),
            2 < n,
            lo <= hi < pts@.len(),
            n == hi - lo + 1,
            sub == pts@.subrange(lo as int, hi + 1),
            s == sub[0],
            e == sub[n - 1],
            path_in_bounds(pts@),
            1 <= i < n,
            index < i,
            index as int == farthest(sub, i as int),
            dmax as int == key(sub, index as int),
        decreases n - i,
    {
        assert(pts@[lo + i] == sub[i as int]);
        assert(coord_in_bounds(pts@[lo as int]) && coord_in_bounds(pts@[hi as int]) && coord_in_bounds(pts@[lo + i]));
        let d = scaled_distance(pts[lo + i], s, e);
        if d > dmax {
            index = i;
            dmax = d;
        }
        i = i + 1;
    }
    assert(coord_in_bounds(pts@[lo as int]) && coord_in_bounds(pts@[hi as int]));
    let ex = e.x as i128 - s.x as i128;
    let ey = e.y as i128 - s.y as i128;
    proof {
        lemma_sum_sq_bound(ex as int, ey as int);
    }
    let l = ex * ex + ey * ey;
    let sc: i128 = if l == 0 {
        1
    } else {
        l
    };
    proof {
        lemma_eps_threshold_bound(epsilon as int, sc as int);
    }
    let threshold = (epsilon as i128) * (epsilon as i128) * sc;
    assert(sc == scale(sub[0], sub[n - 1]));
    assert(index == farthest(sub, sub.len() - 1));
    if dmax > threshold {
        assert(index > 0);
        assert(beyond(sub, index as int, epsilon as int));
        let mut left = rdp_range(pts, lo, lo + index, epsilon);
        let ghost left_full = left@;
        proof {
            lemma_rdp_shape(pts@.subrange(lo as int, lo + index + 1), epsilon as int);
        }
        left.pop();
        let mut right = rdp_range(pts, lo + index, hi, epsilon);
        assert(sub.subrange(0, index + 1) =~= pts@.subrange(lo as int, lo + index + 1));
        assert(sub.subrange(index as int, sub.len() as int) =~= pts@.subrange(lo + index, hi + 1));
        assert(left@ =~= left_full.drop_last());
        let ghost right_full = right@;
        left.append(&mut right);
        assert(left@ =~= left_full.drop_last() + right_full);
        left
    } else {
        let v = vec![s, e];
        assert(v@ =~= seq![sub[0], sub[n - 1]]);
        v
    }
}

/// Ramer-Douglas-Peucker simplification of an open path of points: the
/// result holds the first and the last point, and between them the points
/// that lie farther than `epsilon` from the simplified neighbouring segment.
pub fn rdp(points: &[Point], epsilon: &i32) -> (r: Vec<Point>)
    requires
        path_in_bounds(coords(points@)),
        points@.len() > 0 ==> 0 <= *epsilon,
    ensures
        coords(r@) == rdp_path(coords(points@), *epsilon as int),
        r@.len() <= points@.len(),
        points@.len() > 0 ==> r@.len() > 0 && r@[0] == points@[0] && r@[r@.len() - 1] == points@[points@.len() - 1],
{
    let ghost input = coords(points@);
    if points.len() == 0 {
        let v: Vec<Point> = Vec::new();
        assert(coords(v@) =~= input);
        return v;
    }
    let mut pts: Vec<Coordinate> = Vec::new();
    let mut i: usize = 0;
    while i < points.len()
        invariant
            i <= points@.len(),
            pts@ == coords(points@).subrange(0, i as int),
        decreases points@.len() - i,
    {
        pts.push(points[i].0);
        i = i + 1;
        assert(pts@ =~= coords(points@).subrange(0, i as int));
    }
    assert(pts@ =~= input);
    let simplified = rdp_range(&pts, 0, pts.len() - 1, *epsilon);
    assert(pts@.subrange(0, pts@.len() as int) =~= input);
    proof {
        lemma_rdp_shape(input, *epsilon as int);
    }
    let mut out: Vec<Point> = Vec::new();
    let mut j: usize = 0;
    while j < simplified.len()
        invariant
            j <= simplified@.len(),
            simplified@ == rdp_path(input, *epsilon as int),
            out@.len() == j,
            forall|t: int| 0 <= t < j ==> out@[t].0 == simplified@[t],
        decreases simplified@.len() - j,
    {
        out.push(Point(simplified[j]));
        j = j + 1;
    }
    assert(coords(out@) =~= simplified@);
    out
}

/// The rings of a polygon (exterior, holes), each simplified on its own.
pub open spec fn area_simplified(
    a: (Seq<Coordinate>, Seq<Seq<Coordinate>>),
    eps: int,
) -> (Seq<Coordinate>, Seq<Seq<Coordinate>>) {
    (rdp_path(a.0, eps), a.1.map_values(|h: Seq<Coordinate>| rdp_path(h, eps)))
}

pub open spec fn area_in_bounds(a: (Seq<Coordinate>, Seq<Seq<Coordinate>>)) -> bool {
    path_in_bounds(a.0) && forall|k: int| 0 <= k < a.1.len() ==> path_in_bounds(#[trigger] a.1[k])
}

/// Ramer-Douglas-Peucker simplification of a geometry: each of its paths is
/// simplified on its own, with no regard to the others, so the result may
/// cross itself.
pub trait Simplify: Sized {
    /// Every coordinate lies within `COORD_BOUND`.
    spec fn within_bounds(&self) -> bool;

    fn simplify(&self, epsilon: &i32) -> Self
        requires
            self.within_bounds(),
            0 <= *epsilon,
    ;
}

fn simplify_path(path: &LineString, epsilon: i32) -> (r: LineString)
    requires
        path_in_bounds(path@),
        0 <= epsilon,
    ensures
        r@ == rdp_path(path@, epsilon as int),
{
    if path.0.len() == 0 {
        let r = LineString(Vec::new());
        assert(r@ =~= path@);
        return r;
    }
    let v = rdp_range(&path.0, 0, path.0.len() - 1, epsilon);
    assert(path@.subrange(0, path@.len() as int) =~= path@);
    LineString(v)
}

fn simplify_rings(rings: &Vec<LineString>, epsilon: i32) -> (r: Vec<LineString>)
    requires
        forall|k: int| 0 <= k < rings@.len() ==> path_in_bounds(#[trigger] rings@[k]@),
        0 <= epsilon,
    ensures
        r@.map_values(|l: LineString| l@) == rings@.map_values(|l: LineString| l@).map_values(
            |h: Seq<Coordinate>| rdp_path(h, epsilon as int),
        ),
{
    let mut out: Vec<LineString> = Vec::new();
    let mut k: usize = 0;
    while k < rings.len()
        invariant
            k <= rings@.len(),
            forall|j: int| 0 <= j < rings@.len() ==> path_in_bounds(#[trigger] rings@[j]@),
            0 <= epsilon,
            out@.len() == k,
            forall|j: int| 0 <= j < k ==> (#[trigger] out@[j])@ == rdp_path(rings@[j]@, epsilon as int),
        decreases rings@.len() - k,
    {
        out.push(simplify_path(&rings[k], epsilon));
        k = k + 1;
    }
    assert(out@.map_values(|l: LineString| l@) =~= rings@.map_values(|l: LineString| l@).map_values(
        |h: Seq<Coordinate>| rdp_path(h, epsilon as int),
    ));
    out
}

impl Simplify for LineString {
    open spec fn within_bounds(&self) -> bool {
        path_in_bounds(self@)
    }

    fn simplify(&self, epsilon: &i32) -> (r: LineString)
        ensures
            r@ == rdp_path(self@, *epsilon as int),
    {
        simplify_path(self, *epsilon)
    }
}

impl Simplify for MultiLineString {
    open spec fn within_bounds(&self) -> bool {
        forall|k: int| 0 <= k < self@.len() ==> path_in_bounds(#[trigger] self@[k])
    }

    fn simplify(&self, epsilon: &i32) -> (r: MultiLineString)
        ensures
            r@ == self@.map_values(|l: Seq<Coordinate>| rdp_path(l, *epsilon as int)),
    {
        assert forall|k: int| 0 <= k < self.0@.len() implies path_in_bounds(#[trigger] self.0@[k]@) by {
            assert(self@[k] == self.0@[k]@);
        }
        MultiLineString(simplify_rings(&self.0, *epsilon))
    }
}

impl Simplify for Polygon {
    open spec fn within_bounds(&self) -> bool {
        area_in_bounds(self@)
    }

    fn simplify(&self, epsilon: &i32) -> (r: Polygon)
        ensures
            r@ == area_simplified(self@, *epsilon as int),
    {
        assert forall|k: int| 0 <= k < self.interiors@.len() implies path_in_bounds(
            #[trigger] self.interiors@[k]@,
        ) by {
            assert(self@.1[k] == self.interiors@[k]@);
        }
        Polygon::new(simplify_path(&self.exterior, *epsilon), simplify_rings(&self.interiors, *epsilon))
    }
}

impl Simplify for MultiPolygon {
    open spec fn within_bounds(&self) -> bool {
        forall|k: int| 0 <= k < self@.len() ==> area_in_bounds(#[trigger] self@[k])
    }

    fn simplify(&self, epsilon: &i32) -> (r: MultiPolygon)
        ensures
            r@ == self@.map_values(|a: (Seq<Coordinate>, Seq<Seq<Coordinate>>)| area_simplified(a, *epsilon as int)),
    {
        let mut out: Vec<Polygon> = Vec::new();
        let mut k: usize = 0;
        while k < self.0.len()
            invariant
                k <= self@.len(),
                self.within_bounds(),
                0 <= *epsilon,
                out@.len() == k,
                forall|j: int|
                    0 <= j < k ==> (#[trigger] out@[j])@ == area_simplified(self@[j], *epsilon as int),
            decreases self@.len() - k,
        {
            assert(self@[k as int] == self.0@[k as int]@);
            out.push(self.0[k].simplify(epsilon));
            k = k + 1;
        }
        let r = MultiPolygon(out);
        assert(r@ =~= self@.map_values(
            |a: (Seq<Coordinate>, Seq<Seq<Coordinate>>)| area_simplified(a, *epsilon as int),
        ));
        r
    }
}

} // verus!

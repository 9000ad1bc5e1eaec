//! Containment: a point strictly inside a polygon (by the parity of ray
//! crossings, with holes excluded), and one box inside another.
use vstd::prelude::*;
use crate::intersects::{line_meets_point, Intersects};
use crate::types::{lemma_diff_product_bound, seg, seg_count, Bbox, Coordinate, Line, LineString, Point, Polygon};

verus! {

/// The point is a vertex of the path or lies on one of its segments.
pub open spec fn on_path(p: Coordinate, path: Seq<Coordinate>) -> bool {
    (exists|i: int| 0 <= i < path.len() && path[i] == p) || (exists|i: int|
        0 <= i < seg_count(path.len() as int) && #[trigger] line_meets_point(seg(path, i), p))
}

/// The horizontal ray from `p` towards increasing x crosses the edge: the
/// edge straddles the ray's height (one end above, the other not) and meets
/// that height to the right of `p`.
pub open spec fn ray_crosses(p: Coordinate, e: Line) -> bool {
    let a = e.start;
    let b = e.end;
    let lhs = (p.x - a.x) * (b.y - a.y);
    let rhs = (p.y - a.y) * (b.x - a.x);
    ((a.y > p.y) != (b.y > p.y)) && if b.y > a.y {
        lhs < rhs
    } else {
        lhs > rhs
    }
}

/// How many of the first `n` segments of the ring the ray from `p` crosses.
pub open spec fn crossings(p: Coordinate, ring: Seq<Coordinate>, n: int) -> nat
    decreases n,
{
    if n <= 0 {
        0
    } else {
        crossings(p, ring, n - 1) + if ray_crosses(p, seg(ring, n - 1)) {
            1nat
        } else {
            0nat
        }
    }
}

/// Where a point lies with respect to a closed ring.
#[derive(Clone, Copy, Debug, PartialEq, Eq, Structural)]
pub enum PositionPoint {
    OnBoundary,
    Inside,
    Outside,
}

pub open spec fn position(p: Coordinate, ring: Seq<Coordinate>) -> PositionPoint {
    if on_path(p, ring) {
        PositionPoint::OnBoundary
    } else if crossings(p, ring, seg_count(ring.len() as int)) % 2 == 1 {
        PositionPoint::Inside
    } else {
        PositionPoint::Outside
    }
}

/// Strictly inside the exterior ring and strictly outside every hole.
pub open spec fn area_contains(exterior: Seq<Coordinate>, holes: Seq<Seq<Coordinate>>, p: Coordinate) -> bool {
    &&& position(p, exterior) == PositionPoint::Inside
    &&& forall|k: int| 0 <= k < holes.len() ==> position(p, #[trigger] holes[k]) == PositionPoint::Outside
}

/// Box `a` holds box `b`, edges included.
pub open spec fn bbox_contains(a: Bbox, b: Bbox) -> bool {
    a.xmin <= b.xmin && a.xmax >= b.xmax && a.ymin <= b.ymin && a.ymax >= b.ymax
}

fn is_on_path(p: &Point, path: &LineString) -> (r: bool)
    ensures
        r == on_path(p.0, path@),
{
    let n = path.0.len();
    let mut i: usize = 0;
    while i < n
        invariant
            n == path@.len(),
            i <= n,
            forall|j: int| 0 <= j < i ==> path@[j] != p.0,
        decreases n - i,
    {
        if path.0[i] == p.0 {
            return true;
        }
        i = i + 1;
    }
    let mut i: usize = 0;
    while i + 1 < n
        invariant
            n == path@.len(),
            !(exists|j: int| 0 <= j < path@.len() && path@[j] == p.0),
            i <= seg_count(n as int),
            forall|j: int| 0 <= j < i ==> !line_meets_point(#[trigger] seg(path@, j), p.0),
        decreases n - i,
    {
        let edge = Line { start: path.0[i], end: path.0[i + 1] };
        if edge.intersects(p) {
            assert(edge == seg(path@, i as int));
            return true;
        }
        i = i + 1;
    }
    false
}

fn crosses_ray(p: &Point, a: Coordinate, b: Coordinate) -> (r: bool)
    ensures
        r == ray_crosses(p.0, Line { start: a, end: b }),
{
    if (a.y > p.0.y) == (b.y > p.0.y) {
        return false;
    }
    let px = p.0.x as i128 - a.x as i128;
    let py = p.0.y as i128 - a.y as i128;
    let ex = b.x as i128 - a.x as i128;
    let ey = b.y as i128 - a.y as i128;
    proof {
        lemma_diff_product_bound(px as int, ey as int);
        lemma_diff_product_bound(py as int, ex as int);
    }
    let lhs = px * ey;
    let rhs = py * ex;
    if b.y > a.y {
        lhs < rhs
    } else {
        lhs > rhs
    }
}

/// Where `p` lies with respect to the closed ring `ring`.
pub fn get_position(p: &Point, ring: &LineString) -> (r: PositionPoint)
    ensures
        r == position(p.0, ring@),
{
    if is_on_path(p, ring) {
        return PositionPoint::OnBoundary;
    }
    let n = ring.0.len();
    let mut count: usize = 0;
    let mut i: usize = 0;
    while i + 1 < n
        invariant
            n == ring@.len(),
            i <= seg_count(n as int),
            count == crossings(p.0, ring@, i as int),
            count <= i,
        decreases n - i,
    {
        if crosses_ray(p, ring.0[i], ring.0[i + 1]) {
            count = count + 1;
        }
        i = i + 1;
    }
    if count % 2 == 1 {
        PositionPoint::Inside
    } else {
        PositionPoint::Outside
    }
}

impl Polygon {
    /// The point lies strictly inside the exterior ring and strictly outside
    /// every interior ring.
    pub fn contains(&self, p: &Point) -> (r: bool)
        ensures
            r == area_contains(self@.0, self@.1, p.0),
    {
        if get_position(p, &self.exterior) != PositionPoint::Inside {
            return false;
        }
        let mut k: usize = 0;
        while k < self.interiors.len()
            invariant
                k <= self@.1.len(),
                forall|j: int| 0 <= j < k ==> position(p.0, #[trigger] self@.1[j]) == PositionPoint::Outside,
            decreases self@.1.len() - k,
        {
            assert(self@.1[k as int] == self.interiors@[k as int]@);
            if get_position(p, &self.interiors[k]) != PositionPoint::Outside {
                return false;
            }
            k = k + 1;
        }
        true
    }
}

impl Bbox {
    /// `other` lies within this box, edges included.
    pub fn contains(&self, other: &Bbox) -> (r: bool)
        ensures
            r == bbox_contains(*self, *other),
    {
        self.xmin <= other.xmin && self.xmax >= other.xmax && self.ymin <= other.ymin && self.ymax
            >= other.ymax
    }
}

} // verus!

//! The geometric value types and the integer models that the contracts use.
use vstd::prelude::*;

verus! {

/// A position on the grid.
#[derive(Clone, Copy, Debug, PartialEq, Eq, Structural)]
pub struct Coordinate {
    pub x: i32,
    pub y: i32,
}

/// A single point.
#[derive(Clone, Copy, Debug, PartialEq, Eq, Structural)]
pub struct Point(pub Coordinate);

impl Point {
    pub fn new(x: i32, y: i32) -> (r: Point)
        ensures
            r.0.x == x,
            r.0.y == y,
    {
        Point(Coordinate { x, y })
    }

    pub fn x(&self) -> (r: i32)
        ensures
            r == self.0.x,
    {
        self.0.x
    }

    pub fn set_x(&mut self, x: i32) -> (r: &mut Point)
        ensures
            r.0.x == x,
            r.0.y == old(self).0.y,
            *final(self) == *final(r),
    {
        self.0.x = x;
        self
    }

    pub fn y(&self) -> (r: i32)
        ensures
            r == self.0.y,
    {
        self.0.y
    }

    pub fn set_y(&mut self, y: i32) -> (r: &mut Point)
        ensures
            r.0.x == old(self).0.x,
            r.0.y == y,
            *final(self) == *final(r),
    {
        self.0.y = y;
        self
    }

    /// The longitude, for points in geographic coordinates: the x component.
    pub fn lng(self) -> (r: i32)
        ensures
            r == self.0.x,
    {
        self.x()
    }

    pub fn set_lng(&mut self, lng: i32) -> (r: &mut Point)
        ensures
            r.0.x == lng,
            r.0.y == old(self).0.y,
            *final(self) == *final(r),
    {
        self.set_x(lng)
    }

    /// The latitude, for points in geographic coordinates: the y component.
    pub fn lat(self) -> (r: i32)
        ensures
            r == self.0.y,
    {
        self.y()
    }

    pub fn set_lat(&mut self, lat: i32) -> (r: &mut Point)
        ensures
            r.0.x == old(self).0.x,
            r.0.y == lat,
            *final(self) == *final(r),
    {
        self.set_y(lat)
    }

    /// The dot product of the two position vectors.
    pub fn dot(self, point: Point) -> (r: i128)
        ensures
            r == self.0.x * point.0.x + self.0.y * point.0.y,
    {
        proof {
            lemma_product_bound(self.0.x as int, point.0.x as int);
            lemma_product_bound(self.0.y as int, point.0.y as int);
        }
        (self.0.x as i128) * (point.0.x as i128) + (self.0.y as i128) * (point.0.y as i128)
    }

    /// The cross product of `point_b - self` and `point_c - self`: positive when
    /// `self`, `point_b`, `point_c` turn counter-clockwise, negative when they
    /// turn clockwise, zero when they are collinear.
    pub fn cross_prod(self, point_b: Point, point_c: Point) -> (r: i128)
        ensures
            r == cross(self.0, point_b.0, point_c.0),
    {
        let bx = point_b.0.x as i64 - self.0.x as i64;
        let by = point_b.0.y as i64 - self.0.y as i64;
        let cx = point_c.0.x as i64 - self.0.x as i64;
        let cy = point_c.0.y as i64 - self.0.y as i64;
        proof {
            lemma_diff_product_bound(bx as int, cy as int);
            lemma_diff_product_bound(by as int, cx as int);
        }
        (bx as i128) * (cy as i128) - (by as i128) * (cx as i128)
    }

    /// The point reflected through the origin.
    pub fn neg(self) -> (r: Point)
        requires
            self.0.x > i32::MIN,
            self.0.y > i32::MIN,
        ensures
            r.0.x == -self.0.x,
            r.0.y == -self.0.y,
    {
        Point::new(-self.0.x, -self.0.y)
    }

    /// Component-wise sum.
    pub fn add(self, rhs: Point) -> (r: Point)
        requires
            i32::MIN <= self.0.x + rhs.0.x <= i32::MAX,
            i32::MIN <= self.0.y + rhs.0.y <= i32::MAX,
        ensures
            r.0.x == self.0.x + rhs.0.x,
            r.0.y == self.0.y + rhs.0.y,
    {
        Point::new(self.0.x + rhs.0.x, self.0.y + rhs.0.y)
    }

    /// Component-wise difference.
    pub fn sub(self, rhs: Point) -> (r: Point)
        requires
            i32::MIN <= self.0.x - rhs.0.x <= i32::MAX,
            i32::MIN <= self.0.y - rhs.0.y <= i32::MAX,
        ensures
            r.0.x == self.0.x - rhs.0.x,
            r.0.y == self.0.y - rhs.0.y,
    {
        Point::new(self.0.x - rhs.0.x, self.0.y - rhs.0.y)
    }

    /// The number of components of a point.
    pub fn dimensions() -> (r: usize)
        ensures
            r == 2,
    {
        2
    }

    /// The point whose two components are both `value`.
    pub fn from_value(value: i32) -> (r: Point)
        ensures
            r.0.x == value,
            r.0.y == value,
    {
        Point::new(value, value)
    }

    /// Component `index`: 0 is x, 1 is y.
    pub fn nth(&self, index: usize) -> (r: &i32)
        requires
            index < 2,
        ensures
            index == 0 ==> *r == self.0.x,
            index == 1 ==> *r == self.0.y,
    {
        if index == 0 {
            &self.0.x
        } else {
            &self.0.y
        }
    }

    /// A mutable borrow of component `index`: 0 is x, 1 is y.
    pub fn nth_mut(&mut self, index: usize) -> (r: &mut i32)
        requires
            index < 2,
        ensures
            index == 0 ==> *r == old(self).0.x && final(self).0 == (Coordinate { x: *final(r), y: old(self).0.y }),
            index == 1 ==> *r == old(self).0.y && final(self).0 == (Coordinate { x: old(self).0.x, y: *final(r) }),
    {
        if index == 0 {
            &mut self.0.x
        } else {
            &mut self.0.y
        }
    }
}

impl From<Coordinate> for Point {
    fn from(x: Coordinate) -> (r: Point) {
        Point(x)
    }
}

impl vstd::std_specs::convert::FromSpecImpl<Coordinate> for Point {
    open spec fn obeys_from_spec() -> bool {
        true
    }

    open spec fn from_spec(x: Coordinate) -> Point {
        Point(x)
    }
}

impl From<(i32, i32)> for Point {
    fn from(coords: (i32, i32)) -> (r: Point) {
        Point::new(coords.0, coords.1)
    }
}

impl vstd::std_specs::convert::FromSpecImpl<(i32, i32)> for Point {
    open spec fn obeys_from_spec() -> bool {
        true
    }

    open spec fn from_spec(coords: (i32, i32)) -> Point {
        Point(Coordinate { x: coords.0, y: coords.1 })
    }
}

impl From<[i32; 2]> for Point {
    fn from(coords: [i32; 2]) -> (r: Point) {
        Point::new(coords[0], coords[1])
    }
}

impl vstd::std_specs::convert::FromSpecImpl<[i32; 2]> for Point {
    open spec fn obeys_from_spec() -> bool {
        true
    }

    open spec fn from_spec(coords: [i32; 2]) -> Point {
        Point(Coordinate { x: coords@[0], y: coords@[1] })
    }
}

/// A directed segment from `start` to `end`.
#[derive(Clone, Copy, Debug, PartialEq, Eq, Structural)]
pub struct Line {
    pub start: Coordinate,
    pub end: Coordinate,
}

impl Line {
    pub fn new(start: Coordinate, end: Coordinate) -> (r: Line)
        ensures
            r.start == start,
            r.end == end,
    {
        Line { start, end }
    }

    /// `end.x - start.x`
    pub fn dx(&self) -> (r: i64)
        ensures
            r == self.end.x - self.start.x,
    {
        self.end.x as i64 - self.start.x as i64
    }

    /// `end.y - start.y`
    pub fn dy(&self) -> (r: i64)
        ensures
            r == self.end.y - self.start.y,
    {
        self.end.y as i64 - self.start.y as i64
    }

    pub fn start_point(&self) -> (r: Point)
        ensures
            r.0 == self.start,
    {
        Point(self.start)
    }

    pub fn end_point(&self) -> (r: Point)
        ensures
            r.0 == self.end,
    {
        Point(self.end)
    }

    pub fn points(&self) -> (r: (Point, Point))
        ensures
            r.0.0 == self.start,
            r.1.0 == self.end,
    {
        (Point(self.start), Point(self.end))
    }
}

impl From<[(i32, i32); 2]> for Line {
    fn from(coords: [(i32, i32); 2]) -> (r: Line) {
        Line::new(
            Coordinate { x: coords[0].0, y: coords[0].1 },
            Coordinate { x: coords[1].0, y: coords[1].1 },
        )
    }
}

impl vstd::std_specs::convert::FromSpecImpl<[(i32, i32); 2]> for Line {
    open spec fn obeys_from_spec() -> bool {
        true
    }

    open spec fn from_spec(coords: [(i32, i32); 2]) -> Line {
        Line {
            start: Coordinate { x: coords@[0].0, y: coords@[0].1 },
            end: Coordinate { x: coords@[1].0, y: coords@[1].1 },
        }
    }
}

/// The segment from vertex `i` to vertex `i + 1` of a path.
pub open spec fn seg(pts: Seq<Coordinate>, i: int) -> Line {
    Line { start: pts[i], end: pts[i + 1] }
}

/// The number of segments of a path of `n` vertices.
pub open spec fn seg_count(n: int) -> int {
    if n < 2 {
        0
    } else {
        n - 1
    }
}

/// An ordered path of vertices; duplicates are allowed and it may be empty.
#[derive(Clone, Debug, PartialEq)]
pub struct LineString(pub Vec<Coordinate>);

impl View for LineString {
    type V = Seq<Coordinate>;

    open spec fn view(&self) -> Seq<Coordinate> {
        self.0@
    }
}

impl LineString {
    /// The path through the given `(x, y)` pairs, in order.
    pub fn from_tuples(coords: Vec<(i32, i32)>) -> (r: LineString)
        ensures
            r@.len() == coords@.len(),
            forall|i: int|
                0 <= i < coords@.len() ==> r@[i] == (Coordinate { x: coords@[i].0, y: coords@[i].1 }),
    {
        let mut v: Vec<Coordinate> = Vec::new();
        let mut i: usize = 0;
        while i < coords.len()
            invariant
                i <= coords@.len(),
                v@.len() == i,
                forall|j: int|
                    0 <= j < i ==> v@[j] == (Coordinate { x: coords@[j].0, y: coords@[j].1 }),
            decreases coords@.len() - i,
        {
            v.push(Coordinate { x: coords[i].0, y: coords[i].1 });
            i = i + 1;
        }
        LineString(v)
    }

    /// The path through the given points, in order.
    pub fn from_points(points: Vec<Point>) -> (r: LineString)
        ensures
            r@.len() == points@.len(),
            forall|i: int| 0 <= i < points@.len() ==> r@[i] == points@[i].0,
    {
        let mut v: Vec<Coordinate> = Vec::new();
        let mut i: usize = 0;
        while i < points.len()
            invariant
                i <= points@.len(),
                v@.len() == i,
                forall|j: int| 0 <= j < i ==> v@[j] == points@[j].0,
            decreases points@.len() - i,
        {
            v.push(points[i].0);
            i = i + 1;
        }
        LineString(v)
    }

    /// The vertices as points, in order.
    pub fn points(&self) -> (r: Vec<Point>)
        ensures
            r@.len() == self@.len(),
            forall|i: int| 0 <= i < self@.len() ==> r@[i].0 == self@[i],
    {
        let mut v: Vec<Point> = Vec::new();
        let mut i: usize = 0;
        while i < self.0.len()
            invariant
                i <= self@.len(),
                v@.len() == i,
                forall|j: int| 0 <= j < i ==> v@[j].0 == self@[j],
            decreases self@.len() - i,
        {
            v.push(Point(self.0[i]));
            i = i + 1;
        }
        v
    }

    /// The vertices as points, in order, consuming the path.
    pub fn into_points(self) -> (r: Vec<Point>)
        ensures
            r@.len() == self@.len(),
            forall|i: int| 0 <= i < self@.len() ==> r@[i].0 == self@[i],
    {
        self.points()
    }

    /// The segments between consecutive vertices, in order: none for a path
    /// of fewer than two vertices.
    pub fn lines(&self) -> (r: Vec<Line>)
        ensures
            r@.len() == seg_count(self@.len() as int),
            forall|i: int| 0 <= i < r@.len() ==> r@[i] == seg(self@, i),
    {
        let mut v: Vec<Line> = Vec::new();
        let mut i: usize = 0;
        while i < self.0.len() && i + 1 < self.0.len()
            invariant
                i <= seg_count(self@.len() as int),
                v@.len() == i,
                forall|j: int| 0 <= j < i ==> v@[j] == seg(self@, j),
            decreases self@.len() - i,
        {
            v.push(Line { start: self.0[i], end: self.0[i + 1] });
            i = i + 1;
        }
        v
    }
}

impl From<Vec<Coordinate>> for LineString {
    fn from(coords: Vec<Coordinate>) -> (r: LineString) {
        LineString(coords)
    }
}

impl vstd::std_specs::convert::FromSpecImpl<Vec<Coordinate>> for LineString {
    open spec fn obeys_from_spec() -> bool {
        true
    }

    open spec fn from_spec(coords: Vec<Coordinate>) -> LineString {
        LineString(coords)
    }
}

/// A polygon: an exterior ring and any number of interior rings (holes).
/// Rings are expected to be closed (first vertex equal to the last); that is
/// not checked.
#[derive(Clone, Debug, PartialEq)]
pub struct Polygon {
    pub exterior: LineString,
    pub interiors: Vec<LineString>,
}

impl Polygon {
    pub fn new(exterior: LineString, interiors: Vec<LineString>) -> (r: Polygon)
        ensures
            r.exterior == exterior,
            r.interiors == interiors,
    {
        Polygon { exterior, interiors }
    }
}

impl View for Polygon {
    type V = (Seq<Coordinate>, Seq<Seq<Coordinate>>);

    /// The exterior ring's vertices, and those of each interior ring in order.
    open spec fn view(&self) -> (Seq<Coordinate>, Seq<Seq<Coordinate>>) {
        (self.exterior@, self.interiors@.map_values(|r: LineString| r@))
    }
}

/// An axis-aligned box. Callers supply `xmin <= xmax` and `ymin <= ymax`.
#[derive(Clone, Copy, Debug, PartialEq, Eq, Structural)]
pub struct Bbox {
    pub xmin: i32,
    pub xmax: i32,
    pub ymin: i32,
    pub ymax: i32,
}

impl Bbox {
    pub fn new(xmin: i32, xmax: i32, ymin: i32, ymax: i32) -> (r: Bbox)
        ensures
            r == (Bbox { xmin, xmax, ymin, ymax }),
    {
        Bbox { xmin, xmax, ymin, ymax }
    }
}

/// A collection of paths.
#[derive(Clone, Debug, PartialEq)]
pub struct MultiLineString(pub Vec<LineString>);

impl View for MultiLineString {
    type V = Seq<Seq<Coordinate>>;

    open spec fn view(&self) -> Seq<Seq<Coordinate>> {
        self.0@.map_values(|l: LineString| l@)
    }
}

/// A collection of polygons.
#[derive(Clone, Debug, PartialEq)]
pub struct MultiPolygon(pub Vec<Polygon>);

impl View for MultiPolygon {
    type V = Seq<(Seq<Coordinate>, Seq<Seq<Coordinate>>)>;

    open spec fn view(&self) -> Seq<(Seq<Coordinate>, Seq<Seq<Coordinate>>)> {
        self.0@.map_values(|p: Polygon| p@)
    }
}

/// The cross product of `b - a` and `c - a`.
pub open spec fn cross(a: Coordinate, b: Coordinate, c: Coordinate) -> int {
    (b.x - a.x) * (c.y - a.y) - (b.y - a.y) * (c.x - a.x)
}

proof fn lemma_product_bound(a: int, b: int)
    requires
        i32::MIN <= a <= i32::MAX,
        i32::MIN <= b <= i32::MAX,
    ensures
        -0x4000_0000_0000_0000 < a * b <= 0x4000_0000_0000_0000,
{
    assert(-0x4000_0000_0000_0000 < a * b <= 0x4000_0000_0000_0000) by (nonlinear_arith)
        requires
            -0x8000_0000 <= a <= 0x7fff_ffff,
            -0x8000_0000 <= b <= 0x7fff_ffff,
    ;
}

/// Products of two coordinate differences fit easily in `i128`.
pub proof fn lemma_diff_product_bound(a: int, b: int)
    requires
        -0x1_0000_0000 < a < 0x1_0000_0000,
        -0x1_0000_0000 < b < 0x1_0000_0000,
    ensures
        -0x1_0000_0000_0000_0000 < a * b < 0x1_0000_0000_0000_0000,
{
    assert(-0x1_0000_0000_0000_0000 < a * b < 0x1_0000_0000_0000_0000) by (nonlinear_arith)
        requires
            -0x1_0000_0000 < a < 0x1_0000_0000,
            -0x1_0000_0000 < b < 0x1_0000_0000,
    ;
}

} // verus!

use geo::intersects::Intersects;
use geo::types::{Bbox, Coordinate, Line, LineString, Point, Polygon};

// Coordinates are written as decimals and placed on a grid of tenths.
fn g(v: f64) -> i32 {
    (v * 10.0).round() as i32
}

fn p(x: f64, y: f64) -> Coordinate {
    Coordinate { x: g(x), y: g(y) }
}

fn ls(coords: Vec<(f64, f64)>) -> LineString {
    LineString::from_tuples(coords.into_iter().map(|(x, y)| (g(x), g(y))).collect())
}

fn line(a: (f64, f64), b: (f64, f64)) -> Line {
    Line::from([(g(a.0), g(a.1)), (g(b.0), g(b.1))])
}

fn bbox(xmin: f64, xmax: f64, ymin: f64, ymax: f64) -> Bbox {
    Bbox { xmin: g(xmin), xmax: g(xmax), ymin: g(ymin), ymax: g(ymax) }
}

#[test]
fn empty_linestring1_test() {
    let linestring = ls(vec![(3., 2.), (7., 6.)]);
    assert!(!LineString(Vec::new()).intersects(&linestring));
}

#[test]
fn empty_linestring2_test() {
    let linestring = ls(vec![(3., 2.), (7., 6.)]);
    assert!(!linestring.intersects(&LineString(Vec::new())));
}

#[test]
fn empty_all_linestring_test() {
    assert!(!LineString(Vec::new()).intersects(&LineString(Vec::new())));
}

#[test]
fn intersect_linestring_test() {
    let linestring = ls(vec![(3., 2.), (7., 6.)]);
    assert!(linestring.intersects(&ls(vec![(3., 4.), (8., 4.)])));
}

#[test]
fn parallel_linestrings_test() {
    let linestring = ls(vec![(3., 2.), (7., 6.)]);
    assert!(!linestring.intersects(&ls(vec![(3., 1.), (7., 5.)])));
}

#[test]
fn linestring_in_polygon_test() {
    let linestring = ls(vec![(0., 0.), (5., 0.), (5., 6.), (0., 6.), (0., 0.)]);
    let poly = Polygon::new(linestring, Vec::new());
    assert!(poly.intersects(&ls(vec![(2., 2.), (3., 3.)])));
}

#[test]
fn linestring_on_boundary_polygon_test() {
    let poly = Polygon::new(
        LineString(vec![p(0., 0.), p(5., 0.), p(5., 6.), p(0., 6.), p(0., 0.)]),
        Vec::new(),
    );
    assert!(poly.intersects(&LineString(vec![p(0., 0.), p(5., 0.)])));
    assert!(poly.intersects(&LineString(vec![p(5., 0.), p(5., 6.)])));
    assert!(poly.intersects(&LineString(vec![p(5., 6.), p(0., 6.)])));
    assert!(poly.intersects(&LineString(vec![p(0., 6.), p(0., 0.)])));
}

#[test]
fn intersect_linestring_polygon_test() {
    let poly = Polygon::new(
        LineString(vec![p(0., 0.), p(5., 0.), p(5., 6.), p(0., 6.), p(0., 0.)]),
        Vec::new(),
    );
    assert!(poly.intersects(&LineString(vec![p(2., 2.), p(6., 6.)])));
}

#[test]
fn linestring_outside_polygon_test() {
    let poly = Polygon::new(
        LineString(vec![p(0., 0.), p(5., 0.), p(5., 6.), p(0., 6.), p(0., 0.)]),
        Vec::new(),
    );
    assert!(!poly.intersects(&LineString(vec![p(7., 2.), p(9., 4.)])));
}

#[test]
fn linestring_in_inner_polygon_test() {
    let e = ls(vec![(0., 0.), (5., 0.), (5., 6.), (0., 6.), (0., 0.)]);
    let v = vec![ls(vec![(1., 1.), (4., 1.), (4., 4.), (1., 4.), (1., 1.)])];
    let poly = Polygon::new(e, v);
    assert!(!poly.intersects(&ls(vec![(2., 2.), (3., 3.)])));
    assert!(poly.intersects(&ls(vec![(2., 2.), (4., 4.)])));
}

#[test]
fn linestring_traverse_polygon_test() {
    let e = ls(vec![(0., 0.), (5., 0.), (5., 6.), (0., 6.), (0., 0.)]);
    let v = vec![ls(vec![(1., 1.), (4., 1.), (4., 4.), (1., 4.), (1., 1.)])];
    let poly = Polygon::new(e, v);
    assert!(poly.intersects(&ls(vec![(2., 0.5), (2., 5.)])));
}

#[test]
fn linestring_in_inner_with_2_inner_polygon_test() {
    let e = LineString(vec![p(2., 2.), p(14., 2.), p(14., 8.), p(2., 8.), p(2., 2.)]);
    let v = vec![
        LineString(vec![p(4., 3.), p(7., 3.), p(7., 6.), p(4., 6.), p(4., 3.)]),
        LineString(vec![p(9., 3.), p(12., 3.), p(12., 6.), p(9., 6.), p(9., 3.)]),
    ];
    let poly = Polygon::new(e, v);
    assert!(!poly.intersects(&LineString(vec![p(5., 4.), p(6., 5.)])));
    assert!(poly.intersects(&LineString(vec![p(11., 2.5), p(11., 7.)])));
    assert!(poly.intersects(&LineString(vec![p(4., 7.), p(6., 7.)])));
    assert!(poly.intersects(&LineString(vec![p(8., 1.), p(8., 9.)])));
}

#[test]
fn polygons_do_not_intersect() {
    let p1 = Polygon::new(
        LineString(vec![p(1., 3.), p(3., 3.), p(3., 5.), p(1., 5.), p(1., 3.)]),
        Vec::new(),
    );
    let p2 = Polygon::new(
        LineString(vec![p(10., 30.), p(30., 30.), p(30., 50.), p(10., 50.), p(10., 30.)]),
        Vec::new(),
    );
    assert!(!p1.intersects(&p2));
    assert!(!p2.intersects(&p1));
}

#[test]
fn polygons_overlap() {
    let p1 = Polygon::new(
        LineString(vec![p(1., 3.), p(3., 3.), p(3., 5.), p(1., 5.), p(1., 3.)]),
        Vec::new(),
    );
    let p2 = Polygon::new(
        LineString(vec![p(2., 3.), p(4., 3.), p(4., 7.), p(2., 7.), p(2., 3.)]),
        Vec::new(),
    );
    assert!(p1.intersects(&p2));
    assert!(p2.intersects(&p1));
}

#[test]
fn polygon_contained() {
    let p1 = Polygon::new(
        LineString(vec![p(1., 3.), p(4., 3.), p(4., 6.), p(1., 6.), p(1., 3.)]),
        Vec::new(),
    );
    let p2 = Polygon::new(
        LineString(vec![p(2., 4.), p(3., 4.), p(3., 5.), p(2., 5.), p(2., 4.)]),
        Vec::new(),
    );
    assert!(p1.intersects(&p2));
    assert!(p2.intersects(&p1));
}

#[test]
fn polygons_conincident() {
    let p1 = Polygon::new(
        LineString(vec![p(1., 3.), p(4., 3.), p(4., 6.), p(1., 6.), p(1., 3.)]),
        Vec::new(),
    );
    let p2 = Polygon::new(
        LineString(vec![p(1., 3.), p(4., 3.), p(4., 6.), p(1., 6.), p(1., 3.)]),
        Vec::new(),
    );
    assert!(p1.intersects(&p2));
    assert!(p2.intersects(&p1));
}

#[test]
fn polygon_intersects_bbox_test() {
    let poly = Polygon::new(
        ls(vec![(0., 0.), (12., 0.), (12., 8.), (0., 8.), (0., 0.)]),
        vec![ls(vec![(7., 4.), (11., 4.), (11., 7.), (7., 7.), (7., 4.)])],
    );
    let b1 = bbox(11.0, 13.0, 1.0, 2.0);
    let b2 = bbox(2.0, 8.0, 2.0, 5.0);
    let b3 = bbox(8.0, 10.0, 5.0, 6.0);
    let b4 = bbox(1.0, 3.0, 1.0, 3.0);
    // overlaps
    assert!(poly.intersects(&b1));
    // contained in exterior, overlaps with hole
    assert!(poly.intersects(&b2));
    // completely contained in the hole
    assert!(!poly.intersects(&b3));
    // completely contained in the polygon
    assert!(poly.intersects(&b4));
    // conversely,
    assert!(b1.intersects(&poly));
    assert!(b2.intersects(&poly));
    assert!(!b3.intersects(&poly));
    assert!(b4.intersects(&poly));
}

#[test]
fn bbox_test() {
    let bbox_xl = bbox(-100., 100., -200., 200.);
    let bbox_sm = bbox(-10., 10., -20., 20.);
    let bbox_s2 = bbox(0., 20., 0., 30.);
    assert_eq!(false, bbox_xl.intersects(&bbox_sm));
    assert_eq!(false, bbox_sm.intersects(&bbox_xl));
    assert_eq!(true, bbox_sm.intersects(&bbox_s2));
    assert_eq!(true, bbox_s2.intersects(&bbox_sm));
}

#[test]
fn point_intersects_line_test() {
    let p0 = Point::new(g(2.), g(4.));
    // vertical line
    let line1 = line((2., 0.), (2., 5.));
    // point on line, but outside line segment
    let line2 = line((0., 6.), (1.5, 4.5));
    // point on line
    let line3 = line((0., 6.), (3., 3.));
    // point above line with positive slope
    let line4 = line((1., 2.), (5., 3.));
    // point below line with positive slope
    let line5 = line((1., 5.), (5., 6.));
    // point above line with negative slope
    let line6 = line((1., 2.), (5., -3.));
    // point below line with negative slope
    let line7 = line((1., 6.), (5., 5.));
    assert!(line1.intersects(&p0));
    assert!(p0.intersects(&line1));
    assert!(!line2.intersects(&p0));
    assert!(!p0.intersects(&line2));
    assert!(line3.intersects(&p0));
    assert!(p0.intersects(&line3));
    assert!(!line4.intersects(&p0));
    assert!(!p0.intersects(&line4));
    assert!(!line5.intersects(&p0));
    assert!(!p0.intersects(&line5));
    assert!(!line6.intersects(&p0));
    assert!(!p0.intersects(&line6));
    assert!(!line7.intersects(&p0));
    assert!(!p0.intersects(&line7));
}

#[test]
fn line_intersects_line_test() {
    let line0 = line((0., 0.), (3., 4.));
    let line1 = line((2., 0.), (2., 5.));
    let line2 = line((0., 7.), (5., 4.));
    let line3 = line((0., 0.), (-3., -4.));
    assert!(line0.intersects(&line0));
    assert!(line0.intersects(&line1));
    assert!(!line0.intersects(&line2));
    assert!(line0.intersects(&line3));

    assert!(line1.intersects(&line0));
    assert!(line1.intersects(&line1));
    assert!(!line1.intersects(&line2));
    assert!(!line1.intersects(&line3));

    assert!(!line2.intersects(&line0));
    assert!(!line2.intersects(&line1));
    assert!(line2.intersects(&line2));
    assert!(!line1.intersects(&line3));
}

#[test]
fn line_intersects_linestring_test() {
    let line0 = line((0., 0.), (3., 4.));
    let linestring0 = ls(vec![(0., 1.), (1., 0.), (2., 0.)]);
    let linestring1 = ls(vec![(0.5, 0.2), (1., 0.), (2., 0.)]);
    assert!(line0.intersects(&linestring0));
    assert!(!line0.intersects(&linestring1));
    assert!(linestring0.intersects(&line0));
    assert!(!linestring1.intersects(&line0));
}

#[test]
fn line_intersects_polygon_test() {
    let line0 = line((0.5, 0.5), (2., 1.));
    let poly0 = Polygon::new(ls(vec![(0., 0.), (1., 2.), (1., 0.), (0., 0.)]), vec![]);
    let poly1 = Polygon::new(ls(vec![(1., -1.), (2., -1.), (2., -2.), (1., -1.)]), vec![]);
    // line contained in the hole
    let poly2 = Polygon::new(
        ls(vec![(-1., -1.), (-1., 10.), (10., -1.), (-1., -1.)]),
        vec![ls(vec![(0., 0.), (3., 4.), (3., 0.), (0., 0.)])],
    );
    assert!(line0.intersects(&poly0));
    assert!(poly0.intersects(&line0));

    assert!(!line0.intersects(&poly1));
    assert!(!poly1.intersects(&line0));

    assert!(!line0.intersects(&poly2));
    assert!(!poly2.intersects(&line0));
}

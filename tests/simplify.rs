use geo::simplify::{rdp, Simplify};
use geo::types::{LineString, MultiLineString, MultiPolygon, Point, Polygon};

// Coordinates are written as decimals and placed on a grid of tenths.
fn g(v: f64) -> i32 {
    (v * 10.0).round() as i32
}

fn pt(x: f64, y: f64) -> Point {
    Point::new(g(x), g(y))
}

fn ls(coords: Vec<(f64, f64)>) -> LineString {
    LineString::from_tuples(coords.into_iter().map(|(x, y)| (g(x), g(y))).collect())
}

#[test]
fn rdp_test() {
    let mut vec = Vec::new();
    vec.push(pt(0.0, 0.0));
    vec.push(pt(5.0, 4.0));
    vec.push(pt(11.0, 5.5));
    vec.push(pt(17.3, 3.2));
    vec.push(pt(27.8, 0.1));
    let mut compare = Vec::new();
    compare.push(pt(0.0, 0.0));
    compare.push(pt(5.0, 4.0));
    compare.push(pt(11.0, 5.5));
    compare.push(pt(27.8, 0.1));
    let simplified = rdp(&vec, &g(1.0));
    assert_eq!(simplified, compare);
}

#[test]
fn rdp_test_empty_linestring() {
    let vec: Vec<Point> = Vec::new();
    let compare: Vec<Point> = Vec::new();
    let simplified = rdp(&vec, &g(1.0));
    assert_eq!(simplified, compare);
}

#[test]
fn rdp_test_two_point_linestring() {
    let mut vec = Vec::new();
    vec.push(pt(0.0, 0.0));
    vec.push(pt(27.8, 0.1));
    let mut compare = Vec::new();
    compare.push(pt(0.0, 0.0));
    compare.push(pt(27.8, 0.1));
    let simplified = rdp(&vec, &g(1.0));
    assert_eq!(simplified, compare);
}

#[test]
fn multilinestring() {
    let mline = MultiLineString(vec![ls(vec![
        (0.0, 0.0),
        (5.0, 4.0),
        (11.0, 5.5),
        (17.3, 3.2),
        (27.8, 0.1),
    ])]);

    let mline2 = mline.simplify(&g(1.0));

    assert_eq!(
        mline2,
        MultiLineString(vec![ls(vec![(0.0, 0.0), (5.0, 4.0), (11.0, 5.5), (27.8, 0.1)])])
    );
}

#[test]
fn polygon() {
    let poly = Polygon::new(
        ls(vec![(0., 0.), (0., 10.), (5., 11.), (10., 10.), (10., 0.), (0., 0.)]),
        vec![],
    );

    let poly2 = poly.simplify(&g(2.));

    assert_eq!(
        poly2,
        Polygon::new(ls(vec![(0., 0.), (0., 10.), (10., 10.), (10., 0.), (0., 0.)]), vec![])
    );
}

#[test]
fn multipolygon() {
    let mpoly = MultiPolygon(vec![Polygon::new(
        ls(vec![(0., 0.), (0., 10.), (5., 11.), (10., 10.), (10., 0.), (0., 0.)]),
        vec![],
    )]);

    let mpoly2 = mpoly.simplify(&g(2.));

    assert_eq!(
        mpoly2,
        MultiPolygon(vec![Polygon::new(
            ls(vec![(0., 0.), (0., 10.), (10., 10.), (10., 0.), (0., 0.)]),
            vec![],
        )])
    );
}

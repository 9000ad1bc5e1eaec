//! A planar geometry kernel on an exact integer grid: points, segments,
//! polylines, polygons with holes and axis-aligned boxes, with a pairwise
//! intersection predicate and Ramer-Douglas-Peucker simplification.
//!
//! Coordinates are `i32` grid units chosen by the caller. Every predicate is
//! decided exactly: parameters along segments are compared as fractions, and
//! distances are compared squared.
pub mod types;
pub mod contains;
pub mod intersects;
pub mod simplify;

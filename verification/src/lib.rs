//! An adaptive spatial index over a bounded, integer-valued plane.
//!
//! The index is a quadtree: a leaf keeps the points that fall into its
//! region until it is full, then divides into four quadrants. A per-tick
//! motion pass moves the points of a leaf and reflects them at the field's
//! border and at each other.
//!
//! `model` says what an index is and what each operation makes of it,
//! `tree` holds the index itself, `motion` the tick of a single point, and
//! `laws` what holds of all of them.

pub mod geometry;
pub mod growth;
pub mod laws;
pub mod model;
pub mod motion;
pub mod point;
pub mod tree;

pub use geometry::{Quadrant, Region};
pub use model::Figure;
pub use point::{Color, Point, Reason, Rejection};
pub use tree::QuadTree;

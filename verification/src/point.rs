//! The entities that the index stores.

use vstd::prelude::*;

verus! {

/// A display colour in four channels. The index carries it along and never
/// reads it.
#[derive(Clone, Copy, Debug, PartialEq, Eq, Structural)]
pub struct Color {
    pub r: u8,
    pub g: u8,
    pub b: u8,
    pub a: u8,
}

/// A point-like entity: a position, a step per tick on each axis, a radius
/// in whole units and a colour.
#[derive(Clone, Copy, Debug, PartialEq, Eq, Structural)]
pub struct Point {
    pub x: i32,
    pub y: i32,
    pub speed_x: i8,
    pub speed_y: i8,
    pub r: i32,
    pub color: Color,
}

/// Why an insertion turned a point away.
#[derive(Clone, Copy, Debug, PartialEq, Eq, Structural)]
pub enum Reason {
    /// The leaf that the point reached does not cover it.
    OutOfRegion,
    /// The leaf that the point reached is full and covers a single
    /// position, so dividing it would separate nothing.
    NoRoom,
}

/// A point that an insertion turned away, with the reason.
#[derive(Clone, Copy, Debug, PartialEq, Eq, Structural)]
pub struct Rejection {
    pub point: Point,
    pub reason: Reason,
}

/// The points of a list of rejections, in order.
pub open spec fn rejected_points(rejections: Seq<Rejection>) -> Seq<Point> {
    rejections.map_values(|r: Rejection| r.point)
}

} // verus!

//! Axis-aligned regions and their four quadrants.

use vstd::prelude::*;

verus! {

/// An axis-aligned rectangle with origin `(x, y)` and extents `(w, h)`.
///
/// Both edges count as inside: the rectangle covers `x ..= x + w` and
/// `y ..= y + h`. A field has positive extents; a quadrant of a region of
/// extent 1 has extent 0 and covers a single row or column.
#[derive(Clone, Copy, Debug, PartialEq, Eq, Structural)]
pub struct Region {
    pub x: i32,
    pub y: i32,
    pub w: i32,
    pub h: i32,
}

/// One of the four parts into which a region divides.
#[derive(Clone, Copy, Debug, PartialEq, Eq, Structural)]
pub enum Quadrant {
    TopLeft,
    BottomLeft,
    TopRight,
    BottomRight,
}

impl Region {
    /// The extents are not negative and the far corner is representable.
    pub open spec fn in_range(self) -> bool {
        &&& 0 <= self.w
        &&& 0 <= self.h
        &&& self.x + self.w <= i32::MAX
        &&& self.y + self.h <= i32::MAX
    }

    /// Whether `(px, py)` lies in the region, both edges included.
    pub open spec fn covers(self, px: int, py: int) -> bool {
        &&& self.x <= px <= self.x + self.w
        &&& self.y <= py <= self.y + self.h
    }

    /// The test that a lookup applies to a node before it goes on: the full
    /// width of the region, but only the upper half of its height.
    pub open spec fn covers_upper_half(self, px: int, py: int) -> bool {
        &&& self.x <= px <= self.x + self.w
        &&& self.y <= py <= self.y + self.h / 2
    }

    /// The vertical line at which the region divides into left and right.
    pub open spec fn mid_x(self) -> int {
        self.x + self.w / 2
    }

    /// The horizontal line at which the region divides into top and bottom.
    pub open spec fn mid_y(self) -> int {
        self.y + self.h / 2
    }

    /// The quadrant that receives `(px, py)`: a coordinate on the dividing
    /// line goes right, respectively down.
    pub open spec fn quadrant_of(self, px: int, py: int) -> Quadrant {
        if px >= self.mid_x() {
            if py >= self.mid_y() {
                Quadrant::BottomRight
            } else {
                Quadrant::TopRight
            }
        } else {
            if py >= self.mid_y() {
                Quadrant::BottomLeft
            } else {
                Quadrant::TopLeft
            }
        }
    }

    /// The region of quadrant `q`. Both extents are halved and rounded down,
    /// so with an odd extent the four quadrants leave the last row or column
    /// of the region uncovered.
    pub open spec fn quadrant(self, q: Quadrant) -> Region {
        let w: i32 = (self.w / 2) as i32;
        let h: i32 = (self.h / 2) as i32;
        match q {
            Quadrant::TopLeft => Region { x: self.x, y: self.y, w, h },
            Quadrant::BottomLeft => Region { x: self.x, y: self.mid_y() as i32, w, h },
            Quadrant::TopRight => Region { x: self.mid_x() as i32, y: self.y, w, h },
            Quadrant::BottomRight => Region {
                x: self.mid_x() as i32,
                y: self.mid_y() as i32,
                w,
                h,
            },
        }
    }

    /// The sum of the two extents: what shrinks with every division.
    pub open spec fn extent(self) -> nat {
        if self.w >= 0 && self.h >= 0 {
            (self.w + self.h) as nat
        } else {
            0
        }
    }

    /// A region that holds more than a single position can be divided.
    pub open spec fn divisible(self) -> bool {
        self.extent() > 0
    }

    /// Whether `(px, py)` lies in the region, both edges included.
    pub fn contains(&self, px: i32, py: i32) -> (b: bool)
        ensures
            b == self.covers(px as int, py as int),
    {
        let x: i64 = px as i64;
        let y: i64 = py as i64;
        self.x as i64 <= x && x <= self.x as i64 + self.w as i64 && self.y as i64 <= y && y
            <= self.y as i64 + self.h as i64
    }

    /// The test that a lookup applies: the full width, the upper half of
    /// the height.
    pub fn contains_in_upper_half(&self, px: i32, py: i32) -> (b: bool)
        requires
            self.h >= 0,
        ensures
            b == self.covers_upper_half(px as int, py as int),
    {
        let x: i64 = px as i64;
        let y: i64 = py as i64;
        self.x as i64 <= x && x <= self.x as i64 + self.w as i64 && self.y as i64 <= y && y
            <= self.y as i64 + (self.h / 2) as i64
    }

    /// The quadrant that receives `(px, py)`.
    pub fn locate(&self, px: i32, py: i32) -> (q: Quadrant)
        requires
            self.w >= 0,
            self.h >= 0,
        ensures
            q == self.quadrant_of(px as int, py as int),
    {
        let right: bool = px as i64 >= self.x as i64 + (self.w / 2) as i64;
        let down: bool = py as i64 >= self.y as i64 + (self.h / 2) as i64;
        if right {
            if down {
                Quadrant::BottomRight
            } else {
                Quadrant::TopRight
            }
        } else {
            if down {
                Quadrant::BottomLeft
            } else {
                Quadrant::TopLeft
            }
        }
    }

    /// The region of quadrant `q`.
    pub fn sub_region(&self, q: Quadrant) -> (r: Region)
        requires
            self.in_range(),
        ensures
            r == self.quadrant(q),
            r.in_range(),
            self.divisible() ==> r.extent() < self.extent(),
    {
        let w: i32 = self.w / 2;
        let h: i32 = self.h / 2;
        match q {
            Quadrant::TopLeft => Region { x: self.x, y: self.y, w, h },
            Quadrant::BottomLeft => Region { x: self.x, y: self.y + h, w, h },
            Quadrant::TopRight => Region { x: self.x + w, y: self.y, w, h },
            Quadrant::BottomRight => Region { x: self.x + w, y: self.y + h, w, h },
        }
    }
}

} // verus!

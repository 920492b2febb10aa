//! One tick of motion for the points of a leaf: reflection at the field's
//! border, reflection at nearby points, then one step.

use vstd::prelude::*;
use crate::point::Point;

verus! {

/// The distance between two coordinates.
pub open spec fn gap(a: int, b: int) -> int {
    if a >= b {
        a - b
    } else {
        b - a
    }
}

/// The speed on one axis after the border rule: a point whose coordinate is
/// exactly `extent - r` turns back, one whose coordinate is exactly `r`
/// turns forward, and any other keeps its speed. The first of the two tests
/// decides where both hold.
pub open spec fn reflected(pos: int, speed: int, extent: int, r: int) -> int {
    if pos == extent - r {
        -1
    } else if pos == r {
        1
    } else {
        speed
    }
}

/// Whether `q` is near `p`: it differs from `p` in both coordinates, and
/// neither differs by more than twice the radius of `p`.
pub open spec fn close_to(p: Point, q: Point) -> bool {
    &&& q.x != p.x
    &&& q.y != p.y
    &&& gap(q.x as int, p.x as int) <= 2 * p.r
    &&& gap(q.y as int, p.y as int) <= 2 * p.r
}

/// Whether any point of `others` is near `p`.
pub open spec fn crowded(p: Point, others: Seq<Point>) -> bool {
    exists|j: int| 0 <= j < others.len() && close_to(p, #[trigger] others[j])
}

/// The horizontal speed of `p` after a tick in a field of width `w`, with
/// `others` as the points of its leaf before the tick.
pub open spec fn next_speed_x(p: Point, others: Seq<Point>, w: int) -> int {
    let s = reflected(p.x as int, p.speed_x as int, w, p.r as int);
    if crowded(p, others) {
        -s
    } else {
        s
    }
}

/// The vertical speed of `p` after a tick in a field of height `h`.
pub open spec fn next_speed_y(p: Point, others: Seq<Point>, h: int) -> int {
    let s = reflected(p.y as int, p.speed_y as int, h, p.r as int);
    if crowded(p, others) {
        -s
    } else {
        s
    }
}

/// The tick of `p` stays within the machine's integers: the new speeds are
/// speeds and the new position is a position.
pub open spec fn can_tick(p: Point, others: Seq<Point>, w: int, h: int) -> bool {
    &&& i8::MIN <= next_speed_x(p, others, w) <= i8::MAX
    &&& i8::MIN <= next_speed_y(p, others, h) <= i8::MAX
    &&& i32::MIN <= p.x + next_speed_x(p, others, w) <= i32::MAX
    &&& i32::MIN <= p.y + next_speed_y(p, others, h) <= i32::MAX
}

/// `p` after a tick: its speeds go through the border rule, both are
/// negated if a point of `others` is near, and the position advances by the
/// speeds that result.
pub open spec fn ticked(p: Point, others: Seq<Point>, w: int, h: int) -> Point {
    Point {
        x: (p.x + next_speed_x(p, others, w)) as i32,
        y: (p.y + next_speed_y(p, others, h)) as i32,
        speed_x: next_speed_x(p, others, w) as i8,
        speed_y: next_speed_y(p, others, h) as i8,
        r: p.r,
        color: p.color,
    }
}

/// Every point of `points` can take its tick.
pub open spec fn all_can_tick(points: Seq<Point>, w: int, h: int) -> bool {
    forall|i: int| 0 <= i < points.len() ==> can_tick(#[trigger] points[i], points, w, h)
}

/// `points` after a tick: each point ticked against the list as it was
/// before.
pub open spec fn all_ticked(points: Seq<Point>, w: int, h: int) -> Seq<Point> {
    Seq::new(points.len(), |i: int| ticked(points[i], points, w, h))
}

pub fn is_close(p: &Point, q: &Point) -> (b: bool)
    ensures
        b == close_to(*p, *q),
{
    let dx: i64 = if q.x >= p.x {
        q.x as i64 - p.x as i64
    } else {
        p.x as i64 - q.x as i64
    };
    let dy: i64 = if q.y >= p.y {
        q.y as i64 - p.y as i64
    } else {
        p.y as i64 - q.y as i64
    };
    let reach: i64 = 2 * (p.r as i64);
    q.x != p.x && q.y != p.y && dx <= reach && dy <= reach
}

pub fn is_crowded(p: &Point, others: &Vec<Point>) -> (b: bool)
    ensures
        b == crowded(*p, others@),
{
    let mut i: usize = 0;
    while i < others.len()
        invariant
            0 <= i <= others.len(),
            forall|j: int| 0 <= j < i ==> !close_to(*p, #[trigger] others@[j]),
        decreases others.len() - i,
    {
        if is_close(p, &others[i]) {
            return true;
        }
        i += 1;
    }
    false
}

/// The speed on one axis after the border rule.
pub fn reflect(pos: i32, speed: i8, extent: i32, r: i32) -> (s: i8)
    ensures
        s == reflected(pos as int, speed as int, extent as int, r as int),
{
    if pos as i64 == extent as i64 - r as i64 {
        -1
    } else if pos == r {
        1
    } else {
        speed
    }
}

/// Whether the tick of `p` stays within the machine's integers.
pub fn tick_fits(p: &Point, others: &Vec<Point>, w: i32, h: i32) -> (b: bool)
    ensures
        b == can_tick(*p, others@, w as int, h as int),
{
    let turn = is_crowded(p, others);
    let sx: i64 = reflect(p.x, p.speed_x, w, p.r) as i64;
    let sy: i64 = reflect(p.y, p.speed_y, h, p.r) as i64;
    let nx: i64 = if turn {
        -sx
    } else {
        sx
    };
    let ny: i64 = if turn {
        -sy
    } else {
        sy
    };
    let x: i64 = p.x as i64 + nx;
    let y: i64 = p.y as i64 + ny;
    -128 <= nx && nx <= 127 && -128 <= ny && ny <= 127 && -2147483648 <= x && x <= 2147483647
        && -2147483648 <= y && y <= 2147483647
}

/// Moves `p` by one tick in a field of extents `(w, h)`, with `others` as
/// the points of its leaf before the tick.
pub fn tick(p: &Point, others: &Vec<Point>, w: i32, h: i32) -> (q: Point)
    requires
        can_tick(*p, others@, w as int, h as int),
    ensures
        q == ticked(*p, others@, w as int, h as int),
{
    let mut speed_x: i8 = reflect(p.x, p.speed_x, w, p.r);
    let mut speed_y: i8 = reflect(p.y, p.speed_y, h, p.r);
    if is_crowded(p, others) {
        speed_x = -speed_x;
        speed_y = -speed_y;
    }
    Point {
        x: p.x + speed_x as i32,
        y: p.y + speed_y as i32,
        speed_x,
        speed_y,
        r: p.r,
        color: p.color,
    }
}

} // verus!

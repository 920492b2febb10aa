//! The mathematical model of the index: what a tree is, and what
//! insertion, lookup, drawing and motion make of it.

use vstd::prelude::*;
use vstd::multiset::Multiset;
use crate::geometry::{Quadrant, Region};
use crate::motion::{all_can_tick, all_ticked};
use crate::point::{Point, Reason, Rejection};

verus! {

/// The shape of a node: a leaf with its points in insertion order, or an
/// inner node with up to four children, one for each quadrant.
pub enum Shape {
    Leaf(Seq<Point>),
    Inner {
        lt: Option<Box<Shape>>,
        lb: Option<Box<Shape>>,
        rt: Option<Box<Shape>>,
        rb: Option<Box<Shape>>,
    },
}

/// What there is to draw of the index: the outline of a node's region, or
/// a stored point as a disc.
#[derive(Clone, Copy, Debug, PartialEq, Eq, Structural)]
pub enum Figure {
    Outline(Region),
    Disc(Point),
}

/// A whole index: the region of its root, the capacity of every leaf, and
/// the shape of the root. The region of a node further down is the quadrant
/// of its parent's region in which it hangs.
pub struct Tree {
    pub region: Region,
    pub max_points: usize,
    pub shape: Shape,
}

impl Shape {
    /// An inner node without children.
    pub open spec fn bare() -> Shape {
        Shape::Inner { lt: None, lb: None, rt: None, rb: None }
    }

    /// The child in quadrant `q`; a leaf has none.
    pub open spec fn child(self, q: Quadrant) -> Option<Box<Shape>> {
        match self {
            Shape::Leaf(_) => None,
            Shape::Inner { lt, lb, rt, rb } => match q {
                Quadrant::TopLeft => lt,
                Quadrant::BottomLeft => lb,
                Quadrant::TopRight => rt,
                Quadrant::BottomRight => rb,
            },
        }
    }

    /// The inner node with the child in quadrant `q` replaced by `c`.
    pub open spec fn with_child(self, q: Quadrant, c: Shape) -> Shape
        recommends
            self is Inner,
    {
        match q {
            Quadrant::TopLeft => Shape::Inner {
                lt: Some(Box::new(c)),
                lb: self->lb,
                rt: self->rt,
                rb: self->rb,
            },
            Quadrant::BottomLeft => Shape::Inner {
                lt: self->lt,
                lb: Some(Box::new(c)),
                rt: self->rt,
                rb: self->rb,
            },
            Quadrant::TopRight => Shape::Inner {
                lt: self->lt,
                lb: self->lb,
                rt: Some(Box::new(c)),
                rb: self->rb,
            },
            Quadrant::BottomRight => Shape::Inner {
                lt: self->lt,
                lb: self->lb,
                rt: self->rt,
                rb: Some(Box::new(c)),
            },
        }
    }

    /// The capacity rule, for a node with region `region`: no leaf holds
    /// more than `cap` points, and only a region that can be divided has
    /// been divided.
    pub open spec fn fits(self, region: Region, cap: usize) -> bool
        decreases self,
    {
        match self {
            Shape::Leaf(points) => points.len() <= cap,
            Shape::Inner { lt, lb, rt, rb } => {
                &&& region.divisible()
                &&& Shape::slot_fits(lt, region.quadrant(Quadrant::TopLeft), cap)
                &&& Shape::slot_fits(lb, region.quadrant(Quadrant::BottomLeft), cap)
                &&& Shape::slot_fits(rt, region.quadrant(Quadrant::TopRight), cap)
                &&& Shape::slot_fits(rb, region.quadrant(Quadrant::BottomRight), cap)
            },
        }
    }

    /// `fits` for a child that may be absent.
    pub open spec fn slot_fits(slot: Option<Box<Shape>>, region: Region, cap: usize) -> bool
        decreases slot,
    {
        match slot {
            None => true,
            Some(c) => c.fits(region, cap),
        }
    }

    /// The containment rule, for a node with region `region`: every point
    /// of every leaf lies in that leaf's region.
    pub open spec fn contained(self, region: Region) -> bool
        decreases self,
    {
        match self {
            Shape::Leaf(points) => forall|i: int|
                0 <= i < points.len() ==> region.covers(
                    (#[trigger] points[i]).x as int,
                    points[i].y as int,
                ),
            Shape::Inner { lt, lb, rt, rb } => {
                &&& Shape::slot_contained(lt, region.quadrant(Quadrant::TopLeft))
                &&& Shape::slot_contained(lb, region.quadrant(Quadrant::BottomLeft))
                &&& Shape::slot_contained(rt, region.quadrant(Quadrant::TopRight))
                &&& Shape::slot_contained(rb, region.quadrant(Quadrant::BottomRight))
            },
        }
    }

    /// `contained` for a child that may be absent.
    pub open spec fn slot_contained(slot: Option<Box<Shape>>, region: Region) -> bool
        decreases slot,
    {
        match slot {
            None => true,
            Some(c) => c.contained(region),
        }
    }

    /// Whether some leaf at or beneath the node, with region `region`, holds
    /// `q` and covers it.
    pub open spec fn keeps(self, region: Region, q: Point) -> bool
        decreases self,
    {
        match self {
            Shape::Leaf(points) => points.contains(q) && region.covers(q.x as int, q.y as int),
            Shape::Inner { lt, lb, rt, rb } => {
                ||| Shape::slot_keeps(lt, region.quadrant(Quadrant::TopLeft), q)
                ||| Shape::slot_keeps(lb, region.quadrant(Quadrant::BottomLeft), q)
                ||| Shape::slot_keeps(rt, region.quadrant(Quadrant::TopRight), q)
                ||| Shape::slot_keeps(rb, region.quadrant(Quadrant::BottomRight), q)
            },
        }
    }

    /// `keeps` for a child that may be absent.
    pub open spec fn slot_keeps(slot: Option<Box<Shape>>, region: Region, q: Point) -> bool
        decreases slot,
    {
        match slot {
            None => false,
            Some(c) => c.keeps(region, q),
        }
    }

    /// All points at or beneath the node: those of a leaf in insertion
    /// order, those of an inner node quadrant by quadrant, top-left,
    /// bottom-left, top-right, bottom-right.
    pub open spec fn stored(self) -> Seq<Point>
        decreases self,
    {
        match self {
            Shape::Leaf(points) => points,
            Shape::Inner { lt, lb, rt, rb } => Shape::slot_stored(lt) + Shape::slot_stored(lb)
                + Shape::slot_stored(rt) + Shape::slot_stored(rb),
        }
    }

    /// `stored` for a child that may be absent.
    pub open spec fn slot_stored(slot: Option<Box<Shape>>) -> Seq<Point>
        decreases slot,
    {
        match slot {
            None => Seq::empty(),
            Some(c) => c.stored(),
        }
    }

    /// The stored points as a multiset: how often each point is held,
    /// whatever the leaf.
    pub open spec fn census(self) -> Multiset<Point> {
        self.stored().to_multiset()
    }

    /// The leaf that a lookup of `(x, y)` ends in, for a node with region
    /// `region`.
    ///
    /// A node that fails `covers_upper_half` ends the lookup without a
    /// result. A leaf that passes is the result. An inner node that passes
    /// sends the lookup on to its first child in the order top-left,
    /// bottom-left, top-right, bottom-right, whichever quadrant `(x, y)`
    /// lies in, and has no result without a child.
    pub open spec fn find_quad(self, region: Region, cap: usize, x: int, y: int) -> Option<Tree>
        decreases self,
    {
        if !region.covers_upper_half(x, y) {
            None
        } else {
            match self {
                Shape::Leaf(_) => Some(Tree { region, max_points: cap, shape: self }),
                Shape::Inner { lt: Some(c), .. } => c.find_quad(
                    region.quadrant(Quadrant::TopLeft),
                    cap,
                    x,
                    y,
                ),
                Shape::Inner { lt: None, lb: Some(c), .. } => c.find_quad(
                    region.quadrant(Quadrant::BottomLeft),
                    cap,
                    x,
                    y,
                ),
                Shape::Inner { lt: None, lb: None, rt: Some(c), .. } => c.find_quad(
                    region.quadrant(Quadrant::TopRight),
                    cap,
                    x,
                    y,
                ),
                Shape::Inner { lt: None, lb: None, rt: None, rb: Some(c) } => c.find_quad(
                    region.quadrant(Quadrant::BottomRight),
                    cap,
                    x,
                    y,
                ),
                Shape::Inner { lt: None, lb: None, rt: None, rb: None } => None,
            }
        }
    }

    /// The figures of a node with region `region`: its outline, then the
    /// discs of its points if it is a leaf, else the figures of its
    /// children, top-left, bottom-left, top-right, bottom-right.
    pub open spec fn drawing(self, region: Region) -> Seq<Figure>
        decreases self,
    {
        seq![Figure::Outline(region)] + match self {
            Shape::Leaf(points) => points.map_values(|p: Point| Figure::Disc(p)),
            Shape::Inner { lt, lb, rt, rb } => Shape::slot_drawing(
                lt,
                region.quadrant(Quadrant::TopLeft),
            ) + Shape::slot_drawing(lb, region.quadrant(Quadrant::BottomLeft))
                + Shape::slot_drawing(rt, region.quadrant(Quadrant::TopRight))
                + Shape::slot_drawing(rb, region.quadrant(Quadrant::BottomRight)),
        }
    }

    /// `drawing` for a child that may be absent.
    pub open spec fn slot_drawing(slot: Option<Box<Shape>>, region: Region) -> Seq<Figure>
        decreases slot,
    {
        match slot {
            None => Seq::empty(),
            Some(c) => c.drawing(region),
        }
    }

    /// What inserting `p` makes of a node with region `region`, and the
    /// points that were turned away on the way.
    ///
    /// An inner node hands the point to the quadrant that receives it. A
    /// leaf turns away a point that its region does not cover, appends one
    /// for which it has room, and otherwise divides: it becomes an inner
    /// node, and its points, then `p`, are handed down in that order. A full
    /// leaf whose region cannot be divided turns the point away.
    pub open spec fn insert(self, region: Region, cap: usize, p: Point) -> (Shape, Seq<Rejection>)
        decreases region.extent(), 2nat, 0nat,
    {
        match self {
            Shape::Leaf(points) => {
                if !region.covers(p.x as int, p.y as int) {
                    (self, seq![Rejection { point: p, reason: Reason::OutOfRegion }])
                } else if points.len() < cap {
                    (Shape::Leaf(points.push(p)), Seq::empty())
                } else if !region.divisible() {
                    (self, seq![Rejection { point: p, reason: Reason::NoRoom }])
                } else {
                    Shape::bare().hand_down_all(region, cap, points.push(p))
                }
            },
            Shape::Inner { .. } => self.hand_down(region, cap, p),
        }
    }

    /// What an inner node becomes when `p` is handed to the quadrant that
    /// receives it; a quadrant without a child gets an empty leaf first.
    pub open spec fn hand_down(self, region: Region, cap: usize, p: Point) -> (Shape, Seq<Rejection>)
        decreases region.extent(), 0nat, 0nat,
        when self is Inner && region.divisible()
    {
        let q = region.quadrant_of(p.x as int, p.y as int);
        let child = match self.child(q) {
            Some(c) => *c,
            None => Shape::Leaf(Seq::empty()),
        };
        let (grown, rejected) = child.insert(region.quadrant(q), cap, p);
        (self.with_child(q, grown), rejected)
    }

    /// `hand_down` for each point of `points` in order.
    pub open spec fn hand_down_all(self, region: Region, cap: usize, points: Seq<Point>) -> (
        Shape,
        Seq<Rejection>,
    )
        decreases region.extent(), 1nat, points.len(),
        when self is Inner && region.divisible()
    {
        if points.len() == 0 {
            (self, Seq::empty())
        } else {
            let (before, rejected_before) = self.hand_down_all(region, cap, points.drop_last());
            let (after, rejected_last) = before.hand_down(region, cap, points.last());
            (after, rejected_before + rejected_last)
        }
    }
}

impl Tree {
    /// An index that holds no point yet: a single leaf.
    pub open spec fn empty(max_points: usize, region: Region) -> Tree {
        Tree { region, max_points, shape: Shape::Leaf(Seq::empty()) }
    }

    /// The invariant of the index's structure: the region is in range, a
    /// leaf can hold at least one point, and the capacity rule holds.
    pub open spec fn valid(self) -> bool {
        &&& self.region.in_range()
        &&& self.max_points >= 1
        &&& self.shape.fits(self.region, self.max_points)
    }

    /// Every point of every leaf lies in that leaf's region.
    pub open spec fn contained(self) -> bool {
        self.shape.contained(self.region)
    }

    /// Whether some leaf of the index holds `q` and covers it.
    pub open spec fn keeps(self, q: Point) -> bool {
        self.shape.keeps(self.region, q)
    }

    /// All points of the index, leaf by leaf.
    pub open spec fn stored(self) -> Seq<Point> {
        self.shape.stored()
    }

    /// How often the index holds each point.
    pub open spec fn census(self) -> Multiset<Point> {
        self.shape.census()
    }

    /// Whether the root is a leaf.
    pub open spec fn is_leaf(self) -> bool {
        self.shape is Leaf
    }

    /// The index after inserting `p`, and the points turned away.
    pub open spec fn insert(self, p: Point) -> (Tree, Seq<Rejection>) {
        let (shape, rejected) = self.shape.insert(self.region, self.max_points, p);
        (Tree { region: self.region, max_points: self.max_points, shape }, rejected)
    }

    /// The leaf that a lookup of `(x, y)` ends in, if it ends in one.
    pub open spec fn find_quad(self, x: int, y: int) -> Option<Tree> {
        self.shape.find_quad(self.region, self.max_points, x, y)
    }

    /// The figures of the whole index, in drawing order.
    pub open spec fn drawing(self) -> Seq<Figure> {
        self.shape.drawing(self.region)
    }

    /// Whether a tick of motion stays within the machine's integers. The
    /// field is the root's region, and only a root that is a leaf moves.
    pub open spec fn can_move(self) -> bool {
        match self.shape {
            Shape::Leaf(points) => all_can_tick(points, self.region.w as int, self.region.h as int),
            Shape::Inner { .. } => true,
        }
    }

    /// The index after a tick of motion: the points of a root that is a
    /// leaf are ticked, each against the list as it was before the tick,
    /// and a root that has divided stays as it is.
    pub open spec fn moved(self) -> Tree {
        match self.shape {
            Shape::Leaf(points) => Tree {
                region: self.region,
                max_points: self.max_points,
                shape: Shape::Leaf(
                    all_ticked(points, self.region.w as int, self.region.h as int),
                ),
            },
            Shape::Inner { .. } => self,
        }
    }

    /// The subtree in quadrant `q`, if the root has divided and has a child
    /// there.
    pub open spec fn child(self, q: Quadrant) -> Option<Tree> {
        match self.shape.child(q) {
            Some(c) => Some(
                Tree { region: self.region.quadrant(q), max_points: self.max_points, shape: *c },
            ),
            None => None,
        }
    }
}

} // verus!

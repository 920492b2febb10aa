//! The index itself: construction and insertion.

use vstd::prelude::*;
use crate::geometry::{Quadrant, Region};
use crate::growth::{lemma_hand_down, lemma_insert, lemma_quadrant_in_range};
use crate::model::{Figure, Shape, Tree};
use crate::motion::{all_can_tick, all_ticked, can_tick, tick, tick_fits, ticked};
use crate::point::{rejected_points, Point, Reason, Rejection};

verus! {

/// A node of the index together with all that hangs beneath it. The root
/// node is the index.
///
/// A node is a leaf as long as `points` is there, and an inner node, with up
/// to four children, once it is gone. A leaf that has divided never becomes
/// a leaf again.
#[derive(Debug)]
pub struct QuadTree {
    max_points: usize,
    region: Region,
    points: Option<Vec<Point>>,
    lt: Option<Box<QuadTree>>,
    lb: Option<Box<QuadTree>>,
    rt: Option<Box<QuadTree>>,
    rb: Option<Box<QuadTree>>,
}

impl View for QuadTree {
    type V = Tree;

    closed spec fn view(&self) -> Tree {
        Tree { region: self.region, max_points: self.max_points, shape: self.shape() }
    }
}

impl QuadTree {
    /// The shape of the node: its points, or its children's shapes.
    pub closed spec fn shape(&self) -> Shape
        decreases self,
    {
        match self.points {
            Some(points) => Shape::Leaf(points@),
            None => Shape::Inner {
                lt: Self::slot_shape(self.lt),
                lb: Self::slot_shape(self.lb),
                rt: Self::slot_shape(self.rt),
                rb: Self::slot_shape(self.rb),
            },
        }
    }

    spec fn slot_shape(slot: Option<Box<QuadTree>>) -> Option<Box<Shape>>
        decreases slot,
    {
        match slot {
            Some(c) => Some(Box::new(c.shape())),
            None => None,
        }
    }

    /// The node's own fields agree with its place in the index: a leaf has
    /// no children, and a child has the parent's capacity and the region of
    /// its quadrant.
    pub closed spec fn coherent(&self) -> bool
        decreases self,
    {
        match self.points {
            Some(_) => self.lt is None && self.lb is None && self.rt is None && self.rb is None,
            None => {
                &&& Self::slot_coherent(
                    self.lt,
                    self.region.quadrant(Quadrant::TopLeft),
                    self.max_points,
                )
                &&& Self::slot_coherent(
                    self.lb,
                    self.region.quadrant(Quadrant::BottomLeft),
                    self.max_points,
                )
                &&& Self::slot_coherent(
                    self.rt,
                    self.region.quadrant(Quadrant::TopRight),
                    self.max_points,
                )
                &&& Self::slot_coherent(
                    self.rb,
                    self.region.quadrant(Quadrant::BottomRight),
                    self.max_points,
                )
            },
        }
    }

    spec fn slot_coherent(slot: Option<Box<QuadTree>>, region: Region, cap: usize) -> bool
        decreases slot,
    {
        match slot {
            Some(c) => c.region == region && c.max_points == cap && c.coherent(),
            None => true,
        }
    }

    /// The invariant that every operation asks for and keeps: the node is
    /// laid out as its view says, and the view is valid.
    pub open spec fn wf(&self) -> bool {
        self.coherent() && self@.valid()
    }

    /// An index over the region with origin `(x, y)` and extents `(w, h)`,
    /// whose leaves hold up to `max_points` points each. It starts as one
    /// empty leaf.
    pub fn new(max_points: usize, w: i32, h: i32, x: i32, y: i32) -> (tree: Self)
        requires
            max_points >= 1,
            w > 0,
            h > 0,
            x + w <= i32::MAX,
            y + h <= i32::MAX,
        ensures
            tree.wf(),
            tree@ == Tree::empty(max_points, Region { x, y, w, h }),
    {
        Self::leaf(max_points, Region { x, y, w, h })
    }

    fn leaf(max_points: usize, region: Region) -> (tree: Self)
        requires
            max_points >= 1,
            region.in_range(),
        ensures
            tree.wf(),
            tree@ == Tree::empty(max_points, region),
    {
        QuadTree {
            max_points,
            region,
            points: Some(Vec::new()),
            lt: None,
            lb: None,
            rt: None,
            rb: None,
        }
    }

    /// `wf` for a child that may be absent, with the region and the capacity
    /// that its place gives it.
    spec fn slot_wf(slot: Option<Box<QuadTree>>, region: Region, cap: usize) -> bool {
        match slot {
            Some(c) => c.wf() && c.region == region && c.max_points == cap,
            None => true,
        }
    }

    /// The shape that an insertion into a child starts from: an absent
    /// child counts as an empty leaf.
    spec fn slot_or_leaf(slot: Option<Box<QuadTree>>) -> Shape {
        match slot {
            Some(c) => c.shape(),
            None => Shape::Leaf(Seq::empty()),
        }
    }

    /// Inserts `point` and returns the points that were turned away, each
    /// with the reason, in the order in which that happened.
    ///
    /// An inner node hands the point to the quadrant that receives it and
    /// creates that child where it is missing. A leaf turns away a point
    /// that its region does not cover and appends one for which it has room.
    /// A full leaf divides: it becomes an inner node and hands down its
    /// points in insertion order, then `point`. As the quadrants round their
    /// extents down, a point on the last row or column of a region of odd
    /// extent is turned away by the quadrant it is handed to. A full leaf
    /// that covers a single position cannot divide and turns `point` away.
    pub fn insert_point(&mut self, point: Point) -> (rejected: Vec<Rejection>)
        requires
            old(self).wf(),
        ensures
            final(self).wf(),
            (final(self)@, rejected@) == old(self)@.insert(point),
            old(self)@.contained() ==> final(self)@.contained(),
            final(self)@.census().add(rejected_points(rejected@).to_multiset()) == old(
                self,
            )@.census().insert(point),
        decreases old(self)@.region.extent(), 2nat,
    {
        proof {
            lemma_insert(self.shape(), self.region, self.max_points, point);
        }
        if self.points.is_none() {
            return self.hand_down(point);
        }
        if !self.region.contains(point.x, point.y) {
            let mut rejected: Vec<Rejection> = Vec::new();
            rejected.push(Rejection { point, reason: Reason::OutOfRegion });
            assert(rejected@ =~= seq![Rejection { point, reason: Reason::OutOfRegion }]);
            return rejected;
        }
        let mut points = self.points.take().unwrap();
        if points.len() < self.max_points {
            points.push(point);
            self.points = Some(points);
            return Vec::new();
        }
        if self.region.w == 0 && self.region.h == 0 {
            self.points = Some(points);
            let mut rejected: Vec<Rejection> = Vec::new();
            rejected.push(Rejection { point, reason: Reason::NoRoom });
            assert(rejected@ =~= seq![Rejection { point, reason: Reason::NoRoom }]);
            return rejected;
        }
        let ghost region = self.region;
        let ghost cap = self.max_points;
        let mut rejected: Vec<Rejection> = Vec::new();
        let mut i: usize = 0;
        assert(points@.take(0) =~= Seq::<Point>::empty());
        while i < points.len()
            invariant
                0 <= i <= points.len(),
                self.wf(),
                self.points is None,
                self.region == region,
                self.max_points == cap,
                region == old(self).region,
                (self.shape(), rejected@) == Shape::bare().hand_down_all(
                    region,
                    cap,
                    points@.take(i as int),
                ),
            decreases points.len() - i,
        {
            let mut more = self.hand_down(points[i]);
            rejected.append(&mut more);
            proof {
                assert(points@.take(i + 1).drop_last() =~= points@.take(i as int));
                assert(points@.take(i + 1).last() == points@[i as int]);
                assert(region.divisible());
            }
            i += 1;
        }
        let mut more = self.hand_down(point);
        rejected.append(&mut more);
        proof {
            assert(points@.take(i as int) =~= points@);
            assert(points@.push(point).drop_last() =~= points@);
            assert(region.divisible());
        }
        rejected
    }

    /// Hands `point` to the child in the quadrant that receives it.
    fn hand_down(&mut self, point: Point) -> (rejected: Vec<Rejection>)
        requires
            old(self).wf(),
            old(self).points is None,
        ensures
            final(self).wf(),
            final(self).points is None,
            final(self).region == old(self).region,
            final(self).max_points == old(self).max_points,
            (final(self).shape(), rejected@) == old(self).shape().hand_down(
                old(self).region,
                old(self).max_points,
                point,
            ),
        decreases old(self).region.extent(), 1nat,
    {
        let region = self.region;
        let cap = self.max_points;
        let q = region.locate(point.x, point.y);
        let sub = region.sub_region(q);
        proof {
            lemma_hand_down(self.shape(), region, cap, point);
            assert(region.divisible());
        }
        match q {
            Quadrant::TopLeft => Self::insert_into_slot(&mut self.lt, sub, cap, point),
            Quadrant::BottomLeft => Self::insert_into_slot(&mut self.lb, sub, cap, point),
            Quadrant::TopRight => Self::insert_into_slot(&mut self.rt, sub, cap, point),
            Quadrant::BottomRight => Self::insert_into_slot(&mut self.rb, sub, cap, point),
        }
    }

    /// Inserts `point` into the child in `slot`, which becomes an empty leaf
    /// over `region` first where it is missing.
    fn insert_into_slot(
        slot: &mut Option<Box<QuadTree>>,
        region: Region,
        cap: usize,
        point: Point,
    ) -> (rejected: Vec<Rejection>)
        requires
            region.in_range(),
            cap >= 1,
            Self::slot_wf(*old(slot), region, cap),
        ensures
            *final(slot) is Some,
            Self::slot_wf(*final(slot), region, cap),
            (final(slot).unwrap().shape(), rejected@) == Self::slot_or_leaf(*old(slot)).insert(
                region,
                cap,
                point,
            ),
        decreases region.extent(), 3nat,
    {
        let mut child = match slot.take() {
            Some(c) => c,
            None => Box::new(Self::leaf(cap, region)),
        };
        let rejected = child.insert_point(point);
        *slot = Some(child);
        rejected
    }

    /// The children of a well-formed inner node are well-formed, each over
    /// its quadrant.
    proof fn lemma_children_wf(&self)
        requires
            self.wf(),
            self.points is None,
        ensures
            self.region.divisible(),
            Self::slot_wf(self.lt, self.region.quadrant(Quadrant::TopLeft), self.max_points),
            Self::slot_wf(self.lb, self.region.quadrant(Quadrant::BottomLeft), self.max_points),
            Self::slot_wf(self.rt, self.region.quadrant(Quadrant::TopRight), self.max_points),
            Self::slot_wf(self.rb, self.region.quadrant(Quadrant::BottomRight), self.max_points),
    {
        lemma_quadrant_in_range(self.region, Quadrant::TopLeft);
        lemma_quadrant_in_range(self.region, Quadrant::BottomLeft);
        lemma_quadrant_in_range(self.region, Quadrant::TopRight);
        lemma_quadrant_in_range(self.region, Quadrant::BottomRight);
    }

    /// The view of a node that a lookup returned, if it returned one.
    pub open spec fn viewed(node: Option<&QuadTree>) -> Option<Tree> {
        match node {
            Some(n) => Some(n@),
            None => None,
        }
    }

    /// Looks up the leaf for the position `(x, y)`.
    ///
    /// Every node on the way tests the position against the full width and
    /// the upper half of the height of its region, and the lookup ends
    /// without a result where that fails. An inner node sends the lookup to
    /// the first child it has, in the order top-left, bottom-left,
    /// top-right, bottom-right: the quadrant in which the position lies
    /// plays no part. The result depends on the index and the position
    /// alone.
    pub fn find_quad(&self, x: i32, y: i32) -> (found: Option<&QuadTree>)
        requires
            self.wf(),
        ensures
            Self::viewed(found) == self@.find_quad(x as int, y as int),
            found is Some ==> found.unwrap().wf(),
            !self@.region.covers(x as int, y as int) ==> found is None,
        decreases self,
    {
        if !self.region.contains_in_upper_half(x, y) {
            return None;
        }
        if self.points.is_some() {
            return Some(self);
        }
        proof {
            self.lemma_children_wf();
        }
        if let Some(c) = &self.lt {
            return c.find_quad(x, y);
        }
        if let Some(c) = &self.lb {
            return c.find_quad(x, y);
        }
        if let Some(c) = &self.rt {
            return c.find_quad(x, y);
        }
        if let Some(c) = &self.rb {
            return c.find_quad(x, y);
        }
        None
    }

    /// The figures to draw, in drawing order: for each node the outline of
    /// its region, followed by the discs of its points if it is a leaf, or
    /// by the figures of its children if it is not.
    pub fn draw(&self) -> (figures: Vec<Figure>)
        requires
            self.wf(),
        ensures
            figures@ == self@.drawing(),
    {
        let mut figures: Vec<Figure> = Vec::new();
        self.draw_into(&mut figures);
        figures
    }

    /// Appends the figures of this node to `out`.
    fn draw_into(&self, out: &mut Vec<Figure>)
        requires
            self.wf(),
        ensures
            final(out)@ == old(out)@ + self.shape().drawing(self.region),
        decreases self,
    {
        out.push(Figure::Outline(self.region));
        match &self.points {
            Some(points) => {
                let mut i: usize = 0;
                while i < points.len()
                    invariant
                        0 <= i <= points.len(),
                        out@ == old(out)@ + seq![Figure::Outline(self.region)] + points@.take(
                            i as int,
                        ).map_values(|p: Point| Figure::Disc(p)),
                    decreases points.len() - i,
                {
                    out.push(Figure::Disc(points[i]));
                    proof {
                        assert(points@.take(i + 1) =~= points@.take(i as int).push(points@[i as int]));
                    }
                    i += 1;
                }
                proof {
                    assert(points@.take(i as int) =~= points@);
                }
            },
            None => {
                proof {
                    self.lemma_children_wf();
                }
                Self::draw_slot(&self.lt, out);
                Self::draw_slot(&self.lb, out);
                Self::draw_slot(&self.rt, out);
                Self::draw_slot(&self.rb, out);
            },
        }
    }

    /// Appends the figures of the child in `slot`, if there is one.
    fn draw_slot(slot: &Option<Box<QuadTree>>, out: &mut Vec<Figure>)
        requires
            slot is Some ==> slot.unwrap().wf(),
        ensures
            final(out)@ == old(out)@ + Shape::slot_drawing(
                Self::slot_shape(*slot),
                Self::slot_region(*slot),
            ),
        decreases slot,
    {
        if let Some(c) = slot {
            c.draw_into(out);
        }
    }

    /// Whether `move_point` may be called: no point of the leaf would leave
    /// the machine's integers.
    pub fn can_move(&self) -> (b: bool)
        requires
            self.wf(),
        ensures
            b == self@.can_move(),
    {
        match &self.points {
            Some(points) => {
                let mut i: usize = 0;
                while i < points.len()
                    invariant
                        0 <= i <= points.len(),
                        self.shape() == Shape::Leaf(points@),
                        forall|j: int|
                            0 <= j < i ==> can_tick(
                                #[trigger] points@[j],
                                points@,
                                self.region.w as int,
                                self.region.h as int,
                            ),
                    decreases points.len() - i,
                {
                    if !tick_fits(&points[i], points, self.region.w, self.region.h) {
                        assert(!can_tick(
                            points@[i as int],
                            points@,
                            self.region.w as int,
                            self.region.h as int,
                        ));
                        return false;
                    }
                    i += 1;
                }
                true
            },
            None => true,
        }
    }

    /// Advances the points of a leaf by one tick; an inner node is left as
    /// it is.
    ///
    /// The field is the node's own region taken from the origin: a point
    /// with radius `r` that stands at `w - r` gets the horizontal speed -1,
    /// one that stands at `r` gets +1, and likewise for `h` and the vertical
    /// speed. Then both speeds of a point are negated if another point of
    /// the leaf, at its place before the tick, differs from it in both
    /// coordinates by at most twice the radius. At last the point moves by
    /// its speeds. Points are not moved between leaves, and a point may
    /// leave the region of its leaf.
    pub fn move_point(&mut self)
        requires
            old(self).wf(),
            old(self)@.can_move(),
        ensures
            final(self).wf(),
            final(self)@ == old(self)@.moved(),
    {
        let w: i32 = self.region.w;
        let h: i32 = self.region.h;
        if self.points.is_none() {
            return ;
        }
        let before = self.points.take().unwrap();
        let mut after: Vec<Point> = Vec::new();
        let mut i: usize = 0;
        while i < before.len()
            invariant
                0 <= i <= before.len(),
                all_can_tick(before@, w as int, h as int),
                after@.len() == i,
                forall|j: int|
                    0 <= j < i ==> #[trigger] after@[j] == ticked(
                        before@[j],
                        before@,
                        w as int,
                        h as int,
                    ),
            decreases before.len() - i,
        {
            after.push(tick(&before[i], &before, w, h));
            i += 1;
        }
        proof {
            assert(after@ =~= all_ticked(before@, w as int, h as int));
        }
        self.points = Some(after);
    }

    /// The region of this node.
    pub fn region(&self) -> (region: Region)
        ensures
            region == self@.region,
    {
        self.region
    }

    /// The number of points that a leaf holds at most.
    pub fn max_points(&self) -> (max_points: usize)
        ensures
            max_points == self@.max_points,
    {
        self.max_points
    }

    /// Whether this node is a leaf.
    pub fn is_leaf(&self) -> (b: bool)
        ensures
            b == self@.is_leaf(),
    {
        self.points.is_some()
    }

    /// The points of this node, in insertion order, if it is a leaf.
    pub fn points(&self) -> (points: Option<&Vec<Point>>)
        ensures
            match points {
                Some(list) => self@.shape == Shape::Leaf(list@),
                None => self@.shape is Inner,
            },
    {
        self.points.as_ref()
    }

    /// The child in quadrant `q`, if this node has divided and has one
    /// there.
    pub fn child(&self, q: Quadrant) -> (child: Option<&QuadTree>)
        requires
            self.wf(),
        ensures
            Self::viewed(child) == self@.child(q),
            child is Some ==> child.unwrap().wf(),
    {
        if self.points.is_some() {
            return None;
        }
        proof {
            self.lemma_children_wf();
        }
        let slot = match q {
            Quadrant::TopLeft => &self.lt,
            Quadrant::BottomLeft => &self.lb,
            Quadrant::TopRight => &self.rt,
            Quadrant::BottomRight => &self.rb,
        };
        match slot {
            Some(c) => Some(&**c),
            None => None,
        }
    }

    /// All points at or beneath this node: those of a leaf in insertion
    /// order, those of an inner node child by child, top-left, bottom-left,
    /// top-right, bottom-right.
    pub fn stored(&self) -> (all: Vec<Point>)
        requires
            self.wf(),
        ensures
            all@ == self@.stored(),
    {
        let mut all: Vec<Point> = Vec::new();
        self.stored_into(&mut all);
        all
    }

    /// Appends the points at or beneath this node to `out`.
    fn stored_into(&self, out: &mut Vec<Point>)
        requires
            self.wf(),
        ensures
            final(out)@ == old(out)@ + self.shape().stored(),
        decreases self,
    {
        match &self.points {
            Some(points) => {
                let mut i: usize = 0;
                while i < points.len()
                    invariant
                        0 <= i <= points.len(),
                        out@ == old(out)@ + points@.take(i as int),
                    decreases points.len() - i,
                {
                    out.push(points[i]);
                    proof {
                        assert(points@.take(i + 1) =~= points@.take(i as int).push(points@[i as int]));
                    }
                    i += 1;
                }
                proof {
                    assert(points@.take(i as int) =~= points@);
                }
            },
            None => {
                proof {
                    self.lemma_children_wf();
                }
                Self::stored_slot(&self.lt, out);
                Self::stored_slot(&self.lb, out);
                Self::stored_slot(&self.rt, out);
                Self::stored_slot(&self.rb, out);
            },
        }
    }

    /// Appends the points of the child in `slot`, if there is one.
    fn stored_slot(slot: &Option<Box<QuadTree>>, out: &mut Vec<Point>)
        requires
            slot is Some ==> slot.unwrap().wf(),
        ensures
            final(out)@ == old(out)@ + Shape::slot_stored(Self::slot_shape(*slot)),
        decreases slot,
    {
        if let Some(c) = slot {
            c.stored_into(out);
        }
    }

    /// The region of the child in `slot`; of no account where it is absent.
    spec fn slot_region(slot: Option<Box<QuadTree>>) -> Region {
        match slot {
            Some(c) => c.region,
            None => Region { x: 0, y: 0, w: 0, h: 0 },
        }
    }

    /// A copy of this node and of all beneath it.
    fn duplicate(&self) -> (copy: Self)
        ensures
            copy.shape() == self.shape(),
            copy.region == self.region,
            copy.max_points == self.max_points,
            self.coherent() ==> copy.coherent(),
        decreases self,
    {
        let points = match &self.points {
            Some(list) => {
                let mut copied: Vec<Point> = Vec::new();
                let mut i: usize = 0;
                while i < list.len()
                    invariant
                        0 <= i <= list.len(),
                        copied@ == list@.take(i as int),
                    decreases list.len() - i,
                {
                    copied.push(list[i]);
                    proof {
                        assert(list@.take(i + 1) =~= list@.take(i as int).push(list@[i as int]));
                    }
                    i += 1;
                }
                proof {
                    assert(list@.take(i as int) =~= list@);
                }
                Some(copied)
            },
            None => None,
        };
        QuadTree {
            max_points: self.max_points,
            region: self.region,
            points,
            lt: Self::duplicate_slot(&self.lt),
            lb: Self::duplicate_slot(&self.lb),
            rt: Self::duplicate_slot(&self.rt),
            rb: Self::duplicate_slot(&self.rb),
        }
    }

    /// A copy of the child in `slot`, if there is one.
    fn duplicate_slot(slot: &Option<Box<QuadTree>>) -> (copy: Option<Box<QuadTree>>)
        ensures
            match (*slot, copy) {
                (Some(a), Some(b)) => {
                    &&& b.shape() == a.shape()
                    &&& b.region == a.region
                    &&& b.max_points == a.max_points
                    &&& a.coherent() ==> b.coherent()
                },
                (None, None) => true,
                _ => false,
            },
        decreases slot,
    {
        match slot {
            Some(c) => Some(Box::new(c.duplicate())),
            None => None,
        }
    }
}

impl Clone for QuadTree {
    /// A copy of the node and of all that hangs beneath it.
    fn clone(&self) -> (copy: Self)
        ensures
            copy@ == self@,
            self.wf() ==> copy.wf(),
    {
        self.duplicate()
    }
}

} // verus!

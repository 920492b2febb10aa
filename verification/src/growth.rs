//! What insertion preserves: the capacity rule, the containment rule and
//! the points themselves.

use vstd::prelude::*;
use vstd::multiset::Multiset;
use vstd::seq_lib::lemma_multiset_commutative;
use crate::geometry::{Quadrant, Region};
use crate::model::Shape;
use crate::point::{rejected_points, Point, Rejection};

verus! {

/// A quadrant of a region in range is in range, and it is smaller wherever
/// the region can be divided.
pub proof fn lemma_quadrant_in_range(region: Region, q: Quadrant)
    requires
        region.in_range(),
    ensures
        region.quadrant(q).in_range(),
        region.divisible() ==> region.quadrant(q).extent() < region.extent(),
{
}

/// The points beneath an inner node are those beneath its four children.
pub proof fn lemma_census_of_inner(s: Shape)
    requires
        s is Inner,
    ensures
        s.census() =~= Shape::slot_stored(s->lt).to_multiset().add(
            Shape::slot_stored(s->lb).to_multiset(),
        ).add(Shape::slot_stored(s->rt).to_multiset()).add(
            Shape::slot_stored(s->rb).to_multiset(),
        ),
{
    let a = Shape::slot_stored(s->lt);
    let b = Shape::slot_stored(s->lb);
    let c = Shape::slot_stored(s->rt);
    let d = Shape::slot_stored(s->rb);
    lemma_multiset_commutative(a, b);
    lemma_multiset_commutative(a + b, c);
    lemma_multiset_commutative(a + b + c, d);
}

/// Replacing one child of an inner node exchanges that child's points for
/// the new child's and leaves the rest.
pub proof fn lemma_census_with_child(s: Shape, q: Quadrant, c: Shape)
    requires
        s is Inner,
    ensures
        s.with_child(q, c) is Inner,
        s.with_child(q, c).census().add(Shape::slot_stored(s.child(q)).to_multiset())
            =~= s.census().add(c.census()),
{
    broadcast use vstd::multiset::group_multiset_axioms;

    let after = s.with_child(q, c);
    lemma_census_of_inner(s);
    lemma_census_of_inner(after);
    match q {
        Quadrant::TopLeft => {
            assert(Shape::slot_stored(after->lt) == c.stored());
        },
        Quadrant::BottomLeft => {
            assert(Shape::slot_stored(after->lb) == c.stored());
        },
        Quadrant::TopRight => {
            assert(Shape::slot_stored(after->rt) == c.stored());
        },
        Quadrant::BottomRight => {
            assert(Shape::slot_stored(after->rb) == c.stored());
        },
    }
}

/// An empty list holds no point.
pub proof fn lemma_empty_to_multiset()
    ensures
        Seq::<Point>::empty().to_multiset() =~= Multiset::<Point>::empty(),
{
    broadcast use vstd::seq_lib::group_to_multiset_ensures;

    let e = Seq::<Point>::empty();
    assert forall|a: Point| e.to_multiset().count(a) == 0 by {
        assert(!e.contains(a));
    }
}

/// The rejections of two lists joined are the rejections of each, joined.
pub proof fn lemma_rejected_points_add(a: Seq<Rejection>, b: Seq<Rejection>)
    ensures
        rejected_points(a + b) =~= rejected_points(a) + rejected_points(b),
        rejected_points(a + b).to_multiset() =~= rejected_points(a).to_multiset().add(
            rejected_points(b).to_multiset(),
        ),
{
    assert(rejected_points(a + b) =~= rejected_points(a) + rejected_points(b));
    lemma_multiset_commutative(rejected_points(a), rejected_points(b));
}

/// Inserting a point keeps the capacity rule and the containment rule, and
/// loses no point: each one held before, and the new one, is held
/// afterwards or is among the rejections.
pub proof fn lemma_insert(s: Shape, region: Region, cap: usize, p: Point)
    requires
        region.in_range(),
        cap >= 1,
        s.fits(region, cap),
    ensures
        s.insert(region, cap, p).0.fits(region, cap),
        s.contained(region) ==> s.insert(region, cap, p).0.contained(region),
        s.insert(region, cap, p).0.census().add(
            rejected_points(s.insert(region, cap, p).1).to_multiset(),
        ) =~= s.census().insert(p),
        s is Inner ==> s.insert(region, cap, p).0 is Inner,
    decreases region.extent(), 2nat, 0nat,
{
    broadcast use vstd::seq_lib::group_to_multiset_ensures;

    match s {
        Shape::Leaf(points) => {
            if !region.covers(p.x as int, p.y as int) {
                assert(rejected_points(s.insert(region, cap, p).1) =~= seq![p]);
                assert(seq![p] =~= Seq::<Point>::empty().push(p));
            } else if points.len() < cap {
                assert(rejected_points(s.insert(region, cap, p).1) =~= Seq::<Point>::empty());
            } else if !region.divisible() {
                assert(rejected_points(s.insert(region, cap, p).1) =~= seq![p]);
                assert(seq![p] =~= Seq::<Point>::empty().push(p));
            } else {
                lemma_hand_down_all(Shape::bare(), region, cap, points.push(p));
                assert(Shape::bare().stored() =~= Seq::<Point>::empty());
                lemma_empty_to_multiset();
            }
        },
        Shape::Inner { .. } => {
            lemma_hand_down(s, region, cap, p);
        },
    }
}

/// `lemma_insert` for an inner node that hands a point down.
pub proof fn lemma_hand_down(s: Shape, region: Region, cap: usize, p: Point)
    requires
        region.in_range(),
        cap >= 1,
        s is Inner,
        s.fits(region, cap),
    ensures
        s.hand_down(region, cap, p).0 is Inner,
        s.hand_down(region, cap, p).0.fits(region, cap),
        s.contained(region) ==> s.hand_down(region, cap, p).0.contained(region),
        s.hand_down(region, cap, p).0.census().add(
            rejected_points(s.hand_down(region, cap, p).1).to_multiset(),
        ) =~= s.census().insert(p),
    decreases region.extent(), 0nat, 0nat,
{
    assert(region.divisible());
    let q = region.quadrant_of(p.x as int, p.y as int);
    let child = match s.child(q) {
        Some(c) => *c,
        None => Shape::Leaf(Seq::empty()),
    };
    lemma_quadrant_in_range(region, q);
    lemma_insert(child, region.quadrant(q), cap, p);
    let (grown, rejected) = child.insert(region.quadrant(q), cap, p);
    let after = s.with_child(q, grown);
    lemma_census_with_child(s, q, grown);
    assert(child.stored() =~= Shape::slot_stored(s.child(q)));
    assert(after.census().add(rejected_points(rejected).to_multiset()) =~= s.census().insert(p)) by {
        broadcast use vstd::multiset::group_multiset_axioms;

        let held = Shape::slot_stored(s.child(q)).to_multiset();
        let turned = rejected_points(rejected).to_multiset();
        assert(after.census().add(held) == s.census().add(grown.census()));
        assert(grown.census().add(turned) == held.insert(p));
        assert forall|v: Point|
            after.census().add(turned).count(v) == s.census().insert(p).count(v) by {
            assert(after.census().add(held).count(v) == s.census().add(grown.census()).count(v));
            assert(grown.census().add(turned).count(v) == held.insert(p).count(v));
        }
    }
}

/// `lemma_insert` for an inner node that hands a list of points down.
pub proof fn lemma_hand_down_all(s: Shape, region: Region, cap: usize, points: Seq<Point>)
    requires
        region.in_range(),
        cap >= 1,
        s is Inner,
        s.fits(region, cap),
    ensures
        s.hand_down_all(region, cap, points).0 is Inner,
        s.hand_down_all(region, cap, points).0.fits(region, cap),
        s.contained(region) ==> s.hand_down_all(region, cap, points).0.contained(region),
        s.hand_down_all(region, cap, points).0.census().add(
            rejected_points(s.hand_down_all(region, cap, points).1).to_multiset(),
        ) =~= s.census().add(points.to_multiset()),
    decreases region.extent(), 1nat, points.len(),
{
    broadcast use vstd::seq_lib::group_to_multiset_ensures;

    assert(region.divisible());
    if points.len() == 0 {
        assert(rejected_points(Seq::<Rejection>::empty()) =~= Seq::<Point>::empty());
        assert(points =~= Seq::<Point>::empty());
        lemma_empty_to_multiset();
    } else {
        lemma_hand_down_all(s, region, cap, points.drop_last());
        let (before, rejected_before) = s.hand_down_all(region, cap, points.drop_last());
        lemma_hand_down(before, region, cap, points.last());
        let (after, rejected_last) = before.hand_down(region, cap, points.last());
        lemma_rejected_points_add(rejected_before, rejected_last);
        assert(points =~= points.drop_last().push(points.last()));
        assert(before is Inner);
        let turned_before = rejected_points(rejected_before).to_multiset();
        let turned_last = rejected_points(rejected_last).to_multiset();
        assert(after.census().add(turned_before.add(turned_last)) =~= s.census().add(
            points.to_multiset(),
        )) by {
            broadcast use vstd::multiset::group_multiset_axioms;

            assert(before.census().add(turned_before) == s.census().add(
                points.drop_last().to_multiset(),
            ));
            assert(after.census().add(turned_last) == before.census().insert(points.last()));
            assert(points.to_multiset() == points.drop_last().to_multiset().insert(points.last()));
            assert forall|v: Point|
                after.census().add(turned_before.add(turned_last)).count(v) == s.census().add(
                    points.to_multiset(),
                ).count(v) by {
                assert(before.census().add(turned_before).count(v) == s.census().add(
                    points.drop_last().to_multiset(),
                ).count(v));
                assert(after.census().add(turned_last).count(v) == before.census().insert(
                    points.last(),
                ).count(v));
            }
        }
    }
}

} // verus!

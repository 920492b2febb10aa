//! What holds of the index whatever is inserted, looked up or moved.

use vstd::prelude::*;
use vstd::seq_lib::lemma_seq_concat_contains_all_elements;
use crate::geometry::{Quadrant, Region};
use crate::growth::{lemma_insert, lemma_quadrant_in_range};
use crate::model::{Shape, Tree};
use crate::motion::{close_to, crowded, gap, next_speed_x, next_speed_y, reflected, ticked};
use crate::point::{rejected_points, Point, Reason, Rejection};

verus! {

/// An insertion keeps the index valid: no leaf holds more points than the
/// capacity allows. It keeps the region and the capacity, and if every
/// point lay in the region of its leaf before, every point does afterwards.
pub proof fn insert_keeps_the_rules(t: Tree, p: Point)
    requires
        t.valid(),
    ensures
        t.insert(p).0.valid(),
        t.insert(p).0.region == t.region,
        t.insert(p).0.max_points == t.max_points,
        t.contained() ==> t.insert(p).0.contained(),
{
    lemma_insert(t.shape, t.region, t.max_points, p);
}

/// An insertion loses no point: counted with multiplicity, the points held
/// afterwards together with those turned away are the points held before
/// together with the new one. So each of them is held afterwards or is
/// reported.
pub proof fn insert_loses_no_point(t: Tree, p: Point)
    requires
        t.valid(),
    ensures
        t.insert(p).0.census().add(rejected_points(t.insert(p).1).to_multiset())
            == t.census().insert(p),
        forall|q: Point|
            t.stored().contains(q) || q == p ==> #[trigger] t.insert(p).0.stored().contains(q)
                || rejected_points(t.insert(p).1).contains(q),
{
    broadcast use vstd::seq_lib::group_to_multiset_ensures;
    broadcast use vstd::multiset::group_multiset_axioms;

    lemma_insert(t.shape, t.region, t.max_points, p);
    let after = t.insert(p).0;
    let turned = rejected_points(t.insert(p).1);
    assert forall|q: Point| t.stored().contains(q) || q == p implies #[trigger] after.stored().contains(
        q,
    ) || turned.contains(q) by {
        assert(t.census().insert(p).count(q) > 0);
        assert(after.census().add(turned.to_multiset()).count(q) > 0);
        assert(after.stored().to_multiset().count(q) > 0 || turned.to_multiset().count(q) > 0);
    }
}

/// An insertion that turns nothing away stores the point, and keeps every
/// point that was stored.
pub proof fn accepted_point_is_stored(t: Tree, p: Point)
    requires
        t.valid(),
        t.insert(p).1.len() == 0,
    ensures
        t.insert(p).0.stored().contains(p),
        forall|q: Point| t.stored().contains(q) ==> #[trigger] t.insert(p).0.stored().contains(q),
        t.insert(p).0.census() == t.census().insert(p),
{
    broadcast use vstd::multiset::group_multiset_axioms;

    insert_loses_no_point(t, p);
    let turned = rejected_points(t.insert(p).1);
    assert(turned =~= Seq::<Point>::empty());
    crate::growth::lemma_empty_to_multiset();
    assert(t.insert(p).0.census().add(turned.to_multiset()) =~= t.insert(p).0.census());
    assert forall|q: Point| t.stored().contains(q) implies #[trigger] t.insert(p).0.stored().contains(
        q,
    ) by {
        assert(!turned.contains(q));
    }
    assert(!turned.contains(p));
}

/// Where every point lies in the region of its leaf, each stored point is
/// found by walking the index: some leaf holds it, and that leaf's region
/// covers it.
pub proof fn stored_point_has_its_leaf(s: Shape, region: Region, q: Point)
    requires
        s.contained(region),
        s.stored().contains(q),
    ensures
        s.keeps(region, q),
    decreases s,
{
    match s {
        Shape::Leaf(points) => {
            let i = choose|i: int| 0 <= i < points.len() && points[i] == q;
            assert(region.covers(points[i].x as int, points[i].y as int));
        },
        Shape::Inner { lt, lb, rt, rb } => {
            let a = Shape::slot_stored(lt);
            let b = Shape::slot_stored(lb);
            let c = Shape::slot_stored(rt);
            let d = Shape::slot_stored(rb);
            lemma_seq_concat_contains_all_elements(a + b + c, d, q);
            lemma_seq_concat_contains_all_elements(a + b, c, q);
            lemma_seq_concat_contains_all_elements(a, b, q);
            if a.contains(q) {
                stored_point_has_its_leaf(*lt.unwrap(), region.quadrant(Quadrant::TopLeft), q);
            } else if b.contains(q) {
                stored_point_has_its_leaf(*lb.unwrap(), region.quadrant(Quadrant::BottomLeft), q);
            } else if c.contains(q) {
                stored_point_has_its_leaf(*rt.unwrap(), region.quadrant(Quadrant::TopRight), q);
            } else {
                stored_point_has_its_leaf(*rb.unwrap(), region.quadrant(Quadrant::BottomRight), q);
            }
        },
    }
}

/// A point that was inserted and not turned away lies in a leaf whose
/// region covers it, and so does every point that was stored before and is
/// not reported, provided all points lay in their leaves' regions before.
pub proof fn inserted_point_has_its_leaf(t: Tree, p: Point, q: Point)
    requires
        t.valid(),
        t.contained(),
        t.stored().contains(q) || q == p,
        !rejected_points(t.insert(p).1).contains(q),
    ensures
        t.insert(p).0.keeps(q),
{
    insert_keeps_the_rules(t, p);
    insert_loses_no_point(t, p);
    assert(t.insert(p).0.stored().contains(q));
    stored_point_has_its_leaf(t.insert(p).0.shape, t.region, q);
}

/// A leaf never holds more points than the capacity: a full leaf that
/// receives a point it covers, and whose region can be divided, becomes an
/// inner node, which holds no points of its own.
pub proof fn full_leaf_divides(t: Tree, p: Point)
    requires
        t.valid(),
        t.shape is Leaf,
        t.shape->Leaf_0.len() == t.max_points,
        t.region.covers(p.x as int, p.y as int),
        t.region.divisible(),
    ensures
        t.insert(p).0.shape is Inner,
        t.insert(p).0.valid(),
{
    lemma_insert(t.shape, t.region, t.max_points, p);
    crate::growth::lemma_hand_down_all(
        Shape::bare(),
        t.region,
        t.max_points,
        t.shape->Leaf_0.push(p),
    );
}

/// A division loses no point: when a full leaf divides on the insertion of
/// `p` and nothing is turned away, each of its points and `p` is held
/// beneath the node that it has become, as often as before.
pub proof fn division_loses_no_point(t: Tree, p: Point)
    requires
        t.valid(),
        t.shape is Leaf,
        t.shape->Leaf_0.len() == t.max_points,
        t.region.covers(p.x as int, p.y as int),
        t.region.divisible(),
        t.insert(p).1.len() == 0,
    ensures
        t.insert(p).0.shape is Inner,
        t.insert(p).0.census() == t.shape->Leaf_0.to_multiset().insert(p),
        t.insert(p).0.stored().contains(p),
        forall|i: int|
            0 <= i < t.shape->Leaf_0.len() ==> t.insert(p).0.stored().contains(
                #[trigger] t.shape->Leaf_0[i],
            ),
{
    full_leaf_divides(t, p);
    accepted_point_is_stored(t, p);
    assert forall|i: int| 0 <= i < t.shape->Leaf_0.len() implies t.insert(p).0.stored().contains(
        #[trigger] t.shape->Leaf_0[i],
    ) by {
        assert(t.stored().contains(t.shape->Leaf_0[i]));
    }
}

/// A leaf turns away a point that its region does not cover and stays as
/// it is, and a lookup of that point's position finds nothing.
pub proof fn leaf_turns_away_what_it_does_not_cover(t: Tree, p: Point)
    requires
        t.shape is Leaf,
        !t.region.covers(p.x as int, p.y as int),
    ensures
        t.insert(p).0 == t,
        t.insert(p).1 == seq![Rejection { point: p, reason: Reason::OutOfRegion }],
        t.find_quad(p.x as int, p.y as int) is None,
{
}

/// A quadrant covers no position that its region does not cover.
pub proof fn quadrant_lies_in_its_region(region: Region, q: Quadrant, x: int, y: int)
    requires
        region.in_range(),
        region.quadrant(q).covers(x, y),
    ensures
        region.covers(x, y),
{
}

/// Whatever the shape of the index, a point that the root's region does
/// not cover is turned away as out of region, and the stored points stay as
/// they are. (An inner node on the way may gain an empty leaf.)
pub proof fn uncovered_point_is_turned_away(s: Shape, region: Region, cap: usize, p: Point)
    requires
        region.in_range(),
        s.fits(region, cap),
        !region.covers(p.x as int, p.y as int),
    ensures
        s.insert(region, cap, p).1 == seq![Rejection { point: p, reason: Reason::OutOfRegion }],
        s.insert(region, cap, p).0.stored() == s.stored(),
    decreases region.extent(),
{
    match s {
        Shape::Leaf(_) => {},
        Shape::Inner { lt, lb, rt, rb } => {
            let q = region.quadrant_of(p.x as int, p.y as int);
            let sub = region.quadrant(q);
            let child = match s.child(q) {
                Some(c) => *c,
                None => Shape::Leaf(Seq::empty()),
            };
            lemma_quadrant_in_range(region, q);
            if sub.covers(p.x as int, p.y as int) {
                quadrant_lies_in_its_region(region, q, p.x as int, p.y as int);
            }
            uncovered_point_is_turned_away(child, sub, cap, p);
            let grown = child.insert(sub, cap, p).0;
            assert(Shape::slot_stored(s.with_child(q, grown).child(q)) == grown.stored());
            assert(grown.stored() == Shape::slot_stored(s.child(q)));
            assert(s.with_child(q, grown).stored() =~= s.stored());
        },
    }
}

/// No lookup finds a leaf for a position that the root's region does not
/// cover.
pub proof fn lookup_outside_finds_nothing(t: Tree, x: int, y: int)
    requires
        t.region.in_range(),
        !t.region.covers(x, y),
    ensures
        t.find_quad(x, y) is None,
{
}

/// Two lookups of the same position in the same index give the same
/// result.
pub proof fn lookup_is_repeatable(t: Tree, x: int, y: int, first: Option<Tree>, second: Option<Tree>)
    requires
        first == t.find_quad(x, y),
        second == t.find_quad(x, y),
    ensures
        first == second,
{
}

/// A lookup that finds something finds a leaf, and the position passes that
/// leaf's test.
pub proof fn lookup_finds_a_leaf(s: Shape, region: Region, cap: usize, x: int, y: int)
    requires
        s.find_quad(region, cap, x, y) is Some,
    ensures
        s.find_quad(region, cap, x, y).unwrap().is_leaf(),
        s.find_quad(region, cap, x, y).unwrap().region.covers_upper_half(x, y),
        s.find_quad(region, cap, x, y).unwrap().max_points == cap,
    decreases s,
{
    match s {
        Shape::Leaf(_) => {},
        Shape::Inner { lt: Some(c), .. } => {
            lookup_finds_a_leaf(*c, region.quadrant(Quadrant::TopLeft), cap, x, y);
        },
        Shape::Inner { lt: None, lb: Some(c), .. } => {
            lookup_finds_a_leaf(*c, region.quadrant(Quadrant::BottomLeft), cap, x, y);
        },
        Shape::Inner { lt: None, lb: None, rt: Some(c), .. } => {
            lookup_finds_a_leaf(*c, region.quadrant(Quadrant::TopRight), cap, x, y);
        },
        Shape::Inner { lt: None, lb: None, rt: None, rb: Some(c) } => {
            lookup_finds_a_leaf(*c, region.quadrant(Quadrant::BottomRight), cap, x, y);
        },
        Shape::Inner { lt: None, lb: None, rt: None, rb: None } => {},
    }
}

/// A tick keeps the index valid, with its region, its capacity and the
/// number of its points.
pub proof fn tick_keeps_the_rules(t: Tree)
    requires
        t.valid(),
    ensures
        t.moved().valid(),
        t.moved().region == t.region,
        t.moved().max_points == t.max_points,
        t.moved().stored().len() == t.stored().len(),
{
}

/// A point with radius `r` that stands at `w - r` has the horizontal speed
/// -1 after the tick, and one that stands at `r`, and not at `w - r`, has
/// +1, unless a point nearby turns it round.
pub proof fn border_turns_the_horizontal_speed(p: Point, others: Seq<Point>, w: int, h: int)
    requires
        !crowded(p, others),
    ensures
        p.x == w - p.r ==> ticked(p, others, w, h).speed_x == -1,
        p.x == p.r && p.x != w - p.r ==> ticked(p, others, w, h).speed_x == 1,
        p.x != p.r && p.x != w - p.r ==> ticked(p, others, w, h).speed_x == p.speed_x,
{
}

/// A point with radius `r` that stands at `h - r` has the vertical speed -1
/// after the tick, and one that stands at `r`, and not at `h - r`, has +1,
/// unless a point nearby turns it round.
pub proof fn border_turns_the_vertical_speed(p: Point, others: Seq<Point>, w: int, h: int)
    requires
        !crowded(p, others),
    ensures
        p.y == h - p.r ==> ticked(p, others, w, h).speed_y == -1,
        p.y == p.r && p.y != h - p.r ==> ticked(p, others, w, h).speed_y == 1,
        p.y != p.r && p.y != h - p.r ==> ticked(p, others, w, h).speed_y == p.speed_y,
{
}

/// Two points of one leaf that differ in both coordinates, by no more than
/// twice the radius of either, both have their speeds negated in the same
/// tick: each ends with the opposite of the speed that the border rule gave
/// it.
pub proof fn near_points_both_turn(others: Seq<Point>, i: int, j: int, w: int, h: int)
    requires
        0 <= i < others.len(),
        0 <= j < others.len(),
        others[i].x != others[j].x,
        others[i].y != others[j].y,
        gap(others[i].x as int, others[j].x as int) <= 2 * others[i].r,
        gap(others[i].y as int, others[j].y as int) <= 2 * others[i].r,
        gap(others[i].x as int, others[j].x as int) <= 2 * others[j].r,
        gap(others[i].y as int, others[j].y as int) <= 2 * others[j].r,
    ensures
        next_speed_x(others[i], others, w) == -reflected(
            others[i].x as int,
            others[i].speed_x as int,
            w,
            others[i].r as int,
        ),
        next_speed_y(others[i], others, h) == -reflected(
            others[i].y as int,
            others[i].speed_y as int,
            h,
            others[i].r as int,
        ),
        next_speed_x(others[j], others, w) == -reflected(
            others[j].x as int,
            others[j].speed_x as int,
            w,
            others[j].r as int,
        ),
        next_speed_y(others[j], others, h) == -reflected(
            others[j].y as int,
            others[j].speed_y as int,
            h,
            others[j].r as int,
        ),
{
    assert(close_to(others[i], others[j]));
    assert(close_to(others[j], others[i]));
}

} // verus!

use quadtree::{Color, Figure, Point, QuadTree, Quadrant, Region};

const BLUE: Color = Color { r: 0, g: 121, b: 241, a: 255 };

fn at(x: i32, y: i32) -> Point {
    Point { x, y, speed_x: 1, speed_y: -1, r: 12, color: BLUE }
}

#[test]
fn lookup_in_a_leaf_tests_half_the_height() {
    let qt = QuadTree::new(4, 640, 640, 0, 0);
    assert_eq!(qt.find_quad(10, 10).unwrap().region(), qt.region());
    assert!(qt.find_quad(0, 0).is_some());
    assert!(qt.find_quad(640, 320).is_some());
    assert!(qt.find_quad(640, 321).is_none());
    assert!(qt.find_quad(10, 400).is_none());
    assert!(qt.find_quad(641, 10).is_none());
    assert!(qt.find_quad(-1, 10).is_none());
    assert!(qt.find_quad(10, -1).is_none());
}

#[test]
fn lookup_follows_the_first_child() {
    let mut qt = QuadTree::new(1, 640, 640, 0, 0);
    assert!(qt.insert_point(at(100, 100)).is_empty());
    assert!(qt.insert_point(at(500, 100)).is_empty());
    assert!(!qt.is_leaf());
    let found = qt.find_quad(100, 100).unwrap();
    assert_eq!(found.region(), Region { x: 0, y: 0, w: 320, h: 320 });
    assert_eq!(found.points(), Some(&vec![at(100, 100)]));
    assert!(qt.find_quad(500, 100).is_none());
    assert!(qt.find_quad(100, 200).is_none());
    assert_eq!(
        qt.child(Quadrant::TopRight).unwrap().points(),
        Some(&vec![at(500, 100)])
    );
}

#[test]
fn lookup_without_a_top_left_child_goes_to_the_next() {
    let mut qt = QuadTree::new(1, 640, 640, 0, 0);
    assert!(qt.insert_point(at(500, 300)).is_empty());
    assert!(qt.insert_point(at(600, 500)).is_empty());
    assert!(qt.child(Quadrant::TopLeft).is_none());
    assert!(qt.child(Quadrant::BottomLeft).is_none());
    let found = qt.find_quad(500, 100).unwrap();
    assert_eq!(found.region(), Region { x: 320, y: 0, w: 320, h: 320 });
    assert!(qt.find_quad(100, 100).is_none());
    assert!(qt.find_quad(500, 300).is_none());
}

#[test]
fn lookup_is_the_same_when_repeated() {
    let mut qt = QuadTree::new(2, 640, 640, 0, 0);
    for p in [at(10, 10), at(300, 20), at(50, 70), at(400, 400)] {
        qt.insert_point(p);
    }
    for (x, y) in [(10, 10), (300, 20), (50, 70), (400, 400), (700, 700), (0, 0)] {
        let first = qt.find_quad(x, y).map(|n| (n.region(), n.stored()));
        let second = qt.find_quad(x, y).map(|n| (n.region(), n.stored()));
        assert_eq!(first, second);
    }
}

#[test]
fn lookup_in_an_inner_node_without_children_finds_nothing() {
    let mut qt = QuadTree::new(1, 1, 1, 0, 0);
    assert!(qt.insert_point(at(1, 1)).is_empty());
    assert_eq!(qt.insert_point(at(1, 1)).len(), 2);
    assert!(!qt.is_leaf());
    assert!(qt.stored().is_empty());
    let rb = qt.child(Quadrant::BottomRight).unwrap();
    assert_eq!(rb.points(), Some(&vec![]));
    assert!(qt.find_quad(0, 0).is_some());
}

#[test]
fn drawing_lists_outlines_and_discs_in_order() {
    let mut qt = QuadTree::new(1, 100, 100, 0, 0);
    assert_eq!(
        qt.draw(),
        vec![Figure::Outline(Region { x: 0, y: 0, w: 100, h: 100 })]
    );
    qt.insert_point(at(60, 10));
    assert_eq!(
        qt.draw(),
        vec![
            Figure::Outline(Region { x: 0, y: 0, w: 100, h: 100 }),
            Figure::Disc(at(60, 10)),
        ]
    );
    qt.insert_point(at(10, 60));
    qt.insert_point(at(10, 10));
    assert_eq!(
        qt.draw(),
        vec![
            Figure::Outline(Region { x: 0, y: 0, w: 100, h: 100 }),
            Figure::Outline(Region { x: 0, y: 0, w: 50, h: 50 }),
            Figure::Disc(at(10, 10)),
            Figure::Outline(Region { x: 0, y: 50, w: 50, h: 50 }),
            Figure::Disc(at(10, 60)),
            Figure::Outline(Region { x: 50, y: 0, w: 50, h: 50 }),
            Figure::Disc(at(60, 10)),
        ]
    );
}

#[test]
fn region_quadrants_round_down() {
    let r = Region { x: 3, y: 4, w: 7, h: 9 };
    assert_eq!(r.sub_region(Quadrant::TopLeft), Region { x: 3, y: 4, w: 3, h: 4 });
    assert_eq!(r.sub_region(Quadrant::BottomLeft), Region { x: 3, y: 8, w: 3, h: 4 });
    assert_eq!(r.sub_region(Quadrant::TopRight), Region { x: 6, y: 4, w: 3, h: 4 });
    assert_eq!(r.sub_region(Quadrant::BottomRight), Region { x: 6, y: 8, w: 3, h: 4 });
    assert_eq!(r.locate(5, 7), Quadrant::TopLeft);
    assert_eq!(r.locate(6, 7), Quadrant::TopRight);
    assert_eq!(r.locate(5, 8), Quadrant::BottomLeft);
    assert_eq!(r.locate(6, 8), Quadrant::BottomRight);
    assert!(r.contains(10, 13));
    assert!(!r.contains(11, 13));
    assert!(r.contains_in_upper_half(10, 8));
    assert!(!r.contains_in_upper_half(10, 9));
}

#[test]
fn clone_copies_the_whole_index() {
    let mut qt = QuadTree::new(1, 100, 100, 0, 0);
    qt.insert_point(at(60, 10));
    qt.insert_point(at(10, 60));
    let copy = qt.clone();
    qt.insert_point(at(10, 10));
    assert_eq!(copy.stored(), vec![at(10, 60), at(60, 10)]);
    assert_eq!(copy.region(), qt.region());
    assert_eq!(copy.max_points(), 1);
    assert!(copy.child(Quadrant::TopLeft).is_none());
    assert_eq!(qt.stored(), vec![at(10, 10), at(10, 60), at(60, 10)]);
}

#[test]
fn region_tests_do_not_overflow() {
    let r = Region { x: i32::MAX - 10, y: i32::MIN, w: 10, h: i32::MAX };
    assert!(r.contains(i32::MAX, -1));
    assert!(!r.contains(i32::MAX - 11, -1));
    assert!(!r.contains(i32::MAX, 0));
    assert!(r.contains(i32::MAX - 10, i32::MIN));
    let wide = Region { x: i32::MAX, y: i32::MAX, w: i32::MAX, h: i32::MAX };
    assert!(wide.contains(i32::MAX, i32::MAX));
    assert!(!wide.contains(0, 0));
    assert_eq!(wide.locate(i32::MAX, i32::MAX), Quadrant::TopLeft);
    assert!(wide.contains_in_upper_half(i32::MAX, i32::MAX));
}

#[test]
fn index_with_an_origin_away_from_zero() {
    let mut qt = QuadTree::new(1, 10, 10, -5, -5);
    assert!(qt.insert_point(at(-5, -5)).is_empty());
    assert!(qt.insert_point(at(5, 5)).is_empty());
    assert!(qt.insert_point(at(0, -1)).is_empty());
    assert_eq!(
        qt.child(Quadrant::TopLeft).unwrap().region(),
        Region { x: -5, y: -5, w: 5, h: 5 }
    );
    assert_eq!(
        qt.child(Quadrant::TopRight).unwrap().points(),
        Some(&vec![at(0, -1)])
    );
    assert_eq!(
        qt.child(Quadrant::BottomRight).unwrap().region(),
        Region { x: 0, y: 0, w: 5, h: 5 }
    );
    assert_eq!(qt.stored(), vec![at(-5, -5), at(0, -1), at(5, 5)]);
}

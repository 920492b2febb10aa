use quadtree::motion::{is_close, is_crowded, reflect, tick, tick_fits};
use quadtree::{Color, Point, QuadTree};

const GREEN: Color = Color { r: 0, g: 228, b: 48, a: 255 };

fn moving(x: i32, y: i32, speed_x: i8, speed_y: i8) -> Point {
    Point { x, y, speed_x, speed_y, r: 12, color: GREEN }
}

#[test]
fn lone_point_moves_by_its_speed() {
    let mut qt = QuadTree::new(4, 800, 640, 0, 0);
    qt.insert_point(moving(100, 200, 1, -1));
    assert!(qt.can_move());
    qt.move_point();
    assert_eq!(qt.points(), Some(&vec![moving(101, 199, 1, -1)]));
    qt.move_point();
    assert_eq!(qt.points(), Some(&vec![moving(102, 198, 1, -1)]));
}

#[test]
fn right_border_turns_the_point_back() {
    let mut qt = QuadTree::new(4, 800, 640, 0, 0);
    qt.insert_point(moving(788, 300, 1, 1));
    qt.move_point();
    assert_eq!(qt.points(), Some(&vec![moving(787, 301, -1, 1)]));
}

#[test]
fn left_border_turns_the_point_forward() {
    let mut qt = QuadTree::new(4, 800, 640, 0, 0);
    qt.insert_point(moving(12, 300, -1, 1));
    qt.move_point();
    assert_eq!(qt.points(), Some(&vec![moving(13, 301, 1, 1)]));
}

#[test]
fn lower_and_upper_border_turn_the_vertical_speed() {
    let mut qt = QuadTree::new(4, 800, 640, 0, 0);
    qt.insert_point(moving(300, 628, 1, 1));
    qt.insert_point(moving(500, 12, 1, -1));
    qt.move_point();
    assert_eq!(
        qt.points(),
        Some(&vec![moving(301, 627, 1, -1), moving(501, 13, 1, 1)])
    );
}

#[test]
fn border_is_an_exact_position() {
    let mut qt = QuadTree::new(4, 800, 640, 0, 0);
    qt.insert_point(moving(789, 300, 3, 0));
    qt.insert_point(moving(787, 100, 3, 0));
    qt.move_point();
    assert_eq!(
        qt.points(),
        Some(&vec![moving(792, 300, 3, 0), moving(790, 100, 3, 0)])
    );
}

#[test]
fn near_points_both_turn_round() {
    let mut qt = QuadTree::new(4, 800, 640, 0, 0);
    qt.insert_point(moving(100, 100, 1, 1));
    qt.insert_point(moving(110, 124, -1, 2));
    qt.insert_point(moving(400, 400, 1, 1));
    qt.move_point();
    assert_eq!(
        qt.points(),
        Some(&vec![
            moving(99, 99, -1, -1),
            moving(111, 122, 1, -2),
            moving(401, 401, 1, 1),
        ])
    );
}

#[test]
fn points_in_line_do_not_turn() {
    let mut qt = QuadTree::new(4, 800, 640, 0, 0);
    qt.insert_point(moving(100, 100, 1, 1));
    qt.insert_point(moving(100, 110, 1, 1));
    qt.insert_point(moving(130, 100, 1, 1));
    qt.move_point();
    assert_eq!(
        qt.points(),
        Some(&vec![
            moving(101, 101, 1, 1),
            moving(101, 111, 1, 1),
            moving(131, 101, 1, 1),
        ])
    );
}

#[test]
fn nearness_goes_by_the_radius_of_the_moving_point() {
    let small = Point { x: 100, y: 100, speed_x: 1, speed_y: 1, r: 2, color: GREEN };
    let large = Point { x: 110, y: 110, speed_x: 1, speed_y: 1, r: 12, color: GREEN };
    assert!(!is_close(&small, &large));
    assert!(is_close(&large, &small));
    let mut qt = QuadTree::new(4, 800, 640, 0, 0);
    qt.insert_point(small);
    qt.insert_point(large);
    qt.move_point();
    assert_eq!(
        qt.points(),
        Some(&vec![
            Point { x: 101, y: 101, speed_x: 1, speed_y: 1, r: 2, color: GREEN },
            Point { x: 109, y: 109, speed_x: -1, speed_y: -1, r: 12, color: GREEN },
        ])
    );
}

#[test]
fn nearness_includes_twice_the_radius() {
    let p = moving(100, 100, 1, 1);
    assert!(is_close(&p, &moving(124, 124, 0, 0)));
    assert!(is_close(&p, &moving(76, 76, 0, 0)));
    assert!(!is_close(&p, &moving(125, 124, 0, 0)));
    assert!(!is_close(&p, &moving(124, 75, 0, 0)));
    assert!(!is_close(&p, &moving(100, 101, 0, 0)));
    assert!(!is_close(&p, &p));
    assert!(is_crowded(&p, &vec![p, moving(500, 500, 0, 0), moving(101, 101, 0, 0)]));
    assert!(!is_crowded(&p, &vec![p, moving(500, 500, 0, 0)]));
    assert!(!is_crowded(&p, &vec![]));
}

#[test]
fn border_comes_before_the_turn() {
    let mut qt = QuadTree::new(4, 800, 640, 0, 0);
    qt.insert_point(moving(788, 100, 1, 5));
    qt.insert_point(moving(780, 110, 1, 1));
    qt.move_point();
    assert_eq!(
        qt.points(),
        Some(&vec![moving(789, 95, 1, -5), moving(779, 109, -1, -1)])
    );
}

#[test]
fn reflect_prefers_the_far_border() {
    assert_eq!(reflect(788, 5, 800, 12), -1);
    assert_eq!(reflect(12, 5, 800, 12), 1);
    assert_eq!(reflect(12, 5, 24, 12), -1);
    assert_eq!(reflect(13, 5, 800, 12), 5);
    assert_eq!(reflect(0, -7, i32::MAX, i32::MIN), -7);
}

#[test]
fn tick_of_one_point_against_a_list() {
    let p = moving(10, 20, 2, -3);
    let others = vec![moving(15, 25, 0, 0)];
    assert!(tick_fits(&p, &others, 800, 640));
    assert_eq!(tick(&p, &others, 800, 640), moving(8, 23, -2, 3));
    assert_eq!(tick(&p, &vec![], 800, 640), moving(12, 17, 2, -3));
}

#[test]
fn inner_node_does_not_move() {
    let mut qt = QuadTree::new(1, 800, 640, 0, 0);
    qt.insert_point(moving(100, 100, 1, 1));
    qt.insert_point(moving(500, 500, 1, 1));
    assert!(!qt.is_leaf());
    assert!(qt.can_move());
    qt.move_point();
    assert_eq!(
        qt.stored(),
        vec![moving(100, 100, 1, 1), moving(500, 500, 1, 1)]
    );
}

#[test]
fn tick_that_leaves_the_integers_is_told_apart() {
    let mut qt = QuadTree::new(4, 800, 640, 0, 0);
    qt.insert_point(moving(100, 100, -128, 1));
    assert!(qt.can_move());
    qt.insert_point(moving(110, 110, 1, 1));
    assert!(!qt.can_move());

    let edge = Point { x: i32::MAX, y: 0, speed_x: 1, speed_y: 0, r: 12, color: GREEN };
    assert!(!tick_fits(&edge, &vec![], 800, 640));
    let back = Point { x: i32::MAX, y: 0, speed_x: -1, speed_y: 0, r: 12, color: GREEN };
    assert!(tick_fits(&back, &vec![], 800, 640));
    let low = Point { x: 0, y: i32::MIN, speed_x: 0, speed_y: -1, r: 12, color: GREEN };
    assert!(!tick_fits(&low, &vec![], 800, 640));
}

#[test]
fn moved_point_may_leave_its_region() {
    let mut qt = QuadTree::new(4, 800, 640, 0, 0);
    qt.insert_point(moving(800, 640, 5, 5));
    qt.move_point();
    assert_eq!(qt.points(), Some(&vec![moving(805, 645, 5, 5)]));
}

use player_motion::collision::{push_out, resolve};
use player_motion::geometry::{circle_overlaps, floor_sqrt, footprint_sq_dist, Obstacle, Point2};
use player_motion::player::UNITS_PER_METER;

const M: i64 = UNITS_PER_METER;

fn block(x: i64, z: i64, half_x: i64, half_z: i64) -> Obstacle {
    Obstacle { x, y: 0, z, half_x, half_y: 0, half_z }
}

#[test]
fn push_back_toward_approach_side() {
    // Player at (0, 0), radius 0.25; box centred at (0.5, 0) with half-extents
    // (0.5, 0.5); a step of (0.4, 0) lands inside it.
    let obstacles = [block(M / 2, 0, M / 2, M / 2)];
    let start = Point2 { x: 0, z: 0 };
    let step = Point2 { x: M * 2 / 5, z: 0 };
    let r = resolve(start, M / 4, Some(step), &obstacles);
    assert!(r.x <= -M / 4);
    assert_eq!(r, Point2 { x: -M / 4, z: 0 });
}

#[test]
fn no_input_is_a_no_op() {
    let obstacles = [block(0, 0, 100, 100)];
    let inside = Point2 { x: 10, z: -20 };
    assert_eq!(resolve(inside, 50, None, &obstacles), inside);
    assert_eq!(resolve(inside, 50, None, &[]), inside);
}

#[test]
fn resolving_again_changes_nothing() {
    let obstacles = [block(0, 0, 100, 100)];
    let first = resolve(Point2 { x: 0, z: 0 }, 50, Some(Point2 { x: 110, z: 103 }), &obstacles);
    let again = resolve(first, 50, Some(Point2 { x: 0, z: 0 }), &obstacles);
    assert_eq!(again, first);
}

#[test]
fn corner_push_goes_along_the_normal() {
    let o = block(0, 0, 100, 100);
    let r = push_out(Point2 { x: 120, z: 115 }, 50, &o);
    assert_eq!(r, Point2 { x: 140, z: 130 });
    assert!(footprint_sq_dist(r, &o) >= 50 * 50);
}

#[test]
fn corner_push_rounds_outward() {
    let o = block(0, 0, 100, 100);
    let r = push_out(Point2 { x: 110, z: 103 }, 50, &o);
    assert_eq!(r, Point2 { x: 148, z: 115 });
    assert!(footprint_sq_dist(r, &o) >= 50 * 50);
    assert!(footprint_sq_dist(r, &o) < 52 * 52);
}

#[test]
fn corner_push_stops_at_the_boundary() {
    // A centre one unit off the corner, diagonally: the push ends on the
    // circle of radius 50 round the corner (about 135.4), rounded outward.
    let o = block(0, 0, 100, 100);
    let r = push_out(Point2 { x: 101, z: 101 }, 50, &o);
    assert_eq!(r, Point2 { x: 136, z: 136 });
    assert!(footprint_sq_dist(r, &o) >= 50 * 50);
    assert!(footprint_sq_dist(r, &o) < 52 * 52);
}

#[test]
fn separated_obstacles_are_all_cleared() {
    // Boxes [-100, 100]^2 and [180, 280]^2, the second handled first.
    let first = block(0, 0, 100, 100);
    let second = block(230, 230, 50, 50);
    let obstacles = [second, first];
    let start = Point2 { x: 0, z: 0 };
    let r = resolve(start, 50, Some(Point2 { x: 101, z: 101 }), &obstacles);
    assert_eq!(r, Point2 { x: 136, z: 136 });
    for o in obstacles.iter() {
        assert!(footprint_sq_dist(r, o) >= 50 * 50);
    }
    assert_eq!(resolve(r, 50, Some(Point2 { x: 0, z: 0 }), &obstacles), r);
}

#[test]
fn every_obstacle_cleared_when_isolated() {
    let obstacles = [block(0, 0, 100, 100), block(1000, 0, 50, 300)];
    let r = resolve(Point2 { x: 0, z: 0 }, 40, Some(Point2 { x: 990, z: 250 }), &obstacles);
    for o in obstacles.iter() {
        assert!(footprint_sq_dist(r, o) >= 40 * 40);
    }
    assert_eq!(r, Point2 { x: 910, z: 250 });
}

#[test]
fn inside_leaves_through_nearest_face() {
    let o = block(0, 0, 100, 200);
    assert_eq!(push_out(Point2 { x: 0, z: 190 }, 10, &o), Point2 { x: 0, z: 210 });
    assert_eq!(push_out(Point2 { x: -90, z: 0 }, 10, &o), Point2 { x: -110, z: 0 });
}

#[test]
fn touching_is_not_penetrating() {
    let o = block(0, 0, 100, 100);
    let touching = Point2 { x: 150, z: 0 };
    assert_eq!(push_out(touching, 50, &o), touching);
    assert!(circle_overlaps(touching, 50, &o));
    assert!(!circle_overlaps(Point2 { x: 151, z: 0 }, 50, &o));
}

#[test]
fn degenerate_shapes_never_overlap() {
    let o = block(0, 0, 100, 100);
    let inside = Point2 { x: 10, z: 10 };
    assert_eq!(push_out(inside, 0, &o), inside);
    assert!(!circle_overlaps(inside, 0, &o));
    let flat = block(0, 0, 0, 100);
    assert_eq!(push_out(inside, 50, &flat), inside);
    assert!(!circle_overlaps(inside, 50, &flat));
}

#[test]
fn single_pass_keeps_registry_order() {
    // Two overlapping boxes: the first push lands inside the second, which
    // then pushes back; nothing is iterated further.
    let obstacles = [block(0, 0, 100, 100), block(150, 0, 100, 100)];
    let r = resolve(Point2 { x: 0, z: 0 }, 10, Some(Point2 { x: 60, z: 0 }), &obstacles);
    assert_eq!(r, Point2 { x: 40, z: 0 });
    assert!(footprint_sq_dist(r, &obstacles[0]) < 10 * 10);
}

#[test]
fn empty_registry_only_moves() {
    let r = resolve(Point2 { x: 5, z: 6 }, 10, Some(Point2 { x: -2, z: 3 }), &[]);
    assert_eq!(r, Point2 { x: 3, z: 9 });
}

#[test]
fn integer_square_root() {
    assert_eq!(floor_sqrt(0), 0);
    assert_eq!(floor_sqrt(1), 1);
    assert_eq!(floor_sqrt(109), 10);
    assert_eq!(floor_sqrt(625), 25);
    assert_eq!(floor_sqrt(u64::MAX as u128), 0xFFFF_FFFF);
    assert_eq!(floor_sqrt(u128::MAX), 0xFFFF_FFFF_FFFF_FFFF);
}

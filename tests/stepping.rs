use player_motion::geometry::{Obstacle, Point2};
use player_motion::player::UNITS_PER_METER;
use player_motion::stepping::resolve_height;

const M: i64 = UNITS_PER_METER;

#[test]
fn baseline_without_obstacles() {
    for (x, z) in [(0, 0), (1000, -5000), (-M, M)] {
        assert_eq!(resolve_height(Point2 { x, z }, 100, 7, M, &[]), 7 + M);
    }
}

#[test]
fn tallest_overlapped_top_wins() {
    // Tops at 1.0 and 2.0; the probe overlaps both.
    let low = Obstacle { x: 0, y: M / 2, z: 0, half_x: M, half_y: M / 2, half_z: M };
    let high = Obstacle { x: M, y: M, z: 0, half_x: M, half_y: M, half_z: M };
    let p = Point2 { x: M / 2, z: 0 };
    assert_eq!(resolve_height(p, M / 10, 0, M, &[low, high]), 2 * M + M);
    assert_eq!(resolve_height(p, M / 10, 0, M, &[high, low]), 2 * M + M);
}

#[test]
fn probe_reaches_adjacent_tops() {
    let cube = Obstacle { x: 0, y: M / 4, z: 0, half_x: M / 4, half_y: M / 4, half_z: M / 4 };
    let beside = Point2 { x: M / 4 + 3000, z: 0 };
    assert_eq!(resolve_height(beside, 1 + 3277, 0, M, &[cube]), M / 2 + M);
    assert_eq!(resolve_height(beside, 1, 0, M, &[cube]), M);
}

#[test]
fn obstacles_out_of_reach_are_ignored() {
    let far = Obstacle { x: 10 * M, y: 0, z: 0, half_x: M, half_y: 3 * M, half_z: M };
    assert_eq!(resolve_height(Point2 { x: 0, z: 0 }, M, -M, M, &[far]), 0);
}

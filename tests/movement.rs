use player_motion::geometry::Point2;
use player_motion::movement::{aggregate, Axis, Heading, AXIS_ONE};

const ONE: i64 = AXIS_ONE;

#[test]
fn no_direction_is_absent() {
    let h = Heading::forward();
    assert_eq!(aggregate(Axis { x: 0, y: 0 }, h, false, 100, 200, 16_000), None);
    assert_eq!(aggregate(Axis { x: 0, y: 0 }, h, true, 100, 200, 16_000), None);
}

#[test]
fn forward_is_negative_z() {
    let d = aggregate(Axis { x: 0, y: ONE }, Heading::forward(), false, 100, 150, 1_000_000);
    assert_eq!(d, Some(Point2 { x: 0, z: -100 }));
}

#[test]
fn sprint_scales_by_speed_ratio() {
    let h = Heading::forward();
    let axis = Axis { x: ONE / 2, y: ONE / 2 };
    let walk = aggregate(axis, h, false, 40_000, 60_000, 500_000).unwrap();
    let run = aggregate(axis, h, true, 40_000, 60_000, 500_000).unwrap();
    assert_eq!(walk, Point2 { x: 10_000, z: -10_000 });
    assert_eq!(run, Point2 { x: 15_000, z: -15_000 });
    assert_eq!(run.x * 40_000, walk.x * 60_000);
    assert_eq!(run.z * 40_000, walk.z * 60_000);
}

#[test]
fn diagonal_is_normalised() {
    let d = aggregate(Axis { x: ONE, y: -ONE }, Heading::forward(), false, 1_000_000, 0, 1_000_000)
        .unwrap();
    assert_eq!(d, Point2 { x: 707_113, z: 707_113 });
}

#[test]
fn short_input_is_not_lengthened() {
    let d = aggregate(Axis { x: ONE / 4, y: 0 }, Heading::forward(), false, 1000, 0, 1_000_000)
        .unwrap();
    assert_eq!(d, Point2 { x: 250, z: 0 });
}

#[test]
fn heading_turns_the_direction() {
    // A quarter turn: forward becomes negative x.
    let quarter = Heading { sin: ONE, cos: 0 };
    let d = aggregate(Axis { x: 0, y: ONE }, quarter, false, 100, 0, 1_000_000).unwrap();
    assert_eq!(d, Point2 { x: -100, z: 0 });
}

#[test]
fn zero_frame_time_gives_zero_step() {
    let d = aggregate(Axis { x: ONE, y: 0 }, Heading::forward(), false, 100, 0, 0);
    assert_eq!(d, Some(Point2 { x: 0, z: 0 }));
}

#[test]
fn long_frames_are_accepted() {
    // Ten seconds at 100 units per second.
    let d = aggregate(Axis { x: ONE, y: 0 }, Heading::forward(), false, 100, 0, 10_000_000);
    assert_eq!(d, Some(Point2 { x: 1_000, z: 0 }));
}

#[test]
fn zero_sprint_speed_stops_sprinting() {
    let d = aggregate(Axis { x: 0, y: ONE }, Heading::forward(), true, 100, 0, 1_000_000);
    assert_eq!(d, Some(Point2 { x: 0, z: 0 }));
}

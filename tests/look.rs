use player_motion::look::{update_look, Look, LookDelta, HALF_PI};

#[test]
fn pitch_stops_at_the_bounds() {
    let mut l = Look::level();
    for _ in 0..5 {
        l = update_look(l, LookDelta { x: 0, y: 4_000 }, 1_000);
        assert_eq!(l.pitch, -HALF_PI);
    }
    for _ in 0..5 {
        l = update_look(l, LookDelta { x: 0, y: -4_000 }, 1_000);
        assert_eq!(l.pitch, HALF_PI);
    }
}

#[test]
fn look_accumulates() {
    let l = update_look(Look::level(), LookDelta { x: -3, y: 4 }, 1_042);
    assert_eq!(l, Look { yaw: 3_126, pitch: -4_168 });
}

#[test]
fn yaw_accumulates_without_wrapping() {
    let l = update_look(Look::level(), LookDelta { x: 1, y: 0 }, 1_042);
    assert_eq!(l.yaw, -1_042);
    let l = update_look(l, LookDelta { x: 1, y: 0 }, 1_042);
    assert_eq!(l.yaw, -2_084);
    let mut l = Look::level();
    for _ in 0..10 {
        l = update_look(l, LookDelta { x: -1_000, y: 0 }, 1_000);
    }
    assert_eq!(l.yaw, 10_000_000);
}

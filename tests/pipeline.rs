use player_motion::geometry::{Obstacle, Point2};
use player_motion::grid::{gen_mesh, GridLine, Shade};
use player_motion::look::{LookDelta, HALF_PI};
use player_motion::movement::{Axis, Heading, AXIS_ONE};
use player_motion::player::{Player, PlayerAction, UNITS_PER_METER};
use player_motion::settings::{
    choose_display, fit_display, set_materials, DisplayMaterial, GameSettings, MaterialKind,
    MaterialMode,
};
use player_motion::sinphase::SinPhase;

const M: i64 = UNITS_PER_METER;

#[test]
fn player_defaults() {
    let p = Player::new();
    assert_eq!(p.move_input, None);
    assert_eq!(p.position, Point2 { x: 5 * M, z: 5 * M });
    assert_eq!(p.elevation, M);
    assert_eq!(p.fat, 1);
}

#[test]
fn default_is_new() {
    let a = Player::default();
    let b = Player::new();
    assert_eq!(a.position, b.position);
    assert_eq!(a.move_speed, b.move_speed);
    assert_eq!(a.sprint_speed, b.sprint_speed);
    assert_eq!(a.step_dist, b.step_dist);
    assert_eq!(a.look, b.look);
}

#[test]
fn frame_walks_onto_the_cube() {
    // The scene's cube: centred at (0, 0.25, 0), half a metre on each side.
    let cube = Obstacle { x: 0, y: M / 4, z: 0, half_x: M / 4, half_y: M / 4, half_z: M / 4 };
    let mut p = Player::new();
    p.position = Point2 { x: 0, z: M };
    p.movement_input(Axis { x: 0, y: AXIS_ONE }, Heading::forward(), false, 1_000_000);
    assert!(p.can_move_exec());
    p.physics(&[cube]);
    // The walk of 5.4 m ends inside the cube and is pushed out of its far side.
    assert_eq!(p.position, Point2 { x: 0, z: M - 353_894 });
    p.stepping(&[cube]);
    assert_eq!(p.elevation, M);
    p.position = Point2 { x: 0, z: M / 4 + 100 };
    p.stepping(&[cube]);
    assert_eq!(p.elevation, M / 2 + M);
}

#[test]
fn frame_without_input_stays_put() {
    let cube = Obstacle { x: 0, y: 0, z: 0, half_x: M, half_y: M, half_z: M };
    let mut p = Player::new();
    p.movement_input(Axis { x: 0, y: 0 }, Heading::forward(), true, 16_000);
    assert_eq!(p.move_input, None);
    let before = p.position;
    p.physics(&[cube]);
    assert_eq!(p.position, before);
}

#[test]
fn mouselook_clamps_pitch() {
    let mut p = Player::new();
    p.mouselook(LookDelta { x: 0, y: -10_000 }, 1_000);
    assert_eq!(p.look.pitch, HALF_PI);
}

#[test]
fn dual_axis_actions() {
    assert!(PlayerAction::Move.is_dual_axis());
    assert!(PlayerAction::Look.is_dual_axis());
    assert!(!PlayerAction::Click.is_dual_axis());
    assert!(!PlayerAction::Sprint.is_dual_axis());
}

#[test]
fn dynamic_materials_follow_the_setting() {
    let flat = GameSettings::default();
    let standard = GameSettings { flat: false, ..flat };
    assert_eq!(set_materials(flat, MaterialKind::Standard, MaterialMode::Dynamic), Some(MaterialKind::Flat));
    assert_eq!(set_materials(flat, MaterialKind::Flat, MaterialMode::Dynamic), None);
    assert_eq!(set_materials(standard, MaterialKind::Flat, MaterialMode::Dynamic), Some(MaterialKind::Standard));
    assert_eq!(set_materials(standard, MaterialKind::Flat, MaterialMode::Fixed), None);
}

#[test]
fn display_falls_back_without_quantizer() {
    let s = GameSettings::default();
    assert!(s.color_quantize && s.flat);
    assert_eq!(choose_display(s, true), (DisplayMaterial::Quantizer, s));
    let (d, after) = choose_display(s, false);
    assert_eq!(d, DisplayMaterial::Plain);
    assert!(!after.color_quantize && after.flat);
    let off = GameSettings { color_quantize: false, flat: false };
    assert_eq!(choose_display(off, true), (DisplayMaterial::Plain, off));
}

#[test]
fn display_fits_the_window() {
    assert_eq!(fit_display(1920, 1080, 320, 240), (1440, 1080));
    assert_eq!(fit_display(640, 960, 320, 240), (640, 480));
    assert_eq!(fit_display(320, 240, 320, 240), (320, 240));
}

#[test]
fn grid_lines() {
    let lines = gen_mesh(10);
    assert_eq!(lines.len(), 22);
    assert_eq!(lines[0], GridLine { x0: -5, z0: -5, x1: 5, z1: -5, shade: Shade::Regular });
    assert_eq!(lines[5], GridLine { x0: -5, z0: 0, x1: 5, z1: 0, shade: Shade::Axis });
    assert_eq!(lines[16], GridLine { x0: 0, z0: -5, x1: 0, z1: 5, shade: Shade::Axis });
    assert_eq!(lines[21], GridLine { x0: 5, z0: -5, x1: 5, z1: 5, shade: Shade::Regular });
    assert_eq!(gen_mesh(0).len(), 2);
}

#[test]
fn phase_wraps_each_cycle() {
    let mut s = SinPhase::new(250_000);
    s.tick(125_000);
    assert_eq!(s.phase_angle(), 3_141_592);
    s.tick(200_000);
    assert_eq!(s.elapsed, 75_000);
    s.tick(175_000);
    assert_eq!(s.phase_angle(), 0);
}

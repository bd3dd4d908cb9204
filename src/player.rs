//! The player: its state, and the per-frame stages that move it.
//!
//! Each frame runs `movement_input`, then `physics`, then `stepping`, each
//! reading what the previous stage committed; `mouselook` may run at any
//! point of the frame.
use vstd::prelude::*;

use crate::collision::{moved, push_all, resolve};
use crate::geometry::{all_wf, in_world, Obstacle, Point2, COORD_LIMIT, WORLD_LIMIT};
use crate::look::{clamp_pitch, update_look, Look, LookDelta, LOOK_LIMIT, YAW_LIMIT};
use crate::movement::{aggregate, displacement, Axis, Heading, MAX_FRAME_MICROS, SPEED_LIMIT};
use crate::stepping::{rest_height, resolve_height};

verus! {

/// Position units in a metre.
pub const UNITS_PER_METER: i64 = 0x1_0000;

/// Height of the ground the player stands on when no obstacle is underfoot.
pub const GROUND_LEVEL: i64 = 0;

/// What the player's input bindings can trigger.
#[derive(Clone, Copy, Debug, PartialEq, Eq, Structural)]
pub enum PlayerAction {
    Move,
    Look,
    Click,
    Sprint,
}

impl PlayerAction {
    /// Move and look read a pair of axes; click and sprint are buttons.
    pub fn is_dual_axis(self) -> (b: bool)
        ensures
            b <==> (self == PlayerAction::Move || self == PlayerAction::Look),
    {
        match self {
            PlayerAction::Move | PlayerAction::Look => true,
            PlayerAction::Click | PlayerAction::Sprint => false,
        }
    }
}

/// The player: where it stands, where it looks, and how it moves.
/// Lengths are in position units, speeds in position units per second.
#[derive(Clone, Copy, Debug)]
pub struct Player {
    pub move_speed: i64,
    pub sprint_speed: i64,
    pub look: Look,
    /// The displacement wanted this frame; `None` when there is no input.
    pub move_input: Option<Point2>,
    /// Eye height above what the player stands on.
    pub height: i64,
    /// Collision radius.
    pub fat: i64,
    /// How much wider than the collision circle the step probe reaches.
    pub step_dist: i64,
    /// Horizontal position.
    pub position: Point2,
    /// Vertical position of the eyes.
    pub elevation: i64,
}

impl Player {
    pub open spec fn wf(self) -> bool {
        &&& 0 <= self.move_speed <= SPEED_LIMIT
        &&& 0 <= self.sprint_speed <= SPEED_LIMIT
        &&& self.look.wf()
        &&& -COORD_LIMIT <= self.height <= COORD_LIMIT
        &&& 0 <= self.fat
        &&& 0 <= self.step_dist
        &&& self.fat + self.step_dist <= COORD_LIMIT
        &&& in_world(self.position@)
    }

    /// The candidate position of this frame's movement lies in the world
    /// (always so without movement).
    pub open spec fn can_move(self) -> bool {
        self.move_input matches Some(d) ==> in_world(moved(self.position, d))
    }

    /// A player standing level at (5, 1, 5) metres, walking at 5.4 and
    /// sprinting at 8.1 metres per second, eyes one metre up, with the
    /// smallest positive collision radius and a 5 cm step probe margin.
    pub fn new() -> (p: Player)
        ensures
            p.is_default(),
    {
        Player {
            move_speed: 353_894,
            sprint_speed: 530_842,
            look: Look::level(),
            move_input: None,
            height: UNITS_PER_METER,
            fat: 1,
            step_dist: 3_277,
            position: Point2 { x: 5 * UNITS_PER_METER, z: 5 * UNITS_PER_METER },
            elevation: UNITS_PER_METER,
        }
    }

    /// The default player is `Player::new()`.
    pub open spec fn is_default(self) -> bool {
        &&& self.wf()
        &&& self.move_input is None
        &&& self.look == (Look { yaw: 0, pitch: 0 })
        &&& self.move_speed == 353_894
        &&& self.sprint_speed == 530_842
        &&& self.height == UNITS_PER_METER
        &&& self.fat == 1
        &&& self.step_dist == 3_277
        &&& self.position.x == 5 * UNITS_PER_METER
        &&& self.position.z == 5 * UNITS_PER_METER
        &&& self.elevation == UNITS_PER_METER
    }

    /// Whether this frame's movement keeps the candidate position in the
    /// world, as `physics` needs.
    pub fn can_move_exec(&self) -> (b: bool)
        requires
            self.wf(),
        ensures
            b == self.can_move(),
    {
        match self.move_input {
            None => true,
            Some(d) => {
                let x = self.position.x as i128 + d.x as i128;
                let z = self.position.z as i128 + d.z as i128;
                -(WORLD_LIMIT as i128) <= x && x <= WORLD_LIMIT as i128
                    && -(WORLD_LIMIT as i128) <= z && z <= WORLD_LIMIT as i128
            },
        }
    }

    /// Turns raw movement input into this frame's displacement: `heading`
    /// holds the sine and cosine of the current yaw, `dt` the frame time in
    /// microseconds.
    pub fn movement_input(&mut self, axis: Axis, heading: Heading, sprinting: bool, dt: i64)
        requires
            old(self).wf(),
            axis.wf(),
            heading.wf(),
            0 <= dt <= MAX_FRAME_MICROS,
        ensures
            final(self).wf(),
            *final(self) == (Player { move_input: final(self).move_input, ..*old(self) }),
            final(self).move_input is None <==> axis.x == 0 && axis.y == 0,
            final(self).move_input matches Some(d) ==> d@ == displacement(
                axis,
                heading,
                if sprinting { old(self).sprint_speed as int } else { old(self).move_speed as int },
                dt as int,
            ),
    {
        self.move_input = aggregate(
            axis,
            heading,
            sprinting,
            self.move_speed,
            self.sprint_speed,
            dt,
        );
    }

    /// Applies this frame's displacement and pushes the player out of the
    /// obstacles, in slice order; without a displacement nothing happens.
    pub fn physics(&mut self, obstacles: &[Obstacle])
        requires
            old(self).wf(),
            old(self).can_move(),
            all_wf(obstacles@),
        ensures
            final(self).wf(),
            *final(self) == (Player { position: final(self).position, ..*old(self) }),
            old(self).move_input is None ==> final(self).position == old(self).position,
            old(self).move_input matches Some(d) ==> final(self).position@ == push_all(
                moved(old(self).position, d),
                old(self).fat as int,
                obstacles@,
            ),
    {
        self.position = resolve(self.position, self.fat, self.move_input, obstacles);
    }

    /// Sets the eye elevation from the obstacles under the step probe (the
    /// collision radius widened by `step_dist`), or from the ground.
    pub fn stepping(&mut self, obstacles: &[Obstacle])
        requires
            old(self).wf(),
            all_wf(obstacles@),
        ensures
            final(self).wf(),
            *final(self) == (Player { elevation: final(self).elevation, ..*old(self) }),
            final(self).elevation == rest_height(
                old(self).position@,
                old(self).fat + old(self).step_dist,
                GROUND_LEVEL as int,
                old(self).height as int,
                obstacles@,
            ),
    {
        self.elevation = resolve_height(
            self.position,
            self.fat + self.step_dist,
            GROUND_LEVEL,
            self.height,
            obstacles,
        );
    }

    /// Turns the view by this frame's look input.
    pub fn mouselook(&mut self, look_delta: LookDelta, sensitivity: i64)
        requires
            old(self).wf(),
            look_delta.wf(),
            0 <= sensitivity <= LOOK_LIMIT,
            -YAW_LIMIT <= old(self).look.yaw - look_delta.x * sensitivity <= YAW_LIMIT,
        ensures
            final(self).wf(),
            *final(self) == (Player { look: final(self).look, ..*old(self) }),
            final(self).look.yaw == old(self).look.yaw - look_delta.x * sensitivity,
            final(self).look.pitch == clamp_pitch(old(self).look.pitch - look_delta.y * sensitivity),
    {
        self.look = update_look(self.look, look_delta, sensitivity);
    }
}

impl Default for Player {
    /// The same player as `Player::new()`.
    fn default() -> (p: Self)
        ensures
            p.is_default(),
    {
        Player::new()
    }
}

} // verus!

//! The look controller: accumulated look input becomes yaw and pitch, in
//! microradians. The facing rotation is the yaw about the vertical axis
//! followed by the pitch about the local right axis, without roll.
use vstd::prelude::*;

use crate::geometry::clamp;

verus! {

/// A quarter turn, in microradians (pitch is clamped to plus or minus this).
pub const HALF_PI: i64 = 1_570_796;

/// Largest magnitude of the accumulated yaw, in microradians.
pub const YAW_LIMIT: i64 = 0x4000_0000_0000_0000;

/// Largest magnitude of a look input component, and largest sensitivity.
pub const LOOK_LIMIT: i64 = 0x100_0000;

/// Yaw and pitch in microradians.
#[derive(Clone, Copy, Debug, PartialEq, Eq, Structural)]
pub struct Look {
    pub yaw: i64,
    pub pitch: i64,
}

/// Look input for one frame, in input counts.
#[derive(Clone, Copy, Debug, PartialEq, Eq, Structural)]
pub struct LookDelta {
    pub x: i64,
    pub y: i64,
}

impl Look {
    /// Yaw within `YAW_LIMIT`, pitch within a quarter turn of level.
    pub open spec fn wf(self) -> bool {
        -YAW_LIMIT <= self.yaw <= YAW_LIMIT && -HALF_PI <= self.pitch <= HALF_PI
    }

    /// Level, facing down the negative `z` axis.
    pub fn level() -> (l: Look)
        ensures
            l.wf(),
            l.yaw == 0,
            l.pitch == 0,
    {
        Look { yaw: 0, pitch: 0 }
    }
}

impl LookDelta {
    pub open spec fn wf(self) -> bool {
        -LOOK_LIMIT <= self.x <= LOOK_LIMIT && -LOOK_LIMIT <= self.y <= LOOK_LIMIT
    }
}

/// A pitch clamped to a quarter turn either way.
pub open spec fn clamp_pitch(p: int) -> int {
    clamp(p, -HALF_PI as int, HALF_PI as int)
}

/// The pitch after lowering `pitch` by each of `turns` in order, clamping
/// after each.
pub open spec fn pitch_after(pitch: int, turns: Seq<int>) -> int
    decreases turns.len(),
{
    if turns.len() == 0 {
        pitch
    } else {
        clamp_pitch(pitch_after(pitch, turns.drop_last()) - turns.last())
    }
}

/// Turns the view by `look_delta` scaled by `sensitivity` (microradians per
/// input count): yaw and pitch both decrease by their input times the
/// sensitivity; yaw accumulates unbounded by the turn, pitch is clamped to a
/// quarter turn either way.
pub fn update_look(look: Look, look_delta: LookDelta, sensitivity: i64) -> (r: Look)
    requires
        look.wf(),
        look_delta.wf(),
        0 <= sensitivity <= LOOK_LIMIT,
        -YAW_LIMIT <= look.yaw - look_delta.x * sensitivity <= YAW_LIMIT,
    ensures
        r.wf(),
        r.yaw == look.yaw - look_delta.x * sensitivity,
        r.pitch == clamp_pitch(look.pitch - look_delta.y * sensitivity),
{
    assert(-0x1_0000_0000_0000 <= look_delta.x * sensitivity <= 0x1_0000_0000_0000
        && -0x1_0000_0000_0000 <= look_delta.y * sensitivity <= 0x1_0000_0000_0000)
        by (nonlinear_arith)
        requires
            look_delta.wf(),
            0 <= sensitivity <= LOOK_LIMIT,
    ;
    let yaw = look.yaw - look_delta.x * sensitivity;
    let p = look.pitch - look_delta.y * sensitivity;
    let pitch = if p < -HALF_PI {
        -HALF_PI
    } else if p > HALF_PI {
        HALF_PI
    } else {
        p
    };
    Look { yaw, pitch }
}

/// Pitch never leaves a quarter turn either way, however it is turned; and
/// once a turn overshoots the range, pitch rests exactly on the bound it
/// overshot: turns that each exceed the whole range leave it there.
pub proof fn lemma_pitch_clamped(pitch: int, turns: Seq<int>)
    requires
        -HALF_PI <= pitch <= HALF_PI,
    ensures
        -HALF_PI <= pitch_after(pitch, turns) <= HALF_PI,
        turns.len() > 0 && (forall|i: int| 0 <= i < turns.len() ==> #[trigger] turns[i] >= 2 * HALF_PI)
            ==> pitch_after(pitch, turns) == -HALF_PI,
        turns.len() > 0 && (forall|i: int| 0 <= i < turns.len() ==> #[trigger] turns[i] <= -2 * HALF_PI)
            ==> pitch_after(pitch, turns) == HALF_PI,
    decreases turns.len(),
{
    if turns.len() > 0 {
        lemma_pitch_clamped(pitch, turns.drop_last());
        assert(turns.last() == turns[turns.len() - 1]);
    }
}

} // verus!

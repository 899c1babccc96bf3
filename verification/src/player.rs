//! The camera: a fixed-point position and facing angle, moved once per tick
//! by the held movement keys.  Every movement is an exact fixed-point
//! computation, so the new camera state is fully determined by the old one
//! and the input.

use vstd::prelude::*;

verus! {

use crate::fixed::FP_TWO_PI;
use crate::fixed::FP_HALF_PI;
use crate::fixed::wrap_angle;
use crate::fixed::fp_mul;
use crate::trig::cos_fp;
use crate::trig::sin_fp;
use crate::trig::cos_fp_spec;
use crate::trig::sin_fp_spec;

/// Distance moved per tick while a movement key is held (0.1 world units).
pub const MOVE_STEP: i64 = 6554;

/// Angle turned per tick while a rotation key is held (0.01 radians).
pub const TURN_STEP: i64 = 655;

/// The greatest coordinate magnitude the camera may reach.
pub const POS_LIMIT: i64 = 0x100_0000_0000;

/// The camera: fixed-point world position and facing angle.
pub struct Player {
    pub pos_x: i64,
    pub pos_y: i64,
    pub rotation: i64,
}

/// The held movement keys for one tick.
pub struct InputState {
    pub forward: bool,
    pub backward: bool,
    pub strafe_left: bool,
    pub strafe_right: bool,
    pub turn_left: bool,
    pub turn_right: bool,
}

impl Player {
    /// A well-formed camera: the angle is reduced and the position is
    /// within the world bounds.
    pub open spec fn wf(&self) -> bool {
        &&& 0 <= self.rotation < FP_TWO_PI as int
        &&& -POS_LIMIT as int <= self.pos_x <= POS_LIMIT as int
        &&& -POS_LIMIT as int <= self.pos_y <= POS_LIMIT as int
    }

    /// Builds a camera from a fixed-point position and facing angle.
    pub fn new(x: i64, y: i64, rotation: i64) -> (p: Player)
        requires
            0 <= rotation < FP_TWO_PI,
            -POS_LIMIT <= x <= POS_LIMIT,
            -POS_LIMIT <= y <= POS_LIMIT,
        ensures
            p.pos_x == x,
            p.pos_y == y,
            p.rotation == rotation,
            p.wf(),
    {
        Player { rotation, pos_x: x, pos_y: y }
    }
}

/// One tick of movement along the facing direction (or a quarter turn off
/// it, for strafing): the position advances by `MOVE_STEP` scaled by the
/// direction cosine and sine.
pub open spec fn walked(p: Player, angle: int, sign: int) -> Player {
    Player {
        pos_x: (p.pos_x + sign * (cos_fp_spec(angle) * (MOVE_STEP as int) / 65536)) as i64,
        pos_y: (p.pos_y + sign * (sin_fp_spec(angle) * (MOVE_STEP as int) / 65536)) as i64,
        rotation: p.rotation,
    }
}

/// The camera after one tick of held input, applied in a fixed order:
/// forward, backward, the two strafes, then the two turns.
pub open spec fn moved_player(p: Player, input: InputState) -> Player {
    let p1 = if input.forward {
        walked(p, p.rotation as int, 1)
    } else {
        p
    };
    let p2 = if input.backward {
        walked(p1, p1.rotation as int, -1)
    } else {
        p1
    };
    let p3 = if input.strafe_left {
        walked(p2, (p2.rotation - FP_HALF_PI as int) % (FP_TWO_PI as int), 1)
    } else {
        p2
    };
    let p4 = if input.strafe_right {
        walked(p3, (p3.rotation + FP_HALF_PI as int) % (FP_TWO_PI as int), 1)
    } else {
        p3
    };
    let p5 = if input.turn_right {
        Player { rotation: ((p4.rotation + TURN_STEP as int) % (FP_TWO_PI as int)) as i64, ..p4 }
    } else {
        p4
    };
    if input.turn_left {
        Player {
            rotation: ((p5.rotation - TURN_STEP as int) % (FP_TWO_PI as int)) as i64,
            ..p5
        }
    } else {
        p5
    }
}

/// Applies one tick of held input to the camera.  The new state is exactly
/// `moved_player` of the old state, and stays well formed.
pub fn move_player(player: &mut Player, input: &InputState)
    requires
        old(player).wf(),
        -POS_LIMIT + 0x40000 <= old(player).pos_x <= POS_LIMIT - 0x40000,
        -POS_LIMIT + 0x40000 <= old(player).pos_y <= POS_LIMIT - 0x40000,
    ensures
        *final(player) == moved_player(*old(player), *input),
        final(player).wf(),
{
    if input.forward {
        let c = cos_fp(player.rotation);
        let s = sin_fp(player.rotation);
        player.pos_x = player.pos_x + fp_mul(c, MOVE_STEP);
        player.pos_y = player.pos_y + fp_mul(s, MOVE_STEP);
    }
    if input.backward {
        let c = cos_fp(player.rotation);
        let s = sin_fp(player.rotation);
        player.pos_x = player.pos_x - fp_mul(c, MOVE_STEP);
        player.pos_y = player.pos_y - fp_mul(s, MOVE_STEP);
    }
    if input.strafe_left {
        let a = wrap_angle(player.rotation - FP_HALF_PI);
        let c = cos_fp(a);
        let s = sin_fp(a);
        player.pos_x = player.pos_x + fp_mul(c, MOVE_STEP);
        player.pos_y = player.pos_y + fp_mul(s, MOVE_STEP);
    }
    if input.strafe_right {
        let a = wrap_angle(player.rotation + FP_HALF_PI);
        let c = cos_fp(a);
        let s = sin_fp(a);
        player.pos_x = player.pos_x + fp_mul(c, MOVE_STEP);
        player.pos_y = player.pos_y + fp_mul(s, MOVE_STEP);
    }
    if input.turn_right {
        player.rotation = wrap_angle(player.rotation + TURN_STEP);
    }
    if input.turn_left {
        player.rotation = wrap_angle(player.rotation - TURN_STEP);
    }
}

} // verus!

//! Player intent: the per-entity record the input layer fills once per
//! cycle, and how the movement stage turns it into velocity changes.

use vstd::prelude::*;

use crate::markers::{spec_active, Markers, Tag};
use crate::movement::Speed;
use crate::VEL_LIMIT;

verus! {

/// Horizontal acceleration one held direction key adds per step, in units
/// (0.06 of a cell).
pub const WALK_ACCEL: i64 = 600;

/// Upward impulse of a jump, in units (0.7 of a cell per step).
pub const JUMP_IMPULSE: i64 = 7_000;

/// Requested horizontal direction.
#[derive(Clone, Copy, Debug, PartialEq, Eq, Structural)]
pub enum PlayerDirection {
    Left,
    Right,
}

/// Per-entity intent record: filled by input polling, consumed once by the
/// movement stage, then reset.
#[derive(Clone, Copy, Debug, PartialEq, Eq, Structural)]
pub struct PlayerIntent {
    pub direction: Option<PlayerDirection>,
    pub jump: bool,
}

impl PlayerIntent {
    /// Clear the record after it has been consumed.
    fn reset(&mut self)
        ensures
            final(self).direction is None,
            !final(self).jump,
    {
        *self = PlayerIntent { direction: None, jump: false };
    }
}

impl Default for PlayerIntent {
    /// No direction held, no jump requested.
    fn default() -> (intent: PlayerIntent)
        ensures
            intent.direction is None,
            !intent.jump,
    {
        PlayerIntent { direction: None, jump: false }
    }
}

/// The horizontal velocity change an intent asks for.
pub open spec fn spec_walk_accel(direction: Option<PlayerDirection>) -> int {
    match direction {
        Some(PlayerDirection::Left) => -WALK_ACCEL as int,
        Some(PlayerDirection::Right) => WALK_ACCEL as int,
        None => 0,
    }
}

/// Consume a player's intent: accelerate in the held direction, jump only
/// while a live on-ground marker grants eligibility, and reset the record.
pub fn move_player(speed: &mut Speed, intent: &mut PlayerIntent, markers: &Markers, now: u64)
    requires
        old(speed).wf(),
        -VEL_LIMIT + WALK_ACCEL <= old(speed).velocity.x <= VEL_LIMIT - WALK_ACCEL,
        old(speed).velocity.y <= VEL_LIMIT - JUMP_IMPULSE,
    ensures
        final(speed).velocity.x == old(speed).velocity.x + spec_walk_accel(old(intent).direction),
        final(speed).velocity.y == old(speed).velocity.y + (if old(intent).jump && spec_active(
            markers@,
            Tag::OnGround,
            now,
        ) {
            JUMP_IMPULSE as int
        } else {
            0
        }),
        final(speed).friction == old(speed).friction,
        final(speed).wf(),
        final(intent).direction is None,
        !final(intent).jump,
{
    match intent.direction {
        Some(PlayerDirection::Left) => {
            speed.velocity.x = speed.velocity.x - WALK_ACCEL;
        },
        Some(PlayerDirection::Right) => {
            speed.velocity.x = speed.velocity.x + WALK_ACCEL;
        },
        None => {},
    }
    if intent.jump && markers.contains(Tag::OnGround, now) {
        speed.velocity.y = speed.velocity.y + JUMP_IMPULSE;
    }
    intent.reset();
}

} // verus!

//! The standalone player model of the simple game loop: run damping,
//! gravity and a floor, and the keyboard commands that steer it.

use vstd::prelude::*;
use crate::input::{Command, Movement};
use crate::physics::clamp_i32;

verus! {

/// What the player is doing.
#[derive(Clone, Copy, Debug, PartialEq, Eq, Structural)]
pub enum State {
    Idle,
    Run,
    Peck,
}

/// Height of the floor the player stands on.
pub const FLOOR_Y: i32 = 200;

/// Fastest rightward run speed.
pub const MAX_RUN_SPEED: i32 = 20;

/// Downward speed gained per tick in the air.
pub const GRAVITY: i32 = 10;

/// Upward speed a jump adds.
pub const JUMP_IMPULSE: i32 = 40;

/// Speed change per run key press.
pub const RUN_STEP: i32 = 5;

/// `x` damped to 98%, truncated toward zero.
pub open spec fn damped(x: int) -> int {
    if x >= 0 {
        (x * 49) / 50
    } else {
        -(((-x) * 49) / 50)
    }
}

/// The player's state, position and velocity.
pub struct PlayerState {
    pub state: State,
    pub position: (i32, i32),
    pub velocity: (i32, i32),
}

impl PlayerState {
    /// Idle at (100, 100), not moving.
    pub fn new() -> (r: Self)
        ensures
            r.state == State::Idle,
            r.position == (100i32, 100i32),
            r.velocity == (0i32, 0i32),
    {
        PlayerState { state: State::Idle, position: (100, 100), velocity: (0, 0) }
    }

    /// One tick: the horizontal speed is capped at the run limit and damped
    /// to 98%, the player moves by its speed, then lands on the floor
    /// (stopping its fall) or falls faster. Sums saturate at the `i32`
    /// bounds.
    pub fn update(&mut self)
        ensures
            final(self).state == old(self).state,
            ({
                let (x, y) = old(self).position;
                let (vx, vy) = old(self).velocity;
                let cx = if vx < MAX_RUN_SPEED { vx as int } else { MAX_RUN_SPEED as int };
                let nvx = damped(cx);
                let nx = clamp_i32(x + nvx);
                let ny = clamp_i32(y + vy);
                &&& final(self).position.0 == nx
                &&& final(self).velocity.0 == nvx
                &&& if ny > FLOOR_Y {
                    final(self).position.1 == FLOOR_Y && final(self).velocity.1 == 0
                } else {
                    final(self).position.1 == ny && final(self).velocity.1 == clamp_i32(vy + GRAVITY)
                }
            }),
    {
        let (x, y) = self.position;
        let (vx, vy) = self.velocity;
        let cx: i64 = if vx < MAX_RUN_SPEED { vx as i64 } else { MAX_RUN_SPEED as i64 };
        let nvx: i64 = if cx >= 0 { (cx * 49) / 50 } else { -(((-cx) * 49) / 50) };
        let nx = clamp_i64(x as i64 + nvx);
        let ny = clamp_i64(y as i64 + vy as i64);
        if ny > FLOOR_Y {
            self.position = (nx, FLOOR_Y);
            self.velocity = (nvx as i32, 0);
        } else {
            self.position = (nx, ny);
            self.velocity = (nvx as i32, clamp_i64(vy as i64 + GRAVITY as i64));
        }
    }

    /// Applies one keyboard command; returns false for a quit. Pressing
    /// up jumps; pressing left or right reverses any opposite motion and
    /// speeds up that way; releasing left or right settles at the walking
    /// speed that way.
    pub fn apply(&mut self, command: Command) -> (r: bool)
        ensures
            r == (command != Command::Quit),
            final(self).state == old(self).state,
            final(self).position == old(self).position,
            ({
                let (vx, vy) = old(self).velocity;
                final(self).velocity == match command {
                    Command::Press(Movement::UP) => (vx, clamp_i32(vy - JUMP_IMPULSE)),
                    Command::Press(Movement::LEFT) => (
                        clamp_i32((if vx > 0 { -RUN_STEP as int } else { vx as int }) - RUN_STEP),
                        vy,
                    ),
                    Command::Press(Movement::RIGHT) => (
                        clamp_i32((if vx < 0 { RUN_STEP as int } else { vx as int }) + RUN_STEP),
                        vy,
                    ),
                    Command::Release(Movement::LEFT) => ((-RUN_STEP) as i32, vy),
                    Command::Release(Movement::RIGHT) => (RUN_STEP, vy),
                    _ => (vx, vy),
                }
            }),
    {
        let (vx, vy) = self.velocity;
        match command {
            Command::Quit => {
                return false;
            },
            Command::Press(Movement::UP) => {
                self.velocity = (vx, clamp_i64(vy as i64 - JUMP_IMPULSE as i64));
            },
            Command::Press(Movement::LEFT) => {
                let base: i64 = if vx > 0 { -RUN_STEP as i64 } else { vx as i64 };
                self.velocity = (clamp_i64(base - RUN_STEP as i64), vy);
            },
            Command::Press(Movement::RIGHT) => {
                let base: i64 = if vx < 0 { RUN_STEP as i64 } else { vx as i64 };
                self.velocity = (clamp_i64(base + RUN_STEP as i64), vy);
            },
            Command::Release(Movement::LEFT) => {
                self.velocity = (-RUN_STEP, vy);
            },
            Command::Release(Movement::RIGHT) => {
                self.velocity = (RUN_STEP, vy);
            },
            _ => {},
        }
        true
    }
}

/// `v` clamped to the `i32` range.
fn clamp_i64(v: i64) -> (r: i32)
    ensures
        r == clamp_i32(v as int),
{
    if v > i32::MAX as i64 {
        i32::MAX
    } else if v < i32::MIN as i64 {
        i32::MIN
    } else {
        v as i32
    }
}

} // verus!

//! The game's component types and the value stored in the component store.

use vstd::prelude::*;

verus! {

/// Velocity in pixels per tick.
#[derive(Clone, Copy, Debug, PartialEq, Eq, Structural)]
pub struct Velocity(pub i32, pub i32);

/// Top-left position in pixels.
#[derive(Clone, Copy, Debug, PartialEq, Eq, Structural)]
pub struct Position(pub i32, pub i32);

/// Width and height in pixels.
#[derive(Clone, Copy, Debug, PartialEq, Eq, Structural)]
pub struct Size(pub i32, pub i32);

/// A drawable sprite instance: its animation-state index and frame size.
#[derive(Clone, Copy, Debug, PartialEq, Eq, Structural)]
pub struct SpriteHandle {
    pub index: usize,
    pub width: usize,
    pub height: usize,
    pub scale: usize,
}

/// A sprite drawn from a fixed frame: the sheet's index and the frame.
#[derive(Clone, Copy, Debug, PartialEq, Eq, Structural)]
pub struct StaticSprite(pub usize, pub usize);

/// The two-state animation signal derived from input.
#[derive(Clone, Copy, Debug, PartialEq, Eq, Structural)]
pub enum InputState {
    Idle,
    Running,
}

/// The input signal last applied to an entity, if any.
#[derive(Clone, Copy, Debug, PartialEq, Eq, Structural)]
pub struct InputHandler(pub Option<InputState>);

/// How an entity takes part in collisions.
#[derive(Clone, Copy, Debug, PartialEq, Eq, Structural)]
pub enum CollisionType {
    /// Never moved by collisions.
    Static,
}

/// Collision behaviour: `None` for a body that is pushed out of overlaps.
#[derive(Clone, Copy, Debug, PartialEq, Eq, Structural)]
pub struct Collision(pub Option<CollisionType>);

/// A value stored in the component store: one variant per component type.
#[derive(Clone, Copy, Debug, PartialEq, Eq, Structural)]
pub enum GameComponent {
    Velocity(Velocity),
    Position(Position),
    Size(Size),
    Sprite(SpriteHandle),
    Static(StaticSprite),
    Input(InputHandler),
    Collision(Collision),
}

} // verus!

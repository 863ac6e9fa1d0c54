//! An entity/component store with generational slot handles, a
//! type-keyed component registry, an entity builder, mask-filtered queries
//! and disjoint mutable joins; a fixed-timestep scheduler that decides when
//! ticks and renders run; and the game logic driven through them: sprite
//! animation, physics with collision resolution, and input steering.

pub mod slot;
pub mod array;
pub mod store;
pub mod world;
pub mod scheduler;
pub mod aseprite;
pub mod components;
pub mod sprite;
pub mod physics;
pub mod input;
pub mod state;

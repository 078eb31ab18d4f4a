//! Server-side spawn/initialization core of a tick-based two-actor physics
//! game built on an entity-component architecture.
//!
//! Entities flagged with both an [`model::Actor`] descriptor and a
//! [`model::ToSpawn`] marker are given their full physical state (position,
//! velocity, acceleration, collision geometry) according to the actor's
//! kind, and their collision bounds are registered in a shared spatial
//! index consulted by the movement and collision systems.

pub mod model;
pub mod shared;
pub mod spawn;
pub mod storage;
pub mod world;

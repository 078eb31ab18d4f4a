//! Core data model of the simulation: actor identity, kinds, and the
//! component values that the spawn pass derives for each actor.
use vstd::prelude::*;

verus! {

/// Stable numeric identity of an actor, distinct from the entity identity
/// that the component storages are keyed by.
pub type Id = u64;

/// Ordinal identity of an entity inside the component storages.
pub type EntityId = u64;

/// A two-dimensional integer vector, the unit of all physical state
/// (positions, velocities, accelerations) in the simulation.
#[derive(Clone, Copy, PartialEq, Eq, Structural, Debug)]
pub struct Vector {
    pub x: i32,
    pub y: i32,
}

/// What an actor is: a player paddle or the ball. Drives the whole
/// initialization policy of the spawn pass.
#[derive(Clone, Copy, PartialEq, Eq, Structural, Debug)]
pub enum ActorKind {
    Player,
    Ball,
}

/// Descriptor of a gameplay-visible participant: a stable id (the key of
/// the collision world) and a kind. Immutable once attached to an entity.
#[derive(Clone, Copy, PartialEq, Eq, Structural, Debug)]
pub struct Actor {
    pub id: Id,
    pub kind: ActorKind,
}

/// Position component: wraps the 2D vector written once at spawn time.
#[derive(Clone, Copy, PartialEq, Eq, Structural, Debug)]
pub struct Pos {
    pub v: Vector,
}

/// Velocity component.
#[derive(Clone, Copy, PartialEq, Eq, Structural, Debug)]
pub struct Vel {
    pub v: Vector,
}

/// Acceleration component.
#[derive(Clone, Copy, PartialEq, Eq, Structural, Debug)]
pub struct Acc {
    pub v: Vector,
}

/// Zero-data marker: this actor still needs physical initialization.
/// Consumed (removed) by the spawn pass.
#[derive(Clone, Copy, PartialEq, Eq, Structural, Debug)]
pub struct ToSpawn {}

/// Zero-data marker: this actor participates in bounce physics.
#[derive(Clone, Copy, PartialEq, Eq, Structural, Debug)]
pub struct Bounciness {}

/// Axis-aligned collision footprint of an actor, keyed by `Actor::id`
/// inside the collision world.
#[derive(Clone, Copy, PartialEq, Eq, Structural, Debug)]
pub struct Bounds {
    pub x: i32,
    pub y: i32,
    pub width: i32,
    pub height: i32,
}

impl From<Vector> for Pos {
    fn from(v: Vector) -> (r: Self) {
        Pos { v }
    }
}

impl vstd::std_specs::convert::FromSpecImpl<Vector> for Pos {
    open spec fn obeys_from_spec() -> bool {
        true
    }

    open spec fn from_spec(v: Vector) -> Self {
        Pos { v }
    }
}

impl From<Vector> for Vel {
    fn from(v: Vector) -> (r: Self) {
        Vel { v }
    }
}

impl vstd::std_specs::convert::FromSpecImpl<Vector> for Vel {
    open spec fn obeys_from_spec() -> bool {
        true
    }

    open spec fn from_spec(v: Vector) -> Self {
        Vel { v }
    }
}

impl From<Vector> for Acc {
    fn from(v: Vector) -> (r: Self) {
        Acc { v }
    }
}

impl vstd::std_specs::convert::FromSpecImpl<Vector> for Acc {
    open spec fn obeys_from_spec() -> bool {
        true
    }

    open spec fn from_spec(v: Vector) -> Self {
        Acc { v }
    }
}

} // verus!

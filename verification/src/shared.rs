//! Shared access to the collision world across concurrently running
//! systems: many readers or a single writer at a time, guarded by a
//! reader-writer lock.
//!
//! The lock's invariant admits only well-formed worlds, so a reader can
//! never observe a partially written registration: every value a read
//! acquisition hands out is a complete, consistent world that some
//! finished write stored.
use vstd::prelude::*;
use vstd::rwlock::RwLock;
use vstd::rwlock::RwLockPredicate;
use crate::model::{Acc, ActorKind, Bounds, EntityId, Id, Pos, Vel};
use crate::spawn::{matched, spawn_pos, spawn_vel, zero_vector, Spawn, SpawnData};
use crate::world::World;

verus! {

/// The lock invariant of the shared collision world: only well-formed
/// worlds — one complete bounds record per registered actor id — may be
/// stored in the lock.
pub struct WorldInv;

impl RwLockPredicate<World> for WorldInv {
    open spec fn inv(self, w: World) -> bool {
        w.wf()
    }
}

/// What a lookup in a given world state returns.
pub open spec fn spec_lookup(m: Map<Id, Bounds>, id: Id) -> Option<Bounds> {
    if m.dom().contains(id) {
        Some(m[id])
    } else {
        None
    }
}

/// The collision world as the simulation scheduler shares it between
/// systems: movement and collision read it every tick, the spawn system
/// occasionally writes to it.
pub struct SharedWorld {
    lock: RwLock<World, WorldInv>,
}

impl SharedWorld {
    /// Place a well-formed world under the lock.
    pub fn new(w: World) -> (s: Self)
        requires
            w.wf(),
    {
        SharedWorld { lock: RwLock::new(w, Ghost(WorldInv)) }
    }

    /// Register one actor's bounds under a brief exclusive acquisition.
    ///
    /// The upsert contract itself is stated on [`World::add`]; behind the
    /// lock the new state is observable only through later acquisitions,
    /// so nothing more can be promised here.
    pub fn register(&self, id: Id, bounds: Bounds) {
        let (mut w, handle) = self.lock.acquire_write();
        w.add(id, bounds);
        handle.release_write(w);
    }

    /// Look up the bounds registered under `id`.
    ///
    /// Whatever comes back was looked up in a well-formed world: the lock
    /// stores only states that a completed write established, so the read
    /// cannot observe a torn record even while spawn passes run.
    pub fn read_bounds(&self, id: Id) -> (r: Option<Bounds>)
        ensures
            exists|w: World| #[trigger] w.wf() && r == spec_lookup(w@, id),
    {
        let handle = self.lock.acquire_read();
        let w = handle.borrow();
        let r = match w.get(id) {
            Some(b) => Some(*b),
            None => None,
        };
        proof {
            assert(w.wf() && r == spec_lookup(w@, id));
        }
        handle.release_read();
        r
    }

    /// Run one spawn pass under a single exclusive acquisition covering
    /// every entity processed that tick — coarse-grained, one lock round
    /// trip per pass, not one per entity.
    ///
    /// The component storages are exclusive to the pass, so their final
    /// state carries the full per-entity guarantee of [`Spawn::run`]; the
    /// registrations land in the shared world before the lock is released
    /// and are visible to every later reader.
    pub fn spawn_pass(&self, spawn: &mut Spawn, data: &mut SpawnData)
        requires
            old(data).wf(),
        ensures
            final(data).wf(),
            final(data).actor == old(data).actor,
            final(data).to_spawn@ == old(data).to_spawn@.remove_keys(
                matched(old(data).to_spawn@, old(data).actor@),
            ),
            forall|e: EntityId|
                #[trigger] matched(old(data).to_spawn@, old(data).actor@).contains(e) ==> {
                    let a = old(data).actor@[e];
                    &&& final(data).pos@.dom().contains(e)
                    &&& final(data).pos@[e] == (Pos { v: spawn_pos(e, a) })
                    &&& final(data).vel@.dom().contains(e)
                    &&& final(data).vel@[e] == (Vel { v: spawn_vel(a) })
                    &&& (a.kind == ActorKind::Player ==> final(data).acc@.dom().contains(e)
                        && final(data).acc@[e] == (Acc { v: zero_vector() }))
                    &&& (a.kind == ActorKind::Ball ==> final(data).bounciness@.dom().contains(e))
                },
    {
        let (mut w, handle) = self.lock.acquire_write();
        spawn.run(data, &mut w);
        handle.release_write(w);
    }
}

} // verus!

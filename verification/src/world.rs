//! The collision world: a spatial index mapping stable actor identity to
//! axis-aligned collision bounds. The spawn pass registers freshly derived
//! geometry here; movement and collision systems query it every tick.
use vstd::prelude::*;
use crate::model::{Bounds, Id};
use crate::storage::Storage;

verus! {

/// Spatial index keyed by actor id. Registration is an idempotent upsert:
/// registering an id that is already present replaces the stored bounds.
pub struct World {
    index: Storage<Bounds>,
}

impl View for World {
    type V = Map<Id, Bounds>;

    closed spec fn view(&self) -> Map<Id, Bounds> {
        self.index@
    }
}

impl World {
    /// Internal well-formedness of the index.
    pub closed spec fn wf(self) -> bool {
        self.index.wf()
    }

    /// A well-formed world holds finitely many registrations.
    pub proof fn lemma_dom_finite(self)
        ensures
            self@.dom().finite(),
    {
        self.index.lemma_dom_finite();
    }

    /// An empty world: no actor has registered bounds.
    pub fn new() -> (w: Self)
        ensures
            w.wf(),
            w@ == Map::<Id, Bounds>::empty(),
    {
        World { index: Storage::new() }
    }

    /// Register `bounds` under `id`. Upsert semantics: a prior entry for
    /// the same id is replaced, never duplicated, and no other entry is
    /// touched.
    pub fn add(&mut self, id: Id, bounds: Bounds)
        requires
            old(self).wf(),
        ensures
            final(self).wf(),
            final(self)@ == old(self)@.insert(id, bounds),
    {
        self.index.insert(id, bounds);
    }

    /// Read back the bounds registered under `id`, if any.
    pub fn get(&self, id: Id) -> (r: Option<&Bounds>)
        requires
            self.wf(),
        ensures
            match r {
                Some(b) => self@.dom().contains(id) && *b == self@[id],
                None => !self@.dom().contains(id),
            },
    {
        self.index.get(id)
    }

    /// How many distinct actor ids are registered.
    pub fn len(&self) -> (n: usize)
        requires
            self.wf(),
        ensures
            n == self@.dom().len(),
    {
        self.index.len()
    }
}

/// Re-registering the same actor id replaces the prior entry: two
/// registrations in a row leave exactly the state of the second, whatever
/// was stored before.
pub proof fn lemma_register_replaces(w: Map<Id, Bounds>, id: Id, b1: Bounds, b2: Bounds)
    ensures
        w.insert(id, b1).insert(id, b2) == w.insert(id, b2),
{
    assert(w.insert(id, b1).insert(id, b2) =~= w.insert(id, b2));
}

} // verus!

//! The spawn system: converts pending spawn requests into fully
//! initialized physical actors and publishes their collision geometry to
//! the shared spatial index.
//!
//! Each pass visits every entity that holds both an [`Actor`] descriptor
//! and a [`ToSpawn`] marker, derives the complete physical state dictated
//! by the actor's kind, writes it into the component storages, registers
//! the actor's bounds in the collision world under the actor's stable id,
//! and consumes the marker so that a later pass does not re-initialize the
//! same entity.
use vstd::prelude::*;
use crate::model::{Acc, Actor, ActorKind, Bounciness, Bounds, EntityId, Id, Pos, ToSpawn, Vector,
    Vel};
use crate::storage::Storage;
use crate::world::World;

verus! {

/// Horizontal position of a freshly spawned player: the left edge for an
/// even entity ordinal, the right edge for an odd one.
pub open spec fn player_x(entity: EntityId) -> i32 {
    if entity % 2 == 0 {
        20
    } else {
        980
    }
}

/// The all-zero vector.
pub open spec fn zero_vector() -> Vector {
    Vector { x: 0, y: 0 }
}

/// Initial position dictated by the actor's kind.
pub open spec fn spawn_pos(entity: EntityId, actor: Actor) -> Vector {
    match actor.kind {
        ActorKind::Player => Vector { x: player_x(entity), y: 500 },
        ActorKind::Ball => Vector { x: 500, y: 500 },
    }
}

/// Initial velocity dictated by the actor's kind: players start at rest,
/// the ball starts moving.
pub open spec fn spawn_vel(actor: Actor) -> Vector {
    match actor.kind {
        ActorKind::Player => Vector { x: 0, y: 0 },
        ActorKind::Ball => Vector { x: 7, y: 11 },
    }
}

/// Collision footprint dictated by the actor's kind: a tall paddle for a
/// player, a small square for the ball, anchored at the spawn position.
pub open spec fn spawn_bounds(entity: EntityId, actor: Actor) -> Bounds {
    match actor.kind {
        ActorKind::Player => Bounds { x: player_x(entity), y: 500, width: 15, height: 75 },
        ActorKind::Ball => Bounds { x: 500, y: 500, width: 15, height: 15 },
    }
}

/// Initialize a player: at rest (zero velocity and acceleration), on the
/// side of the field picked by the parity of the entity ordinal, with a
/// 15 by 75 paddle footprint registered under the actor's id.
pub fn spawn_player(
    entity: EntityId,
    actor: &Actor,
    acc: &mut Storage<Acc>,
    vel: &mut Storage<Vel>,
    pos: &mut Storage<Pos>,
    world: &mut World,
)
    requires
        old(acc).wf(),
        old(vel).wf(),
        old(pos).wf(),
        old(world).wf(),
        actor.kind == ActorKind::Player,
    ensures
        final(acc).wf(),
        final(vel).wf(),
        final(pos).wf(),
        final(world).wf(),
        final(acc)@ == old(acc)@.insert(entity, (Acc { v: zero_vector() })),
        final(vel)@ == old(vel)@.insert(entity, (Vel { v: spawn_vel(*actor) })),
        final(pos)@ == old(pos)@.insert(entity, (Pos { v: spawn_pos(entity, *actor) })),
        final(world)@ == old(world)@.insert(actor.id, spawn_bounds(entity, *actor)),
{
    let x: i32 = if entity % 2 == 0 {
        20
    } else {
        980
    };
    let y: i32 = 500;
    acc.insert(entity, Acc::from(Vector { x: 0, y: 0 }));
    vel.insert(entity, Vel::from(Vector { x: 0, y: 0 }));
    pos.insert(entity, Pos::from(Vector { x, y }));
    let bounds = Bounds { x, y, width: 15, height: 75 };
    world.add(actor.id, bounds);
}

/// Initialize the ball: centered on the field, moving with the fixed
/// initial velocity, marked bouncy, with a 15 by 15 footprint registered
/// under the actor's id.
pub fn spawn_ball(
    entity: EntityId,
    actor: &Actor,
    vel: &mut Storage<Vel>,
    pos: &mut Storage<Pos>,
    bounciness: &mut Storage<Bounciness>,
    world: &mut World,
)
    requires
        old(vel).wf(),
        old(pos).wf(),
        old(bounciness).wf(),
        old(world).wf(),
        actor.kind == ActorKind::Ball,
    ensures
        final(vel).wf(),
        final(pos).wf(),
        final(bounciness).wf(),
        final(world).wf(),
        final(vel)@ == old(vel)@.insert(entity, (Vel { v: spawn_vel(*actor) })),
        final(pos)@ == old(pos)@.insert(entity, (Pos { v: spawn_pos(entity, *actor) })),
        final(bounciness)@ == old(bounciness)@.insert(entity, (Bounciness {  })),
        final(world)@ == old(world)@.insert(actor.id, spawn_bounds(entity, *actor)),
{
    let x: i32 = 500;
    let y: i32 = 500;
    vel.insert(entity, Vel::from(Vector { x: 7, y: 11 }));
    pos.insert(entity, Pos::from(Vector { x, y: 500 }));
    bounciness.insert(entity, Bounciness {  });
    let bounds = Bounds { x, y, width: 15, height: 15 };
    world.add(actor.id, bounds);
}

/// The entities one pass works on: those holding both a spawn request and
/// an actor descriptor.
pub open spec fn matched(
    to_spawn: Map<EntityId, ToSpawn>,
    actor: Map<EntityId, Actor>,
) -> Set<EntityId> {
    to_spawn.dom().intersect(actor.dom())
}

/// Some entity of `m` carries an actor with this id.
pub open spec fn id_matched(actor: Map<EntityId, Actor>, m: Set<EntityId>, id: Id) -> bool {
    exists|e: EntityId|
        #[trigger] m.contains(e) && actor.dom().contains(e) && actor[e].id == id
}

/// Within `m`, no other entity's actor shares this entity's actor id.
pub open spec fn unique_id_in(actor: Map<EntityId, Actor>, m: Set<EntityId>, e: EntityId) -> bool {
    forall|e2: EntityId|
        #[trigger] m.contains(e2) && e2 != e ==> actor[e2].id != actor[e].id
}

/// Initialization policy that applies to every actor kind.
pub open spec fn every_actor() -> spec_fn(Actor) -> bool {
    |a: Actor| true
}

/// Initialization policy restricted to players.
pub open spec fn players_only() -> spec_fn(Actor) -> bool {
    |a: Actor| a.kind == ActorKind::Player
}

/// Initialization policy restricted to the ball.
pub open spec fn balls_only() -> spec_fn(Actor) -> bool {
    |a: Actor| a.kind == ActorKind::Ball
}

/// The position component the pass writes for a matched entity.
pub open spec fn pos_policy() -> spec_fn(EntityId, Actor) -> Pos {
    |e: EntityId, a: Actor| Pos { v: spawn_pos(e, a) }
}

/// The velocity component the pass writes for a matched entity.
pub open spec fn vel_policy() -> spec_fn(EntityId, Actor) -> Vel {
    |e: EntityId, a: Actor| Vel { v: spawn_vel(a) }
}

/// The acceleration component the pass writes for a matched player.
pub open spec fn acc_policy() -> spec_fn(EntityId, Actor) -> Acc {
    |e: EntityId, a: Actor| Acc { v: zero_vector() }
}

/// The bounce marker the pass writes for a matched ball.
pub open spec fn bounciness_policy() -> spec_fn(EntityId, Actor) -> Bounciness {
    |e: EntityId, a: Actor| Bounciness {  }
}

/// Contents of one component storage after the pass has visited the first
/// `n` requested entities: for every visited entity whose actor satisfies
/// `applies`, the component `f` derives from entity and actor has been
/// upserted.
pub open spec fn storage_after<T>(
    m0: Map<EntityId, T>,
    keys: Seq<EntityId>,
    n: int,
    a0: Map<EntityId, Actor>,
    applies: spec_fn(Actor) -> bool,
    f: spec_fn(EntityId, Actor) -> T,
) -> Map<EntityId, T>
    decreases n,
{
    if n <= 0 {
        m0
    } else {
        let prev = storage_after(m0, keys, n - 1, a0, applies, f);
        let e: EntityId = keys[n - 1];
        if a0.dom().contains(e) && applies(a0[e]) {
            prev.insert(e, f(e, a0[e]))
        } else {
            prev
        }
    }
}

/// The spawn-request storage after the pass has visited the first `n`
/// requested entities: every visited entity with an actor has had its
/// marker consumed.
pub open spec fn requests_after(
    ts0: Map<EntityId, ToSpawn>,
    keys: Seq<EntityId>,
    n: int,
    a0: Map<EntityId, Actor>,
) -> Map<EntityId, ToSpawn>
    decreases n,
{
    if n <= 0 {
        ts0
    } else {
        let prev = requests_after(ts0, keys, n - 1, a0);
        let e: EntityId = keys[n - 1];
        if a0.dom().contains(e) {
            prev.remove(e)
        } else {
            prev
        }
    }
}

/// The collision world after the pass has visited the first `n` requested
/// entities: every visited entity's derived bounds have been registered
/// under its actor's id.
pub open spec fn world_after(
    w0: Map<Id, Bounds>,
    keys: Seq<EntityId>,
    n: int,
    a0: Map<EntityId, Actor>,
) -> Map<Id, Bounds>
    decreases n,
{
    if n <= 0 {
        w0
    } else {
        let prev = world_after(w0, keys, n - 1, a0);
        let e: EntityId = keys[n - 1];
        if a0.dom().contains(e) {
            prev.insert(a0[e].id, spawn_bounds(e, a0[e]))
        } else {
            prev
        }
    }
}

/// Some entity among the first `n` visited carries an actor with this id.
pub open spec fn id_in_prefix(
    a0: Map<EntityId, Actor>,
    keys: Seq<EntityId>,
    n: int,
    id: Id,
) -> bool {
    exists|e: EntityId|
        #[trigger] keys.subrange(0, n).contains(e) && a0.dom().contains(e) && a0[e].id == id
}

/// No other visited actor shares this entity's actor id.
pub open spec fn id_unique(a0: Map<EntityId, Actor>, keys: Seq<EntityId>, e: EntityId) -> bool {
    forall|e2: EntityId|
        #[trigger] keys.contains(e2) && a0.dom().contains(e2) && e2 != e ==> a0[e2].id != a0[e].id
}

/// Extending a visited prefix by one position adds exactly that entity.
proof fn lemma_prefix_push(keys: Seq<EntityId>, n: int)
    requires
        0 < n <= keys.len(),
    ensures
        forall|x: EntityId|
            #[trigger] keys.subrange(0, n).contains(x) <==> keys.subrange(0, n - 1).contains(x)
                || x == keys[n - 1],
{
    assert forall|x: EntityId|
        #[trigger] keys.subrange(0, n).contains(x) <==> keys.subrange(0, n - 1).contains(x) || x
            == keys[n - 1] by {
        let s0 = keys.subrange(0, n - 1);
        let s1 = keys.subrange(0, n);
        if s1.contains(x) {
            let j = choose|j: int| 0 <= j < s1.len() && s1[j] == x;
            if j < n - 1 {
                assert(s0[j] == x);
            }
        }
        if s0.contains(x) {
            let j = choose|j: int| 0 <= j < s0.len() && s0[j] == x;
            assert(s1[j] == x);
        }
        if x == keys[n - 1] {
            assert(s1[n - 1] == x);
        }
    }
}

/// A position of the sequence is not repeated earlier when the sequence
/// has no duplicates.
proof fn lemma_not_in_prefix(keys: Seq<EntityId>, n: int)
    requires
        0 <= n < keys.len(),
        keys.no_duplicates(),
    ensures
        !keys.subrange(0, n).contains(keys[n]),
{
    if keys.subrange(0, n).contains(keys[n]) {
        let j = choose|j: int|
            0 <= j < keys.subrange(0, n).len() && keys.subrange(0, n)[j] == keys[n];
        assert(keys[j] == keys[n]);
    }
}

/// What one component storage holds after a visited prefix: the derived
/// component for every visited entity whose actor the policy covers, and
/// the untouched prior contents everywhere else.
pub proof fn lemma_storage_after<T>(
    m0: Map<EntityId, T>,
    keys: Seq<EntityId>,
    n: int,
    a0: Map<EntityId, Actor>,
    applies: spec_fn(Actor) -> bool,
    f: spec_fn(EntityId, Actor) -> T,
)
    requires
        0 <= n <= keys.len(),
        keys.no_duplicates(),
    ensures
        forall|x: EntityId|
            #[trigger] storage_after(m0, keys, n, a0, applies, f).dom().contains(x) <==> (
            m0.dom().contains(x) || (keys.subrange(0, n).contains(x) && a0.dom().contains(x)
                && applies(a0[x]))),
        forall|x: EntityId|
            keys.subrange(0, n).contains(x) && a0.dom().contains(x) && applies(a0[x])
                ==> #[trigger] storage_after(m0, keys, n, a0, applies, f)[x] == f(x, a0[x]),
        forall|x: EntityId|
            !(keys.subrange(0, n).contains(x) && a0.dom().contains(x) && applies(a0[x]))
                && m0.dom().contains(x) ==> #[trigger] storage_after(m0, keys, n, a0, applies, f)[x]
                == m0[x],
    decreases n,
{
    if n == 0 {
        assert(keys.subrange(0, 0).len() == 0);
        assert(storage_after(m0, keys, 0, a0, applies, f) == m0);
    } else {
        lemma_storage_after(m0, keys, n - 1, a0, applies, f);
        lemma_prefix_push(keys, n);
        lemma_not_in_prefix(keys, n - 1);
        let k: EntityId = keys[n - 1];
        let prev = storage_after(m0, keys, n - 1, a0, applies, f);
        let cur = storage_after(m0, keys, n, a0, applies, f);
        assert forall|x: EntityId|
            #[trigger] cur.dom().contains(x) <==> (m0.dom().contains(x) || (keys.subrange(
                0,
                n,
            ).contains(x) && a0.dom().contains(x) && applies(a0[x]))) by {
            assert(prev.dom().contains(x) <==> (m0.dom().contains(x) || (keys.subrange(
                0,
                n - 1,
            ).contains(x) && a0.dom().contains(x) && applies(a0[x]))));
        }
        assert forall|x: EntityId|
            keys.subrange(0, n).contains(x) && a0.dom().contains(x) && applies(
                a0[x],
            ) implies #[trigger] cur[x] == f(x, a0[x]) by {
            if x != k {
                assert(keys.subrange(0, n - 1).contains(x));
                assert(prev[x] == f(x, a0[x]));
            }
        }
        assert forall|x: EntityId|
            !(keys.subrange(0, n).contains(x) && a0.dom().contains(x) && applies(a0[x]))
                && m0.dom().contains(x) implies #[trigger] cur[x] == m0[x] by {
            if keys.subrange(0, n - 1).contains(x) {
                assert(keys.subrange(0, n).contains(x));
            }
            if x == k {
                assert(keys.subrange(0, n).contains(x)) by {
                    assert(keys.subrange(0, n)[n - 1] == k);
                }
            }
            assert(prev[x] == m0[x]);
        }
    }
}

/// What the spawn-request storage holds after a visited prefix: every
/// visited entity with an actor has lost its marker, nothing else changed.
pub proof fn lemma_requests_after(
    ts0: Map<EntityId, ToSpawn>,
    keys: Seq<EntityId>,
    n: int,
    a0: Map<EntityId, Actor>,
)
    requires
        0 <= n <= keys.len(),
        keys.no_duplicates(),
    ensures
        forall|x: EntityId|
            #[trigger] requests_after(ts0, keys, n, a0).dom().contains(x) <==> (ts0.dom().contains(
                x,
            ) && !(keys.subrange(0, n).contains(x) && a0.dom().contains(x))),
        forall|x: EntityId|
            requests_after(ts0, keys, n, a0).dom().contains(x)
                ==> #[trigger] requests_after(ts0, keys, n, a0)[x] == ts0[x],
    decreases n,
{
    if n == 0 {
        assert(keys.subrange(0, 0).len() == 0);
        assert(requests_after(ts0, keys, 0, a0) == ts0);
    } else {
        lemma_requests_after(ts0, keys, n - 1, a0);
        lemma_prefix_push(keys, n);
        let k: EntityId = keys[n - 1];
        let prev = requests_after(ts0, keys, n - 1, a0);
        let cur = requests_after(ts0, keys, n, a0);
        assert forall|x: EntityId|
            #[trigger] cur.dom().contains(x) <==> (ts0.dom().contains(x) && !(keys.subrange(
                0,
                n,
            ).contains(x) && a0.dom().contains(x))) by {
            assert(prev.dom().contains(x) <==> (ts0.dom().contains(x) && !(keys.subrange(
                0,
                n - 1,
            ).contains(x) && a0.dom().contains(x))));
            if x == k {
                assert(keys.subrange(0, n).contains(x)) by {
                    assert(keys.subrange(0, n)[n - 1] == k);
                }
            }
        }
        assert forall|x: EntityId| cur.dom().contains(x) implies #[trigger] cur[x] == ts0[x] by {
            assert(prev.dom().contains(x) ==> prev[x] == ts0[x]);
        }
    }
}

/// What the collision world holds after a visited prefix: a registration
/// for every visited actor id, the untouched prior contents for every
/// other id, and, for a visited actor whose id no other visited actor
/// shares, exactly the bounds derived for it.
pub proof fn lemma_world_after(
    w0: Map<Id, Bounds>,
    keys: Seq<EntityId>,
    n: int,
    a0: Map<EntityId, Actor>,
)
    requires
        0 <= n <= keys.len(),
        keys.no_duplicates(),
    ensures
        forall|id: Id|
            #[trigger] world_after(w0, keys, n, a0).dom().contains(id) <==> (w0.dom().contains(id)
                || id_in_prefix(a0, keys, n, id)),
        forall|id: Id|
            !id_in_prefix(a0, keys, n, id) && w0.dom().contains(id)
                ==> #[trigger] world_after(w0, keys, n, a0)[id] == w0[id],
        forall|e: EntityId|
            #[trigger] keys.subrange(0, n).contains(e) && a0.dom().contains(e) && id_unique(
                a0,
                keys,
                e,
            ) ==> world_after(w0, keys, n, a0).dom().contains(a0[e].id) && world_after(
                w0,
                keys,
                n,
                a0,
            )[a0[e].id] == spawn_bounds(e, a0[e]),
    decreases n,
{
    if n == 0 {
        assert(keys.subrange(0, 0).len() == 0);
        assert forall|id: Id| !id_in_prefix(a0, keys, 0, id) by {
            if id_in_prefix(a0, keys, 0, id) {
                let e = choose|e: EntityId|
                    #[trigger] keys.subrange(0, 0).contains(e) && a0.dom().contains(e) && a0[e].id
                        == id;
                assert(false);
            }
        }
    } else {
        lemma_world_after(w0, keys, n - 1, a0);
        lemma_prefix_push(keys, n);
        lemma_not_in_prefix(keys, n - 1);
        let k: EntityId = keys[n - 1];
        let prev = world_after(w0, keys, n - 1, a0);
        let cur = world_after(w0, keys, n, a0);
        assert forall|id: Id|
            #[trigger] id_in_prefix(a0, keys, n, id) <==> (id_in_prefix(a0, keys, n - 1, id) || (
            a0.dom().contains(k) && a0[k].id == id)) by {
            if id_in_prefix(a0, keys, n, id) {
                let e = choose|e: EntityId|
                    #[trigger] keys.subrange(0, n).contains(e) && a0.dom().contains(e) && a0[e].id
                        == id;
                if e != k {
                    assert(keys.subrange(0, n - 1).contains(e));
                    assert(id_in_prefix(a0, keys, n - 1, id));
                }
            }
            if id_in_prefix(a0, keys, n - 1, id) {
                let e = choose|e: EntityId|
                    #[trigger] keys.subrange(0, n - 1).contains(e) && a0.dom().contains(e)
                        && a0[e].id == id;
                assert(keys.subrange(0, n).contains(e));
            }
            if a0.dom().contains(k) && a0[k].id == id {
                assert(keys.subrange(0, n).contains(k)) by {
                    assert(keys.subrange(0, n)[n - 1] == k);
                }
            }
        }
        assert forall|e: EntityId|
            #[trigger] keys.subrange(0, n).contains(e) && a0.dom().contains(e) && id_unique(
                a0,
                keys,
                e,
            ) implies cur.dom().contains(a0[e].id) && cur[a0[e].id] == spawn_bounds(
            e,
            a0[e],
        ) by {
            if e == k {
                assert(cur == prev.insert(a0[k].id, spawn_bounds(k, a0[k])));
            } else {
                assert(keys.subrange(0, n - 1).contains(e));
                assert(prev.dom().contains(a0[e].id) && prev[a0[e].id] == spawn_bounds(e, a0[e]));
                if a0.dom().contains(k) {
                    assert(keys.contains(k)) by {
                        assert(keys[n - 1] == k);
                    }
                    assert(a0[k].id != a0[e].id);
                }
            }
        }
    }
}

/// All component storages one spawn pass reads and writes, borrowed from
/// the simulation world for the duration of the pass.
pub struct SpawnData {
    pub to_spawn: Storage<ToSpawn>,
    pub actor: Storage<Actor>,
    pub pos: Storage<Pos>,
    pub vel: Storage<Vel>,
    pub acc: Storage<Acc>,
    pub bounciness: Storage<Bounciness>,
}

impl SpawnData {
    /// Every storage is well-formed.
    pub open spec fn wf(self) -> bool {
        &&& self.to_spawn.wf()
        &&& self.actor.wf()
        &&& self.pos.wf()
        &&& self.vel.wf()
        &&& self.acc.wf()
        &&& self.bounciness.wf()
    }

    /// Fresh storages with no components attached.
    pub fn new() -> (d: Self)
        ensures
            d.wf(),
            d.to_spawn@ == Map::<EntityId, ToSpawn>::empty(),
            d.actor@ == Map::<EntityId, Actor>::empty(),
            d.pos@ == Map::<EntityId, Pos>::empty(),
            d.vel@ == Map::<EntityId, Vel>::empty(),
            d.acc@ == Map::<EntityId, Acc>::empty(),
            d.bounciness@ == Map::<EntityId, Bounciness>::empty(),
    {
        SpawnData {
            to_spawn: Storage::new(),
            actor: Storage::new(),
            pos: Storage::new(),
            vel: Storage::new(),
            acc: Storage::new(),
            bounciness: Storage::new(),
        }
    }
}

/// The set of entities one pass works on is finite, being drawn from two
/// finite component storages.
pub proof fn lemma_matched_finite(to_spawn: Storage<ToSpawn>, actor: Storage<Actor>)
    ensures
        matched(to_spawn@, actor@).finite(),
{
    to_spawn.lemma_dom_finite();
    actor.lemma_dom_finite();
}

/// Spawning a batch of actors yields one registration each: if a pass
/// starts from an empty collision world and no two matched actors share an
/// id, the world afterwards holds exactly one bounds entry per matched
/// entity — players and balls together, nothing merged, nothing extra.
pub proof fn lemma_registration_count(
    a0: Map<EntityId, Actor>,
    m: Set<EntityId>,
    w: Map<Id, Bounds>,
)
    requires
        m.finite(),
        forall|e: EntityId| #[trigger] m.contains(e) ==> a0.dom().contains(e),
        forall|e: EntityId| #[trigger] m.contains(e) ==> unique_id_in(a0, m, e),
        forall|id: Id| #[trigger] w.dom().contains(id) <==> id_matched(a0, m, id),
    ensures
        w.dom().finite(),
        w.dom().len() == m.len(),
    decreases m.len(),
{
    if m.len() == 0 {
        assert forall|id: Id| !w.dom().contains(id) by {
            if id_matched(a0, m, id) {
                let e = choose|e: EntityId|
                    #[trigger] m.contains(e) && a0.dom().contains(e) && a0[e].id == id;
                assert(m.contains(e));
            }
        }
        assert(w.dom() =~= Set::<Id>::empty());
    } else {
        let e = m.choose();
        assert(m.contains(e));
        let m2 = m.remove(e);
        let w2 = w.remove(a0[e].id);
        assert forall|id: Id| #[trigger] w2.dom().contains(id) <==> id_matched(a0, m2, id) by {
            if w2.dom().contains(id) {
                assert(w.dom().contains(id) && id != a0[e].id);
                let e2 = choose|e2: EntityId|
                    #[trigger] m.contains(e2) && a0.dom().contains(e2) && a0[e2].id == id;
                assert(e2 != e);
                assert(m2.contains(e2));
                assert(id_matched(a0, m2, id));
            }
            if id_matched(a0, m2, id) {
                let e2 = choose|e2: EntityId|
                    #[trigger] m2.contains(e2) && a0.dom().contains(e2) && a0[e2].id == id;
                assert(m.contains(e2));
                assert(id_matched(a0, m, id));
                assert(w.dom().contains(id));
                assert(unique_id_in(a0, m, e2));
                assert(a0[e].id != a0[e2].id);
            }
        }
        assert forall|e2: EntityId| #[trigger] m2.contains(e2) implies unique_id_in(
            a0,
            m2,
            e2,
        ) by {
            assert(unique_id_in(a0, m, e2));
            assert forall|e3: EntityId|
                #[trigger] m2.contains(e3) && e3 != e2 implies a0[e3].id != a0[e2].id by {
                assert(m.contains(e3));
            }
        }
        lemma_registration_count(a0, m2, w2);
        assert(id_matched(a0, m, a0[e].id));
        assert(w.dom().contains(a0[e].id));
        assert(w.dom() =~= w2.dom().insert(a0[e].id));
    }
}

/// The spawn system.
pub struct Spawn;

impl Spawn {
    /// One spawn pass: initialize every entity that holds both an actor
    /// descriptor and a spawn request.
    ///
    /// For each such entity the pass writes the complete physical state
    /// its kind dictates (position, velocity, acceleration for players, a
    /// bounce marker for the ball), registers the derived bounds in the
    /// collision world under the actor's stable id (an upsert), and
    /// consumes the spawn request. Everything else — other entities'
    /// components, unmatched spawn requests, registrations of actors not
    /// spawned here — is left untouched.
    pub fn run(&mut self, data: &mut SpawnData, world: &mut World)
        requires
            old(data).wf(),
            old(world).wf(),
        ensures
            final(data).wf(),
            final(world).wf(),
            final(data).actor == old(data).actor,
            final(data).to_spawn@ == old(data).to_spawn@.remove_keys(
                matched(old(data).to_spawn@, old(data).actor@),
            ),
            forall|e: EntityId|
                #[trigger] matched(old(data).to_spawn@, old(data).actor@).contains(e) ==> {
                    let a = old(data).actor@[e];
                    &&& final(data).pos@.dom().contains(e)
                    &&& final(data).pos@[e] == (Pos { v: spawn_pos(e, a) })
                    &&& final(data).vel@.dom().contains(e)
                    &&& final(data).vel@[e] == (Vel { v: spawn_vel(a) })
                    &&& (a.kind == ActorKind::Player ==> final(data).acc@.dom().contains(e)
                        && final(data).acc@[e] == (Acc { v: zero_vector() }))
                    &&& (a.kind == ActorKind::Ball ==> final(data).bounciness@.dom().contains(e))
                },
            forall|e: EntityId|
                !matched(old(data).to_spawn@, old(data).actor@).contains(e) ==> ((
                #[trigger] final(data).pos@.dom().contains(e) <==> old(data).pos@.dom().contains(
                    e,
                )) && (old(data).pos@.dom().contains(e) ==> final(data).pos@[e]
                    == old(data).pos@[e])),
            forall|e: EntityId|
                !matched(old(data).to_spawn@, old(data).actor@).contains(e) ==> ((
                #[trigger] final(data).vel@.dom().contains(e) <==> old(data).vel@.dom().contains(
                    e,
                )) && (old(data).vel@.dom().contains(e) ==> final(data).vel@[e]
                    == old(data).vel@[e])),
            forall|e: EntityId|
                !(matched(old(data).to_spawn@, old(data).actor@).contains(e)
                    && old(data).actor@.dom().contains(e) && old(data).actor@[e].kind
                    == ActorKind::Player) ==> ((#[trigger] final(data).acc@.dom().contains(e)
                    <==> old(data).acc@.dom().contains(e)) && (old(data).acc@.dom().contains(e)
                    ==> final(data).acc@[e] == old(data).acc@[e])),
            forall|e: EntityId|
                !(matched(old(data).to_spawn@, old(data).actor@).contains(e)
                    && old(data).actor@.dom().contains(e) && old(data).actor@[e].kind
                    == ActorKind::Ball) ==> ((
                #[trigger] final(data).bounciness@.dom().contains(e)
                    <==> old(data).bounciness@.dom().contains(e)) && (
                old(data).bounciness@.dom().contains(e)
                    ==> final(data).bounciness@[e] == old(data).bounciness@[e])),
            forall|id: Id|
                #[trigger] final(world)@.dom().contains(id) <==> (old(world)@.dom().contains(id)
                    || id_matched(
                    old(data).actor@,
                    matched(old(data).to_spawn@, old(data).actor@),
                    id,
                )),
            forall|id: Id|
                !id_matched(old(data).actor@, matched(old(data).to_spawn@, old(data).actor@), id)
                    && old(world)@.dom().contains(id)
                    ==> #[trigger] final(world)@[id] == old(world)@[id],
            forall|e: EntityId|
                #[trigger] matched(old(data).to_spawn@, old(data).actor@).contains(e)
                    && unique_id_in(
                    old(data).actor@,
                    matched(old(data).to_spawn@, old(data).actor@),
                    e,
                ) ==> final(world)@.dom().contains(old(data).actor@[e].id)
                    && final(world)@[old(data).actor@[e].id] == spawn_bounds(
                    e,
                    old(data).actor@[e],
                ),
    {
        let ghost ts0 = data.to_spawn@;
        let ghost a0 = data.actor@;
        let ghost p0 = data.pos@;
        let ghost v0 = data.vel@;
        let ghost ac0 = data.acc@;
        let ghost b0 = data.bounciness@;
        let ghost w0 = world@;
        let ghost actor_snap = data.actor;
        let keys = data.to_spawn.keys();
        let n: usize = keys.len();
        let mut i: usize = 0;
        while i < n
            invariant
                n == keys@.len(),
                i <= n,
                keys@.no_duplicates(),
                forall|e: EntityId| #[trigger] keys@.contains(e) <==> ts0.dom().contains(e),
                data.wf(),
                world.wf(),
                data.actor == actor_snap,
                a0 == actor_snap@,
                data.to_spawn@ == requests_after(ts0, keys@, i as int, a0),
                data.pos@ == storage_after(p0, keys@, i as int, a0, every_actor(), pos_policy()),
                data.vel@ == storage_after(v0, keys@, i as int, a0, every_actor(), vel_policy()),
                data.acc@ == storage_after(ac0, keys@, i as int, a0, players_only(), acc_policy()),
                data.bounciness@ == storage_after(
                    b0,
                    keys@,
                    i as int,
                    a0,
                    balls_only(),
                    bounciness_policy(),
                ),
                world@ == world_after(w0, keys@, i as int, a0),
            decreases n - i,
        {
            let e: EntityId = keys[i];
            let ghost step: int = i as int + 1;
            let actor_opt = data.actor.get(e);
            match actor_opt {
                Some(actor_ref) => {
                    let actor: Actor = *actor_ref;
                    proof {
                        assert(a0.dom().contains(e));
                        assert(actor == a0[e]);
                    }
                    match actor.kind {
                        ActorKind::Player => {
                            spawn_player(
                                e,
                                &actor,
                                &mut data.acc,
                                &mut data.vel,
                                &mut data.pos,
                                world,
                            );
                        },
                        ActorKind::Ball => {
                            spawn_ball(
                                e,
                                &actor,
                                &mut data.vel,
                                &mut data.pos,
                                &mut data.bounciness,
                                world,
                            );
                        },
                    }
                    data.to_spawn.remove(e);
                    proof {
                        assert(keys@[step - 1] == e);
                        assert(every_actor()(a0[e]));
                        assert(pos_policy()(e, a0[e]) == (Pos { v: spawn_pos(e, a0[e]) }));
                        assert(vel_policy()(e, a0[e]) == (Vel { v: spawn_vel(a0[e]) }));
                        assert(data.to_spawn@ == requests_after(ts0, keys@, step, a0));
                        assert(data.pos@ == storage_after(
                            p0,
                            keys@,
                            step,
                            a0,
                            every_actor(),
                            pos_policy(),
                        ));
                        assert(data.vel@ == storage_after(
                            v0,
                            keys@,
                            step,
                            a0,
                            every_actor(),
                            vel_policy(),
                        ));
                        if a0[e].kind == ActorKind::Player {
                            assert(players_only()(a0[e]));
                            assert(!balls_only()(a0[e]));
                            assert(acc_policy()(e, a0[e]) == (Acc { v: zero_vector() }));
                        } else {
                            assert(balls_only()(a0[e]));
                            assert(!players_only()(a0[e]));
                            assert(bounciness_policy()(e, a0[e]) == (Bounciness {  }));
                        }
                        assert(data.acc@ == storage_after(
                            ac0,
                            keys@,
                            step,
                            a0,
                            players_only(),
                            acc_policy(),
                        ));
                        assert(data.bounciness@ == storage_after(
                            b0,
                            keys@,
                            step,
                            a0,
                            balls_only(),
                            bounciness_policy(),
                        ));
                        assert(world@ == world_after(w0, keys@, step, a0));
                    }
                },
                None => {
                    proof {
                        assert(keys@[step - 1] == e);
                        assert(!a0.dom().contains(e));
                        assert(data.to_spawn@ == requests_after(ts0, keys@, step, a0));
                        assert(data.pos@ == storage_after(
                            p0,
                            keys@,
                            step,
                            a0,
                            every_actor(),
                            pos_policy(),
                        ));
                        assert(data.vel@ == storage_after(
                            v0,
                            keys@,
                            step,
                            a0,
                            every_actor(),
                            vel_policy(),
                        ));
                        assert(data.acc@ == storage_after(
                            ac0,
                            keys@,
                            step,
                            a0,
                            players_only(),
                            acc_policy(),
                        ));
                        assert(data.bounciness@ == storage_after(
                            b0,
                            keys@,
                            step,
                            a0,
                            balls_only(),
                            bounciness_policy(),
                        ));
                        assert(world@ == world_after(w0, keys@, step, a0));
                    }
                },
            }
            i += 1;
        }
        proof {
            let fin: int = n as int;
            let m = matched(ts0, a0);
            assert(keys@.subrange(0, fin) =~= keys@);
            lemma_requests_after(ts0, keys@, fin, a0);
            lemma_storage_after(p0, keys@, fin, a0, every_actor(), pos_policy());
            lemma_storage_after(v0, keys@, fin, a0, every_actor(), vel_policy());
            lemma_storage_after(ac0, keys@, fin, a0, players_only(), acc_policy());
            lemma_storage_after(b0, keys@, fin, a0, balls_only(), bounciness_policy());
            lemma_world_after(w0, keys@, fin, a0);
            assert forall|e: EntityId| #[trigger] m.contains(e) <==> (keys@.subrange(
                0,
                fin,
            ).contains(e) && a0.dom().contains(e)) by {
                assert(keys@.contains(e) <==> ts0.dom().contains(e));
            }
            assert(data.to_spawn@ =~= ts0.remove_keys(m));
            assert forall|e: EntityId| #[trigger] m.contains(e) implies {
                let a = a0[e];
                &&& data.pos@.dom().contains(e)
                &&& data.pos@[e] == (Pos { v: spawn_pos(e, a) })
                &&& data.vel@.dom().contains(e)
                &&& data.vel@[e] == (Vel { v: spawn_vel(a) })
                &&& (a.kind == ActorKind::Player ==> data.acc@.dom().contains(e) && data.acc@[e]
                    == (Acc { v: zero_vector() }))
                &&& (a.kind == ActorKind::Ball ==> data.bounciness@.dom().contains(e))
            } by {
                assert(every_actor()(a0[e]));
                assert(pos_policy()(e, a0[e]) == (Pos { v: spawn_pos(e, a0[e]) }));
                assert(vel_policy()(e, a0[e]) == (Vel { v: spawn_vel(a0[e]) }));
                assert(data.pos@[e] == pos_policy()(e, a0[e]));
                assert(data.vel@[e] == vel_policy()(e, a0[e]));
                if a0[e].kind == ActorKind::Player {
                    assert(players_only()(a0[e]));
                    assert(acc_policy()(e, a0[e]) == (Acc { v: zero_vector() }));
                    assert(data.acc@[e] == acc_policy()(e, a0[e]));
                }
                if a0[e].kind == ActorKind::Ball {
                    assert(balls_only()(a0[e]));
                }
            }
            assert forall|e: EntityId| !m.contains(e) implies ((
            #[trigger] data.pos@.dom().contains(e) <==> p0.dom().contains(e)) && (
            p0.dom().contains(e) ==> data.pos@[e] == p0[e])) by {
                assert(!(keys@.subrange(0, fin).contains(e) && a0.dom().contains(e)));
            }
            assert forall|e: EntityId| !m.contains(e) implies ((
            #[trigger] data.vel@.dom().contains(e) <==> v0.dom().contains(e)) && (
            v0.dom().contains(e) ==> data.vel@[e] == v0[e])) by {
                assert(!(keys@.subrange(0, fin).contains(e) && a0.dom().contains(e)));
            }
            assert forall|e: EntityId|
                !(m.contains(e) && a0.dom().contains(e) && a0[e].kind
                    == ActorKind::Player) implies ((#[trigger] data.acc@.dom().contains(e) <==> (
            ac0.dom().contains(e))) && (ac0.dom().contains(e) ==> data.acc@[e] == ac0[e])) by {
                assert(!(keys@.subrange(0, fin).contains(e) && a0.dom().contains(e)
                    && players_only()(a0[e])));
            }
            assert forall|e: EntityId|
                !(m.contains(e) && a0.dom().contains(e) && a0[e].kind
                    == ActorKind::Ball) implies ((#[trigger] data.bounciness@.dom().contains(e)
                <==> (b0.dom().contains(e))) && (b0.dom().contains(e) ==> data.bounciness@[e]
                == b0[e])) by {
                assert(!(keys@.subrange(0, fin).contains(e) && a0.dom().contains(e) && balls_only()(
                    a0[e],
                )));
            }
            assert forall|id: Id| #[trigger] id_in_prefix(a0, keys@, fin, id) <==> id_matched(
                a0,
                m,
                id,
            ) by {
                if id_in_prefix(a0, keys@, fin, id) {
                    let e = choose|e: EntityId|
                        #[trigger] keys@.subrange(0, fin).contains(e) && a0.dom().contains(e)
                            && a0[e].id == id;
                    assert(m.contains(e));
                    assert(id_matched(a0, m, id));
                }
                if id_matched(a0, m, id) {
                    let e = choose|e: EntityId|
                        #[trigger] m.contains(e) && a0.dom().contains(e) && a0[e].id == id;
                    assert(keys@.subrange(0, fin).contains(e));
                    assert(id_in_prefix(a0, keys@, fin, id));
                }
            }
            assert forall|e: EntityId|
                #[trigger] m.contains(e) && unique_id_in(a0, m, e) implies id_unique(
                a0,
                keys@,
                e,
            ) by {
                assert forall|e2: EntityId|
                    #[trigger] keys@.contains(e2) && a0.dom().contains(e2) && e2
                        != e implies a0[e2].id != a0[e].id by {
                    assert(ts0.dom().contains(e2));
                    assert(m.contains(e2));
                }
            }
            assert forall|e: EntityId|
                #[trigger] m.contains(e) && unique_id_in(a0, m, e) implies world@.dom().contains(
                a0[e].id,
            ) && world@[a0[e].id] == spawn_bounds(e, a0[e]) by {
                assert(keys@.subrange(0, fin).contains(e));
                assert(id_unique(a0, keys@, e));
            }
        }
    }
}

} // verus!


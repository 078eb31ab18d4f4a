//! End-to-end tests of the spawn pass, the component storages and the
//! collision world.
use shootr_core::model::{Actor, ActorKind, Bounds, Pos, ToSpawn, Vector};
use shootr_core::shared::SharedWorld;
use shootr_core::spawn::{Spawn, SpawnData};
use shootr_core::storage::Storage;
use shootr_core::world::World;

fn request_spawn(data: &mut SpawnData, entity: u64, actor: Actor) {
    data.actor.insert(entity, actor);
    data.to_spawn.insert(entity, ToSpawn {});
}

#[test]
fn player_spawn_even_entity() {
    let mut data = SpawnData::new();
    let mut world = World::new();
    let mut spawn = Spawn;
    request_spawn(&mut data, 4, Actor { id: 10, kind: ActorKind::Player });

    spawn.run(&mut data, &mut world);

    assert_eq!(data.pos.get(4), Some(&Pos { v: Vector { x: 20, y: 500 } }));
    assert_eq!(data.vel.get(4).unwrap().v, Vector { x: 0, y: 0 });
    assert_eq!(data.acc.get(4).unwrap().v, Vector { x: 0, y: 0 });
    assert!(data.bounciness.get(4).is_none());
    assert_eq!(world.get(10), Some(&Bounds { x: 20, y: 500, width: 15, height: 75 }));
}

#[test]
fn player_spawn_odd_entity() {
    let mut data = SpawnData::new();
    let mut world = World::new();
    let mut spawn = Spawn;
    request_spawn(&mut data, 7, Actor { id: 11, kind: ActorKind::Player });

    spawn.run(&mut data, &mut world);

    assert_eq!(data.pos.get(7), Some(&Pos { v: Vector { x: 980, y: 500 } }));
    assert_eq!(world.get(11), Some(&Bounds { x: 980, y: 500, width: 15, height: 75 }));
}

#[test]
fn player_sides_follow_ordinal_parity() {
    let mut data = SpawnData::new();
    let mut world = World::new();
    let mut spawn = Spawn;
    request_spawn(&mut data, 2, Actor { id: 1, kind: ActorKind::Player });
    request_spawn(&mut data, 3, Actor { id: 2, kind: ActorKind::Player });

    spawn.run(&mut data, &mut world);

    assert_eq!(data.pos.get(2).unwrap().v.x, 20);
    assert_eq!(data.pos.get(3).unwrap().v.x, 980);
    assert_eq!(data.pos.get(2).unwrap().v.y, 500);
    assert_eq!(data.pos.get(3).unwrap().v.y, 500);
}

#[test]
fn ball_spawn_complete_state() {
    let mut data = SpawnData::new();
    let mut world = World::new();
    let mut spawn = Spawn;
    request_spawn(&mut data, 9, Actor { id: 42, kind: ActorKind::Ball });

    spawn.run(&mut data, &mut world);

    assert_eq!(data.pos.get(9).unwrap().v, Vector { x: 500, y: 500 });
    assert_eq!(data.vel.get(9).unwrap().v, Vector { x: 7, y: 11 });
    assert!(data.bounciness.get(9).is_some());
    assert!(data.acc.get(9).is_none());
    assert_eq!(world.get(42), Some(&Bounds { x: 500, y: 500, width: 15, height: 15 }));
}

#[test]
fn pass_registers_one_entry_per_actor() {
    let mut data = SpawnData::new();
    let mut world = World::new();
    let mut spawn = Spawn;
    request_spawn(&mut data, 0, Actor { id: 100, kind: ActorKind::Player });
    request_spawn(&mut data, 1, Actor { id: 101, kind: ActorKind::Player });
    request_spawn(&mut data, 2, Actor { id: 102, kind: ActorKind::Player });
    request_spawn(&mut data, 3, Actor { id: 200, kind: ActorKind::Ball });
    request_spawn(&mut data, 4, Actor { id: 201, kind: ActorKind::Ball });

    spawn.run(&mut data, &mut world);

    assert_eq!(world.len(), 5);
    assert!(world.get(100).is_some());
    assert!(world.get(101).is_some());
    assert!(world.get(102).is_some());
    assert!(world.get(200).is_some());
    assert!(world.get(201).is_some());
}

#[test]
fn pass_consumes_spawn_requests() {
    let mut data = SpawnData::new();
    let mut world = World::new();
    let mut spawn = Spawn;
    request_spawn(&mut data, 5, Actor { id: 1, kind: ActorKind::Ball });

    spawn.run(&mut data, &mut world);
    assert!(!data.to_spawn.contains(5));
    assert_eq!(world.len(), 1);

    // a second pass finds nothing to do: positions survive untouched
    data.pos.insert(5, Pos { v: Vector { x: 123, y: 456 } });
    spawn.run(&mut data, &mut world);
    assert_eq!(data.pos.get(5).unwrap().v, Vector { x: 123, y: 456 });
    assert_eq!(world.len(), 1);
}

#[test]
fn request_without_actor_stays_pending() {
    let mut data = SpawnData::new();
    let mut world = World::new();
    let mut spawn = Spawn;
    data.to_spawn.insert(77, ToSpawn {});

    spawn.run(&mut data, &mut world);

    assert!(data.to_spawn.contains(77));
    assert!(data.pos.get(77).is_none());
    assert_eq!(world.len(), 0);
}

#[test]
fn actor_without_request_is_untouched() {
    let mut data = SpawnData::new();
    let mut world = World::new();
    let mut spawn = Spawn;
    data.actor.insert(8, Actor { id: 3, kind: ActorKind::Player });

    spawn.run(&mut data, &mut world);

    assert!(data.pos.get(8).is_none());
    assert!(data.vel.get(8).is_none());
    assert_eq!(world.len(), 0);
}

#[test]
fn pass_leaves_unrelated_registrations_alone() {
    let mut data = SpawnData::new();
    let mut world = World::new();
    let mut spawn = Spawn;
    let foreign = Bounds { x: 1, y: 2, width: 3, height: 4 };
    world.add(999, foreign);
    request_spawn(&mut data, 0, Actor { id: 1, kind: ActorKind::Ball });

    spawn.run(&mut data, &mut world);

    assert_eq!(world.get(999), Some(&foreign));
    assert_eq!(world.len(), 2);
}

#[test]
fn reregistration_replaces_entry() {
    let mut world = World::new();
    let first = Bounds { x: 0, y: 0, width: 10, height: 10 };
    let second = Bounds { x: 5, y: 6, width: 7, height: 8 };
    world.add(1, first);
    world.add(1, second);
    assert_eq!(world.len(), 1);
    assert_eq!(world.get(1), Some(&second));

    // registering the same value twice is likewise a no-op in effect
    world.add(1, second);
    assert_eq!(world.len(), 1);
    assert_eq!(world.get(1), Some(&second));
}

#[test]
fn shared_world_read_back_is_complete() {
    let shared = SharedWorld::new(World::new());
    let bounds = Bounds { x: 20, y: 500, width: 15, height: 75 };
    shared.register(10, bounds);
    assert_eq!(shared.read_bounds(10), Some(bounds));
    assert_eq!(shared.read_bounds(11), None);
}

#[test]
fn shared_world_spawn_pass_publishes_registrations() {
    let shared = SharedWorld::new(World::new());
    let mut data = SpawnData::new();
    let mut spawn = Spawn;
    request_spawn(&mut data, 2, Actor { id: 21, kind: ActorKind::Player });
    request_spawn(&mut data, 3, Actor { id: 22, kind: ActorKind::Ball });

    shared.spawn_pass(&mut spawn, &mut data);

    assert_eq!(data.pos.get(2).unwrap().v, Vector { x: 20, y: 500 });
    assert_eq!(data.pos.get(3).unwrap().v, Vector { x: 500, y: 500 });
    assert_eq!(
        shared.read_bounds(21),
        Some(Bounds { x: 20, y: 500, width: 15, height: 75 })
    );
    assert_eq!(
        shared.read_bounds(22),
        Some(Bounds { x: 500, y: 500, width: 15, height: 15 })
    );
}

#[test]
fn storage_insert_get_remove() {
    let mut s: Storage<Pos> = Storage::new();
    assert_eq!(s.len(), 0);
    assert!(!s.contains(1));
    s.insert(1, Pos { v: Vector { x: 1, y: 2 } });
    s.insert(2, Pos { v: Vector { x: 3, y: 4 } });
    assert_eq!(s.len(), 2);
    assert_eq!(s.get(1).unwrap().v, Vector { x: 1, y: 2 });

    // upsert: same entity, new value, same count
    s.insert(1, Pos { v: Vector { x: 9, y: 9 } });
    assert_eq!(s.len(), 2);
    assert_eq!(s.get(1).unwrap().v, Vector { x: 9, y: 9 });

    s.remove(1);
    assert!(!s.contains(1));
    assert_eq!(s.len(), 1);

    let keys = s.keys();
    assert_eq!(keys, vec![2]);
}

use game_ecs::array::GenerationalIndexArray;
use game_ecs::components::{GameComponent, Position, Velocity};
use game_ecs::slot::GenerationalIndex;
use game_ecs::store::{join, ComponentMap, EcsError};
use game_ecs::physics::Physics;
use game_ecs::world::World;

fn spawn(world: &mut World<GameComponent>, parts: &[(usize, GameComponent)]) -> GenerationalIndex {
    let mut b = world.create_entity();
    for (ty, value) in parts {
        b.with(*ty, *value).unwrap();
    }
    let e = b.entity;
    b.build();
    e
}

#[test]
fn one_tick_adds_velocity_to_position() {
    let mut world: World<GameComponent> = World::new();
    let pos = world.register();
    let vel = world.register();
    let e = spawn(
        &mut world,
        &[
            (pos, GameComponent::Position(Position(0, 0))),
            (vel, GameComponent::Velocity(Velocity(1, 1))),
        ],
    );
    let size = world.register();
    let collision = world.register();
    let mut system = Physics { position: pos, velocity: vel, size, collision };
    world.run_system(&mut system, &vec![pos, vel]).unwrap();
    assert_eq!(world.get(pos, e), Some(&GameComponent::Position(Position(1, 1))));
    // gravity then speeds the fall by one
    assert_eq!(world.get(vel, e), Some(&GameComponent::Velocity(Velocity(1, 2))));
}

#[test]
fn query_over_missing_type_matches_nothing() {
    let mut world: World<GameComponent> = World::new();
    let pos = world.register();
    let vel = world.register();
    spawn(&mut world, &[(pos, GameComponent::Position(Position(3, 4)))]);
    assert_eq!(world.run_query(&vec![pos, vel]).unwrap().len(), 0);
    assert_eq!(world.run_query(&vec![pos]).unwrap().len(), 1);
}

#[test]
fn mask_holds_exactly_the_supplied_types() {
    let mut world: World<GameComponent> = World::new();
    let pos = world.register();
    let vel = world.register();
    let size = world.register();
    let e = spawn(
        &mut world,
        &[
            (pos, GameComponent::Position(Position(0, 0))),
            (vel, GameComponent::Velocity(Velocity(0, 0))),
        ],
    );
    assert_eq!(world.run_query(&vec![pos]).unwrap(), vec![e]);
    assert_eq!(world.run_query(&vec![vel]).unwrap(), vec![e]);
    assert!(world.run_query(&vec![size]).unwrap().is_empty());
    assert_eq!(world.run_query(&vec![]).unwrap(), vec![e]);
}

#[test]
fn joined_references_write_independently() {
    let mut map: ComponentMap<i64> = ComponentMap::new();
    let a = map.insert(GenerationalIndexArray::new());
    let b = map.insert(GenerationalIndexArray::new());
    assert_eq!((a, b), (0, 1));
    let e = GenerationalIndex { index: 1, generation: 0 };
    map.get_mut(a).unwrap().set(e, 10);
    map.get_mut(b).unwrap().set(e, 20);
    {
        let (x, y) = join(&mut map, a, b, e).unwrap();
        *x += *y;
        *y = *x * 2;
    }
    assert_eq!(map.get(a).unwrap().get(e), Some(&30));
    assert_eq!(map.get(b).unwrap().get(e), Some(&60));
    {
        let (y, x) = join(&mut map, b, a, e).unwrap();
        *y = 1;
        *x = 2;
    }
    assert_eq!(map.get(a).unwrap().get(e), Some(&2));
    assert_eq!(map.get(b).unwrap().get(e), Some(&1));
}

#[test]
fn join_is_absent_when_a_component_is_missing() {
    let mut map: ComponentMap<i64> = ComponentMap::new();
    let a = map.insert(GenerationalIndexArray::new());
    let b = map.insert(GenerationalIndexArray::new());
    let e = GenerationalIndex { index: 0, generation: 0 };
    map.get_mut(a).unwrap().set(e, 1);
    assert!(join(&mut map, a, b, e).is_none());
    assert!(join(&mut map, a, 7, e).is_none());
    assert!(map.get(7).is_err());
    assert_eq!(map.len(), 2);
}

#[test]
fn stale_slot_reads_nothing_after_reuse() {
    let mut world: World<GameComponent> = World::new();
    let pos = world.register();
    let old = spawn(&mut world, &[(pos, GameComponent::Position(Position(1, 1)))]);
    assert!(world.destroy_entity(old));
    let new = spawn(&mut world, &[(pos, GameComponent::Position(Position(9, 9)))]);
    assert_eq!(new.index, old.index);
    assert_ne!(new.generation, old.generation);
    assert_eq!(world.get(pos, old), None);
    assert_eq!(world.get(pos, new), Some(&GameComponent::Position(Position(9, 9))));
}

#[test]
fn destroyed_entity_reads_nothing_before_reuse() {
    let mut world: World<GameComponent> = World::new();
    let pos = world.register();
    let e = spawn(&mut world, &[(pos, GameComponent::Position(Position(1, 1)))]);
    assert!(world.destroy_entity(e));
    assert_eq!(world.get(pos, e), None);
    assert!(world.run_query(&vec![pos]).unwrap().is_empty());
    assert!(!world.destroy_entity(e));
}

#[test]
fn unregistered_types_are_rejected() {
    let mut world: World<GameComponent> = World::new();
    let pos = world.register();
    let mut b = world.create_entity();
    assert_eq!(
        b.with(pos + 1, GameComponent::Position(Position(0, 0))),
        Err(EcsError::ComponentTypeUnregistered)
    );
    b.build();
    assert_eq!(world.run_query(&vec![pos, pos + 1]), Err(EcsError::TypeNotRegistered));
    let mut system = Physics { position: pos, velocity: pos + 1, size: pos + 2, collision: pos + 3 };
    assert_eq!(
        world.run_system(&mut system, &vec![pos + 1]),
        Err(EcsError::TypeNotRegistered)
    );
}

#[test]
fn discarded_builder_leaves_no_entity() {
    let mut world: World<GameComponent> = World::new();
    let pos = world.register();
    {
        let mut b = world.create_entity();
        b.with(pos, GameComponent::Position(Position(5, 5))).unwrap();
    }
    assert!(world.run_query(&vec![pos]).unwrap().is_empty());
    let e = spawn(&mut world, &[(pos, GameComponent::Position(Position(6, 6)))]);
    assert_eq!(e, GenerationalIndex { index: 1, generation: 0 });
    assert_eq!(world.run_query(&vec![pos]).unwrap(), vec![e]);
}

#[test]
fn queries_follow_build_order() {
    let mut world: World<GameComponent> = World::new();
    let pos = world.register();
    let p = GameComponent::Position(Position(0, 0));
    let e0 = spawn(&mut world, &[(pos, p)]);
    let e1 = spawn(&mut world, &[(pos, p)]);
    let e2 = spawn(&mut world, &[(pos, p)]);
    assert!(world.destroy_entity(e1));
    let e3 = spawn(&mut world, &[(pos, p)]);
    assert_eq!(e3.index, e1.index);
    assert_eq!(world.run_query(&vec![pos]).unwrap(), vec![e0, e2, e3]);
}

#[test]
fn registered_types_get_consecutive_ordinals() {
    let mut world: World<GameComponent> = World::new();
    assert_eq!(world.register(), 0);
    assert_eq!(world.register(), 1);
    assert_eq!(world.register(), 2);
}

#[test]
fn get_mut_of_stale_slot_is_absent() {
    let mut world: World<GameComponent> = World::new();
    let pos = world.register();
    let e = spawn(&mut world, &[(pos, GameComponent::Position(Position(1, 2)))]);
    *world.get_mut(pos, e).unwrap() = GameComponent::Position(Position(3, 4));
    assert_eq!(world.get(pos, e), Some(&GameComponent::Position(Position(3, 4))));
    assert!(world.destroy_entity(e));
    assert!(world.get_mut(pos, e).is_none());
}

#[test]
fn world_join_mutates_two_components_at_once() {
    let mut world: World<GameComponent> = World::new();
    let pos = world.register();
    let vel = world.register();
    let e = spawn(
        &mut world,
        &[
            (pos, GameComponent::Position(Position(1, 2))),
            (vel, GameComponent::Velocity(Velocity(3, 4))),
        ],
    );
    {
        let (p, v) = world.join_mut(pos, vel, e).unwrap();
        if let (GameComponent::Position(p), GameComponent::Velocity(v)) = (p, v) {
            p.0 += v.0;
            p.1 += v.1;
            v.1 = -v.1;
        }
    }
    assert_eq!(world.get(pos, e), Some(&GameComponent::Position(Position(4, 6))));
    assert_eq!(world.get(vel, e), Some(&GameComponent::Velocity(Velocity(3, -4))));
    let only = spawn(&mut world, &[(pos, GameComponent::Position(Position(0, 0)))]);
    assert!(world.join_mut(pos, vel, only).is_none());
    assert!(world.destroy_entity(e));
    assert!(world.join_mut(pos, vel, e).is_none());
}

#[test]
fn components_can_be_added_to_built_entities() {
    let mut world: World<GameComponent> = World::new();
    let pos = world.register();
    let vel = world.register();
    let e = spawn(&mut world, &[(pos, GameComponent::Position(Position(0, 0)))]);
    assert!(world.run_query(&vec![pos, vel]).unwrap().is_empty());
    assert_eq!(world.insert_component(vel, e, GameComponent::Velocity(Velocity(2, 2))), Ok(()));
    assert_eq!(world.run_query(&vec![pos, vel]).unwrap(), vec![e]);
    assert_eq!(world.get(vel, e), Some(&GameComponent::Velocity(Velocity(2, 2))));
    assert_eq!(
        world.insert_component(vel + 1, e, GameComponent::Velocity(Velocity(0, 0))),
        Err(EcsError::TypeNotRegistered)
    );
    assert!(world.destroy_entity(e));
    assert_eq!(
        world.insert_component(vel, e, GameComponent::Velocity(Velocity(0, 0))),
        Err(EcsError::NoSuchEntity)
    );
}

#[test]
fn reused_slot_starts_with_an_empty_mask() {
    let mut world: World<GameComponent> = World::new();
    let pos = world.register();
    let e = spawn(&mut world, &[(pos, GameComponent::Position(Position(0, 0)))]);
    assert!(world.destroy_entity(e));
    let b = world.create_entity();
    assert_eq!(b.entity.index, e.index);
    b.build();
    assert!(world.run_query(&vec![pos]).unwrap().is_empty());
    assert_eq!(world.run_query(&vec![]).unwrap().len(), 1);
}

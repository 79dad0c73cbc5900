use std::{
    any::TypeId,
    sync::{
        Arc,
        atomic::{AtomicUsize, Ordering},
    },
};

use frogbyte_ecs::{
    archetype::{Archetype, ArchetypeKey, ComponentSetMismatch},
    component::{Component, component_set::ComponentSet},
    entity::Entity,
};

#[derive(Debug, PartialEq)]
struct Position {
    x: f32,
    y: f32,
}

impl Component for Position {}

#[derive(Debug, PartialEq)]
struct Velocity {
    x: f32,
    y: f32,
}

impl Component for Velocity {}

#[derive(Debug, PartialEq)]
struct Health {
    value: u32,
}

impl Component for Health {}

#[derive(Debug, PartialEq)]
struct Marker;

impl Component for Marker {}

struct TagA;

impl Component for TagA {}

struct TagB;

impl Component for TagB {}

struct TrackedComponent {
    id: u32,
    drops: Arc<AtomicUsize>,
}

impl Component for TrackedComponent {}

impl Drop for TrackedComponent {
    fn drop(&mut self) {
        self.drops.fetch_add(1, Ordering::SeqCst);
    }
}

struct DropProbe {
    id: u32,
    drops: Arc<AtomicUsize>,
}

impl Component for DropProbe {}

impl Drop for DropProbe {
    fn drop(&mut self) {
        self.drops.fetch_add(1, Ordering::SeqCst);
    }
}

#[test]
fn archetype_key_is_canonical() {
    let first = ArchetypeKey::new(vec![
        TypeId::of::<Position>(),
        TypeId::of::<Velocity>(),
        TypeId::of::<Health>(),
    ]);

    let second = ArchetypeKey::new(vec![
        TypeId::of::<Health>(),
        TypeId::of::<Position>(),
        TypeId::of::<Velocity>(),
    ]);

    assert_eq!(first, second);
}


#[test]
fn supported_tuples_implement_component_set() {
    fn assert_component_set<T: ComponentSet>() {}

    assert_component_set::<()>();
    assert_component_set::<(Position,)>();
    assert_component_set::<(Position, Velocity, Health)>();
    assert_component_set::<(Position, Velocity, Health, Marker, TagA, TagB)>();
}

#[test]
fn insert_routes_components_by_type_and_preserves_rows() {
    let mut archetype = Archetype::new::<(Position, Velocity, Health)>().expect("component types are distinct");

    archetype.insert(
        Entity::new(0, 0),
        (
            Health { value: 100 },
            Position { x: 1.0, y: 2.0 },
            Velocity { x: 3.0, y: 4.0 },
        ),
    );

    archetype.insert(
        Entity::new(1, 0),
        (
            Velocity { x: 7.0, y: 8.0 },
            Health { value: 50 },
            Position { x: 5.0, y: 6.0 },
        ),
    );

    assert_eq!(archetype.get::<Position>(0), Some(&Position { x: 1.0, y: 2.0 }));
    assert_eq!(archetype.get::<Velocity>(0), Some(&Velocity { x: 3.0, y: 4.0 }));
    assert_eq!(archetype.get::<Health>(0), Some(&Health { value: 100 }));

    assert_eq!(archetype.get::<Position>(1), Some(&Position { x: 5.0, y: 6.0 }));
    assert_eq!(archetype.get::<Velocity>(1), Some(&Velocity { x: 7.0, y: 8.0 }));
    assert_eq!(archetype.get::<Health>(1), Some(&Health { value: 50 }));
}

#[test]
fn get_mut_updates_only_requested_component() {
    let mut archetype = Archetype::new::<(Position, Velocity)>().expect("component types are distinct");

    archetype.insert(
        Entity::new(0, 0),
        (Position { x: 1.0, y: 2.0 }, Velocity { x: 3.0, y: 4.0 }),
    );

    {
        let position = archetype
            .get_mut::<Position>(0)
            .expect("row 0 holds a Position");
        position.x = 10.0;
        position.y = 20.0;
    }

    assert_eq!(archetype.get::<Position>(0), Some(&Position { x: 10.0, y: 20.0 }));

    assert_eq!(archetype.get::<Velocity>(0), Some(&Velocity { x: 3.0, y: 4.0 }));
}

#[test]
fn mismatched_component_set_is_rejected_before_insertion() {
    let mut archetype = Archetype::new::<(Position, Velocity)>().expect("component types are distinct");

    let result = archetype.insert(
        Entity::new(0, 0),
        (Position { x: 1.0, y: 2.0 }, Health { value: 100 }),
    );

    assert!(result.is_err());

    // A valid insertion must still become row 0, proving that the rejected
    // insertion did not append a partial row.
    archetype.insert(
        Entity::new(1, 0),
        (Position { x: 5.0, y: 6.0 }, Velocity { x: 7.0, y: 8.0 }),
    );

    assert_eq!(archetype.get::<Position>(0), Some(&Position { x: 5.0, y: 6.0 }));
    assert_eq!(archetype.get::<Velocity>(0), Some(&Velocity { x: 7.0, y: 8.0 }));
}

#[test]
fn empty_archetype_supports_entity_rows() {
    let first = Entity::new(0, 0);
    let second = Entity::new(1, 0);
    let third = Entity::new(2, 0);

    let mut archetype = Archetype::new::<()>().expect("component types are distinct");

    archetype.insert(first, ());
    archetype.insert(second, ());
    archetype.insert(third, ());

    // Removing the middle row moves the final entity into its place.
    assert_eq!(archetype.swap_remove(1), Some(third));

    // The moved row is now the final row.
    assert_eq!(archetype.swap_remove(1), None);

    // Only the first entity remains.
    assert_eq!(archetype.swap_remove(0), None);
}

#[test]
fn swap_remove_moves_last_row_and_preserves_component_alignment() {
    let first = Entity::new(0, 0);
    let removed = Entity::new(1, 0);
    let moved = Entity::new(2, 0);

    let mut archetype = Archetype::new::<(Position, Velocity, Health)>().expect("component types are distinct");

    archetype.insert(
        first,
        (
            Position { x: 1.0, y: 2.0 },
            Velocity { x: 3.0, y: 4.0 },
            Health { value: 100 },
        ),
    );

    archetype.insert(
        removed,
        (
            Position { x: 5.0, y: 6.0 },
            Velocity { x: 7.0, y: 8.0 },
            Health { value: 50 },
        ),
    );

    archetype.insert(
        moved,
        (
            Position { x: 9.0, y: 10.0 },
            Velocity { x: 11.0, y: 12.0 },
            Health { value: 25 },
        ),
    );

    assert_eq!(archetype.swap_remove(1), Some(moved));

    // Row 0 remains untouched.
    assert_eq!(archetype.get::<Position>(0), Some(&Position { x: 1.0, y: 2.0 }));
    assert_eq!(archetype.get::<Velocity>(0), Some(&Velocity { x: 3.0, y: 4.0 }));
    assert_eq!(archetype.get::<Health>(0), Some(&Health { value: 100 }));

    // The previous final row has moved into row 1 as one aligned unit.
    assert_eq!(archetype.get::<Position>(1), Some(&Position { x: 9.0, y: 10.0 }));
    assert_eq!(archetype.get::<Velocity>(1), Some(&Velocity { x: 11.0, y: 12.0 }));
    assert_eq!(archetype.get::<Health>(1), Some(&Health { value: 25 }));
}

#[test]
fn swap_remove_last_row_does_not_move_an_entity() {
    let mut archetype = Archetype::new::<(Position,)>().expect("component types are distinct");

    archetype.insert(Entity::new(0, 0), (Position { x: 1.0, y: 2.0 },));
    archetype.insert(Entity::new(1, 0), (Position { x: 3.0, y: 4.0 },));

    assert_eq!(archetype.swap_remove(1), None);

    assert_eq!(archetype.get::<Position>(0), Some(&Position { x: 1.0, y: 2.0 }));
}

#[test]
fn swap_remove_drops_removed_value_exactly_once() {
    let retained_drops = Arc::new(AtomicUsize::new(0));
    let removed_drops = Arc::new(AtomicUsize::new(0));
    let moved_drops = Arc::new(AtomicUsize::new(0));

    let mut archetype = Archetype::new::<(TrackedComponent,)>().expect("component types are distinct");

    archetype.insert(
        Entity::new(0, 0),
        (TrackedComponent {
            id: 0,
            drops: Arc::clone(&retained_drops),
        },),
    );

    archetype.insert(
        Entity::new(1, 0),
        (TrackedComponent {
            id: 1,
            drops: Arc::clone(&removed_drops),
        },),
    );

    archetype.insert(
        Entity::new(2, 0),
        (TrackedComponent {
            id: 2,
            drops: Arc::clone(&moved_drops),
        },),
    );

    assert_eq!(archetype.swap_remove(1), Some(Entity::new(2, 0)));

    // Only the removed logical value must be destroyed by swap_remove.
    assert_eq!(removed_drops.load(Ordering::SeqCst), 1);
    assert_eq!(retained_drops.load(Ordering::SeqCst), 0);
    assert_eq!(moved_drops.load(Ordering::SeqCst), 0);

    // The retained and moved values are still alive in the archetype.
    assert_eq!(archetype.get::<TrackedComponent>(0).expect("row 0 holds a component").id, 0);
    assert_eq!(archetype.get::<TrackedComponent>(1).expect("row 1 holds a component").id, 2);

    drop(archetype);

    // Every logical value has now been destroyed exactly once.
    assert_eq!(removed_drops.load(Ordering::SeqCst), 1);
    assert_eq!(retained_drops.load(Ordering::SeqCst), 1);
    assert_eq!(moved_drops.load(Ordering::SeqCst), 1);
}


#[test]
fn zero_sized_components_support_swap_remove() {
    let mut archetype = Archetype::new::<(Marker,)>().expect("component types are distinct");

    archetype.insert(Entity::new(0, 0), (Marker,));
    archetype.insert(Entity::new(1, 0), (Marker,));
    archetype.insert(Entity::new(2, 0), (Marker,));

    assert_eq!(archetype.swap_remove(0), Some(Entity::new(2, 0)));

    assert_eq!(archetype.get::<Marker>(0), Some(&Marker));
    assert_eq!(archetype.get::<Marker>(1), Some(&Marker));
}

#[test]
fn archetype_with_a_duplicate_component_type_is_not_created() {
    assert!(Archetype::new::<(Position, Position)>().is_none());
    assert!(Archetype::new::<(Position, Velocity, Position)>().is_none());
}

#[test]
fn key_with_a_duplicate_component_type_is_not_created() {
    let duplicated = ArchetypeKey::try_new(vec![
        TypeId::of::<Position>(),
        TypeId::of::<Health>(),
        TypeId::of::<Position>(),
    ]);
    assert!(duplicated.is_none());

    let distinct = ArchetypeKey::try_new(vec![TypeId::of::<Health>(), TypeId::of::<Position>()])
        .expect("component types are distinct");
    assert_eq!(
        distinct,
        ArchetypeKey::new(vec![TypeId::of::<Position>(), TypeId::of::<Health>()])
    );
}

#[test]
fn key_positions_follow_ascending_type_order() {
    let ids = vec![
        TypeId::of::<Health>(),
        TypeId::of::<Position>(),
        TypeId::of::<Velocity>(),
    ];
    let mut sorted = ids.clone();
    sorted.sort_unstable();

    let key = ArchetypeKey::new(ids);

    for (index, id) in sorted.iter().enumerate() {
        assert_eq!(key.position(id), Some(index));
    }
    assert_eq!(key.position(&TypeId::of::<Marker>()), None);
}

#[test]
fn column_index_finds_each_component_type() {
    let archetype = Archetype::new::<(Velocity, Health, Position)>()
        .expect("component types are distinct");
    let mut sorted = vec![
        TypeId::of::<Health>(),
        TypeId::of::<Position>(),
        TypeId::of::<Velocity>(),
    ];
    sorted.sort_unstable();

    for (index, id) in sorted.iter().enumerate() {
        assert_eq!(archetype.column_index(id), Some(index));
    }
    assert_eq!(archetype.column_index(&TypeId::of::<Marker>()), None);
}

#[test]
fn component_set_lists_its_types_in_ascending_order() {
    let ids = <(Velocity, Health, Position) as ComponentSet>::type_ids();
    let mut sorted = vec![
        TypeId::of::<Health>(),
        TypeId::of::<Position>(),
        TypeId::of::<Velocity>(),
    ];
    sorted.sort_unstable();

    assert_eq!(ids, sorted);

    let columns = <(Velocity, Health, Position) as ComponentSet>::create_column();
    let column_ids: Vec<TypeId> = columns.iter().map(|column| column.type_id()).collect();
    assert_eq!(column_ids, sorted);
}

#[test]
fn incomplete_or_foreign_component_sets_are_rejected() {
    let mut archetype = Archetype::new::<(Position, Velocity)>()
        .expect("component types are distinct");

    assert_eq!(
        archetype.insert(Entity::new(0, 0), (Position { x: 1.0, y: 2.0 },)),
        Err(ComponentSetMismatch)
    );
    assert_eq!(
        archetype.insert(
            Entity::new(0, 0),
            (
                Position { x: 1.0, y: 2.0 },
                Velocity { x: 3.0, y: 4.0 },
                Health { value: 1 },
            )
        ),
        Err(ComponentSetMismatch)
    );
    assert_eq!(
        archetype.insert(Entity::new(0, 0), ()),
        Err(ComponentSetMismatch)
    );
    assert!(archetype.get::<Position>(0).is_none());

    assert_eq!(
        archetype.insert(
            Entity::new(3, 1),
            (Velocity { x: 3.0, y: 4.0 }, Position { x: 1.0, y: 2.0 })
        ),
        Ok(())
    );
    assert_eq!(archetype.swap_remove(0), None);
}

#[test]
fn get_returns_none_for_absent_types_and_rows() {
    let mut archetype = Archetype::new::<(Position,)>().expect("component types are distinct");
    archetype.insert(Entity::new(0, 0), (Position { x: 1.0, y: 2.0 },))
        .expect("the set matches");

    assert!(archetype.get::<Health>(0).is_none());
    assert!(archetype.get::<Position>(1).is_none());
    assert!(archetype.get_mut::<Health>(0).is_none());
    assert!(archetype.get_mut::<Position>(1).is_none());
    assert_eq!(archetype.get::<Position>(0), Some(&Position { x: 1.0, y: 2.0 }));
}

#[test]
fn swap_remove_of_the_first_row_moves_the_last_row_with_its_components() {
    let mut archetype = Archetype::new::<(Health, Velocity)>().expect("component types are distinct");
    for value in 0..4 {
        archetype
            .insert(
                Entity::new(value, 0),
                (
                    Health { value },
                    Velocity { x: value as f32, y: 0.0 },
                ),
            )
            .expect("the set matches");
    }

    assert_eq!(archetype.swap_remove(0), Some(Entity::new(3, 0)));
    assert_eq!(archetype.get::<Health>(0), Some(&Health { value: 3 }));
    assert_eq!(archetype.get::<Velocity>(0), Some(&Velocity { x: 3.0, y: 0.0 }));
    assert_eq!(archetype.get::<Health>(3), None);

    assert_eq!(archetype.swap_remove(2), None);
    assert_eq!(archetype.swap_remove(0), Some(Entity::new(1, 0)));
    assert_eq!(archetype.get::<Health>(0), Some(&Health { value: 1 }));
    assert_eq!(archetype.swap_remove(0), None);
    assert_eq!(archetype.get::<Health>(0), None);
}

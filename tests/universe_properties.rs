use ghost_ecs::Universe;

#[derive(Default, Debug, PartialEq)]
struct Position(i64, i64);

#[derive(Default, Debug, PartialEq)]
struct Name(String);

#[test]
fn entity_ids_increase_from_zero() {
    let mut universe = Universe::new();
    assert_eq!(0, universe.create_entity());
    assert_eq!(1, universe.create_entity());
    assert_eq!(2, universe.create_entity());
}

#[test]
fn fresh_entity_is_live_and_has_no_component() {
    let mut universe = Universe::default();
    let other = universe.create_entity();
    universe.add_component::<usize>(other);
    universe.add_component::<Position>(other);

    let entity = universe.create_entity();

    assert!(universe.contains_entity(entity));
    assert!(!universe.has_component::<usize>(entity));
    assert!(!universe.has_component::<Position>(entity));
    assert!(!universe.has_component::<Name>(entity));
    assert_eq!(None, universe.get_component::<usize>(entity));
}

#[test]
fn removed_entity_is_gone_with_its_components() {
    let mut universe = Universe::default();
    let entity = universe.create_entity();
    universe.add_component::<usize>(entity);
    universe.add_component::<Position>(entity);

    universe.remove_entity(entity);

    assert!(!universe.contains_entity(entity));
    assert!(!universe.has_component::<usize>(entity));
    assert!(!universe.has_component::<Position>(entity));
    assert_eq!(None, universe.get_component::<Position>(entity));
    assert_eq!(None, universe.get_component_mut::<usize>(entity));
}

#[test]
fn removing_twice_or_unknown_changes_nothing() {
    let mut universe = Universe::default();
    let keep = universe.create_entity();
    let gone = universe.create_entity();
    universe.add_component::<usize>(keep);
    universe.add_component::<usize>(gone);

    universe.remove_entity(gone);
    universe.remove_entity(gone);
    universe.remove_entity(12345);

    assert!(universe.contains_entity(keep));
    assert!(universe.has_component::<usize>(keep));
    assert!(!universe.contains_entity(gone));
    assert!(!universe.has_component::<usize>(gone));
    assert_eq!(2, universe.create_entity());
}

#[test]
fn reused_slot_carries_no_data_of_the_removed_entity() {
    let mut universe = Universe::default();
    let e1 = universe.create_entity();
    universe.add_component_with(e1, || Position(3, 4));
    universe.add_component::<u32>(e1);

    universe.remove_entity(e1);
    let e2 = universe.create_entity();

    assert_ne!(e1, e2);
    assert!(!universe.contains_entity(e1));
    assert!(universe.contains_entity(e2));
    assert!(!universe.has_component::<Position>(e2));
    assert!(!universe.has_component::<u32>(e2));
    assert_eq!(None, universe.get_component::<Position>(e2));
}

#[test]
fn lowest_vacant_slot_is_reused_first() {
    let mut universe = Universe::default();
    let e0 = universe.create_entity();
    let e1 = universe.create_entity();
    let e2 = universe.create_entity();
    universe.add_component_with(e0, || 10usize);
    universe.add_component_with(e2, || 12usize);

    universe.remove_entity(e2);
    universe.remove_entity(e1);
    let e3 = universe.create_entity();
    let e4 = universe.create_entity();
    universe.add_component_with(e3, || 13usize);
    universe.add_component_with(e4, || 14usize);
    let e5 = universe.create_entity();

    assert_eq!(Some(&10), universe.get_component::<usize>(e0));
    assert_eq!(Some(&13), universe.get_component::<usize>(e3));
    assert_eq!(Some(&14), universe.get_component::<usize>(e4));
    assert!(universe.contains_entity(e5));
    assert!(!universe.has_component::<usize>(e5));
}

#[test]
fn components_stay_on_their_own_entity() {
    let mut universe = Universe::default();
    let e1 = universe.create_entity();
    let e2 = universe.create_entity();

    universe.add_component::<usize>(e1);
    universe.add_component::<u32>(e2);

    assert!(universe.has_component::<usize>(e1));
    assert!(!universe.has_component::<u32>(e1));
    assert!(universe.has_component::<u32>(e2));
    assert!(!universe.has_component::<usize>(e2));
}

#[test]
fn added_component_reads_back_as_default_and_mutation_is_visible() {
    let mut universe = Universe::default();
    let entity = universe.create_entity();

    universe.add_component::<usize>(entity);
    assert_eq!(Some(&0), universe.get_component::<usize>(entity));

    universe.add_component::<Position>(entity);
    assert_eq!(Some(&Position(0, 0)), universe.get_component::<Position>(entity));

    if let Some(component) = universe.get_component_mut::<usize>(entity) {
        *component = 1;
    }
    if let Some(position) = universe.get_component_mut::<Position>(entity) {
        position.1 = -7;
    }

    assert_eq!(Some(&1), universe.get_component::<usize>(entity));
    assert_eq!(Some(&Position(0, -7)), universe.get_component::<Position>(entity));
}

#[test]
fn add_component_with_stores_the_built_value() {
    let mut universe = Universe::default();
    let entity = universe.create_entity();

    universe.add_component_with(entity, || Name("built".to_string()));
    universe.add_component_with(entity, || 1234usize);

    assert_eq!(Some(&Name("built".to_string())), universe.get_component::<Name>(entity));
    assert_eq!(Some(&1234), universe.get_component::<usize>(entity));
}

#[test]
fn add_component_again_resets_to_default() {
    let mut universe = Universe::default();
    let entity = universe.create_entity();

    universe.add_component_with(entity, || 9u8);
    universe.add_component::<u8>(entity);

    assert_eq!(Some(&0), universe.get_component::<u8>(entity));
}

#[test]
fn add_component_with_on_unknown_entity_does_not_build() {
    let mut universe = Universe::default();
    let entity = universe.create_entity();

    universe.add_component_with(77, || -> usize { panic!("the builder must not run") });

    assert!(!universe.contains_entity(77));
    assert!(!universe.has_component::<usize>(77));
    assert!(!universe.has_component::<usize>(entity));
}

#[test]
fn add_component_on_unknown_entity_changes_nothing_visible() {
    let mut universe = Universe::default();
    let entity = universe.create_entity();

    universe.add_component::<u16>(500);

    assert!(!universe.contains_entity(500));
    assert!(!universe.has_component::<u16>(500));
    assert!(!universe.has_component::<u16>(entity));
    assert_eq!(None, universe.get_component::<u16>(500));

    let later = universe.create_entity();
    universe.add_component::<u16>(later);
    assert!(universe.has_component::<u16>(later));
    assert!(!universe.has_component::<u16>(entity));
}

#[test]
fn remove_component_detaches_only_that_component() {
    let mut universe = Universe::default();
    let entity = universe.create_entity();
    let other = universe.create_entity();
    universe.add_component::<usize>(entity);
    universe.add_component::<u32>(entity);
    universe.add_component::<usize>(other);

    universe.remove_component::<usize>(entity);

    assert!(!universe.has_component::<usize>(entity));
    assert!(universe.has_component::<u32>(entity));
    assert!(universe.has_component::<usize>(other));
    assert_eq!(None, universe.get_component::<usize>(entity));

    universe.remove_component::<i8>(entity);
    assert!(universe.has_component::<u32>(entity));
}

#[test]
fn three_entities_scenario() {
    let mut universe = Universe::default();
    let e1 = universe.create_entity();
    let e2 = universe.create_entity();
    let e3 = universe.create_entity();

    universe.add_component::<usize>(e1);
    universe.add_component::<usize>(e2);
    universe.add_component::<usize>(e3);
    universe.add_component::<f32>(e1);
    universe.add_component::<f32>(e2);
    universe.add_component::<u32>(e2);
    universe.add_component::<u32>(e3);

    universe.remove_entity(e2);
    let e4 = universe.create_entity();
    universe.add_component::<f32>(e4);

    assert!(universe.has_component::<usize>(e1));
    assert!(universe.has_component::<f32>(e1));
    assert!(!universe.has_component::<u32>(e1));

    assert!(universe.has_component::<usize>(e3));
    assert!(!universe.has_component::<f32>(e3));
    assert!(universe.has_component::<u32>(e3));

    assert!(!universe.has_component::<usize>(e4));
    assert!(universe.has_component::<f32>(e4));
    assert!(!universe.has_component::<u32>(e4));

    assert!(!universe.contains_entity(e2));
    assert!(!universe.has_component::<usize>(e2));
    assert!(!universe.has_component::<f32>(e2));
    assert!(!universe.has_component::<u32>(e2));
    assert_eq!(Some(&0.0), universe.get_component::<f32>(e4));
}

use ghost_ecs::Universe;

#[test]
fn dont_crash_when_removing_unkown_entity() {
    let mut universe = Universe::default();
    universe.remove_entity(9999);
}

#[test]
fn can_add_same_component_to_multiple_entities() {
    let mut universe = Universe::default();
    let entity1 = universe.create_entity();
    let entity2 = universe.create_entity();
    let entity3 = universe.create_entity();

    universe.add_component::<f32>(entity1);
    universe.add_component::<f32>(entity2);
    universe.add_component::<f32>(entity3);

    assert!(universe.has_component::<f32>(entity1));
    assert!(universe.has_component::<f32>(entity2));
    assert!(universe.has_component::<f32>(entity3));
}

#[test]
fn can_add_different_components_to_multiple_entities() {
    let mut universe = Universe::default();
    let entity1 = universe.create_entity();
    let entity2 = universe.create_entity();
    let entity3 = universe.create_entity();

    universe.add_component::<usize>(entity1);
    universe.add_component::<f32>(entity2);
    universe.add_component::<u32>(entity3);

    assert!(universe.has_component::<usize>(entity1));
    assert!(universe.has_component::<f32>(entity2));
    assert!(universe.has_component::<u32>(entity3));
}

#[test]
fn can_add_different_components_to_the_same_entity() {
    let mut universe = Universe::default();
    let entity = universe.create_entity();

    universe.add_component::<usize>(entity);
    universe.add_component::<f32>(entity);

    assert!(universe.has_component::<usize>(entity));
    assert!(universe.has_component::<f32>(entity));
}

#[test]
fn can_keep_memory_integrity_when_removing_non_attached_components() {
    let mut universe = Universe::default();
    let entity1 = universe.create_entity();
    let entity2 = universe.create_entity();

    universe.add_component::<usize>(entity1);
    universe.add_component::<f32>(entity1);

    universe.add_component::<usize>(entity2);
    universe.add_component::<f32>(entity2);
    universe.add_component::<i32>(entity2);

    universe.remove_component::<i32>(entity1);

    assert!(universe.has_component::<usize>(entity1));
    assert!(universe.has_component::<f32>(entity1));

    assert!(universe.has_component::<usize>(entity2));
    assert!(universe.has_component::<f32>(entity2));
    assert!(universe.has_component::<i32>(entity2));
}

#[test]
fn can_reuse_storage_space_from_deleted_entity_and_components() {
    let mut universe = Universe::default();
    let entity1 = universe.create_entity();
    let entity2 = universe.create_entity();
    let entity3 = universe.create_entity();

    universe.add_component::<usize>(entity1);
    universe.add_component::<usize>(entity2);
    universe.add_component::<usize>(entity3);

    universe.add_component::<f32>(entity1);
    universe.add_component::<f32>(entity2);

    universe.add_component::<u32>(entity2);
    universe.add_component::<u32>(entity3);

    universe.remove_entity(entity2);

    let entity4 = universe.create_entity();

    universe.add_component::<f32>(entity4);

    assert!(!universe.contains_entity(entity2));

    assert!(universe.has_component::<usize>(entity1));
    assert!(universe.has_component::<f32>(entity1));
    assert!(!universe.has_component::<u32>(entity1));

    assert!(universe.has_component::<usize>(entity3));
    assert!(!universe.has_component::<f32>(entity3));
    assert!(universe.has_component::<u32>(entity3));

    assert!(!universe.has_component::<usize>(entity4));
    assert!(universe.has_component::<f32>(entity4));
    assert!(!universe.has_component::<u32>(entity4));
}

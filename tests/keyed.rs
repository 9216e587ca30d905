use std::any::TypeId;

use ghost_ecs::{ResourceCreationError, ResourceManager, TypeKey, Universe};

#[test]
fn keyed_add_has_get_and_remove() {
    let mut universe = Universe::default();
    let e1 = universe.create_entity();
    let e2 = universe.create_entity();
    let a = TypeKey::<u32>::of();
    let b = TypeKey::<i64>::of();

    universe.add_component_of(&a, e1, || 7u32);
    universe.add_component_of(&b, e2, || -7i64);

    assert!(universe.has_component_of(&a.type_id(), e1));
    assert!(!universe.has_component_of(&a.type_id(), e2));
    assert!(universe.has_component_of(&b.type_id(), e2));
    assert!(!universe.has_component_of(&b.type_id(), e1));
    assert_eq!(Some(&7), universe.get_component_of(&a, e1));
    assert_eq!(None, universe.get_component_of(&a, e2));
    assert_eq!(Some(&-7), universe.get_component::<i64>(e2));
    assert!(universe.has_component::<u32>(e1));

    if let Some(value) = universe.get_component_mut_of(&a, e1) {
        *value = 70;
    }
    assert_eq!(Some(&70), universe.get_component_of(&a, e1));
    assert_eq!(Some(&-7), universe.get_component_of(&b, e2));

    universe.remove_component_of(&a.type_id(), e1);
    assert!(!universe.has_component_of(&a.type_id(), e1));
    assert_eq!(None, universe.get_component_of(&a, e1));
    assert!(universe.has_component_of(&b.type_id(), e2));
}

#[test]
fn keyed_add_on_unknown_entity_does_not_build() {
    let mut universe = Universe::default();
    let key = TypeKey::<u8>::of();

    universe.add_component_of(&key, 3, || -> u8 { panic!("the builder must not run") });

    assert!(!universe.has_component_of(&key.type_id(), 3));
    let entity = universe.create_entity();
    assert!(!universe.has_component_of(&key.type_id(), entity));
    assert_eq!(None, universe.get_component_of(&key, entity));
}

#[test]
fn typed_and_keyed_calls_agree() {
    let mut universe = Universe::default();
    let entity = universe.create_entity();

    universe.add_component::<u16>(entity);

    assert_eq!(TypeId::of::<u16>(), TypeKey::<u16>::of().type_id());
    assert!(universe.has_component_of(&TypeId::of::<u16>(), entity));
    assert!(!universe.has_component_of(&TypeId::of::<u32>(), entity));
    assert_eq!(Some(&0), universe.get_component_of(&TypeKey::<u16>::of(), entity));
    universe.remove_component_of(&TypeId::of::<u16>(), entity);
    assert!(!universe.has_component::<u16>(entity));
    assert_eq!(None, universe.get_component::<u16>(entity));
}

#[test]
fn keyed_resource_registry() {
    let mut res = ResourceManager::new();
    let key = TypeKey::<u64>::of();

    assert!(!res.contains_resource_of(&key.type_id()));
    assert_eq!(None, res.get_resource_of(&key));
    assert_eq!(Ok(()), res.add_resource_of(&key));
    assert!(res.contains_resource_of(&key.type_id()));
    assert_eq!(Some(&0), res.get_resource_of(&key));

    if let Some(value) = res.get_resource_mut_of(&key) {
        *value = 9;
    }
    assert_eq!(Err(ResourceCreationError::AlreadyRegistered), res.add_resource_of(&key));
    assert_eq!(Some(&9), res.get_resource_of(&key));

    res.remove_resource_of(&key.type_id());
    assert!(!res.contains_resource_of(&key.type_id()));
    assert_eq!(None, res.get_resource_of(&key));
    assert_eq!(None, res.get_resource_mut_of(&key));
}

#[test]
fn removing_one_resource_keeps_the_others() {
    let mut res = ResourceManager::new();
    let _ = res.add_resource::<u8>();
    let _ = res.add_resource::<u16>();
    let _ = res.add_resource::<u32>();
    if let Some(value) = res.get_resource_mut::<u32>() {
        *value = 32;
    }

    res.remove_resource_of(&TypeId::of::<u16>());

    assert_eq!(Some(&0), res.get_resource::<u8>());
    assert_eq!(None, res.get_resource::<u16>());
    assert_eq!(Some(&32), res.get_resource::<u32>());
}

use foundry::delegator::instantiate_entity;
use foundry::components::{MESH_ALLOCATION_KIND, TRANSFORM_KIND};
use foundry::ecs::{Archetype, Health, TypeRegister, World};

#[test]
fn health_new_keeps_values() {
    let h = Health::new(20, 30);
    assert_eq!(h.current, 20);
    assert_eq!(h.max, 30);
}

#[test]
fn build_then_get_component() {
    let mut world: World<u32> = World::new();
    let id = world.spawn().with(1, 10).with(2, 20).build(&mut world);
    assert_eq!(id, 0);
    assert_eq!(*world.get_component(id, 1), 10);
    assert_eq!(*world.get_component(id, 2), 20);
}

#[test]
fn spawn_gives_increasing_ids() {
    let mut world: World<u32> = World::new();
    let a = world.spawn();
    let b = world.spawn();
    assert_eq!(a.id(), 0);
    assert_eq!(b.id(), 1);
    assert_eq!(world.next_available_entity_id(), 2);
}

#[test]
fn other_entities_keep_their_components() {
    let mut world: World<u32> = World::new();
    let first = world.spawn().with(1, 11).build(&mut world);
    let second = world.spawn().with(1, 22).with(3, 33).build(&mut world);
    assert_eq!(*world.get_component(first, 1), 11);
    assert_eq!(*world.get_component(second, 1), 22);
    assert_eq!(*world.get_component(second, 3), 33);
}

#[test]
fn kinds_in_any_order_share_an_archetype() {
    let mut world: World<u32> = World::new();
    let a = world.spawn().with(5, 1).with(2, 2).build(&mut world);
    let b = world.spawn().with(2, 3).with(5, 4).build(&mut world);
    let both = world.get_archetypes_by_ids(&vec![2, 5]);
    assert_eq!(both.len(), 1);
    assert_eq!(both[0].get_components_as_slice(5), &[1, 4]);
    assert_eq!(both[0].get_components_as_slice(2), &[2, 3]);
    assert_eq!(*world.get_component(a, 5), 1);
    assert_eq!(*world.get_component(b, 5), 4);
}

#[test]
fn archetypes_by_ids_keeps_only_those_with_every_kind() {
    let mut world: World<u32> = World::new();
    world.spawn().with(1, 0).build(&mut world);
    world.spawn().with(1, 0).with(2, 0).build(&mut world);
    world.spawn().with(2, 0).build(&mut world);
    assert_eq!(world.get_archetypes_by_ids(&vec![1]).len(), 2);
    assert_eq!(world.get_archetypes_by_ids(&vec![2]).len(), 2);
    assert_eq!(world.get_archetypes_by_ids(&vec![1, 2]).len(), 1);
    assert_eq!(world.get_archetypes_by_ids(&vec![]).len(), 3);
    assert_eq!(world.get_archetypes_by_ids(&vec![9]).len(), 0);
}

#[test]
fn get_component_as_mut_changes_only_that_component() {
    let mut world: World<u32> = World::new();
    let a = world.spawn().with(1, 10).with(2, 20).build(&mut world);
    let b = world.spawn().with(1, 30).with(2, 40).build(&mut world);
    *world.get_component_as_mut(a, 2) = 99;
    assert_eq!(*world.get_component(a, 2), 99);
    assert_eq!(*world.get_component(a, 1), 10);
    assert_eq!(*world.get_component(b, 2), 40);
}

#[test]
fn render_batches_pair_transform_and_mesh_columns() {
    let mut world: World<u32> = World::new();
    world.spawn().with(TRANSFORM_KIND, 1).with(MESH_ALLOCATION_KIND, 2).build(&mut world);
    world.spawn().with(TRANSFORM_KIND, 3).build(&mut world);
    world.spawn().with(MESH_ALLOCATION_KIND, 4).with(TRANSFORM_KIND, 5).build(&mut world);
    world.spawn().with(MESH_ALLOCATION_KIND, 6).with(TRANSFORM_KIND, 7).with(9, 8).build(&mut world);
    let batches = world.get_render_batches();
    assert_eq!(batches.len(), 2);
    assert_eq!(batches[0].0, &[1, 5]);
    assert_eq!(batches[0].1, &[2, 4]);
    assert_eq!(batches[1].0, &[7]);
    assert_eq!(batches[1].1, &[6]);
}

#[test]
fn spawn_player_has_position_and_health() {
    let mut world: World<u32> = World::new();
    let id = world.spawn_player(100, 20);
    assert_eq!(id, 0);
    assert_eq!(*world.get_component(id, foundry::components::POSITION_KIND), 100);
    assert_eq!(*world.get_component(id, foundry::components::HEALTH_KIND), 20);
    assert_eq!(world.next_available_entity_id(), 1);
}

#[test]
fn builder_reports_its_kinds() {
    let mut world: World<u32> = World::new();
    let b = world.spawn().with(MESH_ALLOCATION_KIND, 1);
    assert!(b.has_component(MESH_ALLOCATION_KIND));
    assert!(!b.has_component(TRANSFORM_KIND));
}

#[test]
fn signature_is_sorted() {
    assert_eq!(Archetype::<u32>::generate_signature(&vec![9, 3, 7, 1]), vec![1, 3, 7, 9]);
    assert_eq!(Archetype::<u32>::generate_signature(&vec![]), Vec::<u64>::new());
}

#[test]
fn archetype_columns_only_for_registered_kinds() {
    let mut register = TypeRegister::new();
    register.register(4);
    register.register(6);
    register.register(4);
    assert!(register.contains(4));
    assert!(!register.contains(5));
    let archetype: Archetype<u32> = Archetype::new(0, vec![4, 5, 6, 4], &register);
    assert!(archetype.has_component(4));
    assert!(!archetype.has_component(5));
    assert!(archetype.has_id(&6));
    assert_eq!(archetype.get_components_as_slice(4).len(), 0);
}

#[test]
fn records_point_to_rows() {
    let mut world: World<u32> = World::new();
    world.spawn().with(1, 10).build(&mut world);
    let b = world.spawn().with(1, 20).build(&mut world);
    assert_eq!(*world.get_component(b, 1), 20);
    let column = world.get_archetypes_by_ids(&vec![1])[0].get_components_as_slice(1).to_vec();
    assert_eq!(column, vec![10, 20]);
}

#[test]
fn entity_record_points_to_its_row() {
    let mut world: World<u32> = World::new();
    world.spawn().with(3, 1).with(1, 2).build(&mut world);
    let b = world.spawn().with(1, 5).with(3, 6).build(&mut world);
    let record = world.entity_record(b).unwrap();
    assert_eq!(record.row_index(), 1);
    assert_eq!(record.archetype_signature(), &vec![1, 3]);
    assert!(world.entity_record(7).is_none());
    assert!(world.has_component(b, 3));
    assert!(!world.has_component(b, 2));
    assert!(!world.has_component(9, 1));
}

#[test]
fn columns_hold_one_value_per_entity() {
    let mut world: World<u32> = World::new();
    let a = world.spawn().with(2, 1).with(4, 2).build(&mut world);
    let b = world.spawn().with(4, 3).with(2, 4).build(&mut world);
    let archetypes = world.get_archetypes_by_ids(&vec![2, 4]);
    assert_eq!(archetypes[0].entity_ids(), &vec![a, b]);
    assert_eq!(archetypes[0].get_components_as_slice(2).len(), 2);
    assert_eq!(archetypes[0].get_components_as_slice(4).len(), 2);
}

#[test]
fn build_makes_an_archetype_only_for_a_new_signature() {
    let mut world: World<u32> = World::new();
    let a = world.spawn().with(1, 0).build(&mut world);
    let b = world.spawn().with(1, 0).build(&mut world);
    assert_eq!(world.get_archetypes_by_ids(&vec![]).len(), 1);
    let c = world.spawn().with(2, 0).with(1, 0).build(&mut world);
    let all = world.get_archetypes_by_ids(&vec![]);
    assert_eq!(all.len(), 2);
    assert_eq!(all[0].entity_ids(), &vec![a, b]);
    assert_eq!(all[1].entity_ids(), &vec![c]);
}

#[test]
fn a_repeated_kind_is_recorded_and_reported() {
    let mut world: World<u32> = World::new();
    let b = world.spawn().with(1, 10).with(2, 20);
    assert!(b.kinds_are_distinct());
    let b = b.with(1, 30);
    assert!(!b.kinds_are_distinct());
    assert!(b.has_component(1));
}

#[test]
fn kinds_in_any_order_give_consecutive_rows() {
    let mut world: World<u32> = World::new();
    world.spawn().with(7, 0).build(&mut world);
    let a = world.spawn().with(4, 1).with(3, 2).build(&mut world);
    let b = world.spawn().with(3, 3).with(4, 4).build(&mut world);
    let ra = world.entity_record(a).unwrap();
    let rb = world.entity_record(b).unwrap();
    assert_eq!(ra.archetype_signature(), rb.archetype_signature());
    assert_eq!(ra.archetype_signature(), &vec![3, 4]);
    assert_eq!(ra.row_index(), 0);
    assert_eq!(rb.row_index(), 1);
    assert_eq!(world.get_archetypes_by_ids(&vec![]).len(), 2);
}

#[test]
fn signature_keeps_repeated_kinds_and_is_stable() {
    let s = Archetype::<u32>::generate_signature(&vec![5, 1, 5, 3]);
    assert_eq!(s, vec![1, 3, 5, 5]);
    assert_eq!(Archetype::<u32>::generate_signature(&s), s);
    assert_eq!(Archetype::<u32>::generate_signature(&vec![5, 5, 3, 1]), s);
}

#[test]
fn instantiate_puts_the_mesh_data_in_place() {
    let mut world: World<u32> = World::new();
    let with_mesh = world.spawn().with(TRANSFORM_KIND, 1).with(MESH_ALLOCATION_KIND, 2);
    let a = instantiate_entity(&mut world, with_mesh, || 99);
    assert_eq!(*world.get_component(a, MESH_ALLOCATION_KIND), 99);
    assert_eq!(*world.get_component(a, TRANSFORM_KIND), 1);
    let without = world.spawn().with(TRANSFORM_KIND, 3);
    let b = instantiate_entity(&mut world, without, || -> u32 { panic!("no mesh asked for") });
    assert_eq!(*world.get_component(b, TRANSFORM_KIND), 3);
    assert!(!world.has_component(b, MESH_ALLOCATION_KIND));
}

#[test]
fn spawning_keeps_records() {
    let mut world: World<u32> = World::new();
    let a = world.spawn().with(1, 5).build(&mut world);
    let _ = world.spawn();
    let b = world.spawn().with(1, 6).build(&mut world);
    assert_eq!(world.entity_record(a).unwrap().row_index(), 0);
    assert_eq!(world.entity_record(b).unwrap().row_index(), 1);
}

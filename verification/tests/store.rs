//! Component store behaviour: sorted upserts, lookups, removal.

use guitk::component_list::ComponentList;
use guitk::components::ComponentAABB;
use guitk::entity::{Component, EntityID};

fn boxed(id: u16, x: i32) -> ComponentAABB {
    ComponentAABB { entity_id: EntityID(id), x, y: 0, w: 10, h: 10 }
}

#[test]
fn upserts_keep_store_sorted_and_unique() {
    let mut store: ComponentList<ComponentAABB> = ComponentList::new();
    store.add_component(boxed(5, 1));
    store.add_component(boxed(1, 2));
    store.add_component(boxed(9, 3));
    store.add_component(boxed(3, 4));
    store.add_component(boxed(7, 5));
    assert_eq!(store.len(), 5);
    let mut prev: u32 = 0;
    let mut i = 0;
    while i < store.len() {
        let id = store.get(i).get_entity_id().0 as u32;
        if i > 0 {
            assert!(prev < id);
        }
        prev = id;
        i += 1;
    }
}

#[test]
fn upsert_with_same_id_replaces_last_wins() {
    let mut store: ComponentList<ComponentAABB> = ComponentList::new();
    store.add_component(boxed(3, 10));
    store.add_component(boxed(1, 20));
    store.add_component(boxed(3, 30));
    store.add_component(boxed(3, 40));
    assert_eq!(store.len(), 2);
    let c = store.get_component(EntityID(3)).unwrap();
    assert_eq!(c.x, 40);
}

#[test]
fn lookup_after_upsert_returns_the_component() {
    let mut store: ComponentList<ComponentAABB> = ComponentList::new();
    store.add_component(boxed(2, 7));
    store.add_component(boxed(8, 9));
    let c = store.get_component(EntityID(8)).unwrap();
    assert_eq!(c.entity_id, EntityID(8));
    assert_eq!(c.x, 9);
}

#[test]
fn lookup_of_never_inserted_id_is_absent() {
    let mut store: ComponentList<ComponentAABB> = ComponentList::new();
    assert!(store.get_component(EntityID(1)).is_none());
    store.add_component(boxed(2, 0));
    store.add_component(boxed(4, 0));
    assert!(store.get_component(EntityID(3)).is_none());
    assert!(store.get_component_index(EntityID(3)).is_none());
}

#[test]
fn get_component_index_finds_position() {
    let mut store: ComponentList<ComponentAABB> = ComponentList::new();
    store.add_component(boxed(10, 0));
    store.add_component(boxed(20, 0));
    store.add_component(boxed(30, 0));
    assert_eq!(store.get_component_index(EntityID(10)), Some(0));
    assert_eq!(store.get_component_index(EntityID(20)), Some(1));
    assert_eq!(store.get_component_index(EntityID(30)), Some(2));
}

#[test]
fn get_component_mut_writes_through() {
    let mut store: ComponentList<ComponentAABB> = ComponentList::new();
    store.add_component(boxed(4, 0));
    {
        let m = store.get_component_mut(EntityID(4)).unwrap();
        m.x = 99;
    }
    assert_eq!(store.get_component(EntityID(4)).unwrap().x, 99);
    assert!(store.get_component_mut(EntityID(5)).is_none());
}

#[test]
fn remove_by_index_deletes_exactly_one() {
    let mut store: ComponentList<ComponentAABB> = ComponentList::new();
    store.add_component(boxed(1, 0));
    store.add_component(boxed(2, 0));
    store.add_component(boxed(3, 0));
    let gone = store.remove(1);
    assert_eq!(gone.entity_id, EntityID(2));
    assert_eq!(store.len(), 2);
    assert!(store.get_component(EntityID(2)).is_none());
    assert!(store.get_component(EntityID(1)).is_some());
    assert!(store.get_component(EntityID(3)).is_some());
}

#[test]
fn sentinel_id_is_storable_like_any_other() {
    let mut store: ComponentList<ComponentAABB> = ComponentList::new();
    store.add_component(boxed(u16::MAX, 1));
    store.add_component(boxed(0, 2));
    assert_eq!(store.len(), 2);
    assert_eq!(store.get(0).get_entity_id(), EntityID(0));
    assert_eq!(store.get(1).get_entity_id(), EntityID(u16::MAX));
}

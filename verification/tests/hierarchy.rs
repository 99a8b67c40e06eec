//! Hierarchy construction: forests, roots, and malformed-hierarchy
//! detection.

use guitk::components::ComponentContainer;
use guitk::entity::EntityID;
use guitk::layout::Layout;
use guitk::tree::EntityTree;
use guitk::view::Layer;

fn vlist(owner: u16, children: &[u16], item_height: i32) -> ComponentContainer {
    let mut entity_list = Vec::new();
    for c in children {
        entity_list.push(EntityID(*c));
    }
    ComponentContainer {
        entity_id: EntityID(owner),
        layout: Layout::VList { entity_list, item_height },
    }
}

fn layer_with(containers: Vec<ComponentContainer>) -> Layer {
    let mut layer = Layer::new();
    for c in containers {
        layer.component_container.add_component(c);
    }
    layer
}

#[test]
fn builds_a_simple_forest() {
    // A -> {B}, B a container with no children; C a root with no children.
    let layer = layer_with(vec![vlist(1, &[2], 10), vlist(2, &[], 10), vlist(3, &[], 10)]);
    let tree = EntityTree::new_from_layer(&layer).unwrap();
    assert_eq!(tree.len(), 3);
    // Roots first, in store order: A (id 1) and C (id 3); then B under A.
    assert_eq!(tree.get_node(0).value, EntityID(1));
    assert_eq!(tree.get_node(1).value, EntityID(3));
    assert_eq!(tree.get_node(2).value, EntityID(2));
    assert_eq!(tree.get_node(0).parent, None);
    assert_eq!(tree.get_node(1).parent, None);
    assert_eq!(tree.get_node(2).parent, Some(0));
    assert_eq!(tree.get_node(0).children, vec![2]);
    assert!(tree.get_node(1).children.is_empty());
    let roots = tree.get_roots();
    assert_eq!(roots, vec![0, 1]);
}

#[test]
fn double_parented_child_is_malformed() {
    // A -> {B}, C -> {B}: B has two parents.
    let layer = layer_with(vec![vlist(1, &[2], 10), vlist(2, &[], 10), vlist(3, &[2], 10)]);
    assert!(EntityTree::new_from_layer(&layer).is_none());
}

#[test]
fn cycle_is_malformed() {
    // A -> {B}, B -> {A}: a cycle with no root.
    let layer = layer_with(vec![vlist(1, &[2], 10), vlist(2, &[1], 10)]);
    assert!(EntityTree::new_from_layer(&layer).is_none());
}

#[test]
fn self_reference_is_malformed() {
    let layer = layer_with(vec![vlist(1, &[1], 10)]);
    assert!(EntityTree::new_from_layer(&layer).is_none());
}

#[test]
fn duplicate_child_in_one_rule_is_malformed() {
    // A names container B twice.
    let layer = layer_with(vec![vlist(1, &[2, 2], 10), vlist(2, &[], 10)]);
    assert!(EntityTree::new_from_layer(&layer).is_none());
}

#[test]
fn non_container_children_are_ignored() {
    // A -> {7, 8}: neither 7 nor 8 is a container; they are leaf entities.
    let layer = layer_with(vec![vlist(1, &[7, 8], 10)]);
    let tree = EntityTree::new_from_layer(&layer).unwrap();
    assert_eq!(tree.len(), 1);
    assert_eq!(tree.get_node(0).value, EntityID(1));
    assert!(tree.get_node(0).children.is_empty());
}

#[test]
fn construction_is_idempotent_on_unchanged_containers() {
    let layer = layer_with(vec![
        vlist(1, &[2, 3], 10),
        vlist(2, &[4], 10),
        vlist(3, &[], 10),
        vlist(4, &[], 10),
    ]);
    let t1 = EntityTree::new_from_layer(&layer).unwrap();
    let t2 = EntityTree::new_from_layer(&layer).unwrap();
    assert_eq!(t1.len(), t2.len());
    assert_eq!(t1.get_roots(), t2.get_roots());
    let mut i = 0;
    while i < t1.len() {
        assert_eq!(t1.get_node(i).value, t2.get_node(i).value);
        assert_eq!(t1.get_node(i).parent, t2.get_node(i).parent);
        assert_eq!(t1.get_node(i).children, t2.get_node(i).children);
        i += 1;
    }
}

#[test]
fn deep_chain_builds_depth_first() {
    // A -> {B}, B -> {C}, C -> {D}.
    let layer = layer_with(vec![
        vlist(1, &[2], 10),
        vlist(2, &[3], 10),
        vlist(3, &[4], 10),
        vlist(4, &[], 10),
    ]);
    let tree = EntityTree::new_from_layer(&layer).unwrap();
    assert_eq!(tree.len(), 4);
    assert_eq!(tree.get_roots(), vec![0]);
    assert_eq!(tree.get_node(0).value, EntityID(1));
    assert_eq!(tree.get_node(1).value, EntityID(2));
    assert_eq!(tree.get_node(2).value, EntityID(3));
    assert_eq!(tree.get_node(3).value, EntityID(4));
    assert_eq!(tree.get_node(3).parent, Some(2));
}

#[test]
fn new_from_containers_matches_layer_build() {
    let layer = layer_with(vec![vlist(1, &[2], 10), vlist(2, &[], 10)]);
    let t1 = EntityTree::new_from_layer(&layer).unwrap();
    let t2 = EntityTree::new_from_containers(&layer.component_container).unwrap();
    assert_eq!(t1.len(), t2.len());
    assert_eq!(t1.get_roots(), t2.get_roots());
}

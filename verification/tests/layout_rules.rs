//! Layout rule evaluation: header bar, vertical split, vertical list, and
//! the whole-layer pass.

use guitk::components::{ComponentAABB, ComponentContainer};
use guitk::entity::EntityID;
use guitk::layout::Layout;
use guitk::layout_engine::{layout_component, layout_layer};
use guitk::logger::Diagnostic;
use guitk::view::Layer;

fn boxed(id: u16, x: i32, y: i32, w: i32, h: i32) -> ComponentAABB {
    ComponentAABB { entity_id: EntityID(id), x, y, w, h }
}

fn get_box(layer: &Layer, id: u16) -> (i32, i32, i32, i32) {
    let a = layer.component_aabb.get_component(EntityID(id)).unwrap();
    (a.x, a.y, a.w, a.h)
}

#[test]
fn header_bar_splits_exactly() {
    let mut layer = Layer::new();
    layer.component_aabb.add_component(boxed(1, 0, 0, 100, 100));
    layer.component_aabb.add_component(boxed(2, 5, 5, 5, 5));
    layer.component_aabb.add_component(boxed(3, 5, 5, 5, 5));
    let container = ComponentContainer {
        entity_id: EntityID(1),
        layout: Layout::HeaderBar {
            entity_header: EntityID(2),
            entity_body: EntityID(3),
            header_height: 20,
        },
    };
    layout_component(&mut layer.component_aabb, &container);
    assert_eq!(get_box(&layer, 2), (0, 0, 100, 20));
    assert_eq!(get_box(&layer, 3), (0, 20, 100, 80));
}

#[test]
fn vsplit_splits_exactly() {
    let mut layer = Layer::new();
    layer.component_aabb.add_component(boxed(1, 0, 0, 100, 50));
    layer.component_aabb.add_component(boxed(2, 1, 1, 1, 1));
    layer.component_aabb.add_component(boxed(3, 1, 1, 1, 1));
    let container = ComponentContainer {
        entity_id: EntityID(1),
        layout: Layout::VSplit {
            entity_l: EntityID(2),
            entity_r: EntityID(3),
            split_pos: 30,
        },
    };
    layout_component(&mut layer.component_aabb, &container);
    assert_eq!(get_box(&layer, 2), (0, 0, 30, 50));
    assert_eq!(get_box(&layer, 3), (30, 0, 70, 50));
}

#[test]
fn vlist_stacks_items_and_skips_missing_boxes() {
    let mut layer = Layer::new();
    layer.component_aabb.add_component(boxed(1, 10, 100, 80, 400));
    layer.component_aabb.add_component(boxed(2, 0, 0, 0, 0));
    // Entity 3 has no box: its step is skipped and the running y stays.
    layer.component_aabb.add_component(boxed(4, 0, 0, 0, 0));
    let container = ComponentContainer {
        entity_id: EntityID(1),
        layout: Layout::VList {
            entity_list: vec![EntityID(2), EntityID(3), EntityID(4)],
            item_height: 25,
        },
    };
    layout_component(&mut layer.component_aabb, &container);
    assert_eq!(get_box(&layer, 2), (10, 100, 80, 25));
    assert_eq!(get_box(&layer, 4), (10, 125, 80, 25));
}

#[test]
fn child_without_box_does_not_stop_the_other_child() {
    let mut layer = Layer::new();
    layer.component_aabb.add_component(boxed(1, 0, 0, 100, 100));
    // The header (entity 2) has no box; the body must still be sized.
    layer.component_aabb.add_component(boxed(3, 9, 9, 9, 9));
    let container = ComponentContainer {
        entity_id: EntityID(1),
        layout: Layout::HeaderBar {
            entity_header: EntityID(2),
            entity_body: EntityID(3),
            header_height: 20,
        },
    };
    layout_component(&mut layer.component_aabb, &container);
    assert_eq!(get_box(&layer, 3), (0, 20, 100, 80));
}

#[test]
fn container_without_box_sizes_nothing() {
    let mut layer = Layer::new();
    layer.component_aabb.add_component(boxed(2, 7, 7, 7, 7));
    let container = ComponentContainer {
        entity_id: EntityID(1),
        layout: Layout::VList { entity_list: vec![EntityID(2)], item_height: 25 },
    };
    layout_component(&mut layer.component_aabb, &container);
    assert_eq!(get_box(&layer, 2), (7, 7, 7, 7));
}

#[test]
fn layer_pass_lays_out_nested_containers() {
    // Container 1 (a header bar) sizes container 3 (its body), which is a
    // vertical list sizing entity 4; the pass runs in level order so 3's box
    // is final before its items are stacked.
    let mut layer = Layer::new();
    layer.component_aabb.add_component(boxed(1, 0, 0, 100, 100));
    layer.component_aabb.add_component(boxed(2, 0, 0, 0, 0));
    layer.component_aabb.add_component(boxed(3, 0, 0, 0, 0));
    layer.component_aabb.add_component(boxed(4, 0, 0, 0, 0));
    layer.component_container.add_component(ComponentContainer {
        entity_id: EntityID(1),
        layout: Layout::HeaderBar {
            entity_header: EntityID(2),
            entity_body: EntityID(3),
            header_height: 20,
        },
    });
    layer.component_container.add_component(ComponentContainer {
        entity_id: EntityID(3),
        layout: Layout::VList { entity_list: vec![EntityID(4)], item_height: 30 },
    });
    let mut diags: Vec<Diagnostic> = Vec::new();
    let ok = layout_layer(&mut layer, &mut diags);
    assert!(ok);
    assert!(diags.is_empty());
    assert_eq!(get_box(&layer, 2), (0, 0, 100, 20));
    assert_eq!(get_box(&layer, 3), (0, 20, 100, 80));
    assert_eq!(get_box(&layer, 4), (0, 20, 100, 30));
}

#[test]
fn malformed_layer_keeps_prior_boxes() {
    let mut layer = Layer::new();
    layer.component_aabb.add_component(boxed(1, 1, 2, 3, 4));
    layer.component_aabb.add_component(boxed(2, 5, 6, 7, 8));
    // 1 -> {2} and 3 -> {2}: entity 2 is double parented.
    layer.component_container.add_component(ComponentContainer {
        entity_id: EntityID(1),
        layout: Layout::VList { entity_list: vec![EntityID(2)], item_height: 9 },
    });
    layer.component_container.add_component(ComponentContainer {
        entity_id: EntityID(2),
        layout: Layout::VList { entity_list: vec![], item_height: 9 },
    });
    layer.component_container.add_component(ComponentContainer {
        entity_id: EntityID(3),
        layout: Layout::VList { entity_list: vec![EntityID(2)], item_height: 9 },
    });
    let mut diags: Vec<Diagnostic> = Vec::new();
    let ok = layout_layer(&mut layer, &mut diags);
    assert!(!ok);
    assert_eq!(diags, vec![Diagnostic::HierarchyMalformed]);
    assert_eq!(get_box(&layer, 1), (1, 2, 3, 4));
    assert_eq!(get_box(&layer, 2), (5, 6, 7, 8));
}

#[test]
fn nested_layer_without_box_is_reported_and_skipped() {
    let mut inner = Layer::new();
    inner.entity_id = Some(EntityID(9));
    inner.component_aabb.add_component(boxed(5, 1, 1, 1, 1));
    inner.component_container.add_component(ComponentContainer {
        entity_id: EntityID(5),
        layout: Layout::VList { entity_list: vec![], item_height: 9 },
    });
    let mut layer = Layer::new();
    layer.component_layer.push(inner);
    let mut diags: Vec<Diagnostic> = Vec::new();
    let ok = layout_layer(&mut layer, &mut diags);
    assert!(ok);
    assert_eq!(diags, vec![Diagnostic::NestedLayerMissingAabb(EntityID(9))]);
}

#[test]
fn nested_layer_with_box_is_laid_out() {
    let mut inner = Layer::new();
    inner.entity_id = Some(EntityID(9));
    inner.component_aabb.add_component(boxed(5, 0, 0, 40, 40));
    inner.component_aabb.add_component(boxed(6, 0, 0, 0, 0));
    inner.component_container.add_component(ComponentContainer {
        entity_id: EntityID(5),
        layout: Layout::VList { entity_list: vec![EntityID(6)], item_height: 15 },
    });
    let mut layer = Layer::new();
    layer.component_aabb.add_component(boxed(9, 0, 0, 50, 50));
    layer.component_layer.push(inner);
    let mut diags: Vec<Diagnostic> = Vec::new();
    let ok = layout_layer(&mut layer, &mut diags);
    assert!(ok);
    assert!(diags.is_empty());
    assert_eq!(get_box(&layer.component_layer[0], 6), (0, 0, 40, 15));
}

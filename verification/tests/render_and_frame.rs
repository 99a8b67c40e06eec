//! Renderer outputs, whole-frame updates, and small helpers.

use guitk::color::Rgb;
use guitk::components::{ComponentAABB, ComponentContainer, ComponentDebugDraw, TweenFunction};
use guitk::entity::{EntityID, NO_ENTITY};
use guitk::input::{InputState, TouchEvent, TouchPhase, TouchPoint};
use guitk::layout::Layout;
use guitk::logger::LogPriority;
use guitk::render::{drawable_rects, nested_clip_rect, ClipRect};
use guitk::sq_distance;
use guitk::update_frame;
use guitk::view::{Layer, UiView};

#[test]
fn drawable_rects_pairs_draws_with_boxes() {
    let mut layer = Layer::new();
    layer.component_aabb.add_component(ComponentAABB {
        entity_id: EntityID(1),
        x: 5,
        y: 6,
        w: 7,
        h: 8,
    });
    layer.component_debug_draw.add_component(ComponentDebugDraw {
        entity_id: EntityID(1),
        color: Rgb::new(10, 20, 30),
    });
    // Entity 2 draws but has no box: skipped.
    layer.component_debug_draw.add_component(ComponentDebugDraw {
        entity_id: EntityID(2),
        color: Rgb::new(1, 1, 1),
    });
    // Entity 3 has a box but does not draw: skipped.
    layer.component_aabb.add_component(ComponentAABB {
        entity_id: EntityID(3),
        x: 0,
        y: 0,
        w: 1,
        h: 1,
    });
    let rects = drawable_rects(&layer);
    assert_eq!(rects.len(), 1);
    assert_eq!((rects[0].x, rects[0].y, rects[0].w, rects[0].h), (5, 6, 7, 8));
    assert_eq!(rects[0].color, Rgb { r: 10, g: 20, b: 30 });
}

#[test]
fn nested_clip_scales_and_flips_vertically() {
    let parent = ClipRect::full(200, 100);
    let a = ComponentAABB { entity_id: EntityID(1), x: 10, y: 20, w: 50, h: 30 };
    let clip = nested_clip_rect(parent, 200, 100, &a);
    // Identity scale: left 10; bottom = 100 - (20 + 30) = 50.
    assert_eq!(clip, ClipRect { left: 10, bottom: 50, width: 50, height: 30 });
}

#[test]
fn nested_clip_halves_under_a_half_sized_parent() {
    let parent = ClipRect { left: 100, bottom: 10, width: 100, height: 50 };
    let a = ComponentAABB { entity_id: EntityID(1), x: 10, y: 20, w: 50, h: 30 };
    let clip = nested_clip_rect(parent, 200, 100, &a);
    // Half scale on both axes, offset by the parent's origin.
    assert_eq!(clip, ClipRect { left: 105, bottom: 35, width: 25, height: 15 });
}

#[test]
fn nested_clip_clamps_negative_coordinates_to_zero() {
    let parent = ClipRect::full(100, 100);
    let a = ComponentAABB { entity_id: EntityID(1), x: -50, y: -500, w: -3, h: 10 };
    let clip = nested_clip_rect(parent, 100, 100, &a);
    assert_eq!(clip.left, 0);
    assert_eq!(clip.width, 0);
    // y + h clamps to zero, so the flipped bottom is the full height.
    assert_eq!(clip.bottom, 100);
}

#[test]
fn update_frame_scrolls_animates_and_lays_out() {
    // A header-bar container animated towards (0, 0); its children are
    // re-laid out from wherever the animation put it this frame.
    let mut layer = Layer::new();
    layer.component_aabb.add_component(ComponentAABB {
        entity_id: EntityID(1),
        x: 40,
        y: 40,
        w: 100,
        h: 100,
    });
    layer.component_aabb.add_component(ComponentAABB {
        entity_id: EntityID(2),
        x: 0,
        y: 0,
        w: 0,
        h: 0,
    });
    layer.component_aabb.add_component(ComponentAABB {
        entity_id: EntityID(3),
        x: 0,
        y: 0,
        w: 0,
        h: 0,
    });
    layer.component_container.add_component(ComponentContainer {
        entity_id: EntityID(1),
        layout: Layout::HeaderBar {
            entity_header: EntityID(2),
            entity_body: EntityID(3),
            header_height: 20,
        },
    });
    layer.component_anim_translate.add_component(guitk::components::ComponentAnimTranslate {
        entity_id: EntityID(1),
        start_x: 40,
        start_y: 40,
        end_x: 0,
        end_y: 0,
        anim_len: 100,
        anim_timer: 0,
        tween_func: TweenFunction::Linear,
    });
    let mut view = UiView::new();
    view.layers.push(layer);
    let mut input = InputState::new();
    let events: Vec<TouchEvent> = Vec::new();
    // Half the animation: container at (20, 20); header follows.
    let diags = update_frame(&mut view, &mut input, &events, 50_000_000);
    assert!(diags.is_empty());
    let header = view.layers[0].component_aabb.get_component(EntityID(2)).unwrap();
    assert_eq!((header.x, header.y, header.w, header.h), (20, 20, 100, 20));
    // The rest of the animation: container at (0, 0); body follows.
    update_frame(&mut view, &mut input, &events, 50_000_000);
    let body = view.layers[0].component_aabb.get_component(EntityID(3)).unwrap();
    assert_eq!((body.x, body.y, body.w, body.h), (0, 20, 100, 80));
    assert_eq!(view.layers[0].component_anim_translate.len(), 0);
}

#[test]
fn update_frame_feeds_touch_events_through() {
    let mut layer = Layer::new();
    layer.component_aabb.add_component(ComponentAABB {
        entity_id: EntityID(1),
        x: 0,
        y: 0,
        w: 10,
        h: 10,
    });
    layer.component_trigger.add_component(guitk::components::ComponentTrigger {
        entity_id: EntityID(1),
        trigger_id: 0,
        x: 0,
        y: 0,
        w: 10,
        h: 10,
        relative: false,
    });
    layer.component_touch_scroll.add_component(guitk::components::ComponentTouchScroll {
        entity_id: EntityID(1),
        trigger_id: 0,
        behaviour_flags: 0,
        max_x: 1000,
        min_x: -1000,
        max_y: 1000,
        min_y: -1000,
    });
    let mut view = UiView::new();
    view.layers.push(layer);
    let mut input = InputState::new();
    let events = vec![
        TouchEvent { finger_id: 1, phase: TouchPhase::Started, location: TouchPoint(2, 2) },
        TouchEvent { finger_id: 1, phase: TouchPhase::Moved, location: TouchPoint(12, 22) },
    ];
    update_frame(&mut view, &mut input, &events, 16_000_000);
    let a = view.layers[0].component_aabb.get_component(EntityID(1)).unwrap();
    assert_eq!((a.x, a.y), (10, 20));
    assert_eq!(input.fingers.len(), 1);
}

#[test]
fn set_layout_inserts_then_replaces() {
    let mut layer = Layer::new();
    EntityID(4).set_layout(
        &mut layer,
        Layout::VList { entity_list: vec![EntityID(5)], item_height: 10 },
    );
    assert_eq!(layer.component_container.len(), 1);
    EntityID(4).set_layout(
        &mut layer,
        Layout::VSplit { entity_l: EntityID(5), entity_r: EntityID(6), split_pos: 3 },
    );
    assert_eq!(layer.component_container.len(), 1);
    let c = layer.component_container.get_component(EntityID(4)).unwrap();
    match &c.layout {
        Layout::VSplit { entity_l, entity_r, split_pos } => {
            assert_eq!(*entity_l, EntityID(5));
            assert_eq!(*entity_r, EntityID(6));
            assert_eq!(*split_pos, 3);
        }
        _ => panic!("layout was not replaced"),
    }
}

#[test]
fn layer_without_entity_reports_the_sentinel() {
    let layer = Layer::new();
    assert_eq!(layer.get_entity_id(), EntityID(NO_ENTITY));
    let mut named = Layer::new();
    named.entity_id = Some(EntityID(3));
    assert_eq!(named.get_entity_id(), EntityID(3));
}

#[test]
fn sq_distance_is_exact() {
    assert_eq!(sq_distance((0, 0), (3, 4)), 25);
    assert_eq!(sq_distance((40, 40), (50, 50)), 200);
    assert_eq!(sq_distance((1, 1), (1, 1)), 0);
    assert_eq!(sq_distance((i32::MIN, 0), (i32::MAX, 0)), 18446744065119617025);
}

#[test]
fn tween_function_values() {
    assert_eq!(TweenFunction::Instant.tween(1000, 1), 1000);
    assert_eq!(TweenFunction::Linear.tween(1000, 250), 250);
}

#[test]
fn log_priority_values() {
    assert_eq!(LogPriority::UNKNOWN.value(), 0);
    assert_eq!(LogPriority::DEFAULT.value(), 1);
    assert_eq!(LogPriority::VERBOSE.value(), 2);
    assert_eq!(LogPriority::DEBUG.value(), 3);
    assert_eq!(LogPriority::INFO.value(), 4);
    assert_eq!(LogPriority::WARN.value(), 5);
    assert_eq!(LogPriority::ERROR.value(), 6);
    assert_eq!(LogPriority::FATAL.value(), 7);
    assert_eq!(LogPriority::SILENT.value(), 8);
}

#[test]
fn layout_get_children_lists_rule_children() {
    let hb = Layout::HeaderBar {
        entity_header: EntityID(1),
        entity_body: EntityID(2),
        header_height: 5,
    };
    assert_eq!(hb.get_children(), vec![EntityID(1), EntityID(2)]);
    let vs = Layout::VSplit { entity_l: EntityID(3), entity_r: EntityID(4), split_pos: 5 };
    assert_eq!(vs.get_children(), vec![EntityID(3), EntityID(4)]);
    let vl = Layout::VList { entity_list: vec![EntityID(7), EntityID(8)], item_height: 5 };
    assert_eq!(vl.get_children(), vec![EntityID(7), EntityID(8)]);
}

//! Touch input: drag triggers, scrolling with axis flags and bounds, and
//! snap-on-release.

use guitk::components::{
    ComponentAABB, ComponentScrollSnap, ComponentTouchScroll, ComponentTrigger, TweenFunction,
};
use guitk::entity::EntityID;
use guitk::input::{
    is_on_entity_drag_trigger, nearest_snap_point, process_touch_event, process_view_scroll,
    InputState, TouchEvent, TouchPhase, TouchPoint, NUM_POINTS_TRACKED,
};
use guitk::scroll_behaviour::{INVERTED_Y, LOCKED_X, LOCKED_Y};
use guitk::view::{Layer, UiView};

/// A view with one scrollable entity: box at (0, 0) sized 10 by 10, an
/// absolute full-screen trigger, and the given behaviour flags and bounds.
fn scroll_view(flags: u32, min_x: i32, max_x: i32, min_y: i32, max_y: i32) -> UiView {
    let mut layer = Layer::new();
    layer.component_aabb.add_component(ComponentAABB {
        entity_id: EntityID(1),
        x: 0,
        y: 0,
        w: 10,
        h: 10,
    });
    layer.component_trigger.add_component(ComponentTrigger {
        entity_id: EntityID(1),
        trigger_id: 0,
        x: -1000,
        y: -1000,
        w: 2000,
        h: 2000,
        relative: false,
    });
    layer.component_touch_scroll.add_component(ComponentTouchScroll {
        entity_id: EntityID(1),
        trigger_id: 0,
        behaviour_flags: flags,
        max_x,
        min_x,
        max_y,
        min_y,
    });
    let mut view = UiView::new();
    view.layers.push(layer);
    view
}

fn ev(id: u64, phase: TouchPhase, x: i32, y: i32) -> TouchEvent {
    TouchEvent { finger_id: id, phase, location: TouchPoint(x, y) }
}

fn get_pos(view: &UiView, id: u16) -> (i32, i32) {
    let a = view.layers[0].component_aabb.get_component(EntityID(id)).unwrap();
    (a.x, a.y)
}

/// Press at (2, 3) (offset (2, 3) from the box origin), drag to the given
/// point, and resolve scrolling once.
fn press_and_drag(view: &mut UiView, to_x: i32, to_y: i32) -> bool {
    let mut input = InputState::new();
    process_touch_event(view, &mut input, ev(7, TouchPhase::Started, 2, 3));
    assert_eq!(input.fingers[0].curr_dragging, Some(EntityID(1)));
    assert_eq!(input.fingers[0].offset, Some((2, 3)));
    process_touch_event(view, &mut input, ev(7, TouchPhase::Moved, to_x, to_y));
    process_view_scroll(view, &input)
}

#[test]
fn drag_moves_the_entity_by_the_delta() {
    let mut view = scroll_view(0, -1000, 1000, -1000, 1000);
    // Start (2,3), offset (2,3), drag to (32, 43): target = start - offset
    // + delta = (0,0) + (30, 40).
    let scrolled = press_and_drag(&mut view, 32, 43);
    assert!(scrolled);
    assert_eq!(get_pos(&view, 1), (30, 40));
}

#[test]
fn locked_x_never_changes_x() {
    let mut view = scroll_view(LOCKED_X, -1000, 1000, -1000, 1000);
    let scrolled = press_and_drag(&mut view, 500, 43);
    assert!(scrolled);
    assert_eq!(get_pos(&view, 1), (0, 40));
}

#[test]
fn locked_both_axes_changes_nothing_but_counts_as_scrolled() {
    let mut view = scroll_view(LOCKED_X | LOCKED_Y, -1000, 1000, -1000, 1000);
    let scrolled = press_and_drag(&mut view, 500, 500);
    assert!(scrolled);
    assert_eq!(get_pos(&view, 1), (0, 0));
}

#[test]
fn inverted_y_moves_up_on_downward_drag() {
    let mut view = scroll_view(INVERTED_Y, -1000, 1000, -1000, 1000);
    // Drag 40 down: the entity moves 40 up.
    let scrolled = press_and_drag(&mut view, 2, 43);
    assert!(scrolled);
    assert_eq!(get_pos(&view, 1), (0, -40));
}

#[test]
fn scroll_is_clamped_to_bounds_for_any_delta() {
    let mut view = scroll_view(0, -5, 50, -5, 50);
    // A huge drag: origin clamps to max - size on both axes.
    let scrolled = press_and_drag(&mut view, 100000, 100000);
    assert!(scrolled);
    assert_eq!(get_pos(&view, 1), (40, 40));
    // A huge drag the other way: origin clamps to the minimum bound.
    let mut view2 = scroll_view(0, -5, 50, -5, 50);
    let scrolled2 = press_and_drag(&mut view2, -100000, -100000);
    assert!(scrolled2);
    assert_eq!(get_pos(&view2, 1), (-5, -5));
}

#[test]
fn tap_without_movement_does_not_scroll() {
    let mut view = scroll_view(0, -1000, 1000, -1000, 1000);
    let mut input = InputState::new();
    process_touch_event(&mut view, &mut input, ev(7, TouchPhase::Started, 2, 3));
    let scrolled = process_view_scroll(&mut view, &input);
    assert!(!scrolled);
    assert_eq!(get_pos(&view, 1), (0, 0));
}

#[test]
fn press_off_trigger_tracks_but_drags_nothing() {
    let mut layer = Layer::new();
    layer.component_aabb.add_component(ComponentAABB {
        entity_id: EntityID(1),
        x: 0,
        y: 0,
        w: 10,
        h: 10,
    });
    layer.component_trigger.add_component(ComponentTrigger {
        entity_id: EntityID(1),
        trigger_id: 0,
        x: 0,
        y: 0,
        w: 10,
        h: 10,
        relative: false,
    });
    layer.component_touch_scroll.add_component(ComponentTouchScroll {
        entity_id: EntityID(1),
        trigger_id: 0,
        behaviour_flags: 0,
        max_x: 1000,
        min_x: -1000,
        max_y: 1000,
        min_y: -1000,
    });
    let mut view = UiView::new();
    view.layers.push(layer);
    let mut input = InputState::new();
    process_touch_event(&mut view, &mut input, ev(7, TouchPhase::Started, 500, 500));
    assert_eq!(input.fingers.len(), 1);
    assert_eq!(input.fingers[0].curr_dragging, None);
    process_touch_event(&mut view, &mut input, ev(7, TouchPhase::Moved, 600, 600));
    let scrolled = process_view_scroll(&mut view, &input);
    assert!(!scrolled);
    assert_eq!(get_pos(&view, 1), (0, 0));
}

#[test]
fn relative_trigger_follows_the_box() {
    let mut layer = Layer::new();
    layer.component_aabb.add_component(ComponentAABB {
        entity_id: EntityID(1),
        x: 100,
        y: 100,
        w: 10,
        h: 10,
    });
    layer.component_trigger.add_component(ComponentTrigger {
        entity_id: EntityID(1),
        trigger_id: 0,
        x: 0,
        y: 0,
        w: 10,
        h: 10,
        relative: true,
    });
    layer.component_touch_scroll.add_component(ComponentTouchScroll {
        entity_id: EntityID(1),
        trigger_id: 0,
        behaviour_flags: 0,
        max_x: 1000,
        min_x: -1000,
        max_y: 1000,
        min_y: -1000,
    });
    // A press at (5, 5) misses (the zone sits at (100, 100)); one at
    // (105, 105) hits with offset (5, 5).
    assert!(is_on_entity_drag_trigger(&layer, 5, 5).is_none());
    let hit = is_on_entity_drag_trigger(&layer, 105, 105).unwrap();
    assert_eq!(hit.0, EntityID(1));
    assert_eq!(hit.1, (5, 5));
}

#[test]
fn trigger_zone_id_must_match_the_scroll_component() {
    // The scroll component names zone 5; the entity's trigger carries zone 0,
    // so a press inside the rectangle does not start a drag.
    let mut layer = Layer::new();
    layer.component_aabb.add_component(ComponentAABB {
        entity_id: EntityID(1),
        x: 0,
        y: 0,
        w: 10,
        h: 10,
    });
    layer.component_trigger.add_component(ComponentTrigger {
        entity_id: EntityID(1),
        trigger_id: 0,
        x: 0,
        y: 0,
        w: 10,
        h: 10,
        relative: false,
    });
    layer.component_touch_scroll.add_component(ComponentTouchScroll {
        entity_id: EntityID(1),
        trigger_id: 5,
        behaviour_flags: 0,
        max_x: 1000,
        min_x: -1000,
        max_y: 1000,
        min_y: -1000,
    });
    assert!(is_on_entity_drag_trigger(&layer, 5, 5).is_none());
    // Retag the trigger to the declared zone: the same press now hits.
    layer.component_trigger.add_component(ComponentTrigger {
        entity_id: EntityID(1),
        trigger_id: 5,
        x: 0,
        y: 0,
        w: 10,
        h: 10,
        relative: false,
    });
    let hit = is_on_entity_drag_trigger(&layer, 5, 5).unwrap();
    assert_eq!(hit.0, EntityID(1));
}

#[test]
fn nearest_snap_point_picks_by_squared_distance() {
    let points = vec![(0, 0), (50, 50)];
    assert_eq!(nearest_snap_point(&points, (40, 40)), Some((50, 50)));
    assert_eq!(nearest_snap_point(&points, (10, 10)), Some((0, 0)));
    let none: Vec<(i32, i32)> = Vec::new();
    assert_eq!(nearest_snap_point(&none, (1, 2)), None);
    // Ties keep the earliest candidate.
    let tie = vec![(0, 10), (10, 0)];
    assert_eq!(nearest_snap_point(&tie, (5, 5)), Some((0, 10)));
}

#[test]
fn release_over_snap_installs_animation_to_nearest_point() {
    let mut view = scroll_view(0, -1000, 1000, -1000, 1000);
    view.layers[0].component_scroll_snap.add_component(ComponentScrollSnap {
        entity_id: EntityID(1),
        snap_positions: vec![(0, 0), (50, 50)],
        tween_len: 200,
        tween_func: TweenFunction::Linear,
    });
    let mut input = InputState::new();
    process_touch_event(&mut view, &mut input, ev(7, TouchPhase::Started, 2, 3));
    // Drag so the box lands at (40, 40), then release there.
    process_touch_event(&mut view, &mut input, ev(7, TouchPhase::Moved, 42, 43));
    process_view_scroll(&mut view, &input);
    assert_eq!(get_pos(&view, 1), (40, 40));
    process_touch_event(&mut view, &mut input, ev(7, TouchPhase::Ended, 42, 43));
    assert_eq!(input.fingers.len(), 0);
    let anims = &view.layers[0].component_anim_translate;
    assert_eq!(anims.len(), 1);
    let a = anims.get_component(EntityID(1)).unwrap();
    assert_eq!((a.start_x, a.start_y), (40, 40));
    assert_eq!((a.end_x, a.end_y), (50, 50));
    assert_eq!(a.anim_len, 200);
    assert_eq!(a.anim_timer, 0);
}

#[test]
fn release_without_snap_component_installs_nothing() {
    let mut view = scroll_view(0, -1000, 1000, -1000, 1000);
    let mut input = InputState::new();
    process_touch_event(&mut view, &mut input, ev(7, TouchPhase::Started, 2, 3));
    process_touch_event(&mut view, &mut input, ev(7, TouchPhase::Cancelled, 2, 3));
    assert_eq!(input.fingers.len(), 0);
    assert_eq!(view.layers[0].component_anim_translate.len(), 0);
}

#[test]
fn ring_buffer_wraps_and_keeps_latest_sample() {
    let mut view = scroll_view(0, -1000, 1000, -1000, 1000);
    let mut input = InputState::new();
    process_touch_event(&mut view, &mut input, ev(7, TouchPhase::Started, 2, 3));
    assert_eq!(input.fingers[0].latest_point, 0);
    let mut k: i32 = 0;
    while k < NUM_POINTS_TRACKED as i32 {
        process_touch_event(&mut view, &mut input, ev(7, TouchPhase::Moved, k, k));
        k += 1;
    }
    // After exactly one full lap the index is back at slot zero, holding the
    // most recently written sample.
    assert_eq!(input.fingers[0].latest_point, 0);
    assert_eq!(
        input.fingers[0].points[input.fingers[0].latest_point],
        TouchPoint(NUM_POINTS_TRACKED as i32 - 1, NUM_POINTS_TRACKED as i32 - 1)
    );
}

#[test]
fn second_touch_start_for_a_tracked_finger_is_ignored() {
    let mut view = scroll_view(0, -1000, 1000, -1000, 1000);
    let mut input = InputState::new();
    process_touch_event(&mut view, &mut input, ev(7, TouchPhase::Started, 2, 3));
    process_touch_event(&mut view, &mut input, ev(7, TouchPhase::Started, 9, 9));
    assert_eq!(input.fingers.len(), 1);
    assert_eq!(input.fingers[0].start_point, TouchPoint(2, 3));
}

//! Animation engine behaviour over whole frames.

use guitk::animation::process_animations;
use guitk::components::{ComponentAABB, ComponentAnimTranslate, TweenFunction};
use guitk::entity::EntityID;
use guitk::view::{Layer, UiView};

const MS: u64 = 1_000_000;

fn anim(id: u16, sx: i32, sy: i32, ex: i32, ey: i32, len: u32, tf: TweenFunction)
    -> ComponentAnimTranslate {
    ComponentAnimTranslate {
        entity_id: EntityID(id),
        start_x: sx,
        start_y: sy,
        end_x: ex,
        end_y: ey,
        anim_len: len,
        anim_timer: 0,
        tween_func: tf,
    }
}

fn view_with(anims: Vec<ComponentAnimTranslate>, boxes: Vec<ComponentAABB>) -> UiView {
    let mut layer = Layer::new();
    for a in anims {
        layer.component_anim_translate.add_component(a);
    }
    for b in boxes {
        layer.component_aabb.add_component(b);
    }
    let mut view = UiView::new();
    view.layers.push(layer);
    view
}

fn get_pos(view: &UiView, id: u16) -> (i32, i32) {
    let a = view.layers[0].component_aabb.get_component(EntityID(id)).unwrap();
    (a.x, a.y)
}

#[test]
fn linear_anim_reaches_end_exactly_and_is_removed() {
    let mut view = view_with(
        vec![anim(1, 0, 0, 10, 10, 1000, TweenFunction::Linear)],
        vec![ComponentAABB { entity_id: EntityID(1), x: 0, y: 0, w: 5, h: 5 }],
    );
    let mut frames = 0;
    while frames < 4 {
        process_animations(&mut view, 250 * MS);
        let (x, y) = get_pos(&view, 1);
        // No frame produces a position outside the segment from start to
        // end.
        assert!(0 <= x && x <= 10);
        assert!(0 <= y && y <= 10);
        frames += 1;
    }
    assert_eq!(get_pos(&view, 1), (10, 10));
    assert_eq!(view.layers[0].component_anim_translate.len(), 0);
}

#[test]
fn linear_anim_interpolates_per_frame() {
    let mut view = view_with(
        vec![anim(1, 0, 0, 100, 200, 1000, TweenFunction::Linear)],
        vec![ComponentAABB { entity_id: EntityID(1), x: 0, y: 0, w: 5, h: 5 }],
    );
    process_animations(&mut view, 250 * MS);
    assert_eq!(get_pos(&view, 1), (25, 50));
    process_animations(&mut view, 250 * MS);
    assert_eq!(get_pos(&view, 1), (50, 100));
}

#[test]
fn instant_anim_jumps_to_end_in_one_frame() {
    let mut view = view_with(
        vec![anim(1, 0, 0, 42, -7, 1000, TweenFunction::Instant)],
        vec![ComponentAABB { entity_id: EntityID(1), x: 0, y: 0, w: 5, h: 5 }],
    );
    process_animations(&mut view, 1 * MS);
    assert_eq!(get_pos(&view, 1), (42, -7));
    // The entry survives until its timer reaches the length.
    assert_eq!(view.layers[0].component_anim_translate.len(), 1);
}

#[test]
fn timer_is_clamped_to_length() {
    let mut view = view_with(
        vec![anim(1, 3, 4, 10, 10, 100, TweenFunction::Linear)],
        vec![ComponentAABB { entity_id: EntityID(1), x: 0, y: 0, w: 5, h: 5 }],
    );
    // One huge frame: the timer clamps at the length, the position snaps to
    // the exact end, and the entry is deleted.
    process_animations(&mut view, 3600_000 * MS);
    assert_eq!(get_pos(&view, 1), (10, 10));
    assert_eq!(view.layers[0].component_anim_translate.len(), 0);
}

#[test]
fn anim_without_box_still_advances_and_completes() {
    let mut view = view_with(vec![anim(1, 0, 0, 10, 10, 500, TweenFunction::Linear)], vec![]);
    process_animations(&mut view, 250 * MS);
    assert_eq!(view.layers[0].component_anim_translate.len(), 1);
    assert_eq!(view.layers[0].component_anim_translate.get(0).anim_timer, 250);
    process_animations(&mut view, 250 * MS);
    assert_eq!(view.layers[0].component_anim_translate.len(), 0);
}

#[test]
fn nested_layer_animations_run_too() {
    let mut inner = Layer::new();
    inner.component_anim_translate.add_component(anim(5, 0, 0, 8, 8, 100, TweenFunction::Linear));
    inner.component_aabb.add_component(ComponentAABB {
        entity_id: EntityID(5),
        x: 0,
        y: 0,
        w: 1,
        h: 1,
    });
    let mut outer = Layer::new();
    outer.component_layer.push(inner);
    let mut view = UiView::new();
    view.layers.push(outer);
    process_animations(&mut view, 100 * MS);
    let a = view.layers[0].component_layer[0]
        .component_aabb
        .get_component(EntityID(5))
        .unwrap();
    assert_eq!((a.x, a.y), (8, 8));
    assert_eq!(view.layers[0].component_layer[0].component_anim_translate.len(), 0);
}

#[test]
fn zero_length_anim_snaps_immediately() {
    let mut view = view_with(
        vec![anim(1, 2, 2, 9, 9, 0, TweenFunction::Linear)],
        vec![ComponentAABB { entity_id: EntityID(1), x: 0, y: 0, w: 5, h: 5 }],
    );
    process_animations(&mut view, 1 * MS);
    assert_eq!(get_pos(&view, 1), (9, 9));
    assert_eq!(view.layers[0].component_anim_translate.len(), 0);
}

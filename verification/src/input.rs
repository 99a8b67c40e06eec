//! Touch input: finger tracking, drag-trigger hit testing, scrolling, and
//! snap-on-release.
//!
//! The input system consumes a stream of touch events (finger id, phase,
//! position) handed in by the platform layer. A finger that began its press
//! on a scroll trigger drags that entity; per frame, scroll resolution moves
//! every dragged entity, with axis locking and inversion, clamped to the
//! scroll bounds. Releasing a finger over an entity with snap points starts
//! a translate animation to the nearest point.

use vstd::prelude::*;
use crate::component_list::{spec_lookup, spec_upsert, store_contains, store_index_of};
use crate::components::{
    ComponentAABB, ComponentAnimTranslate, ComponentScrollSnap, ComponentTouchScroll,
};
use crate::entity::{Component, EntityID};
use crate::layout_engine::sat32;
use crate::spec_sq_distance;
use crate::view::{Layer, UiView};

verus! {

broadcast use vstd::seq::axiom_seq_index_decreases, vstd::std_specs::vec::axiom_vec_index_decreases;

/// How many past sample positions a finger track keeps.
pub const NUM_POINTS_TRACKED: usize = 128;

/// A position on screen touched by a finger.
#[derive(Clone, Copy, PartialEq, Eq, Structural, Debug)]
pub struct TouchPoint(pub i32, pub i32);

/// The phase of one touch event.
#[derive(Clone, Copy, PartialEq, Eq, Structural, Debug)]
pub enum TouchPhase {
    Started,
    Moved,
    Ended,
    Cancelled,
}

/// One touch event handed in by the platform layer.
#[derive(Clone, Copy)]
pub struct TouchEvent {
    /// Identifier of the finger.
    pub finger_id: u64,
    pub phase: TouchPhase,
    /// Location, in the same coordinate space as the AABBs.
    pub location: TouchPoint,
}

/// The last few frames of touch data for one finger.
pub struct FingerTrack {
    pub finger_id: u64,
    /// Where the press began.
    pub start_point: TouchPoint,
    /// Ring buffer of the last sampled positions.
    pub points: [TouchPoint; NUM_POINTS_TRACKED],
    /// Index into `points` of the most recently written sample; writing
    /// there instead of shifting keeps appends cheap. It wraps modulo the
    /// capacity.
    pub latest_point: usize,
    /// The entity this finger is currently dragging, if any.
    pub curr_dragging: Option<EntityID>,
    /// Offset of the press from the dragged entity's AABB origin.
    pub offset: Option<(i32, i32)>,
}

impl FingerTrack {
    /// The ring-buffer index stays inside the fixed capacity.
    pub open spec fn wf(&self) -> bool {
        self.latest_point < NUM_POINTS_TRACKED
    }

    /// The most recently written sample.
    pub open spec fn latest(&self) -> TouchPoint {
        self.points@[self.latest_point as int]
    }
}

/// The trigger rectangle of an entity's zone `zone`, as `(x, y, w, h)`: the
/// declared rectangle, offset by the owner's current AABB origin when the
/// zone is relative. An entity without a trigger, with a trigger carrying a
/// different zone id, or with a relative trigger but no AABB, has none.
pub open spec fn spec_entity_trigger(l: Layer, id: u16, zone: u8) -> Option<(int, int, int, int)> {
    match spec_lookup(l.component_trigger@, id) {
        None => None,
        Some(t) => if t.trigger_id != zone {
            None
        } else if t.relative {
            match spec_lookup(l.component_aabb@, id) {
                None => None,
                Some(a) => Some((sat32(t.x + a.x), sat32(t.y + a.y), t.w as int, t.h as int)),
            }
        } else {
            Some((t.x as int, t.y as int, t.w as int, t.h as int))
        },
    }
}

/// Gets an entity's trigger box for the zone id `zone`, or `None` if the
/// entity lacks the needed components or its trigger is another zone.
fn get_entity_trigger(layer: &Layer, e_id: EntityID, zone: u8) -> (r: Option<
    (i32, i32, i32, i32),
>)
    requires
        layer.wf(),
    ensures
        match r {
            None => spec_entity_trigger(*layer, e_id.0, zone) is None,
            Some(q) => spec_entity_trigger(*layer, e_id.0, zone) == Some(
                (q.0 as int, q.1 as int, q.2 as int, q.3 as int),
            ),
        },
{
    let t = match layer.component_trigger.get_component(e_id) {
        None => {
            return None;
        }
        Some(t) => *t,
    };
    if t.trigger_id != zone {
        return None;
    }
    if t.relative {
        match layer.component_aabb.get_component(e_id) {
            None => None,
            Some(a) => Some(
                (
                    crate::layout_engine::sat_add(t.x, a.x),
                    crate::layout_engine::sat_add(t.y, a.y),
                    t.w,
                    t.h,
                ),
            ),
        }
    } else {
        Some((t.x, t.y, t.w, t.h))
    }
}

/// Whether `(x, y)` lies strictly inside the rectangle.
pub open spec fn spec_inside(tx: int, ty: int, tw: int, th: int, x: int, y: int) -> bool {
    tx < x && tx + tw > x && ty < y && ty + th > y
}

/// The first scroll component of the store, in store order, whose trigger
/// zone contains `(x, y)` and whose owner has an AABB: the owner and the
/// press offset from the owner's AABB origin.
pub open spec fn spec_hit_in_scrolls(
    l: Layer,
    scrolls: Seq<ComponentTouchScroll>,
    x: int,
    y: int,
) -> Option<(EntityID, (int, int))>
    decreases scrolls.len(),
{
    if scrolls.len() == 0 {
        None
    } else {
        let e = scrolls[0].entity_id;
        let rest = scrolls.drop_first();
        match spec_entity_trigger(l, e.0, scrolls[0].trigger_id) {
            None => spec_hit_in_scrolls(l, rest, x, y),
            Some((tx, ty, tw, th)) => if spec_inside(tx, ty, tw, th, x, y) {
                match spec_lookup(l.component_aabb@, e.0) {
                    None => spec_hit_in_scrolls(l, rest, x, y),
                    Some(a) => Some((e, (sat32(x - a.x), sat32(y - a.y)))),
                }
            } else {
                spec_hit_in_scrolls(l, rest, x, y)
            },
        }
    }
}

/// The first drag-trigger hit in the nested layers of `l` from index `j`
/// on, searched depth first.
pub open spec fn spec_hit_nested_from(l: Layer, j: int, x: int, y: int) -> Option<
    (EntityID, (int, int)),
>
    decreases l, l.component_layer@.len() - j,
{
    if j < 0 || j >= l.component_layer@.len() {
        None
    } else {
        match spec_hit_layer(l.component_layer@[j], x, y) {
            Some(r) => Some(r),
            None => spec_hit_nested_from(l, j + 1, x, y),
        }
    }
}

/// The first drag-trigger hit in this layer: its own scroll components in
/// store order, then its nested layers depth first.
pub open spec fn spec_hit_layer(l: Layer, x: int, y: int) -> Option<(EntityID, (int, int))>
    decreases l, l.component_layer@.len() + 1,
{
    match spec_hit_in_scrolls(l, l.component_touch_scroll@, x, y) {
        Some(r) => Some(r),
        None => spec_hit_nested_from(l, 0, x, y),
    }
}

/// Tests whether the given position is on an entity's drag trigger,
/// searching this layer's scroll components in store order and then its
/// nested layers depth first. Returns the entity touched and the offset of
/// the touch from the entity's AABB origin.
pub fn is_on_entity_drag_trigger(layer: &Layer, x: i32, y: i32) -> (r: Option<
    (EntityID, (i32, i32)),
>)
    requires
        layer.wf(),
    ensures
        match r {
            None => spec_hit_layer(*layer, x as int, y as int) is None,
            Some((e, (ox, oy))) => spec_hit_layer(*layer, x as int, y as int) == Some(
                (e, (ox as int, oy as int)),
            ),
        },
    decreases *layer,
{
    let n = layer.component_touch_scroll.len();
    let mut i: usize = 0;
    proof {
        assert(layer.component_touch_scroll@.skip(0) =~= layer.component_touch_scroll@);
    }
    while i < n
        invariant
            layer.wf(),
            i <= n == layer.component_touch_scroll@.len(),
            spec_hit_in_scrolls(
                *layer,
                layer.component_touch_scroll@.skip(i as int),
                x as int,
                y as int,
            ) == spec_hit_in_scrolls(*layer, layer.component_touch_scroll@, x as int, y as int),
        decreases n - i,
    {
        let ghost scr = layer.component_touch_scroll@.skip(i as int);
        proof {
            assert(scr[0] == layer.component_touch_scroll@[i as int]);
            assert(scr.drop_first() =~= layer.component_touch_scroll@.skip(i + 1));
        }
        let e_id = layer.component_touch_scroll.get(i).entity_id;
        let zone = layer.component_touch_scroll.get(i).trigger_id;
        match get_entity_trigger(layer, e_id, zone) {
            None => {}
            Some((tx, ty, tw, th)) => {
                let inside = (tx as i64) < (x as i64) && (tx as i64) + (tw as i64) > (x as i64)
                    && (ty as i64) < (y as i64) && (ty as i64) + (th as i64) > (y as i64);
                if inside {
                    match layer.component_aabb.get_component(e_id) {
                        None => {}
                        Some(a) => {
                            let ox = crate::layout_engine::sat_sub(x, a.x);
                            let oy = crate::layout_engine::sat_sub(y, a.y);
                            return Some((e_id, (ox, oy)));
                        }
                    }
                }
            }
        }
        i = i + 1;
    }
    proof {
        assert(layer.component_touch_scroll@.skip(n as int)
            =~= Seq::<ComponentTouchScroll>::empty());
    }

    // Recursively look in nested layers.
    let m = layer.component_layer.len();
    let mut j: usize = 0;
    while j < m
        invariant
            layer.wf(),
            j <= m == layer.component_layer@.len(),
            spec_hit_in_scrolls(
                *layer,
                layer.component_touch_scroll@,
                x as int,
                y as int,
            ) is None,
            spec_hit_nested_from(*layer, j as int, x as int, y as int) == spec_hit_nested_from(
                *layer,
                0,
                x as int,
                y as int,
            ),
        decreases m - j,
    {
        proof {
            assert(layer.component_layer@[j as int].wf());
            assert(decreases_to!(*layer => layer.component_layer));
            assert(decreases_to!(layer.component_layer => layer.component_layer[j as int]));
        }
        let res = is_on_entity_drag_trigger(&layer.component_layer[j], x, y);
        if res.is_some() {
            return res;
        }
        j = j + 1;
    }
    None
}

/// Tracks the fingers currently on the screen.
pub struct InputState {
    pub fingers: Vec<FingerTrack>,
}

impl InputState {
    /// Every track's ring-buffer index is in range.
    pub open spec fn wf(&self) -> bool {
        forall|i: int| 0 <= i < self.fingers@.len() ==> (#[trigger] self.fingers@[i]).wf()
    }

    pub fn new() -> (r: InputState)
        ensures
            r.wf(),
            r.fingers@ =~= Seq::<FingerTrack>::empty(),
    {
        InputState { fingers: Vec::new() }
    }
}

/// Whether this finger drags `e` and has moved since its press (a finger
/// still at its start point is a tap, not a drag).
pub open spec fn finger_applies(f: FingerTrack, e: EntityID) -> bool {
    &&& f.curr_dragging == Some(e)
    &&& f.offset is Some
    &&& f.start_point != f.latest()
}

/// The last finger of the list that drags `e` and has moved; later events
/// win over earlier ones.
pub open spec fn spec_last_dragger(fingers: Seq<FingerTrack>, e: EntityID) -> Option<int>
    decreases fingers.len(),
{
    if fingers.len() == 0 {
        None
    } else if finger_applies(fingers.last(), e) {
        Some(fingers.len() - 1)
    } else {
        spec_last_dragger(fingers.drop_last(), e)
    }
}

/// The scrolled position of one axis. A locked axis keeps the old position.
/// Otherwise the target is the press position minus the press offset, moved
/// by the drag delta (sign flipped when the axis is inverted), and the
/// result is the target clamped to `[min_b, max_b - size]`: the origin never
/// goes below the minimum bound, and origin plus size never passes the
/// maximum bound.
pub open spec fn spec_scroll_axis(
    flags: u32,
    locked: u32,
    inverted: u32,
    start: int,
    offset: int,
    curr: int,
    min_b: int,
    max_b: int,
    size: int,
    old_pos: int,
) -> int {
    if flags & locked != 0 {
        old_pos
    } else {
        let target = if flags & inverted != 0 {
            start - offset - (curr - start)
        } else {
            start - offset + (curr - start)
        };
        let upper = max_b - size;
        let c = if target > upper {
            upper
        } else {
            target
        };
        sat32(
            if c < min_b {
                min_b
            } else {
                c
            },
        )
    }
}

/// A locked axis never changes, under any drag delta.
pub proof fn lemma_scroll_axis_locked(
    flags: u32,
    locked: u32,
    inverted: u32,
    start: int,
    offset: int,
    curr: int,
    min_b: int,
    max_b: int,
    size: int,
    old_pos: int,
)
    requires
        flags & locked != 0,
    ensures
        spec_scroll_axis(flags, locked, inverted, start, offset, curr, min_b, max_b, size, old_pos)
            == old_pos,
{
}

/// The scrolled position always lands inside `[min_b, max_b - size]`,
/// however large the drag delta, provided the bounds leave room for the
/// entity.
pub proof fn lemma_scroll_axis_clamped(
    flags: u32,
    locked: u32,
    inverted: u32,
    start: int,
    offset: int,
    curr: int,
    min_b: i32,
    max_b: i32,
    size: i32,
    old_pos: int,
)
    requires
        flags & locked == 0,
        0 <= size,
        min_b + size <= max_b,
    ensures
        min_b <= spec_scroll_axis(
            flags,
            locked,
            inverted,
            start,
            offset,
            curr,
            min_b as int,
            max_b as int,
            size as int,
            old_pos,
        ) <= max_b - size,
{
}

/// With a nonnegative size and room for it inside the bounds, the saturation
/// in the scroll formula is the identity: the resolved position is exactly
/// the ideal clamped target `max(min_b, min(target, max_b - size))`. On an
/// inverted axis the target is `start - offset - (curr - start)`, so a drag
/// in the positive direction moves the entity in the negative direction
/// before clamping.
pub proof fn lemma_scroll_axis_ideal(
    flags: u32,
    locked: u32,
    inverted: u32,
    start: int,
    offset: int,
    curr: int,
    min_b: i32,
    max_b: i32,
    size: i32,
    old_pos: int,
)
    requires
        flags & locked == 0,
        0 <= size,
        min_b + size <= max_b,
    ensures
        spec_scroll_axis(
            flags,
            locked,
            inverted,
            start,
            offset,
            curr,
            min_b as int,
            max_b as int,
            size as int,
            old_pos,
        ) == ({
            let target = if flags & inverted != 0 {
                start - offset - (curr - start)
            } else {
                start - offset + (curr - start)
            };
            let upper = max_b - size;
            if target > upper {
                upper as int
            } else if target < min_b {
                min_b as int
            } else {
                target
            }
        }),
{
}

/// On an inverted axis a drag in the positive direction moves the entity in
/// the negative direction: the resolved position is anti-monotone in the
/// drag position.
pub proof fn lemma_scroll_axis_inverted(
    flags: u32,
    locked: u32,
    inverted: u32,
    start: int,
    offset: int,
    curr1: int,
    curr2: int,
    min_b: int,
    max_b: int,
    size: int,
    old_pos: int,
)
    requires
        flags & locked == 0,
        flags & inverted != 0,
        curr1 <= curr2,
    ensures
        spec_scroll_axis(flags, locked, inverted, start, offset, curr2, min_b, max_b, size, old_pos)
            <= spec_scroll_axis(
            flags,
            locked,
            inverted,
            start,
            offset,
            curr1,
            min_b,
            max_b,
            size,
            old_pos,
        ),
{
}

/// The scrolled position of one axis (see `spec_scroll_axis`).
pub fn scroll_axis(
    flags: u32,
    locked: u32,
    inverted: u32,
    start: i32,
    offset: i32,
    curr: i32,
    min_b: i32,
    max_b: i32,
    size: i32,
    old_pos: i32,
) -> (r: i32)
    ensures
        r == spec_scroll_axis(
            flags,
            locked,
            inverted,
            start as int,
            offset as int,
            curr as int,
            min_b as int,
            max_b as int,
            size as int,
            old_pos as int,
        ),
{
    if flags & locked != 0 {
        return old_pos;
    }
    let target: i64 = if flags & inverted != 0 {
        start as i64 - offset as i64 - (curr as i64 - start as i64)
    } else {
        start as i64 - offset as i64 + (curr as i64 - start as i64)
    };
    let upper: i64 = max_b as i64 - size as i64;
    let c: i64 = if target > upper {
        upper
    } else {
        target
    };
    let v: i64 = if c < min_b as i64 {
        min_b as i64
    } else {
        c
    };
    if v < -0x80000000i64 {
        i32::MIN
    } else if v > 0x7fffffffi64 {
        i32::MAX
    } else {
        v as i32
    }
}

/// The box of one entity after every tracked finger was resolved: the last
/// finger dragging it (if any, and if the entity has a scroll component)
/// sets the position; size and owner are untouched.
pub open spec fn spec_final_box(
    b0: ComponentAABB,
    scrolls: Seq<ComponentTouchScroll>,
    fingers: Seq<FingerTrack>,
) -> ComponentAABB {
    match spec_last_dragger(fingers, b0.entity_id) {
        None => b0,
        Some(k) => match spec_lookup(scrolls, b0.entity_id.0) {
            None => b0,
            Some(sc) => spec_scrolled_box(b0, sc, fingers[k]),
        },
    }
}

/// The box after one finger's drag was applied to it.
pub open spec fn spec_scrolled_box(
    b: ComponentAABB,
    sc: ComponentTouchScroll,
    f: FingerTrack,
) -> ComponentAABB {
    let off = f.offset.unwrap();
    let curr = f.latest();
    ComponentAABB {
        x: spec_scroll_axis(
            sc.behaviour_flags,
            crate::scroll_behaviour::LOCKED_X,
            crate::scroll_behaviour::INVERTED_X,
            f.start_point.0 as int,
            off.0 as int,
            curr.0 as int,
            sc.min_x as int,
            sc.max_x as int,
            b.w as int,
            b.x as int,
        ) as i32,
        y: spec_scroll_axis(
            sc.behaviour_flags,
            crate::scroll_behaviour::LOCKED_Y,
            crate::scroll_behaviour::INVERTED_Y,
            f.start_point.1 as int,
            off.1 as int,
            curr.1 as int,
            sc.min_y as int,
            sc.max_y as int,
            b.h as int,
            b.y as int,
        ) as i32,
        ..b
    }
}

/// Whether this finger scrolls something in this layer: it drags an entity
/// that has both a scroll component and a box here, and it has moved.
pub open spec fn finger_scrolls_in(f: FingerTrack, l: Layer) -> bool {
    match f.curr_dragging {
        None => false,
        Some(e) => {
            &&& f.offset is Some
            &&& f.start_point != f.latest()
            &&& store_contains(l.component_touch_scroll@, e.0)
            &&& store_contains(l.component_aabb@, e.0)
        },
    }
}

/// Whether any tracked finger scrolls something in this layer or in a
/// nested one.
pub open spec fn any_scrolled(l: Layer, fingers: Seq<FingerTrack>) -> bool
    decreases l,
{
    ||| exists|k: int| 0 <= k < fingers.len() && finger_scrolls_in(#[trigger] fingers[k], l)
    ||| exists|j: int|
        0 <= j < l.component_layer@.len() && any_scrolled(#[trigger] l.component_layer@[j], fingers)
}

/// How scroll resolution relates a layer to itself afterwards: every box is
/// the old box with the last dragging finger's scroll applied (or unchanged
/// when no finger drags it), every other store is untouched, and nested
/// layers are related the same way.
pub open spec fn scroll_related(l0: Layer, l1: Layer, fingers: Seq<FingerTrack>) -> bool
    decreases l0,
{
    &&& l1.component_aabb@.len() == l0.component_aabb@.len()
    &&& forall|i: int|
        0 <= i < l0.component_aabb@.len() ==> #[trigger] l1.component_aabb@[i] == spec_final_box(
            l0.component_aabb@[i],
            l0.component_touch_scroll@,
            fingers,
        )
    &&& l1.component_debug_draw == l0.component_debug_draw
    &&& l1.component_container == l0.component_container
    &&& l1.component_trigger == l0.component_trigger
    &&& l1.component_touch_scroll == l0.component_touch_scroll
    &&& l1.component_anim_translate == l0.component_anim_translate
    &&& l1.component_scroll_snap == l0.component_scroll_snap
    &&& l1.entity_id == l0.entity_id
    &&& l1.component_layer@.len() == l0.component_layer@.len()
    &&& forall|j: int|
        #![trigger l0.component_layer@[j]]
        0 <= j < l0.component_layer@.len() ==> scroll_related(
            l0.component_layer@[j],
            l1.component_layer@[j],
            fingers,
        )
}

/// Resolves scrolling on this layer and its nested layers: every tracked
/// finger that is dragging an entity and has moved from its start position
/// recomputes that entity's box position, with axis locking and inversion,
/// clamped to the scroll bounds. Returns whether anything scrolled — the
/// caller's signal to re-run layout.
pub fn process_scroll(layer: &mut Layer, input_state: &InputState) -> (has_scrolled: bool)
    requires
        old(layer).wf(),
        input_state.wf(),
    ensures
        final(layer).wf(),
        scroll_related(*old(layer), *final(layer), input_state.fingers@),
        has_scrolled == any_scrolled(*old(layer), input_state.fingers@),
    decreases *old(layer),
{
    let mut has: bool = false;
    let nf = input_state.fingers.len();
    let mut k: usize = 0;
    while k < nf
        invariant
            input_state.wf(),
            old(layer).wf(),
            nf == input_state.fingers@.len(),
            k <= nf,
            layer.component_aabb.wf(),
            layer.component_aabb@.len() == old(layer).component_aabb@.len(),
            forall|i: int|
                0 <= i < old(layer).component_aabb@.len() ==> #[trigger] layer.component_aabb@[i]
                    == spec_final_box(
                    old(layer).component_aabb@[i],
                    old(layer).component_touch_scroll@,
                    input_state.fingers@.take(k as int),
                ),
            forall|i: int|
                0 <= i < old(layer).component_aabb@.len() ==> (#[trigger] layer.component_aabb@[i]).entity_id
                    == old(layer).component_aabb@[i].entity_id,
            layer.component_debug_draw == old(layer).component_debug_draw,
            layer.component_container == old(layer).component_container,
            layer.component_trigger == old(layer).component_trigger,
            layer.component_touch_scroll == old(layer).component_touch_scroll,
            layer.component_anim_translate == old(layer).component_anim_translate,
            layer.component_scroll_snap == old(layer).component_scroll_snap,
            layer.entity_id == old(layer).entity_id,
            layer.component_layer == old(layer).component_layer,
            has == exists|t: int|
                0 <= t < k && finger_scrolls_in(#[trigger] input_state.fingers@[t], *old(layer)),
        decreases nf - k,
    {
        let ghost fs = input_state.fingers@;
        let ghost b0s = old(layer).component_aabb@;
        let ghost scrolls = old(layer).component_touch_scroll@;
        let f = &input_state.fingers[k];
        let moved = f.start_point.0 != f.points[f.latest_point].0 || f.start_point.1
            != f.points[f.latest_point].1;
        if moved {
            match (f.curr_dragging, f.offset) {
                (Some(e_id), Some(off)) => {
                    proof {
                        assert(finger_applies(fs[k as int], e_id));
                    }
                    match layer.component_touch_scroll.get_component(e_id) {
                        None => {
                            proof {
                                assert(scroll_step_hyp(
                                    b0s,
                                    scrolls,
                                    fs,
                                    k as int,
                                    layer.component_aabb@,
                                ));
                                assert(!finger_scrolls_in(fs[k as int], *old(layer)));
                            }
                        }
                        Some(sc) => {
                            let flags = sc.behaviour_flags;
                            let (min_x, max_x, min_y, max_y) = (
                                sc.min_x,
                                sc.max_x,
                                sc.min_y,
                                sc.max_y,
                            );
                            let curr = f.points[f.latest_point];
                            let start = f.start_point;
                            let ghost pre = layer.component_aabb@;
                            match layer.component_aabb.get_component_mut(e_id) {
                                None => {
                                    proof {
                                        assert forall|i: int|
                                            0 <= i < b0s.len() implies (#[trigger] b0s[i]).entity_id
                                                != e_id by {
                                            if b0s[i].entity_id == e_id {
                                                assert(layer.component_aabb@[i].eid() == e_id.0);
                                                assert(store_contains(
                                                    layer.component_aabb@,
                                                    e_id.0,
                                                ));
                                            }
                                        }
                                        assert(scroll_step_hyp(
                                            b0s,
                                            scrolls,
                                            fs,
                                            k as int,
                                            layer.component_aabb@,
                                        ));
                                        assert(!finger_scrolls_in(fs[k as int], *old(layer))) by {
                                            if store_contains(b0s, e_id.0) {
                                                let wi = crate::component_list::store_index_of(
                                                    b0s,
                                                    e_id.0,
                                                );
                                                assert(layer.component_aabb@[wi].eid() == e_id.0);
                                                assert(store_contains(
                                                    layer.component_aabb@,
                                                    e_id.0,
                                                ));
                                            }
                                        }
                                    }
                                }
                                Some(m) => {
                                    let nx = scroll_axis(
                                        flags,
                                        crate::scroll_behaviour::LOCKED_X,
                                        crate::scroll_behaviour::INVERTED_X,
                                        start.0,
                                        off.0,
                                        curr.0,
                                        min_x,
                                        max_x,
                                        m.w,
                                        m.x,
                                    );
                                    let ny = scroll_axis(
                                        flags,
                                        crate::scroll_behaviour::LOCKED_Y,
                                        crate::scroll_behaviour::INVERTED_Y,
                                        start.1,
                                        off.1,
                                        curr.1,
                                        min_y,
                                        max_y,
                                        m.h,
                                        m.y,
                                    );
                                    proof {
                                        crate::component_list::lemma_sorted_update_same_id(
                                            pre,
                                            crate::component_list::store_index_of(pre, e_id.0),
                                            ComponentAABB {
                                                x: nx,
                                                y: ny,
                                                ..pre[crate::component_list::store_index_of(
                                                    pre,
                                                    e_id.0,
                                                )]
                                            },
                                        );
                                    }
                                    m.x = nx;
                                    m.y = ny;
                                    has = true;
                                    proof {
                                        let idx = crate::component_list::store_index_of(
                                            pre,
                                            e_id.0,
                                        );
                                        assert(layer.component_aabb@ == pre.update(
                                            idx,
                                            ComponentAABB { x: nx, y: ny, ..pre[idx] },
                                        ));
                                        assert(pre[idx].eid() == e_id.0);
                                        assert(b0s[idx].entity_id == pre[idx].entity_id);
                                        assert forall|i: int|
                                            0 <= i < b0s.len() && i != idx implies !finger_applies(
                                            fs[k as int],
                                            (#[trigger] b0s[i]).entity_id,
                                        ) by {
                                            if b0s[i].entity_id == e_id {
                                                assert(b0s[i].eid() == b0s[idx].eid());
                                                crate::component_list::lemma_sorted_index_unique(
                                                    b0s,
                                                    i,
                                                    idx,
                                                );
                                            }
                                        }
                                        assert(scroll_step_hyp(
                                            b0s,
                                            scrolls,
                                            fs,
                                            k as int,
                                            layer.component_aabb@,
                                        ));
                                        assert(finger_scrolls_in(fs[k as int], *old(layer)))
                                            by {
                                            assert(b0s[idx].eid() == e_id.0);
                                            assert(store_contains(b0s, e_id.0));
                                        }
                                    }
                                }
                            }
                        }
                    }
                }
                _ => {
                    proof {
                        assert(scroll_step_hyp(b0s, scrolls, fs, k as int, layer.component_aabb@));
                        assert(!finger_scrolls_in(fs[k as int], *old(layer)));
                    }
                }
            }
        } else {
            proof {
                assert(fs[k as int].start_point == fs[k as int].latest());
                assert(scroll_step_hyp(b0s, scrolls, fs, k as int, layer.component_aabb@));
                assert(!finger_scrolls_in(fs[k as int], *old(layer)));
            }
        }
        proof {
            lemma_scroll_step(b0s, scrolls, fs, k as int, layer.component_aabb@);
        }
        k = k + 1;
    }
    proof {
        assert(input_state.fingers@.take(nf as int) =~= input_state.fingers@);
    }

    // Try nested layers.
    let m = layer.component_layer.len();
    let mut j: usize = 0;
    while j < m
        invariant
            input_state.wf(),
            old(layer).wf(),
            m == layer.component_layer@.len() == old(layer).component_layer@.len(),
            j <= m,
            layer.component_aabb.wf(),
            layer.component_aabb@.len() == old(layer).component_aabb@.len(),
            forall|i: int|
                0 <= i < old(layer).component_aabb@.len() ==> #[trigger] layer.component_aabb@[i]
                    == spec_final_box(
                    old(layer).component_aabb@[i],
                    old(layer).component_touch_scroll@,
                    input_state.fingers@,
                ),
            layer.component_debug_draw == old(layer).component_debug_draw,
            layer.component_container == old(layer).component_container,
            layer.component_trigger == old(layer).component_trigger,
            layer.component_touch_scroll == old(layer).component_touch_scroll,
            layer.component_anim_translate == old(layer).component_anim_translate,
            layer.component_scroll_snap == old(layer).component_scroll_snap,
            layer.entity_id == old(layer).entity_id,
            forall|t: int|
                j <= t < m ==> layer.component_layer@[t] == #[trigger] old(
                    layer,
                ).component_layer@[t],
            forall|t: int|
                0 <= t < j ==> {
                    &&& (#[trigger] layer.component_layer@[t]).wf()
                    &&& scroll_related(
                        old(layer).component_layer@[t],
                        layer.component_layer@[t],
                        input_state.fingers@,
                    )
                },
            has == ((exists|t: int|
                0 <= t < input_state.fingers@.len() && finger_scrolls_in(
                    #[trigger] input_state.fingers@[t],
                    *old(layer),
                )) || (exists|t: int|
                0 <= t < j && any_scrolled(
                    #[trigger] old(layer).component_layer@[t],
                    input_state.fingers@,
                ))),
        decreases m - j,
    {
        proof {
            assert(old(layer).component_layer@[j as int].wf());
            assert(decreases_to!(*old(layer) => old(layer).component_layer));
            assert(decreases_to!(old(layer).component_layer => old(
                layer,
            ).component_layer[j as int]));
        }
        let sub = process_scroll(&mut layer.component_layer[j], input_state);
        if sub {
            has = true;
        }
        j = j + 1;
    }
    has
}

/// The last dragging finger, when there is one, is a real index and drags.
proof fn lemma_last_dragger_range(fs: Seq<FingerTrack>, e: EntityID)
    ensures
        match spec_last_dragger(fs, e) {
            Some(j) => 0 <= j < fs.len() && finger_applies(fs[j], e),
            None => true,
        },
    decreases fs.len(),
{
    if fs.len() > 0 && !finger_applies(fs.last(), e) {
        lemma_last_dragger_range(fs.drop_last(), e);
    }
}

/// After one finger's turn, each box the finger drags holds its scrolled
/// value (read from the box as it then stood) and every other box is
/// untouched.
pub open spec fn scroll_step_hyp(
    b0s: Seq<ComponentAABB>,
    scrolls: Seq<ComponentTouchScroll>,
    fs: Seq<FingerTrack>,
    k: int,
    after: Seq<ComponentAABB>,
) -> bool {
    forall|i: int|
        0 <= i < b0s.len() ==> {
            let curbox = spec_final_box(#[trigger] b0s[i], scrolls, fs.take(k));
            if finger_applies(fs[k], b0s[i].entity_id) && store_contains(
                scrolls,
                b0s[i].entity_id.0,
            ) {
                after[i] == spec_scrolled_box(
                    ComponentAABB { x: curbox.x, y: curbox.y, ..b0s[i] },
                    spec_lookup(scrolls, b0s[i].entity_id.0).unwrap(),
                    fs[k],
                )
            } else {
                after[i] == curbox
            }
        }
}

/// One finger's turn takes the fold of the boxes one step further: a box
/// the finger drags becomes its scrolled value, every other box stays.
proof fn lemma_scroll_step(
    b0s: Seq<ComponentAABB>,
    scrolls: Seq<ComponentTouchScroll>,
    fs: Seq<FingerTrack>,
    k: int,
    after: Seq<ComponentAABB>,
)
    requires
        0 <= k < fs.len(),
        after.len() == b0s.len(),
        crate::component_list::sorted_unique(b0s),
        scroll_step_hyp(b0s, scrolls, fs, k, after),
    ensures
        forall|i: int|
            0 <= i < b0s.len() ==> #[trigger] after[i] == spec_final_box(
                b0s[i],
                scrolls,
                fs.take(k + 1),
            ),
{
    assert(fs.take(k + 1).drop_last() =~= fs.take(k));
    assert(fs.take(k + 1).last() == fs[k]);
    assert forall|i: int| 0 <= i < b0s.len() implies #[trigger] after[i] == spec_final_box(
        b0s[i],
        scrolls,
        fs.take(k + 1),
    ) by {
        let b0 = b0s[i];
        let e = b0.entity_id;
        let curbox = spec_final_box(b0, scrolls, fs.take(k));
        // The fold never changes size or owner, and a locked axis keeps the
        // original position throughout.
        match spec_last_dragger(fs.take(k), e) {
            None => {
                assert(curbox == b0);
            }
            Some(j) => {
                match spec_lookup(scrolls, e.0) {
                    None => {
                        assert(curbox == b0);
                    }
                    Some(sc0) => {
                        assert(curbox == spec_scrolled_box(b0, sc0, fs.take(k)[j]));
                    }
                }
            }
        }
        assert(curbox.w == b0.w && curbox.h == b0.h && curbox.entity_id == b0.entity_id);
        if finger_applies(fs[k], e) {
            assert(spec_last_dragger(fs.take(k + 1), e) == Some(k));
            if store_contains(scrolls, e.0) {
                let sc = spec_lookup(scrolls, e.0).unwrap();
                let xx = ComponentAABB { x: curbox.x, y: curbox.y, ..b0 };
                if sc.behaviour_flags & crate::scroll_behaviour::LOCKED_X != 0 {
                    assert(curbox.x == b0.x);
                }
                if sc.behaviour_flags & crate::scroll_behaviour::LOCKED_Y != 0 {
                    assert(curbox.y == b0.y);
                }
                assert(spec_scrolled_box(xx, sc, fs[k]).x == spec_scrolled_box(b0, sc, fs[k]).x);
                assert(spec_scrolled_box(xx, sc, fs[k]).y == spec_scrolled_box(b0, sc, fs[k]).y);
                assert(spec_scrolled_box(xx, sc, fs[k]) == spec_scrolled_box(b0, sc, fs[k]));
                assert(spec_final_box(b0, scrolls, fs.take(k + 1)) == spec_scrolled_box(
                    b0,
                    sc,
                    fs[k],
                ));
            } else {
                assert(spec_final_box(b0, scrolls, fs.take(k + 1)) == b0);
                assert(curbox == b0);
            }
        } else {
            assert(spec_last_dragger(fs.take(k + 1), e) == spec_last_dragger(fs.take(k), e));
            lemma_last_dragger_range(fs.take(k), e);
            match spec_last_dragger(fs.take(k), e) {
                None => {}
                Some(j) => {
                    assert(fs.take(k + 1)[j] == fs.take(k)[j]);
                }
            }
        }
    }
}

/// Copies a list of snap points.
fn copy_points(pts: &Vec<(i32, i32)>) -> (r: Vec<(i32, i32)>)
    ensures
        r@ == pts@,
{
    let mut v: Vec<(i32, i32)> = Vec::new();
    let mut i: usize = 0;
    while i < pts.len()
        invariant
            i <= pts@.len(),
            v@ == pts@.take(i as int),
        decreases pts@.len() - i,
    {
        v.push(pts[i]);
        proof {
            assert(v@ =~= pts@.take(i + 1));
        }
        i = i + 1;
    }
    proof {
        assert(v@ =~= pts@);
    }
    v
}

/// The index of the candidate nearest to `p` by squared distance; of equally
/// near candidates, the earliest wins.
pub open spec fn spec_nearest_idx(pts: Seq<(i32, i32)>, p: (i32, i32)) -> int
    decreases pts.len(),
{
    if pts.len() <= 1 {
        0
    } else {
        let r = spec_nearest_idx(pts.drop_last(), p);
        if spec_sq_distance(pts.last(), p) < spec_sq_distance(pts[r], p) {
            pts.len() - 1
        } else {
            r
        }
    }
}

/// The nearest candidate really is nearest: no candidate lies strictly
/// closer by squared distance.
pub proof fn lemma_nearest_is_min(pts: Seq<(i32, i32)>, p: (i32, i32))
    requires
        pts.len() > 0,
    ensures
        0 <= spec_nearest_idx(pts, p) < pts.len(),
        forall|i: int|
            0 <= i < pts.len() ==> spec_sq_distance(pts[spec_nearest_idx(pts, p)], p)
                <= spec_sq_distance(#[trigger] pts[i], p),
    decreases pts.len(),
{
    if pts.len() > 1 {
        lemma_nearest_is_min(pts.drop_last(), p);
        assert(forall|i: int| 0 <= i < pts.len() - 1 ==> pts.drop_last()[i] == #[trigger] pts[i]);
    }
}

/// The candidate snap point nearest to `pos` by squared Euclidean distance
/// (squared, to avoid a square root per candidate); `None` when there are no
/// candidates. Of equally near candidates the earliest wins.
pub fn nearest_snap_point(points: &Vec<(i32, i32)>, pos: (i32, i32)) -> (r: Option<(i32, i32)>)
    ensures
        match r {
            None => points@.len() == 0,
            Some(q) => points@.len() > 0 && q == points@[spec_nearest_idx(points@, pos)]
                && forall|i: int|
                0 <= i < points@.len() ==> spec_sq_distance(q, pos) <= spec_sq_distance(
                    #[trigger] points@[i],
                    pos,
                ),
        },
{
    if points.len() == 0 {
        return None;
    }
    let mut best: usize = 0;
    let mut best_d: i128 = crate::sq_distance(points[0], pos);
    let mut i: usize = 1;
    while i < points.len()
        invariant
            1 <= i <= points@.len(),
            best < i,
            best == spec_nearest_idx(points@.take(i as int), pos),
            best_d == spec_sq_distance(points@[best as int], pos),
        decreases points@.len() - i,
    {
        proof {
            assert(points@.take(i + 1).drop_last() =~= points@.take(i as int));
            assert(points@.take(i + 1).last() == points@[i as int]);
        }
        let d = crate::sq_distance(points[i], pos);
        if d < best_d {
            best = i;
            best_d = d;
        }
        i = i + 1;
    }
    proof {
        assert(points@.take(points@.len() as int) =~= points@);
        lemma_nearest_is_min(points@, pos);
    }
    Some(points[best])
}

/// The first drag-trigger hit over a list of layers, in list order.
pub open spec fn spec_hit_view(layers: Seq<Layer>, x: int, y: int) -> Option<
    (EntityID, (int, int)),
>
    decreases layers.len(),
{
    if layers.len() == 0 {
        None
    } else {
        match spec_hit_layer(layers[0], x, y) {
            Some(r) => Some(r),
            None => spec_hit_view(layers.drop_first(), x, y),
        }
    }
}

impl FingerTrack {
    /// Starts tracking a finger pressed at `loc`: hit-tests the press
    /// against every scroll trigger of the view (first layer first) and, on
    /// a hit, records the dragged entity and the press offset from its AABB
    /// origin. The track is created whether or not anything was hit; an
    /// untracked drag simply does nothing on move.
    pub fn new(view: &UiView, finger_id: u64, loc: TouchPoint) -> (t: FingerTrack)
        requires
            view.wf(),
        ensures
            t.wf(),
            t.finger_id == finger_id,
            t.start_point == loc,
            t.latest_point == 0,
            t.points@ =~= Seq::new(
                NUM_POINTS_TRACKED as nat,
                |i: int|
                    if i == 0 {
                        loc
                    } else {
                        TouchPoint(0, 0)
                    },
            ),
            match spec_hit_view(view.layers@, loc.0 as int, loc.1 as int) {
                None => t.curr_dragging is None && t.offset is None,
                Some((e, (ox, oy))) => t.curr_dragging == Some(e) && t.offset == Some(
                    (ox as i32, oy as i32),
                ),
            },
    {
        let mut entity_id: Option<EntityID> = None;
        let mut offset: Option<(i32, i32)> = None;
        let n = view.layers.len();
        let mut i: usize = 0;
        let mut hit = false;
        proof {
            assert(view.layers@.skip(0) =~= view.layers@);
        }
        while i < n && !hit
            invariant
                view.wf(),
                i <= n == view.layers@.len(),
                !hit ==> {
                    &&& entity_id is None
                    &&& offset is None
                    &&& spec_hit_view(view.layers@.skip(i as int), loc.0 as int, loc.1 as int)
                        == spec_hit_view(view.layers@, loc.0 as int, loc.1 as int)
                },
                hit ==> match spec_hit_view(view.layers@, loc.0 as int, loc.1 as int) {
                    None => false,
                    Some((e, (ox, oy))) => entity_id == Some(e) && offset == Some(
                        (ox as i32, oy as i32),
                    ),
                },
            decreases n - i,
        {
            proof {
                assert(view.layers@.skip(i as int)[0] == view.layers@[i as int]);
                assert(view.layers@.skip(i as int).drop_first() =~= view.layers@.skip(i + 1));
                assert(view.layers@[i as int].wf());
            }
            let result = is_on_entity_drag_trigger(&view.layers[i], loc.0, loc.1);
            match result {
                Some((e, off)) => {
                    entity_id = Some(e);
                    offset = Some(off);
                    hit = true;
                }
                None => {}
            }
            i = i + 1;
        }
        proof {
            if !hit {
                assert(view.layers@.skip(i as int) =~= Seq::<Layer>::empty());
            }
        }
        let mut track = FingerTrack {
            finger_id,
            start_point: loc,
            points: [TouchPoint(0, 0); NUM_POINTS_TRACKED],
            latest_point: 0,
            curr_dragging: entity_id,
            offset,
        };
        track.points[0] = loc;
        track
    }
}

/// `i` is the first track of the list for this finger id.
pub open spec fn is_first_finger(fs: Seq<FingerTrack>, id: u64, i: int) -> bool {
    &&& 0 <= i < fs.len()
    &&& fs[i].finger_id == id
    &&& forall|t: int| 0 <= t < i ==> (#[trigger] fs[t]).finger_id != id
}

/// Whether some track of the list belongs to this finger id.
pub open spec fn has_finger(fs: Seq<FingerTrack>, id: u64) -> bool {
    exists|i: int| is_first_finger(fs, id, i)
}

/// The index of the first track for this finger id.
pub open spec fn first_finger(fs: Seq<FingerTrack>, id: u64) -> int {
    choose|i: int| is_first_finger(fs, id, i)
}

/// Finds the first track of this finger id.
fn find_finger(fingers: &Vec<FingerTrack>, id: u64) -> (r: Option<usize>)
    ensures
        match r {
            None => !has_finger(fingers@, id),
            Some(i) => is_first_finger(fingers@, id, i as int) && i as int == first_finger(
                fingers@,
                id,
            ),
        },
{
    let n = fingers.len();
    let mut i: usize = 0;
    while i < n
        invariant
            i <= n == fingers@.len(),
            forall|t: int| 0 <= t < i ==> (#[trigger] fingers@[t]).finger_id != id,
        decreases n - i,
    {
        if fingers[i].finger_id == id {
            proof {
                assert(is_first_finger(fingers@, id, i as int));
                if first_finger(fingers@, id) != i as int {
                    let j = first_finger(fingers@, id);
                    assert(is_first_finger(fingers@, id, j));
                }
            }
            return Some(i);
        }
        i = i + 1;
    }
    proof {
        if has_finger(fingers@, id) {
            let j = choose|j: int| is_first_finger(fingers@, id, j);
            assert(fingers@[j].finger_id == id);
        }
    }
    None
}

/// Whether this layer, or a nested one, holds a snap component for `e`.
pub open spec fn layer_has_snap(l: Layer, e: EntityID) -> bool
    decreases l,
{
    ||| store_contains(l.component_scroll_snap@, e.0)
    ||| exists|j: int|
        0 <= j < l.component_layer@.len() && layer_has_snap(#[trigger] l.component_layer@[j], e)
}

/// The translate animation a snap release installs: from the entity's
/// current position to the nearest candidate, with the snap's tween.
pub open spec fn spec_snap_anim(e: EntityID, a: ComponentAABB, snap: ComponentScrollSnap)
    -> ComponentAnimTranslate {
    let near = snap.snap_positions@[spec_nearest_idx(snap.snap_positions@, (a.x, a.y))];
    ComponentAnimTranslate {
        entity_id: e,
        start_x: a.x,
        start_y: a.y,
        end_x: near.0,
        end_y: near.1,
        anim_len: snap.tween_len,
        anim_timer: 0,
        tween_func: snap.tween_func,
    }
}

/// How a snap release relates a layer to itself afterwards. The first layer,
/// depth first, holding a snap component for `e` receives a new translate
/// animation towards the nearest candidate — unless `e` has no box there or
/// the snap has no candidates, in which case nothing changes. Every other
/// layer is untouched.
pub open spec fn snap_release_related(l0: Layer, l1: Layer, e: EntityID) -> bool
    decreases l0,
{
    if store_contains(l0.component_scroll_snap@, e.0) {
        let snap = spec_lookup(l0.component_scroll_snap@, e.0).unwrap();
        match spec_lookup(l0.component_aabb@, e.0) {
            None => l1 == l0,
            Some(a) => if snap.snap_positions@.len() == 0 {
                l1 == l0
            } else {
                &&& l1.component_anim_translate@ == spec_upsert(
                    l0.component_anim_translate@,
                    spec_snap_anim(e, a, snap),
                )
                &&& l1.component_debug_draw == l0.component_debug_draw
                &&& l1.component_aabb == l0.component_aabb
                &&& l1.component_container == l0.component_container
                &&& l1.component_trigger == l0.component_trigger
                &&& l1.component_touch_scroll == l0.component_touch_scroll
                &&& l1.component_scroll_snap == l0.component_scroll_snap
                &&& l1.component_layer == l0.component_layer
                &&& l1.entity_id == l0.entity_id
            },
        }
    } else {
        &&& l1.component_debug_draw == l0.component_debug_draw
        &&& l1.component_aabb == l0.component_aabb
        &&& l1.component_container == l0.component_container
        &&& l1.component_trigger == l0.component_trigger
        &&& l1.component_touch_scroll == l0.component_touch_scroll
        &&& l1.component_anim_translate == l0.component_anim_translate
        &&& l1.component_scroll_snap == l0.component_scroll_snap
        &&& l1.entity_id == l0.entity_id
        &&& l1.component_layer@.len() == l0.component_layer@.len()
        &&& forall|t: int|
            #![trigger l0.component_layer@[t]]
            0 <= t < l0.component_layer@.len() ==> {
                if layer_has_snap(l0.component_layer@[t], e) && (forall|u: int|
                    0 <= u < t ==> !layer_has_snap(#[trigger] l0.component_layer@[u], e)) {
                    snap_release_related(l0.component_layer@[t], l1.component_layer@[t], e)
                } else {
                    l1.component_layer@[t] == l0.component_layer@[t]
                }
            }
    }
}

/// An upsert of a valid entry keeps an animation store valid.
proof fn lemma_upsert_valid(s: Seq<ComponentAnimTranslate>, c: ComponentAnimTranslate)
    requires
        crate::component_list::sorted_unique(s),
        crate::animation::anim_entries_valid(s),
        crate::animation::anim_entry_valid(c),
    ensures
        crate::animation::anim_entries_valid(spec_upsert(s, c)),
{
    if store_contains(s, c.eid()) {
    } else {
        crate::component_list::lemma_insert_pos_exists(s, c.eid());
        let p = crate::component_list::insert_pos(s, c.eid());
        let s2 = s.take(p) + seq![c] + s.skip(p);
        assert forall|i: int| 0 <= i < s2.len() implies crate::animation::anim_entry_valid(
            #[trigger] s2[i],
        ) by {
            if i < p {
                assert(s2[i] == s[i]);
            } else if i == p {
                assert(s2[i] == c);
            } else {
                assert(s2[i] == s[i - 1]);
            }
        }
    }
}

/// Finds, depth first, the first layer holding a snap component for `e` and
/// installs the snap animation there: a new translate entry from the
/// entity's current position to the nearest candidate by squared distance.
/// Without a box for `e`, or without candidates, nothing is installed.
/// Returns whether a snap component was found (the search stops there).
fn apply_snap_release(layer: &mut Layer, e_id: EntityID) -> (found: bool)
    requires
        old(layer).wf(),
        crate::animation::layer_anims_ok(*old(layer)),
    ensures
        final(layer).wf(),
        crate::animation::layer_anims_ok(*final(layer)),
        snap_release_related(*old(layer), *final(layer), e_id),
        found == layer_has_snap(*old(layer), e_id),
        !found ==> *final(layer) == *old(layer),
    decreases *old(layer),
{
    let snap_opt = layer.component_scroll_snap.get_component(e_id);
    match snap_opt {
        Some(snap) => {
            // Clone the snap payload before mutating another store of the
            // same layer.
            let positions = copy_points(&snap.snap_positions);
            let tween_len = snap.tween_len;
            let tween_func = snap.tween_func;
            let ghost snap_g = *snap;
            let a = match layer.component_aabb.get_component(e_id) {
                None => {
                    return true;
                }
                Some(a) => *a,
            };
            match nearest_snap_point(&positions, (a.x, a.y)) {
                None => {
                    return true;
                }
                Some(closest) => {
                    let anim = ComponentAnimTranslate {
                        entity_id: e_id,
                        start_x: a.x,
                        start_y: a.y,
                        end_x: closest.0,
                        end_y: closest.1,
                        anim_len: tween_len,
                        anim_timer: 0,
                        tween_func,
                    };
                    proof {
                        assert(anim == spec_snap_anim(e_id, a, snap_g));
                        assert(snap_g.tween_func.is_supported()) by {
                            let si = store_index_of(
                                old(layer).component_scroll_snap@,
                                e_id.0,
                            );
                            assert(old(layer).component_scroll_snap@[si].tween_func.is_supported());
                        }
                        lemma_upsert_valid(old(layer).component_anim_translate@, anim);
                    }
                    layer.component_anim_translate.add_component(anim);
                    true
                }
            }
        }
        None => {
            let m = layer.component_layer.len();
            let mut j: usize = 0;
            while j < m
                invariant
                    old(layer).wf(),
                    crate::animation::layer_anims_ok(*old(layer)),
                    !store_contains(old(layer).component_scroll_snap@, e_id.0),
                    m == old(layer).component_layer@.len(),
                    j <= m,
                    *layer == *old(layer),
                    forall|u: int|
                        0 <= u < j ==> !layer_has_snap(
                            #[trigger] old(layer).component_layer@[u],
                            e_id,
                        ),
                decreases m - j,
            {
                proof {
                    assert(old(layer).component_layer@[j as int].wf());
                    assert(crate::animation::layer_anims_ok(
                        old(layer).component_layer@[j as int],
                    ));
                    assert(decreases_to!(*old(layer) => old(layer).component_layer));
                    assert(decreases_to!(old(layer).component_layer => old(
                        layer,
                    ).component_layer[j as int]));
                }
                if has_snap_exec(&layer.component_layer[j], e_id) {
                    apply_snap_release(&mut layer.component_layer[j], e_id);
                    proof {
                        assert(layer_has_snap(*old(layer), e_id));
                        assert forall|t: int|
                            0 <= t < m implies {
                            if layer_has_snap(#[trigger] old(layer).component_layer@[t], e_id)
                                && (forall|u: int|
                                0 <= u < t ==> !layer_has_snap(
                                    #[trigger] old(layer).component_layer@[u],
                                    e_id,
                                )) {
                                snap_release_related(
                                    old(layer).component_layer@[t],
                                    layer.component_layer@[t],
                                    e_id,
                                )
                            } else {
                                layer.component_layer@[t] == old(layer).component_layer@[t]
                            }
                        } by {}
                    }
                    return true;
                }
                j = j + 1;
            }
            proof {
                if layer_has_snap(*old(layer), e_id) {
                    let t = choose|t: int|
                        0 <= t < old(layer).component_layer@.len() && layer_has_snap(
                            #[trigger] old(layer).component_layer@[t],
                            e_id,
                        );
                    assert(!layer_has_snap(old(layer).component_layer@[t], e_id));
                }
            }
            false
        }
    }
}

/// Whether this layer, or a nested one, holds a snap component for `e_id`.
fn has_snap_exec(layer: &Layer, e_id: EntityID) -> (r: bool)
    requires
        layer.wf(),
    ensures
        r == layer_has_snap(*layer, e_id),
    decreases *layer,
{
    match layer.component_scroll_snap.get_component_index(e_id) {
        Some(_) => true,
        None => {
            let m = layer.component_layer.len();
            let mut j: usize = 0;
            while j < m
                invariant
                    layer.wf(),
                    j <= m == layer.component_layer@.len(),
                    !store_contains(layer.component_scroll_snap@, e_id.0),
                    forall|u: int|
                        0 <= u < j ==> !layer_has_snap(
                            #[trigger] layer.component_layer@[u],
                            e_id,
                        ),
                decreases m - j,
            {
                proof {
                    assert(layer.component_layer@[j as int].wf());
                    assert(decreases_to!(*layer => layer.component_layer));
                    assert(decreases_to!(layer.component_layer => layer.component_layer[j as int]));
                }
                if has_snap_exec(&layer.component_layer[j], e_id) {
                    return true;
                }
                j = j + 1;
            }
            proof {
                if layer_has_snap(*layer, e_id) {
                    let t = choose|t: int|
                        0 <= t < layer.component_layer@.len() && layer_has_snap(
                            #[trigger] layer.component_layer@[t],
                            e_id,
                        );
                    assert(!layer_has_snap(layer.component_layer@[t], e_id));
                }
            }
            false
        }
    }
}

/// A view's animation and snap entries, at every nesting depth, are valid.
pub open spec fn view_anims_ok(v: UiView) -> bool {
    forall|i: int|
        0 <= i < v.layers@.len() ==> crate::animation::layer_anims_ok(#[trigger] v.layers@[i])
}

/// The track after one move sample was appended at the next ring slot
/// (wrapping at the capacity); everything else is kept.
pub open spec fn track_advanced(f0: FingerTrack, f1: FingerTrack, loc: TouchPoint) -> bool {
    &&& f1.latest_point == (f0.latest_point + 1) as int % (NUM_POINTS_TRACKED as int)
    &&& f1.points@ == f0.points@.update(f1.latest_point as int, loc)
    &&& f1.finger_id == f0.finger_id
    &&& f1.start_point == f0.start_point
    &&& f1.curr_dragging == f0.curr_dragging
    &&& f1.offset == f0.offset
}

/// A track as `FingerTrack::new` creates it for a press at `loc`.
pub open spec fn track_fresh(t: FingerTrack, layers: Seq<Layer>, id: u64, loc: TouchPoint) -> bool {
    &&& t.wf()
    &&& t.finger_id == id
    &&& t.start_point == loc
    &&& t.latest_point == 0
    &&& t.points@ == Seq::new(
        NUM_POINTS_TRACKED as nat,
        |i: int|
            if i == 0 {
                loc
            } else {
                TouchPoint(0, 0)
            },
    )
    &&& match spec_hit_view(layers, loc.0 as int, loc.1 as int) {
        None => t.curr_dragging is None && t.offset is None,
        Some((e, (ox, oy))) => t.curr_dragging == Some(e) && t.offset == Some(
            (ox as i32, oy as i32),
        ),
    }
}

/// How a snap release relates a view's layers to themselves afterwards: the
/// first layer holding a snap component for `e` (searched depth first)
/// changes as `snap_release_related` says; every other layer is untouched.
pub open spec fn snap_release_view(ls0: Seq<Layer>, ls1: Seq<Layer>, e: EntityID) -> bool {
    &&& ls1.len() == ls0.len()
    &&& forall|t: int|
        #![trigger ls0[t]]
        0 <= t < ls0.len() ==> {
            if layer_has_snap(ls0[t], e) && (forall|u: int|
                0 <= u < t ==> !layer_has_snap(#[trigger] ls0[u], e)) {
                snap_release_related(ls0[t], ls1[t], e)
            } else {
                ls1[t] == ls0[t]
            }
        }
}

/// What one touch event does to the view and the finger tracker: a start
/// for an untracked finger appends a fresh track, a move appends the sample
/// to the first matching track's ring buffer, an end or cancel removes the
/// first matching track and fires its snap release; anything else changes
/// nothing.
pub open spec fn touch_event_related(
    v0: UiView,
    s0: InputState,
    v1: UiView,
    s1: InputState,
    ev: TouchEvent,
) -> bool {
    let fs0 = s0.fingers@;
    let fs1 = s1.fingers@;
    match ev.phase {
        TouchPhase::Started => if !has_finger(fs0, ev.finger_id) {
            &&& v1 == v0
            &&& fs1.len() == fs0.len() + 1
            &&& fs1.take(fs0.len() as int) == fs0
            &&& track_fresh(fs1.last(), v0.layers@, ev.finger_id, ev.location)
        } else {
            v1 == v0 && fs1 == fs0
        },
        TouchPhase::Moved => if has_finger(fs0, ev.finger_id) {
            let i = first_finger(fs0, ev.finger_id);
            &&& v1 == v0
            &&& fs1.len() == fs0.len()
            &&& track_advanced(fs0[i], fs1[i], ev.location)
            &&& forall|t: int| 0 <= t < fs0.len() && t != i ==> fs1[t] == #[trigger] fs0[t]
        } else {
            v1 == v0 && fs1 == fs0
        },
        _ => if has_finger(fs0, ev.finger_id) {
            let i = first_finger(fs0, ev.finger_id);
            &&& fs1 == fs0.remove(i)
            &&& match fs0[i].curr_dragging {
                None => v1 == v0,
                Some(e) => snap_release_view(v0.layers@, v1.layers@, e),
            }
        } else {
            v1 == v0 && fs1 == fs0
        },
    }
}

/// The view and tracker after a batch of touch events, processed in order.
pub open spec fn events_processed(
    v0: UiView,
    s0: InputState,
    v1: UiView,
    s1: InputState,
    events: Seq<TouchEvent>,
) -> bool
    decreases events.len(),
{
    if events.len() == 0 {
        v1 == v0 && s1 == s0
    } else {
        exists|vm: UiView, sm: InputState|
            #[trigger] touch_event_related(v0, s0, vm, sm, events[0]) && events_processed(
                vm,
                sm,
                v1,
                s1,
                events.drop_first(),
            )
    }
}

/// Processing one more event extends the fold by one step.
pub proof fn lemma_events_processed_push(
    v0: UiView,
    s0: InputState,
    v1: UiView,
    s1: InputState,
    v2: UiView,
    s2: InputState,
    events: Seq<TouchEvent>,
    ev: TouchEvent,
)
    requires
        events_processed(v0, s0, v1, s1, events),
        touch_event_related(v1, s1, v2, s2, ev),
    ensures
        events_processed(v0, s0, v2, s2, events.push(ev)),
    decreases events.len(),
{
    if events.len() == 0 {
        assert(events.push(ev)[0] == ev);
        assert(events.push(ev).drop_first() =~= events);
        assert(touch_event_related(v0, s0, v2, s2, ev));
        assert(events_processed(v2, s2, v2, s2, events));
    } else {
        let (vm, sm) = choose|vm: UiView, sm: InputState|
            #[trigger] touch_event_related(v0, s0, vm, sm, events[0]) && events_processed(
                vm,
                sm,
                v1,
                s1,
                events.drop_first(),
            );
        lemma_events_processed_push(vm, sm, v1, s1, v2, s2, events.drop_first(), ev);
        assert(events.push(ev)[0] == events[0]);
        assert(events.push(ev).drop_first() =~= events.drop_first().push(ev));
    }
}

/// Parses one touch event.
/// - Start: hit-test the press against every scroll trigger and create a
///   finger track (tracked whether or not anything was hit).
/// - Move: append the sample to the finger's ring buffer.
/// - End or cancel: remove the track; if the finger was dragging an entity
///   with a snap component, install a translate animation to the nearest
///   snap point.
pub fn process_touch_event(view: &mut UiView, input_state: &mut InputState, ev: TouchEvent)
    requires
        old(view).wf(),
        view_anims_ok(*old(view)),
        old(input_state).wf(),
    ensures
        final(view).wf(),
        view_anims_ok(*final(view)),
        final(input_state).wf(),
        touch_event_related(
            *old(view),
            *old(input_state),
            *final(view),
            *final(input_state),
            ev,
        ),
{
    let idx = find_finger(&input_state.fingers, ev.finger_id);
    match ev.phase {
        TouchPhase::Started => {
            if idx.is_none() {
                let ghost fs0 = input_state.fingers@;
                let track = FingerTrack::new(view, ev.finger_id, ev.location);
                input_state.fingers.push(track);
                proof {
                    assert(input_state.fingers@.take(fs0.len() as int) =~= fs0);
                    assert(input_state.fingers@.last() == track);
                    assert forall|t: int|
                        0 <= t < input_state.fingers@.len() implies (#[trigger] input_state.fingers@[t]).wf() by {
                        if t < fs0.len() {
                            assert(input_state.fingers@[t] == fs0[t]);
                        }
                    }
                }
            }
        }
        TouchPhase::Moved => {
            match idx {
                None => {}
                Some(i) => {
                    let ghost fs0 = input_state.fingers@;
                    let f = &mut input_state.fingers[i];
                    let nl: usize = if f.latest_point + 1 >= NUM_POINTS_TRACKED {
                        0
                    } else {
                        f.latest_point + 1
                    };
                    f.latest_point = nl;
                    f.points[nl] = ev.location;
                    proof {
                        assert(nl as int == (fs0[i as int].latest_point + 1) as int % (
                        NUM_POINTS_TRACKED as int));
                        assert(track_advanced(
                            fs0[i as int],
                            input_state.fingers@[i as int],
                            ev.location,
                        ));
                        assert forall|t: int|
                            0 <= t < input_state.fingers@.len() implies (
                        #[trigger] input_state.fingers@[t]).wf() by {
                            if t != i {
                                assert(input_state.fingers@[t] == fs0[t]);
                            }
                        }
                    }
                }
            }
        }
        _ => {
            match idx {
                None => {}
                Some(i) => {
                    // Before removing, execute any snap behaviour.
                    let ghost fs0 = input_state.fingers@;
                    let finger = input_state.fingers.remove(i);
                    proof {
                        assert forall|t: int|
                            0 <= t < input_state.fingers@.len() implies (
                        #[trigger] input_state.fingers@[t]).wf() by {
                            if t < i {
                                assert(input_state.fingers@[t] == fs0[t]);
                            } else {
                                assert(input_state.fingers@[t] == fs0[t + 1]);
                            }
                        }
                    }
                    match finger.curr_dragging {
                        None => {}
                        Some(e_id) => {
                            let n = view.layers.len();
                            let mut t: usize = 0;
                            while t < n
                                invariant
                                    old(view).wf(),
                                    view_anims_ok(*old(view)),
                                    n == old(view).layers@.len(),
                                    t <= n,
                                    *view == *old(view),
                                    input_state.wf(),
                                    ev.phase is Ended || ev.phase is Cancelled,
                                    is_first_finger(
                                        old(input_state).fingers@,
                                        ev.finger_id,
                                        i as int,
                                    ),
                                    i as int == first_finger(
                                        old(input_state).fingers@,
                                        ev.finger_id,
                                    ),
                                    input_state.fingers@ == old(input_state).fingers@.remove(
                                        i as int,
                                    ),
                                    finger == old(input_state).fingers@[i as int],
                                    finger.curr_dragging == Some(e_id),
                                    forall|u: int|
                                        0 <= u < t ==> !layer_has_snap(
                                            #[trigger] old(view).layers@[u],
                                            e_id,
                                        ),
                                decreases n - t,
                            {
                                proof {
                                    assert(old(view).layers@[t as int].wf());
                                    assert(crate::animation::layer_anims_ok(
                                        old(view).layers@[t as int],
                                    ));
                                }
                                if has_snap_exec(&view.layers[t], e_id) {
                                    apply_snap_release(&mut view.layers[t], e_id);
                                    proof {
                                        assert(snap_release_view(
                                            old(view).layers@,
                                            view.layers@,
                                            e_id,
                                        ));
                                        assert forall|u: int|
                                            0 <= u < view.layers@.len() implies (
                                        #[trigger] view.layers@[u]).wf()
                                            && crate::animation::layer_anims_ok(
                                            view.layers@[u],
                                        ) by {
                                            if u != t {
                                                assert(view.layers@[u] == old(view).layers@[u]);
                                            }
                                        }
                                    }
                                    return ;
                                }
                                t = t + 1;
                            }
                            proof {
                                assert(snap_release_view(old(view).layers@, view.layers@, e_id));
                            }
                        }
                    }
                }
            }
        }
    }
}

/// An entity whose scroll component locks an axis never has that axis of
/// its box changed by scroll resolution, under any drag delta; neither does
/// an entity with no scroll component at all.
pub proof fn lemma_locked_axis_never_moves(
    l0: Layer,
    l1: Layer,
    fingers: Seq<FingerTrack>,
    i: int,
)
    requires
        scroll_related(l0, l1, fingers),
        0 <= i < l0.component_aabb@.len(),
    ensures
        match spec_lookup(l0.component_touch_scroll@, l0.component_aabb@[i].entity_id.0) {
            None => l1.component_aabb@[i] == l0.component_aabb@[i],
            Some(sc) => {
                &&& (sc.behaviour_flags & crate::scroll_behaviour::LOCKED_X != 0
                    ==> l1.component_aabb@[i].x == l0.component_aabb@[i].x)
                &&& (sc.behaviour_flags & crate::scroll_behaviour::LOCKED_Y != 0
                    ==> l1.component_aabb@[i].y == l0.component_aabb@[i].y)
            },
        },
{
    let b0 = l0.component_aabb@[i];
    assert(l1.component_aabb@[i] == spec_final_box(b0, l0.component_touch_scroll@, fingers));
    match spec_last_dragger(fingers, b0.entity_id) {
        None => {}
        Some(k) => {
            match spec_lookup(l0.component_touch_scroll@, b0.entity_id.0) {
                None => {}
                Some(sc) => {
                    assert(l1.component_aabb@[i] == spec_scrolled_box(b0, sc, fingers[k]));
                }
            }
        }
    }
}

/// Scroll resolution keeps every animation and snap entry valid: it touches
/// only box positions.
pub proof fn lemma_scroll_preserves_anims_ok(l0: Layer, l1: Layer, fs: Seq<FingerTrack>)
    requires
        scroll_related(l0, l1, fs),
        crate::animation::layer_anims_ok(l0),
    ensures
        crate::animation::layer_anims_ok(l1),
    decreases l0,
{
    assert forall|j: int|
        0 <= j < l1.component_layer@.len() implies crate::animation::layer_anims_ok(
        #[trigger] l1.component_layer@[j],
    ) by {
        lemma_scroll_preserves_anims_ok(l0.component_layer@[j], l1.component_layer@[j], fs);
    }
}

/// Resolves scrolling on every layer of the view. Returns whether any entity
/// was scrolled this frame — the caller's signal to re-run layout, since a
/// scroll may change a container's effective box.
pub fn process_view_scroll(view: &mut UiView, input_state: &InputState) -> (has_scrolled: bool)
    requires
        old(view).wf(),
        input_state.wf(),
    ensures
        final(view).wf(),
        final(view).layers@.len() == old(view).layers@.len(),
        forall|i: int|
            0 <= i < old(view).layers@.len() ==> scroll_related(
                #[trigger] old(view).layers@[i],
                final(view).layers@[i],
                input_state.fingers@,
            ),
        has_scrolled == exists|i: int|
            0 <= i < old(view).layers@.len() && any_scrolled(
                #[trigger] old(view).layers@[i],
                input_state.fingers@,
            ),
{
    let mut has: bool = false;
    let n = view.layers.len();
    let mut k: usize = 0;
    while k < n
        invariant
            input_state.wf(),
            n == view.layers@.len() == old(view).layers@.len(),
            k <= n,
            forall|i: int| 0 <= i < n ==> (#[trigger] old(view).layers@[i]).wf(),
            forall|i: int| k <= i < n ==> view.layers@[i] == #[trigger] old(view).layers@[i],
            forall|i: int|
                0 <= i < k ==> {
                    &&& (#[trigger] view.layers@[i]).wf()
                    &&& scroll_related(
                        old(view).layers@[i],
                        view.layers@[i],
                        input_state.fingers@,
                    )
                },
            has == exists|i: int|
                0 <= i < k && any_scrolled(#[trigger] old(view).layers@[i], input_state.fingers@),
        decreases n - k,
    {
        proof {
            assert(old(view).layers@[k as int].wf());
        }
        let ghost has_pre = has;
        let sub = process_scroll(&mut view.layers[k], input_state);
        if sub {
            has = true;
        }
        proof {
            if has {
                if sub {
                    assert(any_scrolled(old(view).layers@[k as int], input_state.fingers@));
                } else {
                    let w = choose|i: int|
                        0 <= i < k && any_scrolled(
                            #[trigger] old(view).layers@[i],
                            input_state.fingers@,
                        );
                    assert(any_scrolled(old(view).layers@[w], input_state.fingers@));
                }
            } else {
                assert forall|i: int| 0 <= i < k + 1 implies !any_scrolled(
                    #[trigger] old(view).layers@[i],
                    input_state.fingers@,
                ) by {}
            }
        }
        k = k + 1;
    }
    has
}

} // verus!

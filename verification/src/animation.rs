//! Animation system: per-frame timer advance and tween evaluation for active
//! translate animations.
//!
//! Each frame the timers of all entries advance by the frame's milliseconds,
//! clamped to the entry's length (a timer never passes its duration). Each
//! entry then writes an interpolated position into its entity's AABB if the
//! entity has one, and entries whose timer has reached their length snap the
//! position to the exact end coordinates and are deleted.

use vstd::prelude::*;
use vstd::arithmetic::div_mod::{lemma_div_by_multiple, lemma_div_is_ordered, lemma_div_pos_is_pos};
use vstd::arithmetic::mul::lemma_mul_inequality;
use crate::component_list::{
    lemma_sorted_index_unique, lemma_sorted_update_same_id, store_contains, store_index_of,
    ComponentList,
};
use crate::components::{ComponentAABB, ComponentAnimTranslate, ComponentScrollSnap, TweenFunction};
use crate::view::{Layer, UiView};

verus! {

broadcast use vstd::seq::axiom_seq_index_decreases, vstd::std_specs::vec::axiom_vec_index_decreases;

/// An animation entry is valid: its timer has not passed its length and its
/// tween function is one of the implemented ones.
pub open spec fn anim_entry_valid(a: ComponentAnimTranslate) -> bool {
    a.anim_timer <= a.anim_len && a.tween_func.is_supported()
}

/// All entries of an animation store are valid.
pub open spec fn anim_entries_valid(s: Seq<ComponentAnimTranslate>) -> bool {
    forall|i: int| 0 <= i < s.len() ==> anim_entry_valid(#[trigger] s[i])
}

/// All snap components carry an implemented tween function (a snap release
/// turns one into an animation entry).
pub open spec fn snap_entries_valid(s: Seq<ComponentScrollSnap>) -> bool {
    forall|i: int| 0 <= i < s.len() ==> (#[trigger] s[i]).tween_func.is_supported()
}

/// Every animation and snap entry of the layer and of its nested layers is
/// valid.
pub open spec fn layer_anims_ok(l: Layer) -> bool
    decreases l,
{
    &&& anim_entries_valid(l.component_anim_translate@)
    &&& snap_entries_valid(l.component_scroll_snap@)
    &&& forall|i: int|
        #![trigger l.component_layer@[i]]
        0 <= i < l.component_layer@.len() ==> layer_anims_ok(l.component_layer@[i])
}

/// An animation entry after its timer advanced by `ms` milliseconds, clamped
/// to the entry's length.
pub open spec fn spec_advanced_anim(a: ComponentAnimTranslate, ms: int) -> ComponentAnimTranslate {
    ComponentAnimTranslate {
        anim_timer: if a.anim_timer + ms <= a.anim_len {
            (a.anim_timer + ms) as u32
        } else {
            a.anim_len
        },
        ..a
    }
}

/// The transformed timer value of a tween function. Only meaningful for the
/// implemented tween functions; the easing variants await a product decision
/// and are never evaluated.
pub open spec fn spec_tween(tw: TweenFunction, anim_len: u32, anim_timer: u32) -> u32 {
    match tw {
        TweenFunction::Instant => anim_len,
        _ => anim_timer,
    }
}

/// Interpolation between `start` and `end` with factor `t / len`.
pub open spec fn spec_interp(start: int, end: int, t: u32, len: u32) -> int {
    if len == 0 {
        end
    } else if end >= start {
        start + (end - start) * (t as int) / (len as int)
    } else {
        start - (start - end) * (t as int) / (len as int)
    }
}

/// The X position an animation entry writes this frame: the exact end once
/// the timer has reached the length, an interpolated value before that.
pub open spec fn spec_anim_pos_x(a: ComponentAnimTranslate) -> int {
    if a.anim_timer >= a.anim_len {
        a.end_x as int
    } else {
        spec_interp(
            a.start_x as int,
            a.end_x as int,
            spec_tween(a.tween_func, a.anim_len, a.anim_timer),
            a.anim_len,
        )
    }
}

/// The Y position an animation entry writes this frame.
pub open spec fn spec_anim_pos_y(a: ComponentAnimTranslate) -> int {
    if a.anim_timer >= a.anim_len {
        a.end_y as int
    } else {
        spec_interp(
            a.start_y as int,
            a.end_y as int,
            spec_tween(a.tween_func, a.anim_len, a.anim_timer),
            a.anim_len,
        )
    }
}

/// An interpolated value never leaves the segment between `start` and `end`.
pub proof fn lemma_interp_in_segment(start: int, end: int, t: u32, len: u32)
    requires
        t <= len,
    ensures
        start <= end ==> start <= spec_interp(start, end, t, len) <= end,
        end <= start ==> end <= spec_interp(start, end, t, len) <= start,
{
    if len == 0 {
    } else {
        if end >= start {
            let d = end - start;
            lemma_mul_inequality(t as int, len as int, d);
            assert(d * t == t * d) by (nonlinear_arith);
            assert(d * len == len * d) by (nonlinear_arith);
            lemma_div_is_ordered(d * t, d * len, len as int);
            lemma_div_by_multiple(d, len as int);
            lemma_div_pos_is_pos(d * t, len as int);
            assert(d * t >= 0) by (nonlinear_arith)
                requires d >= 0, t >= 0;
        } else {
            let d = start - end;
            lemma_mul_inequality(t as int, len as int, d);
            assert(d * t == t * d) by (nonlinear_arith);
            assert(d * len == len * d) by (nonlinear_arith);
            lemma_div_is_ordered(d * t, d * len, len as int);
            lemma_div_by_multiple(d, len as int);
            lemma_div_pos_is_pos(d * t, len as int);
            assert(d * t >= 0) by (nonlinear_arith)
                requires d >= 0, t >= 0;
        }
    }
}

/// A valid translate animation never produces a position outside the segment
/// from its start to its end, and once its timer has reached its length the
/// position is the exact end value.
pub proof fn lemma_anim_pos_in_segment(a: ComponentAnimTranslate)
    requires
        anim_entry_valid(a),
    ensures
        a.start_x <= a.end_x ==> a.start_x <= spec_anim_pos_x(a) <= a.end_x,
        a.end_x <= a.start_x ==> a.end_x <= spec_anim_pos_x(a) <= a.start_x,
        a.start_y <= a.end_y ==> a.start_y <= spec_anim_pos_y(a) <= a.end_y,
        a.end_y <= a.start_y ==> a.end_y <= spec_anim_pos_y(a) <= a.start_y,
        a.anim_timer == a.anim_len ==> spec_anim_pos_x(a) == a.end_x && spec_anim_pos_y(a)
            == a.end_y,
{
    if a.anim_timer < a.anim_len {
        let t = spec_tween(a.tween_func, a.anim_len, a.anim_timer);
        lemma_interp_in_segment(a.start_x as int, a.end_x as int, t, a.anim_len);
        lemma_interp_in_segment(a.start_y as int, a.end_y as int, t, a.anim_len);
    }
}

/// Advances every timer of the store by `ms` milliseconds, clamped to each
/// entry's length.
fn advance_timers(anims: &mut ComponentList<ComponentAnimTranslate>, ms: u64)
    requires
        old(anims).wf(),
        anim_entries_valid(old(anims)@),
    ensures
        final(anims).wf(),
        final(anims)@ == old(anims)@.map_values(
            |a: ComponentAnimTranslate| spec_advanced_anim(a, ms as int),
        ),
        anim_entries_valid(final(anims)@),
{
    let n = anims.len();
    let mut k: usize = 0;
    while k < n
        invariant
            anims.wf(),
            anim_entries_valid(anims@),
            n == anims@.len() == old(anims)@.len(),
            k <= n,
            forall|j: int|
                0 <= j < k ==> anims@[j] == spec_advanced_anim(
                    #[trigger] old(anims)@[j],
                    ms as int,
                ),
            forall|j: int| k <= j < n ==> anims@[j] == #[trigger] old(anims)@[j],
        decreases n - k,
    {
        let entry = *anims.get(k);
        let remaining: u32 = entry.anim_len - entry.anim_timer;
        let new_timer: u32 = if ms >= remaining as u64 {
            entry.anim_len
        } else {
            entry.anim_timer + ms as u32
        };
        proof {
            lemma_sorted_update_same_id(
                anims@,
                k as int,
                spec_advanced_anim(entry, ms as int),
            );
        }
        let m = anims.get_mut(k);
        m.anim_timer = new_timer;
        k = k + 1;
    }
    proof {
        assert(anims@ =~= old(anims)@.map_values(
            |a: ComponentAnimTranslate| spec_advanced_anim(a, ms as int),
        ));
    }
}

/// Interpolates between `start` and `end` with factor `t / len`.
fn interp(start: i32, end: i32, t: u32, len: u32) -> (r: i32)
    requires
        t <= len,
    ensures
        r == spec_interp(start as int, end as int, t, len),
{
    if len == 0 {
        return end;
    }
    if end >= start {
        let d: u128 = (end as i64 - start as i64) as u128;
        proof {
            assert((d as int) * (t as int) < 0x100000000000000000000000000000000) by (nonlinear_arith)
                requires 0 <= (d as int) < 0x100000000, 0 <= (t as int) < 0x100000000;
        }
        let q: u128 = d * (t as u128) / (len as u128);
        proof {
            let di = end as int - start as int;
            lemma_mul_inequality(t as int, len as int, di);
            assert(di * (t as int) == (t as int) * di) by (nonlinear_arith);
            assert(di * (len as int) == (len as int) * di) by (nonlinear_arith);
            lemma_div_is_ordered(di * (t as int), di * (len as int), len as int);
            lemma_div_by_multiple(di, len as int);
            assert(di * (t as int) >= 0) by (nonlinear_arith)
                requires di >= 0, t >= 0;
            lemma_div_pos_is_pos(di * (t as int), len as int);
            assert(0 <= q <= di);
        }
        (start as i64 + q as i64) as i32
    } else {
        let d: u128 = (start as i64 - end as i64) as u128;
        proof {
            assert((d as int) * (t as int) < 0x100000000000000000000000000000000) by (nonlinear_arith)
                requires 0 <= (d as int) < 0x100000000, 0 <= (t as int) < 0x100000000;
        }
        let q: u128 = d * (t as u128) / (len as u128);
        proof {
            let di = start as int - end as int;
            lemma_mul_inequality(t as int, len as int, di);
            assert(di * (t as int) == (t as int) * di) by (nonlinear_arith);
            assert(di * (len as int) == (len as int) * di) by (nonlinear_arith);
            lemma_div_is_ordered(di * (t as int), di * (len as int), len as int);
            lemma_div_by_multiple(di, len as int);
            assert(di * (t as int) >= 0) by (nonlinear_arith)
                requires di >= 0, t >= 0;
            lemma_div_pos_is_pos(di * (t as int), len as int);
            assert(0 <= q <= di);
        }
        (start as i64 - q as i64) as i32
    }
}

/// The AABB store after one animation entry wrote its position of this frame
/// into its entity's box (a no-op when the entity has no box).
pub open spec fn spec_apply_one(
    aabbs: Seq<ComponentAABB>,
    a: ComponentAnimTranslate,
) -> Seq<ComponentAABB> {
    if store_contains(aabbs, a.entity_id.0) {
        let i = store_index_of(aabbs, a.entity_id.0);
        aabbs.update(
            i,
            ComponentAABB {
                x: spec_anim_pos_x(a) as i32,
                y: spec_anim_pos_y(a) as i32,
                ..aabbs[i]
            },
        )
    } else {
        aabbs
    }
}

/// The AABB store after every animation entry wrote its position, in store
/// order.
pub open spec fn spec_apply_anims(
    aabbs: Seq<ComponentAABB>,
    anims: Seq<ComponentAnimTranslate>,
) -> Seq<ComponentAABB>
    decreases anims.len(),
{
    if anims.len() == 0 {
        aabbs
    } else {
        spec_apply_anims(spec_apply_one(aabbs, anims[0]), anims.drop_first())
    }
}

proof fn lemma_apply_anims_push(
    aabbs: Seq<ComponentAABB>,
    anims: Seq<ComponentAnimTranslate>,
    a: ComponentAnimTranslate,
)
    ensures
        spec_apply_anims(aabbs, anims.push(a)) == spec_apply_one(
            spec_apply_anims(aabbs, anims),
            a,
        ),
    decreases anims.len(),
{
    if anims.len() == 0 {
        assert(anims.push(a).drop_first() =~= anims);
        assert(anims.push(a)[0] == a);
        assert(spec_apply_anims(aabbs, anims) == aabbs);
        assert(spec_apply_anims(spec_apply_one(aabbs, a), anims) == spec_apply_one(aabbs, a));
    } else {
        assert(anims.push(a)[0] == anims[0]);
        assert(anims.push(a).drop_first() =~= anims.drop_first().push(a));
        lemma_apply_anims_push(spec_apply_one(aabbs, anims[0]), anims.drop_first(), a);
    }
}

/// Writes this frame's position of every animation entry into its entity's
/// AABB, in store order. Entries whose entity has no AABB still advance but
/// have no visible effect.
fn apply_anim_positions(
    aabbs: &mut ComponentList<ComponentAABB>,
    anims: &ComponentList<ComponentAnimTranslate>,
)
    requires
        old(aabbs).wf(),
        anims.wf(),
        anim_entries_valid(anims@),
    ensures
        final(aabbs).wf(),
        final(aabbs)@ == spec_apply_anims(old(aabbs)@, anims@),
{
    let n = anims.len();
    let mut k: usize = 0;
    while k < n
        invariant
            aabbs.wf(),
            anims.wf(),
            anim_entries_valid(anims@),
            n == anims@.len(),
            k <= n,
            aabbs@ == spec_apply_anims(old(aabbs)@, anims@.take(k as int)),
        decreases n - k,
    {
        let a = *anims.get(k);
        let (px, py): (i32, i32) = if a.anim_timer >= a.anim_len {
            (a.end_x, a.end_y)
        } else {
            let t = a.tween_func.tween(a.anim_len, a.anim_timer);
            (
                interp(a.start_x, a.end_x, t, a.anim_len),
                interp(a.start_y, a.end_y, t, a.anim_len),
            )
        };
        let ghost pre = aabbs@;
        match aabbs.get_component_mut(a.entity_id) {
            None => {
                proof {
                    assert(spec_apply_one(pre, a) == pre);
                }
            }
            Some(m) => {
                proof {
                    lemma_sorted_update_same_id(
                        pre,
                        store_index_of(pre, a.entity_id.0),
                        ComponentAABB { x: px, y: py, ..pre[store_index_of(pre, a.entity_id.0)] },
                    );
                }
                m.x = px;
                m.y = py;
            }
        }
        proof {
            assert(anims@.take(k + 1) =~= anims@.take(k as int).push(anims@[k as int]));
            lemma_apply_anims_push(old(aabbs)@, anims@.take(k as int), anims@[k as int]);
        }
        k = k + 1;
    }
    proof {
        assert(anims@.take(n as int) =~= anims@);
    }
}

/// The animation store after the sweep that deletes every entry whose timer
/// has reached its length.
pub open spec fn spec_remove_done(s: Seq<ComponentAnimTranslate>) -> Seq<ComponentAnimTranslate>
    decreases s.len(),
{
    if s.len() == 0 {
        s
    } else if s[0].anim_timer < s[0].anim_len {
        seq![s[0]] + spec_remove_done(s.drop_first())
    } else {
        spec_remove_done(s.drop_first())
    }
}

proof fn lemma_remove_done_push(s: Seq<ComponentAnimTranslate>, a: ComponentAnimTranslate)
    ensures
        spec_remove_done(s.push(a)) == if a.anim_timer < a.anim_len {
            spec_remove_done(s) + seq![a]
        } else {
            spec_remove_done(s)
        },
    decreases s.len(),
{
    if s.len() == 0 {
        assert(s.push(a).drop_first() =~= s);
        assert(s.push(a)[0] == a);
        if a.anim_timer < a.anim_len {
            assert(seq![a] + spec_remove_done(s) =~= spec_remove_done(s) + seq![a]);
        }
    } else {
        assert(s.push(a)[0] == s[0]);
        assert(s.push(a).drop_first() =~= s.drop_first().push(a));
        lemma_remove_done_push(s.drop_first(), a);
        if s[0].anim_timer < s[0].anim_len && a.anim_timer < a.anim_len {
            assert(seq![s[0]] + (spec_remove_done(s.drop_first()) + seq![a]) =~= (seq![s[0]]
                + spec_remove_done(s.drop_first())) + seq![a]);
        }
    }
}

/// Deletes every entry whose timer has reached its length.
fn sweep_done(anims: &mut ComponentList<ComponentAnimTranslate>)
    requires
        old(anims).wf(),
    ensures
        final(anims).wf(),
        final(anims)@ == spec_remove_done(old(anims)@),
{
    let mut i: usize = 0;
    let ghost mut j: int = 0;
    while i < anims.len()
        invariant
            anims.wf(),
            0 <= j <= old(anims)@.len(),
            i == spec_remove_done(old(anims)@.take(j)).len(),
            anims@ == spec_remove_done(old(anims)@.take(j)) + old(anims)@.skip(j),
        decreases old(anims)@.len() - j,
    {
        let a = *anims.get(i);
        proof {
            assert(anims@[i as int] == old(anims)@.skip(j)[0]);
            assert(old(anims)@.skip(j)[0] == old(anims)@[j]);
            assert(old(anims)@.take(j + 1) =~= old(anims)@.take(j).push(old(anims)@[j]));
            lemma_remove_done_push(old(anims)@.take(j), old(anims)@[j]);
        }
        if a.anim_timer >= a.anim_len {
            anims.remove(i);
            proof {
                assert(anims@ =~= spec_remove_done(old(anims)@.take(j + 1)) + old(anims)@.skip(
                    j + 1,
                ));
            }
        } else {
            i = i + 1;
            proof {
                assert(anims@ =~= spec_remove_done(old(anims)@.take(j + 1)) + old(anims)@.skip(
                    j + 1,
                ));
            }
        }
        proof {
            j = j + 1;
        }
    }
    proof {
        assert(old(anims)@.take(j) =~= old(anims)@);
        assert(anims@ =~= spec_remove_done(old(anims)@));
    }
}

/// One frame of the animation system on one layer: timers advanced by `ms`,
/// positions written, completed entries deleted; `l1` is the layer
/// afterwards. Everything else in the layer is untouched, and nested layers
/// are related the same way.
pub open spec fn layer_animated(l0: Layer, l1: Layer, ms: int) -> bool
    decreases l0,
{
    let adv = l0.component_anim_translate@.map_values(
        |a: ComponentAnimTranslate| spec_advanced_anim(a, ms),
    );
    &&& l1.component_aabb@ == spec_apply_anims(l0.component_aabb@, adv)
    &&& l1.component_anim_translate@ == spec_remove_done(adv)
    &&& l1.component_debug_draw == l0.component_debug_draw
    &&& l1.component_container == l0.component_container
    &&& l1.component_trigger == l0.component_trigger
    &&& l1.component_touch_scroll == l0.component_touch_scroll
    &&& l1.component_scroll_snap == l0.component_scroll_snap
    &&& l1.entity_id == l0.entity_id
    &&& l1.component_layer@.len() == l0.component_layer@.len()
    &&& forall|i: int|
        #![trigger l0.component_layer@[i]]
        0 <= i < l0.component_layer@.len() ==> layer_animated(
            l0.component_layer@[i],
            l1.component_layer@[i],
            ms,
        )
}

/// Runs one frame of the animation system on a layer and, depth first, on
/// its nested layers.
fn animate_layer(layer: &mut Layer, ms: u64)
    requires
        old(layer).wf(),
        layer_anims_ok(*old(layer)),
    ensures
        final(layer).wf(),
        layer_anims_ok(*final(layer)),
        layer_animated(*old(layer), *final(layer), ms as int),
    decreases *old(layer),
{
    advance_timers(&mut layer.component_anim_translate, ms);
    apply_anim_positions(&mut layer.component_aabb, &layer.component_anim_translate);
    sweep_done(&mut layer.component_anim_translate);
    proof {
        assert(anim_entries_valid(layer.component_anim_translate@)) by {
            let adv = old(layer).component_anim_translate@.map_values(
                |a: ComponentAnimTranslate| spec_advanced_anim(a, ms as int),
            );
            lemma_remove_done_valid(adv);
        }
    }
    let n = layer.component_layer.len();
    let mut k: usize = 0;
    while k < n
        invariant
            n == layer.component_layer@.len() == old(layer).component_layer@.len(),
            k <= n,
            layer.component_aabb@ == spec_apply_anims(
                old(layer).component_aabb@,
                old(layer).component_anim_translate@.map_values(
                    |a: ComponentAnimTranslate| spec_advanced_anim(a, ms as int),
                ),
            ),
            layer.component_anim_translate@ == spec_remove_done(
                old(layer).component_anim_translate@.map_values(
                    |a: ComponentAnimTranslate| spec_advanced_anim(a, ms as int),
                ),
            ),
            layer.component_aabb.wf(),
            layer.component_anim_translate.wf(),
            anim_entries_valid(layer.component_anim_translate@),
            layer.component_debug_draw == old(layer).component_debug_draw,
            layer.component_container == old(layer).component_container,
            layer.component_trigger == old(layer).component_trigger,
            layer.component_touch_scroll == old(layer).component_touch_scroll,
            layer.component_scroll_snap == old(layer).component_scroll_snap,
            layer.entity_id == old(layer).entity_id,
            old(layer).wf(),
            layer_anims_ok(*old(layer)),
            forall|i: int|
                k <= i < n ==> layer.component_layer@[i] == #[trigger] old(
                    layer,
                ).component_layer@[i],
            forall|i: int|
                0 <= i < k ==> {
                    &&& (#[trigger] layer.component_layer@[i]).wf()
                    &&& layer_anims_ok(layer.component_layer@[i])
                    &&& layer_animated(
                        old(layer).component_layer@[i],
                        layer.component_layer@[i],
                        ms as int,
                    )
                },
        decreases n - k,
    {
        proof {
            assert(old(layer).wf());
            assert(0 <= k < old(layer).component_layer@.len());
            assert(old(layer).component_layer@[k as int].wf());
            assert(layer_anims_ok(old(layer).component_layer@[k as int]));
            assert(decreases_to!(*old(layer) => old(layer).component_layer));
            assert(decreases_to!(old(layer).component_layer => old(
                layer,
            ).component_layer[k as int]));
        }
        animate_layer(&mut layer.component_layer[k], ms);
        k = k + 1;
    }
}

/// Deleting completed entries keeps the remaining entries valid.
proof fn lemma_remove_done_valid(s: Seq<ComponentAnimTranslate>)
    requires
        anim_entries_valid(s),
    ensures
        anim_entries_valid(spec_remove_done(s)),
    decreases s.len(),
{
    if s.len() > 0 {
        lemma_remove_done_valid(s.drop_first());
    }
}

/// Processes one frame of every translate animation in the view: advances
/// timers by the frame delta (in nanoseconds, divided down to milliseconds),
/// writes interpolated positions, and deletes completed entries.
pub fn process_animations(view: &mut UiView, frame_delta: u64)
    requires
        old(view).wf(),
        forall|i: int|
            0 <= i < old(view).layers@.len() ==> layer_anims_ok(
                #[trigger] old(view).layers@[i],
            ),
    ensures
        final(view).wf(),
        final(view).layers@.len() == old(view).layers@.len(),
        forall|i: int|
            0 <= i < old(view).layers@.len() ==> {
                &&& layer_anims_ok(#[trigger] final(view).layers@[i])
                &&& layer_animated(
                    old(view).layers@[i],
                    final(view).layers@[i],
                    frame_delta as int / 1000000,
                )
            },
{
    let ms: u64 = frame_delta / 1000000;
    let n = view.layers.len();
    let mut k: usize = 0;
    while k < n
        invariant
            n == view.layers@.len() == old(view).layers@.len(),
            k <= n,
            ms == frame_delta as int / 1000000,
            forall|i: int|
                k <= i < n ==> view.layers@[i] == #[trigger] old(view).layers@[i],
            forall|i: int|
                0 <= i < old(view).layers@.len() ==> (#[trigger] old(view).layers@[i]).wf()
                    && layer_anims_ok(old(view).layers@[i]),
            forall|i: int|
                0 <= i < k ==> {
                    &&& (#[trigger] view.layers@[i]).wf()
                    &&& layer_anims_ok(view.layers@[i])
                    &&& layer_animated(old(view).layers@[i], view.layers@[i], ms as int)
                },
        decreases n - k,
    {
        proof {
            assert(old(view).layers@[k as int].wf());
            assert(layer_anims_ok(old(view).layers@[k as int]));
        }
        animate_layer(&mut view.layers[k], ms);
        k = k + 1;
    }
}

} // verus!

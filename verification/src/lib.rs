//! Data and layout core of a retained-mode UI toolkit.
//!
//! The crate stores per-entity UI components in sorted stores, validates a
//! parent/child container hierarchy, lays out container children from layout
//! rules, advances translate animations, and resolves finger-drag scrolling
//! against the hierarchy. Rendering, windowing, input polling and platform
//! logging are external collaborators: they hand this crate plain values
//! (frame deltas, touch events) and read plain values back (drawable boxes).

pub mod animation;
pub mod color;
pub mod component_list;
pub mod components;
pub mod entity;
pub mod input;
pub mod layout;
pub mod layout_engine;
pub mod logger;
pub mod render;
pub mod scroll_behaviour;
pub mod tree;
pub mod view;

use vstd::prelude::*;
use crate::input::{InputState, TouchEvent};
use crate::logger::Diagnostic;
use crate::view::UiView;

verus! {

/// Squared Euclidean distance between two points, as a wide integer.
///
/// Squared distance is used to compare candidate snap points without taking
/// a square root per candidate.
pub open spec fn spec_sq_distance(p0: (i32, i32), p1: (i32, i32)) -> int {
    (p1.0 - p0.0) * (p1.0 - p0.0) + (p1.1 - p0.1) * (p1.1 - p0.1)
}

/// Get the square distance between 2 points.
pub fn sq_distance(p0: (i32, i32), p1: (i32, i32)) -> (r: i128)
    ensures
        r == spec_sq_distance(p0, p1),
{
    let dx: i128 = p1.0 as i128 - p0.0 as i128;
    let dy: i128 = p1.1 as i128 - p0.1 as i128;
    proof {
        assert(0 <= dx * dx <= 4294967296i128 * 4294967296i128) by (nonlinear_arith)
            requires -4294967296i128 <= dx <= 4294967296i128;
        assert(0 <= dy * dy <= 4294967296i128 * 4294967296i128) by (nonlinear_arith)
            requires -4294967296i128 <= dy <= 4294967296i128;
    }
    dx * dx + dy * dy
}

/// The four stages of one frame, with the in-between view states named:
/// `v1`/`s1` after the touch events were processed in order, `v2` after
/// scroll resolution, `v3` after the animation frame, and `vf`/`sf`/`diags`
/// what the frame hands back after the layout pass.
pub open spec fn frame_steps(
    v0: UiView,
    s0: InputState,
    v1: UiView,
    s1: InputState,
    v2: UiView,
    v3: UiView,
    vf: UiView,
    sf: InputState,
    events: Seq<TouchEvent>,
    frame_delta: u64,
    diags: Seq<Diagnostic>,
) -> bool {
    &&& crate::input::events_processed(v0, s0, v1, s1, events)
    &&& sf == s1
    &&& v2.layers@.len() == v1.layers@.len()
    &&& (forall|i: int|
        0 <= i < v1.layers@.len() ==> crate::input::scroll_related(
            #[trigger] v1.layers@[i],
            v2.layers@[i],
            s1.fingers@,
        ))
    &&& v3.layers@.len() == v2.layers@.len()
    &&& (forall|i: int|
        0 <= i < v2.layers@.len() ==> crate::animation::layer_animated(
            #[trigger] v2.layers@[i],
            v3.layers@[i],
            frame_delta as int / 1000000,
        ))
    &&& vf.layers@.len() == v3.layers@.len()
    &&& (forall|i: int|
        0 <= i < v3.layers@.len() ==> crate::layout_engine::layer_laid_out(
            #[trigger] v3.layers@[i],
            vf.layers@[i],
        ))
    &&& diags == crate::layout_engine::spec_view_diags(v3.layers@, v3.layers@.len() as int)
}

/// What one frame does: through some intermediate view states, the touch
/// events are processed in order, every layer is scrolled, animated, then
/// laid out, and the returned diagnostics are exactly the layout pass's.
pub open spec fn frame_related(
    v0: UiView,
    s0: InputState,
    vf: UiView,
    sf: InputState,
    events: Seq<TouchEvent>,
    frame_delta: u64,
    diags: Seq<Diagnostic>,
) -> bool {
    exists|v1: UiView, s1: InputState, v2: UiView, v3: UiView|
        #[trigger] frame_steps(v0, s0, v1, s1, v2, v3, vf, sf, events, frame_delta, diags)
}

/// Updates the engine by one frame. Call this in the program loop with the
/// elapsed time in nanoseconds and this frame's touch events:
/// input is processed first (tracks mutated, boxes scrolled, snap animations
/// enqueued), then animations advance and write positions, then layout
/// re-derives dependent boxes from the containers. The caller hands the
/// resulting boxes to its renderer.
pub fn update_frame(
    view: &mut UiView,
    input_state: &mut InputState,
    events: &Vec<TouchEvent>,
    frame_delta: u64,
) -> (diags: Vec<Diagnostic>)
    requires
        old(view).wf(),
        crate::input::view_anims_ok(*old(view)),
        old(input_state).wf(),
    ensures
        final(view).wf(),
        crate::input::view_anims_ok(*final(view)),
        final(input_state).wf(),
        frame_related(
            *old(view),
            *old(input_state),
            *final(view),
            *final(input_state),
            events@,
            frame_delta,
            diags@,
        ),
{
    let mut i: usize = 0;
    proof {
        assert(events@.take(0) =~= Seq::<TouchEvent>::empty());
    }
    while i < events.len()
        invariant
            view.wf(),
            crate::input::view_anims_ok(*view),
            input_state.wf(),
            i <= events@.len(),
            crate::input::events_processed(
                *old(view),
                *old(input_state),
                *view,
                *input_state,
                events@.take(i as int),
            ),
        decreases events@.len() - i,
    {
        let ghost pre_v = *view;
        let ghost pre_s = *input_state;
        crate::input::process_touch_event(view, input_state, events[i]);
        proof {
            crate::input::lemma_events_processed_push(
                *old(view),
                *old(input_state),
                pre_v,
                pre_s,
                *view,
                *input_state,
                events@.take(i as int),
                events@[i as int],
            );
            assert(events@.take(i + 1) =~= events@.take(i as int).push(events@[i as int]));
        }
        i = i + 1;
    }
    proof {
        assert(events@.take(events@.len() as int) =~= events@);
    }
    let ghost v1 = *view;
    let ghost s1 = *input_state;

    let ghost pre_scroll = *view;
    let _has_scrolled = crate::input::process_view_scroll(view, input_state);
    proof {
        assert forall|k: int|
            0 <= k < view.layers@.len() implies crate::animation::layer_anims_ok(
            #[trigger] view.layers@[k],
        ) by {
            crate::input::lemma_scroll_preserves_anims_ok(
                pre_scroll.layers@[k],
                view.layers@[k],
                input_state.fingers@,
            );
        }
    }

    let ghost v2 = *view;

    crate::animation::process_animations(view, frame_delta);
    let ghost v3 = *view;

    let ghost pre_layout = *view;
    let diags = crate::layout_engine::layout_view(view);
    proof {
        assert forall|k: int|
            0 <= k < view.layers@.len() implies crate::animation::layer_anims_ok(
            #[trigger] view.layers@[k],
        ) by {
            crate::layout_engine::lemma_layout_preserves_anims_ok(
                pre_layout.layers@[k],
                view.layers@[k],
            );
        }
        assert(frame_steps(
            *old(view),
            *old(input_state),
            v1,
            s1,
            v2,
            v3,
            *view,
            *input_state,
            events@,
            frame_delta,
            diags@,
        ));
    }
    diags
}

} // verus!

//! What the core hands a renderer: drawable rectangles with color, and clip
//! rectangles for nested layers.
//!
//! The renderer itself (draw-call submission, shaders, windowing) is an
//! external collaborator; it reads these plain values and submits geometry.

use vstd::prelude::*;
use crate::color::Rgb;
use crate::component_list::spec_lookup;
use crate::components::{ComponentAABB, ComponentDebugDraw};
use crate::view::Layer;

verus! {

/// One rectangle for the renderer: an entity's box and its debug-draw color
/// (drawn translucently over everything else).
#[derive(Clone, Copy, PartialEq, Eq, Structural, Debug)]
pub struct DrawRect {
    pub x: i32,
    pub y: i32,
    pub w: i32,
    pub h: i32,
    pub color: Rgb,
}

/// The rectangles a layer yields: each debug-draw component paired with its
/// entity's box, in store order; an entity with one but not the other is
/// skipped.
pub open spec fn spec_drawables(
    dd: Seq<ComponentDebugDraw>,
    ab: Seq<ComponentAABB>,
) -> Seq<DrawRect>
    decreases dd.len(),
{
    if dd.len() == 0 {
        Seq::empty()
    } else {
        let rest = spec_drawables(dd.drop_first(), ab);
        match spec_lookup(ab, dd[0].entity_id.0) {
            None => rest,
            Some(a) => seq![DrawRect { x: a.x, y: a.y, w: a.w, h: a.h, color: dd[0].color }]
                + rest,
        }
    }
}

/// Derives the flat list of (rectangle, color) pairs of one layer for the
/// renderer: every debug-draw component whose entity has a box, in store
/// order.
pub fn drawable_rects(layer: &Layer) -> (r: Vec<DrawRect>)
    requires
        layer.wf(),
    ensures
        r@ == spec_drawables(layer.component_debug_draw@, layer.component_aabb@),
{
    let ghost dd = layer.component_debug_draw@;
    let ghost ab = layer.component_aabb@;
    let mut r: Vec<DrawRect> = Vec::new();
    let n = layer.component_debug_draw.len();
    let mut i: usize = 0;
    proof {
        assert(dd.skip(0) =~= dd);
    }
    while i < n
        invariant
            layer.wf(),
            dd == layer.component_debug_draw@,
            ab == layer.component_aabb@,
            i <= n == dd.len(),
            r@ + spec_drawables(dd.skip(i as int), ab) == spec_drawables(dd, ab),
        decreases n - i,
    {
        proof {
            assert(dd.skip(i as int)[0] == dd[i as int]);
            assert(dd.skip(i as int).drop_first() =~= dd.skip(i + 1));
        }
        let d = *layer.component_debug_draw.get(i);
        match layer.component_aabb.get_component(d.entity_id) {
            None => {}
            Some(a) => {
                let rect = DrawRect { x: a.x, y: a.y, w: a.w, h: a.h, color: d.color };
                let ghost pre = r@;
                r.push(rect);
                proof {
                    assert(pre + (seq![rect] + spec_drawables(dd.skip(i + 1), ab)) =~= r@
                        + spec_drawables(dd.skip(i + 1), ab));
                }
            }
        }
        i = i + 1;
    }
    proof {
        assert(dd.skip(n as int) =~= Seq::<ComponentDebugDraw>::empty());
        assert(r@ + Seq::<DrawRect>::empty() =~= r@);
    }
    r
}

/// A clip rectangle in device pixels, origin at the bottom left.
#[derive(Clone, Copy, PartialEq, Eq, Structural, Debug)]
pub struct ClipRect {
    pub left: u32,
    pub bottom: u32,
    pub width: u32,
    pub height: u32,
}

impl ClipRect {
    /// The whole view, for layers with no enclosing clip.
    pub fn full(view_w: u32, view_h: u32) -> (r: ClipRect)
        ensures
            r == (ClipRect { left: 0u32, bottom: 0u32, width: view_w, height: view_h }),
    {
        ClipRect { left: 0, bottom: 0, width: view_w, height: view_h }
    }
}

/// An integer clamped into the `u32` range.
pub open spec fn sat_u32(v: int) -> int {
    if v < 0 {
        0
    } else if v > 0xffffffff {
        0xffffffff
    } else {
        v
    }
}

/// The clip rectangle of a nested layer whose owning entity has box `a`,
/// inside the parent clip `parent`, for a view of `view_w` by `view_h`
/// pixels: the box scaled by the parent's size over the view's size and
/// offset by the parent's origin, with the vertical axis flipped to
/// bottom-left device coordinates. Every component is clamped to the pixel
/// range.
pub open spec fn spec_nested_clip(
    parent: ClipRect,
    view_w: u32,
    view_h: u32,
    a: ComponentAABB,
) -> ClipRect
    recommends
        view_w > 0,
        view_h > 0,
{
    let ax = sat_u32(a.x as int);
    let ayh = sat_u32(a.y + a.h);
    let aw = sat_u32(a.w as int);
    let ah = sat_u32(a.h as int);
    ClipRect {
        left: sat_u32(ax * parent.width / (view_w as int) + parent.left) as u32,
        bottom: sat_u32(
            parent.bottom + sat_u32(parent.height - ayh * parent.height / (view_h as int)),
        ) as u32,
        width: sat_u32(aw * parent.width / (view_w as int)) as u32,
        height: sat_u32(ah * parent.height / (view_h as int)) as u32,
    }
}

/// Clamps a pixel count into the `u32` range.
fn sat_u32_exec(v: i64) -> (r: u32)
    ensures
        r == sat_u32(v as int),
{
    if v < 0 {
        0
    } else if v > 0xffffffffi64 {
        0xffffffff
    } else {
        v as u32
    }
}

/// Scales one nonnegative pixel count by `num / den`.
fn scale_px(v: u32, num: u32, den: u32) -> (r: u64)
    requires
        den > 0,
    ensures
        r == v * num / (den as int),
        r <= v * num,
{
    proof {
        assert((v as int) * (num as int) < 0x10000000000000000) by (nonlinear_arith)
            requires 0 <= v < 0x100000000, 0 <= num < 0x100000000;
        assert((v as int) * (num as int) >= 0) by (nonlinear_arith)
            requires v >= 0, num >= 0;
        vstd::arithmetic::div_mod::lemma_div_is_ordered_by_denominator(
            (v as int) * (num as int),
            1,
            den as int,
        );
    }
    (v as u64) * (num as u64) / (den as u64)
}

/// Derives the clip rectangle the renderer must apply before drawing a
/// nested layer's contents (see `spec_nested_clip`).
pub fn nested_clip_rect(parent: ClipRect, view_w: u32, view_h: u32, a: &ComponentAABB) -> (r:
    ClipRect)
    requires
        view_w > 0,
        view_h > 0,
    ensures
        r == spec_nested_clip(parent, view_w, view_h, *a),
{
    let ax: u32 = sat_u32_exec(a.x as i64);
    let ayh: u32 = sat_u32_exec(a.y as i64 + a.h as i64);
    let aw: u32 = sat_u32_exec(a.w as i64);
    let ah: u32 = sat_u32_exec(a.h as i64);
    let left_px = scale_px(ax, parent.width, view_w);
    let bottom_inner = scale_px(ayh, parent.height, view_h);
    let width_px = scale_px(aw, parent.width, view_w);
    let height_px = scale_px(ah, parent.height, view_h);
    proof {
        assert((ax as int) * (parent.width as int) <= 0xffffffff * 0xffffffff) by (nonlinear_arith)
            requires 0 <= ax <= 0xffffffff, 0 <= parent.width <= 0xffffffff;
        assert((ayh as int) * (parent.height as int) <= 0xffffffff * 0xffffffff) by (nonlinear_arith)
            requires 0 <= ayh <= 0xffffffff, 0 <= parent.height <= 0xffffffff;
    }
    let left = if left_px + parent.left as u64 > 0xffffffffu64 {
        0xffffffffu32
    } else {
        (left_px + parent.left as u64) as u32
    };
    let inner = if bottom_inner > parent.height as u64 {
        0u32
    } else {
        (parent.height as u64 - bottom_inner) as u32
    };
    let bottom = if parent.bottom as u64 + inner as u64 > 0xffffffffu64 {
        0xffffffffu32
    } else {
        parent.bottom + inner
    };
    let width = if width_px > 0xffffffffu64 {
        0xffffffffu32
    } else {
        width_px as u32
    };
    let height = if height_px > 0xffffffffu64 {
        0xffffffffu32
    } else {
        height_px as u32
    };
    ClipRect { left, bottom, width, height }
}

} // verus!

//! Layout dispatch: sizes every container's named children from the
//! container's own box.
//!
//! Each pass rebuilds the hierarchy from the layer's container components
//! (it is not cached across frames, since other systems may add or remove
//! components at any time), then walks it in breadth-first (level) order, so
//! a parent's box is final before its children are sized. A malformed
//! hierarchy skips the whole layer's layout, leaving its boxes unchanged.

use vstd::prelude::*;
use crate::component_list::{
    lemma_sorted_update_same_id, spec_lookup, store_contains, store_index_of, ComponentList,
};
use crate::components::{ComponentAABB, ComponentContainer};
use crate::entity::{Component, EntityID};
use crate::layout::{copy_ids, Layout};
use crate::logger::Diagnostic;
use crate::tree::{spec_build, tree_parents_before, EntityTree, GNode};
use crate::view::{Layer, UiView};

verus! {

broadcast use vstd::seq::axiom_seq_index_decreases, vstd::std_specs::vec::axiom_vec_index_decreases;

/// An integer clamped into the `i32` range.
pub open spec fn sat32(v: int) -> int {
    if v < -0x80000000 {
        -0x80000000
    } else if v > 0x7fffffff {
        0x7fffffff
    } else {
        v
    }
}

/// Saturating addition on pixel coordinates.
pub fn sat_add(a: i32, b: i32) -> (r: i32)
    ensures
        r == sat32(a + b),
{
    let s: i64 = a as i64 + b as i64;
    if s < -0x80000000i64 {
        i32::MIN
    } else if s > 0x7fffffffi64 {
        i32::MAX
    } else {
        s as i32
    }
}

/// Saturating subtraction on pixel coordinates.
pub fn sat_sub(a: i32, b: i32) -> (r: i32)
    ensures
        r == sat32(a - b),
{
    let s: i64 = a as i64 - b as i64;
    if s < -0x80000000i64 {
        i32::MIN
    } else if s > 0x7fffffffi64 {
        i32::MAX
    } else {
        s as i32
    }
}

/// The AABB store after the box of `id` was set to the given values; a store
/// without a box for `id` is unchanged (the sizing step for that entity is
/// skipped).
pub open spec fn spec_set_box(
    s: Seq<ComponentAABB>,
    id: u16,
    x: int,
    y: int,
    w: int,
    h: int,
) -> Seq<ComponentAABB> {
    if store_contains(s, id) {
        let i = store_index_of(s, id);
        s.update(
            i,
            ComponentAABB {
                entity_id: s[i].entity_id,
                x: x as i32,
                y: y as i32,
                w: w as i32,
                h: h as i32,
            },
        )
    } else {
        s
    }
}

/// The AABB store after a vertical list stacked its items: each item with a
/// box gets the container's x and width, the running y, and the item height;
/// the running y advances by the item height for each item sized.
pub open spec fn spec_vlist(
    s: Seq<ComponentAABB>,
    items: Seq<EntityID>,
    cx: int,
    y: int,
    cw: int,
    ih: i32,
) -> Seq<ComponentAABB>
    decreases items.len(),
{
    if items.len() == 0 {
        s
    } else if store_contains(s, items[0].0) {
        spec_vlist(
            spec_set_box(s, items[0].0, cx, y, cw, ih as int),
            items.drop_first(),
            cx,
            sat32(y + ih),
            cw,
            ih,
        )
    } else {
        spec_vlist(s, items.drop_first(), cx, y, cw, ih)
    }
}

/// The AABB store after one container sized its children from its own box
/// `cb`:
/// - a header bar gives the header `(x, y, w, header_height)` and the body
///   `(x, y + header_height, w, h - header_height)`;
/// - a vertical split gives the left child `(x, y, split_pos, h)` and the
///   right child `(x + split_pos, y, w - split_pos, h)`;
/// - a vertical list stacks its items from `(x, y)` down.
/// A container without a box sizes nothing, and a child without a box is
/// skipped without error.
pub open spec fn spec_layout_container(
    s: Seq<ComponentAABB>,
    c: ComponentContainer,
) -> Seq<ComponentAABB> {
    match spec_lookup(s, c.entity_id.0) {
        None => s,
        Some(cb) => match c.layout {
            Layout::HeaderBar { entity_header, entity_body, header_height } => {
                let s1 = spec_set_box(
                    s,
                    entity_header.0,
                    cb.x as int,
                    cb.y as int,
                    cb.w as int,
                    header_height as int,
                );
                spec_set_box(
                    s1,
                    entity_body.0,
                    cb.x as int,
                    sat32(cb.y + header_height),
                    cb.w as int,
                    sat32(cb.h - header_height),
                )
            },
            Layout::VSplit { entity_l, entity_r, split_pos } => {
                let s1 = spec_set_box(
                    s,
                    entity_l.0,
                    cb.x as int,
                    cb.y as int,
                    split_pos as int,
                    cb.h as int,
                );
                spec_set_box(
                    s1,
                    entity_r.0,
                    sat32(cb.x + split_pos),
                    cb.y as int,
                    sat32(cb.w - split_pos),
                    cb.h as int,
                )
            },
            Layout::VList { entity_list, item_height } => spec_vlist(
                s,
                entity_list@,
                cb.x as int,
                cb.y as int,
                cb.w as int,
                item_height,
            ),
        },
    }
}

/// Layout changes box geometry only: the stores hold the same entities in
/// the same order afterwards.
pub open spec fn boxes_only_resized(s0: Seq<ComponentAABB>, s1: Seq<ComponentAABB>) -> bool {
    &&& s1.len() == s0.len()
    &&& forall|i: int| 0 <= i < s0.len() ==> (#[trigger] s1[i]).entity_id == s0[i].entity_id
}

proof fn lemma_resized_trans(s0: Seq<ComponentAABB>, s1: Seq<ComponentAABB>, s2: Seq<ComponentAABB>)
    requires
        boxes_only_resized(s0, s1),
        boxes_only_resized(s1, s2),
    ensures
        boxes_only_resized(s0, s2),
{
}

proof fn lemma_set_box_resized(s: Seq<ComponentAABB>, id: u16, x: int, y: int, w: int, h: int)
    ensures
        boxes_only_resized(s, spec_set_box(s, id, x, y, w, h)),
{
}

proof fn lemma_vlist_resized(
    s: Seq<ComponentAABB>,
    items: Seq<EntityID>,
    cx: int,
    y: int,
    cw: int,
    ih: i32,
)
    ensures
        boxes_only_resized(s, spec_vlist(s, items, cx, y, cw, ih)),
    decreases items.len(),
{
    if items.len() > 0 {
        if store_contains(s, items[0].0) {
            let s1 = spec_set_box(s, items[0].0, cx, y, cw, ih as int);
            lemma_set_box_resized(s, items[0].0, cx, y, cw, ih as int);
            lemma_vlist_resized(s1, items.drop_first(), cx, sat32(y + ih), cw, ih);
            lemma_resized_trans(s, s1, spec_vlist(s1, items.drop_first(), cx, sat32(y + ih), cw, ih));
        } else {
            lemma_vlist_resized(s, items.drop_first(), cx, y, cw, ih);
        }
    }
}

/// One container's layout step changes box geometry only.
pub proof fn lemma_layout_container_resized(s: Seq<ComponentAABB>, c: ComponentContainer)
    ensures
        boxes_only_resized(s, spec_layout_container(s, c)),
{
    match spec_lookup(s, c.entity_id.0) {
        None => {}
        Some(cb) => match c.layout {
            Layout::HeaderBar { entity_header, entity_body, header_height } => {
                let s1 = spec_set_box(
                    s,
                    entity_header.0,
                    cb.x as int,
                    cb.y as int,
                    cb.w as int,
                    header_height as int,
                );
                lemma_set_box_resized(
                    s,
                    entity_header.0,
                    cb.x as int,
                    cb.y as int,
                    cb.w as int,
                    header_height as int,
                );
                lemma_set_box_resized(
                    s1,
                    entity_body.0,
                    cb.x as int,
                    sat32(cb.y + header_height),
                    cb.w as int,
                    sat32(cb.h - header_height),
                );
            },
            Layout::VSplit { entity_l, entity_r, split_pos } => {
                let s1 = spec_set_box(
                    s,
                    entity_l.0,
                    cb.x as int,
                    cb.y as int,
                    split_pos as int,
                    cb.h as int,
                );
                lemma_set_box_resized(
                    s,
                    entity_l.0,
                    cb.x as int,
                    cb.y as int,
                    split_pos as int,
                    cb.h as int,
                );
                lemma_set_box_resized(
                    s1,
                    entity_r.0,
                    sat32(cb.x + split_pos),
                    cb.y as int,
                    sat32(cb.w - split_pos),
                    cb.h as int,
                );
            },
            Layout::VList { entity_list, item_height } => {
                lemma_vlist_resized(
                    s,
                    entity_list@,
                    cb.x as int,
                    cb.y as int,
                    cb.w as int,
                    item_height,
                );
            },
        },
    }
}

/// Sets the box of `id` to the given values, if the entity has one.
fn set_box(aabbs: &mut ComponentList<ComponentAABB>, id: EntityID, x: i32, y: i32, w: i32, h: i32)
    requires
        old(aabbs).wf(),
    ensures
        final(aabbs).wf(),
        final(aabbs)@ == spec_set_box(old(aabbs)@, id.0, x as int, y as int, w as int, h as int),
{
    let ghost pre = aabbs@;
    match aabbs.get_component_mut(id) {
        None => {}
        Some(m) => {
            proof {
                lemma_sorted_update_same_id(
                    pre,
                    store_index_of(pre, id.0),
                    ComponentAABB { entity_id: pre[store_index_of(pre, id.0)].entity_id, x, y, w, h },
                );
            }
            m.x = x;
            m.y = y;
            m.w = w;
            m.h = h;
        }
    }
}

/// Sizes one container's named children from the container's own current
/// box, dispatching on the container's layout rule.
pub fn layout_component(aabbs: &mut ComponentList<ComponentAABB>, container: &ComponentContainer)
    requires
        old(aabbs).wf(),
    ensures
        final(aabbs).wf(),
        final(aabbs)@ == spec_layout_container(old(aabbs)@, *container),
{
    // Copy the container's own box out of the store before mutating other
    // entries of the same store.
    let cb: ComponentAABB = match aabbs.get_component(container.entity_id) {
        None => {
            return ;
        }
        Some(c) => *c,
    };
    match &container.layout {
        Layout::HeaderBar { entity_header, entity_body, header_height } => {
            let hh = *header_height;
            set_box(aabbs, *entity_header, cb.x, cb.y, cb.w, hh);
            set_box(aabbs, *entity_body, cb.x, sat_add(cb.y, hh), cb.w, sat_sub(cb.h, hh));
        }
        Layout::VSplit { entity_l, entity_r, split_pos } => {
            let sp = *split_pos;
            set_box(aabbs, *entity_l, cb.x, cb.y, sp, cb.h);
            set_box(aabbs, *entity_r, sat_add(cb.x, sp), cb.y, sat_sub(cb.w, sp), cb.h);
        }
        Layout::VList { entity_list, item_height } => {
            let items = copy_ids(entity_list);
            let ih = *item_height;
            let m = items.len();
            let mut cur_y: i32 = cb.y;
            let mut i: usize = 0;
            proof {
                assert(items@.skip(0) =~= items@);
            }
            while i < m
                invariant
                    aabbs.wf(),
                    m == items@.len(),
                    i <= m,
                    spec_vlist(aabbs@, items@.skip(i as int), cb.x as int, cur_y as int, cb.w as int, ih)
                        == spec_vlist(
                        old(aabbs)@,
                        items@,
                        cb.x as int,
                        cb.y as int,
                        cb.w as int,
                        ih,
                    ),
                decreases m - i,
            {
                let ghost pre = aabbs@;
                proof {
                    assert(items@.skip(i as int)[0] == items@[i as int]);
                    assert(items@.skip(i as int).drop_first() =~= items@.skip(i + 1));
                }
                match aabbs.get_component_index(items[i]) {
                    None => {
                        proof {
                            assert(!store_contains(pre, items@[i as int].0));
                        }
                    }
                    Some(_) => {
                        proof {
                            assert(store_contains(pre, items@[i as int].0));
                        }
                        set_box(aabbs, items[i], cb.x, cur_y, cb.w, ih);
                        cur_y = sat_add(cur_y, ih);
                    }
                }
                i = i + 1;
            }
            proof {
                assert(items@.skip(m as int) =~= Seq::<EntityID>::empty());
            }
        }
    }
}

/// The depth of a node: how many parent links lead from it to its root.
/// Parents come before their children in the node array, so the recursion
/// follows strictly decreasing indices.
pub open spec fn depth_of(nodes: Seq<GNode>, i: int) -> nat
    decreases i,
{
    if i < 0 || i >= nodes.len() {
        0
    } else {
        match nodes[i].parent {
            None => 0,
            Some(p) => if 0 <= p < i {
                depth_of(nodes, p) + 1
            } else {
                0
            },
        }
    }
}

/// The values of the nodes at depth `d` among the first `k` nodes, in index
/// order.
pub open spec fn level_upto(nodes: Seq<GNode>, d: nat, k: nat) -> Seq<u16>
    decreases k,
{
    if k == 0 || k > nodes.len() {
        Seq::empty()
    } else if depth_of(nodes, k - 1) == d {
        level_upto(nodes, d, (k - 1) as nat).push(nodes[k - 1].value)
    } else {
        level_upto(nodes, d, (k - 1) as nat)
    }
}

/// The values of the first `d` levels, level by level, each level in index
/// order.
pub open spec fn order_upto(nodes: Seq<GNode>, d: nat) -> Seq<u16>
    decreases d,
{
    if d == 0 {
        Seq::empty()
    } else {
        order_upto(nodes, (d - 1) as nat) + level_upto(nodes, (d - 1) as nat, nodes.len())
    }
}

/// The breadth-first processing order of a layout pass: the tree's node
/// values level by level. A node's depth stays below the node count, so as
/// many levels as there are nodes cover the whole tree.
pub open spec fn spec_bfs_order(nodes: Seq<GNode>) -> Seq<u16> {
    order_upto(nodes, nodes.len())
}

/// The AABB store after the containers owned by `order` each sized their
/// children, in that order; an id without a container component is skipped.
pub open spec fn spec_apply_layouts(
    s: Seq<ComponentAABB>,
    containers: Seq<ComponentContainer>,
    order: Seq<u16>,
) -> Seq<ComponentAABB>
    decreases order.len(),
{
    if order.len() == 0 {
        s
    } else {
        let s1 = match spec_lookup(containers, order[0]) {
            None => s,
            Some(c) => spec_layout_container(s, c),
        };
        spec_apply_layouts(s1, containers, order.drop_first())
    }
}

proof fn lemma_apply_layouts_concat(
    s: Seq<ComponentAABB>,
    cs: Seq<ComponentContainer>,
    o1: Seq<u16>,
    o2: Seq<u16>,
)
    ensures
        spec_apply_layouts(s, cs, o1 + o2) == spec_apply_layouts(
            spec_apply_layouts(s, cs, o1),
            cs,
            o2,
        ),
    decreases o1.len(),
{
    if o1.len() == 0 {
        assert(o1 + o2 =~= o2);
    } else {
        assert((o1 + o2)[0] == o1[0]);
        assert((o1 + o2).drop_first() =~= o1.drop_first() + o2);
        let s1 = match spec_lookup(cs, o1[0]) {
            None => s,
            Some(c) => spec_layout_container(s, c),
        };
        lemma_apply_layouts_concat(s1, cs, o1.drop_first(), o2);
    }
}

/// What one layout pass does to a layer, exactly. A malformed hierarchy
/// leaves the layer untouched. Otherwise the layer's boxes become the
/// breadth-first fold of every container's layout step, everything else in
/// the layer is untouched, and each nested layer whose owning entity then
/// has a box is laid out the same way (one without is skipped).
pub open spec fn layer_laid_out(l0: Layer, l1: Layer) -> bool
    decreases l0,
{
    match spec_build(l0.component_container@) {
        None => l1 == l0,
        Some(nodes) => {
            let ab1 = spec_apply_layouts(
                l0.component_aabb@,
                l0.component_container@,
                spec_bfs_order(nodes),
            );
            &&& l1.component_aabb@ == ab1
            &&& l1.component_debug_draw == l0.component_debug_draw
            &&& l1.component_container == l0.component_container
            &&& l1.component_trigger == l0.component_trigger
            &&& l1.component_touch_scroll == l0.component_touch_scroll
            &&& l1.component_anim_translate == l0.component_anim_translate
            &&& l1.component_scroll_snap == l0.component_scroll_snap
            &&& l1.entity_id == l0.entity_id
            &&& l1.component_layer@.len() == l0.component_layer@.len()
            &&& forall|j: int|
                #![trigger l0.component_layer@[j]]
                0 <= j < l0.component_layer@.len() ==> {
                    let child = l0.component_layer@[j];
                    match child.entity_id {
                        Some(e) => if store_contains(ab1, e.0) {
                            layer_laid_out(child, l1.component_layer@[j])
                        } else {
                            l1.component_layer@[j] == child
                        },
                        None => l1.component_layer@[j] == child,
                    }
                }
        },
    }
}

/// The diagnostics one layout pass on a layer emits, in order. A malformed
/// hierarchy yields exactly the malformed report and nothing else. Otherwise
/// each nested layer contributes, in list order: nothing when it has no
/// owning entity; the missing-box report when its owner has no box after
/// this layer's pass; or, recursively, its own pass's diagnostics.
pub open spec fn spec_layout_diags(l0: Layer) -> Seq<Diagnostic>
    decreases l0, l0.component_layer@.len() + 1,
{
    match spec_build(l0.component_container@) {
        None => seq![Diagnostic::HierarchyMalformed],
        Some(nodes) => spec_nested_diags(
            l0,
            spec_apply_layouts(
                l0.component_aabb@,
                l0.component_container@,
                spec_bfs_order(nodes),
            ),
            l0.component_layer@.len() as int,
        ),
    }
}

/// The diagnostics of the first `j` nested layers of `l0`, after its own
/// boxes became `ab1`.
pub open spec fn spec_nested_diags(l0: Layer, ab1: Seq<ComponentAABB>, j: int) -> Seq<Diagnostic>
    decreases l0, j,
{
    if j <= 0 || j > l0.component_layer@.len() {
        Seq::empty()
    } else {
        let child = l0.component_layer@[j - 1];
        spec_nested_diags(l0, ab1, j - 1) + match child.entity_id {
            None => Seq::<Diagnostic>::empty(),
            Some(e) => if store_contains(ab1, e.0) {
                spec_layout_diags(child)
            } else {
                seq![Diagnostic::NestedLayerMissingAabb(e)]
            },
        }
    }
}

/// The diagnostics of a whole view's layout pass: each layer's, in layer
/// order (the first `k` layers).
pub open spec fn spec_view_diags(ls: Seq<Layer>, k: int) -> Seq<Diagnostic>
    decreases k,
{
    if k <= 0 || k > ls.len() {
        Seq::empty()
    } else {
        spec_view_diags(ls, k - 1) + spec_layout_diags(ls[k - 1])
    }
}

/// How the layout pass relates a layer to itself afterwards: only box
/// geometry changed — the stores hold the same entities in the same order,
/// every other store is untouched, and nested layers are related the same
/// way.
pub open spec fn layout_related(l0: Layer, l1: Layer) -> bool
    decreases l0,
{
    &&& boxes_only_resized(l0.component_aabb@, l1.component_aabb@)
    &&& l1.component_debug_draw == l0.component_debug_draw
    &&& l1.component_container == l0.component_container
    &&& l1.component_trigger == l0.component_trigger
    &&& l1.component_touch_scroll == l0.component_touch_scroll
    &&& l1.component_anim_translate == l0.component_anim_translate
    &&& l1.component_scroll_snap == l0.component_scroll_snap
    &&& l1.entity_id == l0.entity_id
    &&& l1.component_layer@.len() == l0.component_layer@.len()
    &&& forall|i: int|
        #![trigger l0.component_layer@[i]]
        0 <= i < l0.component_layer@.len() ==> layout_related(
            l0.component_layer@[i],
            l1.component_layer@[i],
        )
}

/// An unchanged layer is related to itself.
pub proof fn lemma_layout_related_refl(l: Layer)
    ensures
        layout_related(l, l),
    decreases l,
{
    assert forall|i: int| 0 <= i < l.component_layer@.len() implies layout_related(
        #[trigger] l.component_layer@[i],
        l.component_layer@[i],
    ) by {
        lemma_layout_related_refl(l.component_layer@[i]);
    }
}

/// Lays out one layer: rebuilds the container hierarchy, sizes every
/// container's children in breadth-first order, then recurses into each
/// nested layer whose owning entity has a box. Returns whether this layer's
/// hierarchy was valid; a malformed hierarchy leaves the layer unchanged
/// (prior boxes retained) and records a diagnostic. Diagnostics are only
/// appended, never dropped.
pub fn layout_layer(layer: &mut Layer, diags: &mut Vec<Diagnostic>) -> (ok: bool)
    requires
        old(layer).wf(),
    ensures
        final(layer).wf(),
        ok == (spec_build(old(layer).component_container@) is Some),
        !ok ==> *final(layer) == *old(layer),
        final(diags)@ == old(diags)@ + spec_layout_diags(*old(layer)),
        ok ==> final(layer).component_aabb@ == spec_apply_layouts(
            old(layer).component_aabb@,
            old(layer).component_container@,
            spec_bfs_order(spec_build(old(layer).component_container@).unwrap()),
        ),
        layer_laid_out(*old(layer), *final(layer)),
        layout_related(*old(layer), *final(layer)),
    decreases *old(layer),
{
    let tree = match EntityTree::new_from_layer(layer) {
        None => {
            diags.push(Diagnostic::HierarchyMalformed);
            proof {
                lemma_layout_related_refl(*layer);
                assert(diags@ =~= old(diags)@ + spec_layout_diags(*old(layer)));
            }
            return false;
        }
        Some(t) => t,
    };
    let ghost aabb0 = old(layer).component_aabb@;
    let ghost cs0 = old(layer).component_container@;

    // Depth of each node; parents were built before their children, so a
    // parent's depth is ready when its child needs it.
    let n = tree.len();
    let mut depth: Vec<usize> = Vec::new();
    let mut i: usize = 0;
    while i < n
        invariant
            n == tree@.len(),
            crate::tree::tree_parents_before(tree@),
            i <= n,
            depth@.len() == i,
            forall|j: int| 0 <= j < i ==> #[trigger] depth@[j] <= j,
            forall|j: int| 0 <= j < i ==> #[trigger] depth@[j] == depth_of(tree@, j),
        decreases n - i,
    {
        match tree.get_node(i).parent {
            None => depth.push(0),
            Some(p) => {
                let dp = depth[p];
                depth.push(dp + 1);
            }
        }
        i = i + 1;
    }

    // Breadth-first: level d before level d + 1, so a parent's box is final
    // before its children are sized.
    let mut d: usize = 0;
    proof {
        assert(layer.component_aabb@ == spec_apply_layouts(aabb0, cs0, order_upto(tree@, 0)));
    }
    while d < n
        invariant
            n == tree@.len() == depth@.len(),
            d <= n,
            aabb0 == old(layer).component_aabb@,
            cs0 == old(layer).component_container@,
            forall|j: int| 0 <= j < n ==> #[trigger] depth@[j] == depth_of(tree@, j),
            layer.component_aabb@ == spec_apply_layouts(aabb0, cs0, order_upto(tree@, d as nat)),
            layer.component_aabb.wf(),
            layer.component_container.wf(),
            boxes_only_resized(old(layer).component_aabb@, layer.component_aabb@),
            layer.component_debug_draw == old(layer).component_debug_draw,
            layer.component_container == old(layer).component_container,
            layer.component_trigger == old(layer).component_trigger,
            layer.component_touch_scroll == old(layer).component_touch_scroll,
            layer.component_anim_translate == old(layer).component_anim_translate,
            layer.component_scroll_snap == old(layer).component_scroll_snap,
            layer.entity_id == old(layer).entity_id,
            layer.component_layer == old(layer).component_layer,
        decreases n - d,
    {
        let mut k: usize = 0;
        proof {
            assert(order_upto(tree@, d as nat) + level_upto(tree@, d as nat, 0) =~= order_upto(
                tree@,
                d as nat,
            ));
        }
        while k < n
            invariant
                n == tree@.len() == depth@.len(),
                k <= n,
                d < n,
                aabb0 == old(layer).component_aabb@,
                cs0 == old(layer).component_container@,
                forall|j: int| 0 <= j < n ==> #[trigger] depth@[j] == depth_of(tree@, j),
                layer.component_aabb@ == spec_apply_layouts(
                    aabb0,
                    cs0,
                    order_upto(tree@, d as nat) + level_upto(tree@, d as nat, k as nat),
                ),
                layer.component_aabb.wf(),
                layer.component_container.wf(),
                boxes_only_resized(old(layer).component_aabb@, layer.component_aabb@),
                layer.component_debug_draw == old(layer).component_debug_draw,
                layer.component_container == old(layer).component_container,
                layer.component_trigger == old(layer).component_trigger,
                layer.component_touch_scroll == old(layer).component_touch_scroll,
                layer.component_anim_translate == old(layer).component_anim_translate,
                layer.component_scroll_snap == old(layer).component_scroll_snap,
                layer.entity_id == old(layer).entity_id,
                layer.component_layer == old(layer).component_layer,
            decreases n - k,
        {
            let ghost ord = order_upto(tree@, d as nat);
            let ghost lev = level_upto(tree@, d as nat, k as nat);
            if depth[k] == d {
                let value = tree.get_node(k).value;
                proof {
                    assert(level_upto(tree@, d as nat, (k + 1) as nat) == lev.push(value.0));
                    assert(ord + lev.push(value.0) =~= (ord + lev) + seq![value.0]);
                    lemma_apply_layouts_concat(aabb0, cs0, ord + lev, seq![value.0]);
                    assert(seq![value.0][0] == value.0);
                    assert(seq![value.0].drop_first() =~= Seq::<u16>::empty());
                }
                let ghost pre = layer.component_aabb@;
                match layer.component_container.get_component(value) {
                    None => {
                        proof {
                            assert(spec_apply_layouts(pre, cs0, seq![value.0].drop_first())
                                == pre);
                            assert(spec_apply_layouts(pre, cs0, seq![value.0]) == pre);
                        }
                    }
                    Some(c) => {
                        layout_component(&mut layer.component_aabb, c);
                        proof {
                            assert(spec_apply_layouts(
                                spec_layout_container(pre, *c),
                                cs0,
                                seq![value.0].drop_first(),
                            ) == spec_layout_container(pre, *c));
                            assert(spec_apply_layouts(pre, cs0, seq![value.0])
                                == spec_layout_container(pre, *c));
                            lemma_layout_container_resized(pre, *c);
                            lemma_resized_trans(
                                old(layer).component_aabb@,
                                pre,
                                layer.component_aabb@,
                            );
                        }
                    }
                }
            } else {
                proof {
                    assert(level_upto(tree@, d as nat, (k + 1) as nat) == lev);
                }
            }
            k = k + 1;
        }
        proof {
            assert(order_upto(tree@, (d + 1) as nat) == order_upto(tree@, d as nat) + level_upto(
                tree@,
                d as nat,
                tree@.len(),
            ));
        }
        d = d + 1;
    }
    proof {
        assert(layer.component_aabb@ == spec_apply_layouts(
            aabb0,
            cs0,
            spec_bfs_order(tree@),
        ));
    }

    // Nested clipping layers: lay out each one whose owning entity has a
    // resolved box; one without is reported (non-fatal) and skipped, since
    // nested layout needs clipping geometry.
    let ghost ab1 = spec_apply_layouts(aabb0, cs0, spec_bfs_order(tree@));
    let m = layer.component_layer.len();
    let mut j: usize = 0;
    proof {
        assert(diags@ =~= old(diags)@ + spec_nested_diags(*old(layer), ab1, 0));
    }
    while j < m
        invariant
            old(layer).wf(),
            m == layer.component_layer@.len() == old(layer).component_layer@.len(),
            j <= m,
            layer.component_aabb.wf(),
            layer.component_aabb@ == spec_apply_layouts(
                old(layer).component_aabb@,
                old(layer).component_container@,
                spec_bfs_order(tree@),
            ),
            spec_build(old(layer).component_container@) == Some(tree@),
            boxes_only_resized(old(layer).component_aabb@, layer.component_aabb@),
            layer.component_debug_draw == old(layer).component_debug_draw,
            layer.component_container == old(layer).component_container,
            layer.component_trigger == old(layer).component_trigger,
            layer.component_touch_scroll == old(layer).component_touch_scroll,
            layer.component_anim_translate == old(layer).component_anim_translate,
            layer.component_scroll_snap == old(layer).component_scroll_snap,
            layer.entity_id == old(layer).entity_id,
            ab1 == spec_apply_layouts(
                old(layer).component_aabb@,
                old(layer).component_container@,
                spec_bfs_order(tree@),
            ),
            diags@ == old(diags)@ + spec_nested_diags(*old(layer), ab1, j as int),
            forall|t: int|
                j <= t < m ==> layer.component_layer@[t] == #[trigger] old(
                    layer,
                ).component_layer@[t],
            forall|t: int|
                0 <= t < j ==> {
                    &&& (#[trigger] layer.component_layer@[t]).wf()
                    &&& layout_related(
                        old(layer).component_layer@[t],
                        layer.component_layer@[t],
                    )
                },
            forall|t: int|
                #![trigger old(layer).component_layer@[t]]
                0 <= t < j ==> {
                    let child = old(layer).component_layer@[t];
                    match child.entity_id {
                        Some(e) => if store_contains(layer.component_aabb@, e.0) {
                            layer_laid_out(child, layer.component_layer@[t])
                        } else {
                            layer.component_layer@[t] == child
                        },
                        None => layer.component_layer@[t] == child,
                    }
                },
        decreases m - j,
    {
        proof {
            assert(old(layer).component_layer@[j as int].wf());
            assert(decreases_to!(*old(layer) => old(layer).component_layer));
            assert(decreases_to!(old(layer).component_layer => old(
                layer,
            ).component_layer[j as int]));
        }
        let ghost pre_diags = diags@;
        let eid_opt = layer.component_layer[j].entity_id;
        match eid_opt {
            None => {
                proof {
                    lemma_layout_related_refl(layer.component_layer@[j as int]);
                    assert(diags@ =~= old(diags)@ + spec_nested_diags(*old(layer), ab1, j + 1));
                }
            }
            Some(e) => {
                match layer.component_aabb.get_component_index(e) {
                    Some(_) => {
                        layout_layer(&mut layer.component_layer[j], diags);
                        proof {
                            assert(diags@ == pre_diags + spec_layout_diags(
                                old(layer).component_layer@[j as int],
                            ));
                            assert(diags@ =~= old(diags)@ + spec_nested_diags(
                                *old(layer),
                                ab1,
                                j + 1,
                            ));
                        }
                    }
                    None => {
                        // Nested layer with no AABB: refusing to lay out.
                        diags.push(Diagnostic::NestedLayerMissingAabb(e));
                        proof {
                            lemma_layout_related_refl(layer.component_layer@[j as int]);
                            assert(diags@ =~= old(diags)@ + spec_nested_diags(
                                *old(layer),
                                ab1,
                                j + 1,
                            ));
                        }
                    }
                }
            }
        }
        j = j + 1;
    }
    true
}

/// A layout pass keeps every animation and snap entry valid: it touches
/// only box geometry.
pub proof fn lemma_layout_preserves_anims_ok(l0: Layer, l1: Layer)
    requires
        layout_related(l0, l1),
        crate::animation::layer_anims_ok(l0),
    ensures
        crate::animation::layer_anims_ok(l1),
    decreases l0,
{
    assert forall|j: int|
        0 <= j < l1.component_layer@.len() implies crate::animation::layer_anims_ok(
        #[trigger] l1.component_layer@[j],
    ) by {
        lemma_layout_preserves_anims_ok(l0.component_layer@[j], l1.component_layer@[j]);
    }
}

impl UiView {
    /// Runs the layout manager on this view. Alters AABB components based on
    /// the container component hierarchies; a layer whose hierarchy is
    /// malformed is left unchanged and reported.
    pub fn layout(&mut self) -> (diags: Vec<Diagnostic>)
        requires
            old(self).wf(),
        ensures
            final(self).wf(),
            final(self).layers@.len() == old(self).layers@.len(),
            diags@ == spec_view_diags(old(self).layers@, old(self).layers@.len() as int),
            forall|i: int|
                0 <= i < old(self).layers@.len() ==> layer_laid_out(
                    #[trigger] old(self).layers@[i],
                    final(self).layers@[i],
                ),
            forall|i: int|
                0 <= i < old(self).layers@.len() ==> layout_related(
                    #[trigger] old(self).layers@[i],
                    final(self).layers@[i],
                ),
    {
        layout_view(self)
    }
}

/// Runs the layout pass on every layer of the view. Alters AABB components
/// from the container hierarchies; a layer whose hierarchy is malformed is
/// left unchanged. Returns the diagnostics of the pass.
pub fn layout_view(view: &mut UiView) -> (diags: Vec<Diagnostic>)
    requires
        old(view).wf(),
    ensures
        final(view).wf(),
        final(view).layers@.len() == old(view).layers@.len(),
        diags@ == spec_view_diags(old(view).layers@, old(view).layers@.len() as int),
        forall|i: int|
            0 <= i < old(view).layers@.len() ==> layer_laid_out(
                #[trigger] old(view).layers@[i],
                final(view).layers@[i],
            ),
        forall|i: int|
            0 <= i < old(view).layers@.len() ==> layout_related(
                #[trigger] old(view).layers@[i],
                final(view).layers@[i],
            ),
        forall|i: int|
            0 <= i < old(view).layers@.len() ==> (spec_build(
                (#[trigger] old(view).layers@[i]).component_container@,
            ) is None ==> final(view).layers@[i] == old(view).layers@[i]),
{
    let mut diags: Vec<Diagnostic> = Vec::new();
    let n = view.layers.len();
    let mut k: usize = 0;
    proof {
        assert(diags@ =~= spec_view_diags(old(view).layers@, 0));
    }
    while k < n
        invariant
            n == view.layers@.len() == old(view).layers@.len(),
            k <= n,
            diags@ == spec_view_diags(old(view).layers@, k as int),
            forall|i: int| 0 <= i < n ==> (#[trigger] old(view).layers@[i]).wf(),
            forall|i: int| k <= i < n ==> view.layers@[i] == #[trigger] old(view).layers@[i],
            forall|i: int|
                0 <= i < k ==> {
                    &&& (#[trigger] view.layers@[i]).wf()
                    &&& layer_laid_out(old(view).layers@[i], view.layers@[i])
                    &&& layout_related(old(view).layers@[i], view.layers@[i])
                    &&& (spec_build(old(view).layers@[i].component_container@) is None
                        ==> view.layers@[i] == old(view).layers@[i])
                },
        decreases n - k,
    {
        let ghost pre_diags = diags@;
        layout_layer(&mut view.layers[k], &mut diags);
        proof {
            assert(diags@ == pre_diags + spec_layout_diags(old(view).layers@[k as int]));
            assert(diags@ =~= spec_view_diags(old(view).layers@, k + 1));
        }
        k = k + 1;
    }
    diags
}

} // verus!

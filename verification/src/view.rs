//! Views and layers.
//!
//! A layer bundles one component store per component kind plus a list of
//! nested child layers, forming the clipping hierarchy. A view is a stack of
//! layers presented as one screen.

use vstd::prelude::*;
use crate::component_list::ComponentList;
use crate::components::{
    ComponentAABB, ComponentAnimTranslate, ComponentContainer, ComponentDebugDraw,
    ComponentScrollSnap, ComponentTouchScroll, ComponentTrigger,
};
use crate::entity::{EntityID, NO_ENTITY};

verus! {

broadcast use vstd::seq::axiom_seq_index_decreases;

/// One component store per component kind, plus nested child layers.
/// A layer's entity hierarchy (for layout) is independent of the
/// layer-nesting hierarchy (for clipping).
pub struct Layer {
    pub component_debug_draw: ComponentList<ComponentDebugDraw>,
    pub component_aabb: ComponentList<ComponentAABB>,
    pub component_container: ComponentList<ComponentContainer>,
    pub component_trigger: ComponentList<ComponentTrigger>,
    pub component_touch_scroll: ComponentList<ComponentTouchScroll>,
    pub component_anim_translate: ComponentList<ComponentAnimTranslate>,
    pub component_scroll_snap: ComponentList<ComponentScrollSnap>,
    pub component_layer: Vec<Layer>,
    /// Optional owning entity. When this layer has an AABB associated with it
    /// (for clip-rect derivation), this is that entity; otherwise `None`.
    pub entity_id: Option<EntityID>,
}

impl Layer {
    /// The owning entity's numeric id, or the sentinel when this layer has
    /// no owning entity.
    pub open spec fn eid(&self) -> u16 {
        match self.entity_id {
            None => NO_ENTITY,
            Some(e) => e.0,
        }
    }

    /// The owning entity, or the sentinel id when there is none.
    pub fn get_entity_id(&self) -> (r: EntityID)
        ensures
            r.0 == self.eid(),
    {
        match self.entity_id {
            None => EntityID(NO_ENTITY),
            Some(e) => e,
        }
    }

    /// Every store of this layer and of every nested layer is sorted.
    pub open spec fn wf(&self) -> bool
        decreases self,
    {
        &&& self.component_debug_draw.wf()
        &&& self.component_aabb.wf()
        &&& self.component_container.wf()
        &&& self.component_trigger.wf()
        &&& self.component_touch_scroll.wf()
        &&& self.component_anim_translate.wf()
        &&& self.component_scroll_snap.wf()
        &&& forall|i: int|
            #![trigger self.component_layer@[i]]
            0 <= i < self.component_layer@.len() ==> self.component_layer@[i].wf()
    }

    /// A layer with empty stores and no owning entity.
    pub fn new() -> (r: Layer)
        ensures
            r.wf(),
            r.component_debug_draw@ =~= Seq::<ComponentDebugDraw>::empty(),
            r.component_aabb@ =~= Seq::<ComponentAABB>::empty(),
            r.component_container@ =~= Seq::<ComponentContainer>::empty(),
            r.component_trigger@ =~= Seq::<ComponentTrigger>::empty(),
            r.component_touch_scroll@ =~= Seq::<ComponentTouchScroll>::empty(),
            r.component_anim_translate@ =~= Seq::<ComponentAnimTranslate>::empty(),
            r.component_scroll_snap@ =~= Seq::<ComponentScrollSnap>::empty(),
            r.component_layer@ =~= Seq::<Layer>::empty(),
            r.entity_id is None,
    {
        Layer {
            component_debug_draw: ComponentList::new(),
            component_container: ComponentList::new(),
            component_aabb: ComponentList::new(),
            component_trigger: ComponentList::new(),
            component_touch_scroll: ComponentList::new(),
            component_anim_translate: ComponentList::new(),
            component_scroll_snap: ComponentList::new(),
            component_layer: Vec::new(),
            entity_id: None,
        }
    }
}

/// The data for a view: a list of layers grouped and presented as a single
/// screen on the device.
pub struct UiView {
    pub layers: Vec<Layer>,
}

impl UiView {
    /// All layers are well formed.
    pub open spec fn wf(&self) -> bool {
        forall|i: int|
            #![trigger self.layers@[i]]
            0 <= i < self.layers@.len() ==> self.layers@[i].wf()
    }

    pub fn new() -> (r: UiView)
        ensures
            r.wf(),
            r.layers@ =~= Seq::<Layer>::empty(),
    {
        UiView { layers: Vec::new() }
    }
}

} // verus!

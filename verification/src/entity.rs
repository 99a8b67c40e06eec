//! The `EntityID` type and the trait every component kind implements.

use vstd::prelude::*;
use crate::component_list::{
    lemma_sorted_index_unique, lemma_sorted_update_same_id, spec_upsert, store_index_of,
};
use crate::components::ComponentContainer;
use crate::layout::Layout;
use crate::view::Layer;

verus! {

/// Identifier of one UI element. Equality and ordering are by numeric value;
/// component stores are kept sorted by this value. `u16::MAX` is a sentinel
/// meaning "no entity" (used by layers with no owning entity).
#[derive(Clone, Copy, PartialEq, Eq, Structural, Debug)]
pub struct EntityID(pub u16);

/// Sentinel `EntityID` value denoting "no entity".
pub const NO_ENTITY: u16 = 0xffff;

impl EntityID {
    /// Sets the layout of this entity in the layer's container store. Any
    /// current layout (and subsequently, children) is replaced.
    pub fn set_layout(&self, layer: &mut Layer, layout: Layout)
        requires
            old(layer).component_container.wf(),
        ensures
            final(layer).component_container.wf(),
            final(layer).component_container@ == spec_upsert(
                old(layer).component_container@,
                ComponentContainer { entity_id: *self, layout },
            ),
            final(layer).component_debug_draw == old(layer).component_debug_draw,
            final(layer).component_aabb == old(layer).component_aabb,
            final(layer).component_trigger == old(layer).component_trigger,
            final(layer).component_touch_scroll == old(layer).component_touch_scroll,
            final(layer).component_anim_translate == old(layer).component_anim_translate,
            final(layer).component_scroll_snap == old(layer).component_scroll_snap,
            final(layer).component_layer == old(layer).component_layer,
            final(layer).entity_id == old(layer).entity_id,
    {
        let ghost pre = layer.component_container@;
        // Check whether a container component already exists.
        match layer.component_container.get_component_mut(*self) {
            Some(m) => {
                // Already exists: just change its layout.
                proof {
                    let i = store_index_of(pre, self.0);
                    assert(pre[i].entity_id == *self);
                    lemma_sorted_update_same_id(
                        pre,
                        i,
                        ComponentContainer { entity_id: *self, layout },
                    );
                }
                m.layout = layout;
            }
            None => {
                // Doesn't exist: create a new container component.
                layer.component_container.add_component(
                    ComponentContainer { entity_id: *self, layout },
                );
            }
        }
    }
}

/// A record carrying exactly one `EntityID` (its owner) plus kind-specific
/// fields. A single entity owns at most one instance of each component kind.
pub trait Component {
    /// The owner's numeric id, as seen by specifications.
    spec fn eid(&self) -> u16;

    /// The owner's id.
    fn get_entity_id(&self) -> (r: EntityID)
        ensures
            r.0 == self.eid(),
    ;
}

} // verus!

//! Container layout rules.
//!
//! A container component carries one `Layout`, a closed tagged set of rules.
//! Each rule names the `EntityID`s of the children it sizes; the set returned
//! by `get_children` is the only legal source of parent/child edges in the
//! hierarchy.

use vstd::prelude::*;
use crate::entity::EntityID;

verus! {

/// A layout rule. For an entity to be sized as a child or read as a parent it
/// must have an AABB component; a parent or child without one is skipped.
pub enum Layout {
    /// A header bar of fixed height at the top, and a body below it.
    HeaderBar {
        /// The entity of the header bar.
        entity_header: EntityID,
        /// The entity of the body (rest of the page).
        entity_body: EntityID,
        /// Height of the header in pixels.
        header_height: i32,
    },
    /// A vertical split (a line drawn down the split would be vertical).
    VSplit {
        /// Entity on the left.
        entity_l: EntityID,
        /// Entity on the right.
        entity_r: EntityID,
        /// Position of the split in pixels; this will be the width of
        /// `entity_l`.
        split_pos: i32,
    },
    /// Items stacked vertically, each with a fixed height.
    VList {
        /// The entities stacked, in list order.
        entity_list: Vec<EntityID>,
        /// Height of each item in pixels.
        item_height: i32,
    },
}

impl Layout {
    /// The children this rule sizes, in rule order.
    pub open spec fn spec_children(&self) -> Seq<EntityID> {
        match *self {
            Layout::HeaderBar { entity_header, entity_body, .. } => seq![
                entity_header,
                entity_body,
            ],
            Layout::VSplit { entity_l, entity_r, .. } => seq![entity_l, entity_r],
            Layout::VList { entity_list, .. } => entity_list@,
        }
    }

    /// Enumerates the children this rule sizes.
    pub fn get_children(&self) -> (r: Vec<EntityID>)
        ensures
            r@ == self.spec_children(),
    {
        match self {
            Layout::HeaderBar { entity_header, entity_body, .. } => {
                let mut v: Vec<EntityID> = Vec::new();
                v.push(*entity_header);
                v.push(*entity_body);
                proof {
                    assert(v@ =~= self.spec_children());
                }
                v
            }
            Layout::VSplit { entity_l, entity_r, .. } => {
                let mut v: Vec<EntityID> = Vec::new();
                v.push(*entity_l);
                v.push(*entity_r);
                proof {
                    assert(v@ =~= self.spec_children());
                }
                v
            }
            Layout::VList { entity_list, .. } => copy_ids(entity_list),
        }
    }
}

/// Copies a list of entity ids.
pub fn copy_ids(ids: &Vec<EntityID>) -> (r: Vec<EntityID>)
    ensures
        r@ == ids@,
{
    let mut v: Vec<EntityID> = Vec::new();
    let mut i: usize = 0;
    while i < ids.len()
        invariant
            i <= ids@.len(),
            v@ == ids@.take(i as int),
        decreases ids@.len() - i,
    {
        v.push(ids[i]);
        proof {
            assert(v@ =~= ids@.take(i + 1));
        }
        i = i + 1;
    }
    proof {
        assert(v@ =~= ids@);
    }
    v
}

} // verus!

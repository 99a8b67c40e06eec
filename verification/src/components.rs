//! Core component kinds.
//!
//! Components list their dependencies in the documentation: a component whose
//! dependencies are missing on the same entity has the corresponding step
//! skipped rather than treated as an error.

use vstd::prelude::*;
use crate::color::Rgb;
use crate::entity::{Component, EntityID};
use crate::layout::Layout;

verus! {

/// Position component. Defines a 2D view position and size in pixels.
#[derive(Clone, Copy)]
pub struct ComponentAABB {
    pub entity_id: EntityID,
    pub x: i32,
    pub y: i32,
    pub w: i32,
    pub h: i32,
}

impl Component for ComponentAABB {
    open spec fn eid(&self) -> u16 {
        self.entity_id.0
    }

    fn get_entity_id(&self) -> EntityID {
        self.entity_id
    }
}

/// Draws a translucent rectangle at this entity's position over everything
/// else.
/// Dependencies: `ComponentAABB`.
#[derive(Clone, Copy)]
pub struct ComponentDebugDraw {
    pub entity_id: EntityID,
    pub color: Rgb,
}

impl Component for ComponentDebugDraw {
    open spec fn eid(&self) -> u16 {
        self.entity_id.0
    }

    fn get_entity_id(&self) -> EntityID {
        self.entity_id
    }
}

/// Container component. An entity with this contains other entities.
pub struct ComponentContainer {
    pub entity_id: EntityID,
    /// The layout of this container. A container has exactly one layout at a
    /// time.
    pub layout: Layout,
}

impl Component for ComponentContainer {
    open spec fn eid(&self) -> u16 {
        self.entity_id.0
    }

    fn get_entity_id(&self) -> EntityID {
        self.entity_id
    }
}

/// Defines a trigger zone rectangle for hit testing finger presses.
/// When `relative` holds, `x` and `y` are offsets from the owning entity's
/// current AABB origin (for things like drag-out menus).
/// Dependencies: `ComponentAABB` when `relative`.
#[derive(Clone, Copy)]
pub struct ComponentTrigger {
    pub entity_id: EntityID,
    /// Identifier of this trigger zone. Scroll components name the zone they
    /// react to and engage only when the entity's trigger carries that id,
    /// so retagging the trigger switches which behaviour it drives (say a
    /// button dragged by its edge but clicked in the centre).
    pub trigger_id: u8,
    pub x: i32,
    pub y: i32,
    pub w: i32,
    pub h: i32,
    /// Whether `x` and `y` are offset by the owner's current position.
    pub relative: bool,
}

impl Component for ComponentTrigger {
    open spec fn eid(&self) -> u16 {
        self.entity_id.0
    }

    fn get_entity_id(&self) -> EntityID {
        self.entity_id
    }
}

/// Lets the user scroll (move) the entity with their finger.
/// Dependencies: `ComponentTrigger`, `ComponentAABB`.
#[derive(Clone, Copy)]
pub struct ComponentTouchScroll {
    pub entity_id: EntityID,
    /// The trigger zone used: the entity only scrolls when the drag began on
    /// this zone.
    pub trigger_id: u8,
    /// See the `scroll_behaviour` constants.
    pub behaviour_flags: u32,
    /// Bounds on scrolling. The maxima are checked against origin plus size,
    /// so keep the entity smaller than the bounds as a rectangle.
    pub max_x: i32,
    pub min_x: i32,
    pub max_y: i32,
    pub min_y: i32,
}

impl Component for ComponentTouchScroll {
    open spec fn eid(&self) -> u16 {
        self.entity_id.0
    }

    fn get_entity_id(&self) -> EntityID {
        self.entity_id
    }
}

/// The tween functions a translate animation can interpolate with.
#[derive(Clone, Copy)]
pub enum TweenFunction {
    /// Instant translation, happens in one frame.
    Instant,
    /// Linear movement.
    Linear,
    /// Ease in (start slow, end fast). Curve not yet decided; unsupported.
    EaseIn,
    /// Ease out (start fast, end slow). Curve not yet decided; unsupported.
    EaseOut,
    /// Ease in and out (start slow, end slow). Curve not yet decided;
    /// unsupported.
    EaseInOut,
}

impl TweenFunction {
    /// The tween functions with an implemented curve. The easing variants
    /// await a product decision on their exact shape.
    pub open spec fn is_supported(&self) -> bool {
        *self is Instant || *self is Linear
    }

    /// Given the animation length and timer, returns a transformed timer
    /// value; dividing it by the length yields the interpolation factor.
    pub fn tween(&self, anim_len: u32, anim_timer: u32) -> (r: u32)
        requires
            self.is_supported(),
        ensures
            *self is Instant ==> r == anim_len,
            *self is Linear ==> r == anim_timer,
    {
        match *self {
            TweenFunction::Instant => anim_len,
            TweenFunction::Linear => anim_timer,
            _ => vstd::pervasive::unreached(),
        }
    }
}

/// Translates the entity's AABB over a period of time with a tween function.
/// Dependencies: `ComponentAABB` (without one the entry still advances but
/// has no visible effect).
#[derive(Clone, Copy)]
pub struct ComponentAnimTranslate {
    pub entity_id: EntityID,
    /// Starting X location.
    pub start_x: i32,
    /// Starting Y location.
    pub start_y: i32,
    /// Ending X location: the entity's AABB ends up here after `anim_len`
    /// milliseconds.
    pub end_x: i32,
    /// Ending Y location.
    pub end_y: i32,
    /// Animation length in milliseconds.
    pub anim_len: u32,
    /// Millisecond timer. Counts up every frame until it reaches `anim_len`.
    pub anim_timer: u32,
    /// Tween function.
    pub tween_func: TweenFunction,
}

impl Component for ComponentAnimTranslate {
    open spec fn eid(&self) -> u16 {
        self.entity_id.0
    }

    fn get_entity_id(&self) -> EntityID {
        self.entity_id
    }
}

/// Snap points applied when a drag on this entity is released: the nearest
/// candidate (by squared distance) becomes the target of a new translate
/// animation.
/// Dependencies: `ComponentAABB`.
pub struct ComponentScrollSnap {
    pub entity_id: EntityID,
    /// Candidate snap positions.
    pub snap_positions: Vec<(i32, i32)>,
    /// Length in milliseconds of the snap animation.
    pub tween_len: u32,
    /// Tween function of the snap animation.
    pub tween_func: TweenFunction,
}

impl Component for ComponentScrollSnap {
    open spec fn eid(&self) -> u16 {
        self.entity_id.0
    }

    fn get_entity_id(&self) -> EntityID {
        self.entity_id
    }
}

} // verus!

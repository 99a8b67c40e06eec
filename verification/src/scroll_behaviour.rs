//! Constant bitmasks for `ComponentTouchScroll::behaviour_flags`.

use vstd::prelude::*;

verus! {

/// Whether this entity will stick to its position after the user raises
/// their finger, or glide on in the direction the finger left the screen.
pub const STICKY: u32 = 0x00000001;

/// Whether the entity can scroll on the X axis.
pub const LOCKED_X: u32 = 0x00000002;

/// X scroll direction (by default an entity scrolls left when dragged left).
pub const INVERTED_X: u32 = 0x00000004;

/// Whether the entity can scroll on the Y axis.
pub const LOCKED_Y: u32 = 0x00000008;

/// Y scroll direction (by default an entity scrolls up when dragged up).
pub const INVERTED_Y: u32 = 0x00000010;

} // verus!

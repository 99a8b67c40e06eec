//! Log priorities and structured diagnostic events.
//!
//! The core reports non-fatal conditions as structured values; a logging
//! collaborator outside the core may record them. Nothing here aborts a
//! frame.

use vstd::prelude::*;
use crate::entity::EntityID;

verus! {

/// Priorities a logging collaborator distinguishes.
pub enum LogPriority {
    DEBUG,
    DEFAULT,
    ERROR,
    FATAL,
    INFO,
    SILENT,
    UNKNOWN,
    VERBOSE,
    WARN,
}

impl LogPriority {
    /// The numeric value of this priority.
    pub fn value(&self) -> (r: i32)
        ensures
            r == match *self {
                LogPriority::UNKNOWN => 0int,
                LogPriority::DEFAULT => 1int,
                LogPriority::VERBOSE => 2int,
                LogPriority::DEBUG => 3int,
                LogPriority::INFO => 4int,
                LogPriority::WARN => 5int,
                LogPriority::ERROR => 6int,
                LogPriority::FATAL => 7int,
                LogPriority::SILENT => 8int,
            },
    {
        match *self {
            LogPriority::UNKNOWN => 0,
            LogPriority::DEFAULT => 1,
            LogPriority::VERBOSE => 2,
            LogPriority::DEBUG => 3,
            LogPriority::INFO => 4,
            LogPriority::WARN => 5,
            LogPriority::ERROR => 6,
            LogPriority::FATAL => 7,
            LogPriority::SILENT => 8,
        }
    }
}

/// A non-fatal condition met during a layout pass. The affected step is
/// skipped and prior state kept; the frame goes on.
#[derive(Clone, Copy, PartialEq, Eq, Structural, Debug)]
pub enum Diagnostic {
    /// A layer's container hierarchy is malformed (an entity parented by two
    /// containers, or a cycle): layout for that layer was skipped and its
    /// boxes left unchanged.
    HierarchyMalformed,
    /// A nested layer's owning entity has no AABB, so no clipping geometry
    /// exists: layout of that nested layer was skipped.
    NestedLayerMissingAabb(EntityID),
}

} // verus!

//! The failures that the engine reports.

use vstd::prelude::*;

verus! {

/// Why the engine refused an input.
#[derive(Debug, Copy, Clone, PartialEq, Eq, Structural)]
pub enum EngineError {
    /// A buffer handed to the report decoder does not have the length of one
    /// report.
    MalformedPacket,
    /// A continuous mapping was asked for an axis that has none.
    UnresolvedBinding,
}

} // verus!

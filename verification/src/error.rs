//! Errors reported for requests that do not fit the current document.

use vstd::prelude::*;

verus! {

/// Why an operation was refused. A refused operation changes nothing.
#[derive(Debug, Copy, Clone, PartialEq, Eq, Structural)]
pub enum PieceTableError {
    /// A position past the end of the document: `requested` against the
    /// document length `max`.
    PositionOutOfBounds { requested: u32, max: u32 },
    /// A range to delete that reaches past the end of the document.
    DeleteRangeInvalid { position: u32, length: u32, document_length: u32 },
}

} // verus!

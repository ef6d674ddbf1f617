//! Piece descriptors: one contiguous span of one of the two backing buffers.

use vstd::prelude::*;
use vstd::std_specs::cmp::PartialEqSpecImpl;

verus! {

/// A reference to `length` characters of a backing buffer, starting at
/// character `start`. The span lies in the original buffer when
/// `is_read_only` holds and in the added buffer otherwise.
#[derive(Debug, Copy, Clone, Eq)]
pub struct PieceTableEntry {
    pub start: u32,
    pub length: u32,
    pub is_read_only: bool,
}

impl PartialEq for PieceTableEntry {
    /// Two pieces are equal when they name the same span of the same buffer.
    fn eq(&self, other: &PieceTableEntry) -> (equal: bool) {
        self.is_read_only == other.is_read_only && self.start == other.start && self.length
            == other.length
    }
}

impl PartialEqSpecImpl for PieceTableEntry {
    open spec fn obeys_eq_spec() -> bool {
        true
    }

    open spec fn eq_spec(&self, other: &PieceTableEntry) -> bool {
        self.is_read_only == other.is_read_only && self.start == other.start && self.length
            == other.length
    }
}

impl PieceTableEntry {
    /// The buffer length that the span needs: one past its last character.
    pub open spec fn end(self) -> int {
        self.start + self.length
    }

    /// The characters that the piece stands for, given the two buffers.
    pub open spec fn span(self, original: Seq<char>, added: Seq<char>) -> Seq<char> {
        if self.is_read_only {
            original.subrange(self.start as int, self.end())
        } else {
            added.subrange(self.start as int, self.end())
        }
    }

    /// A piece that may be stored: it is not empty and lies inside its buffer.
    pub open spec fn valid(self, original_len: nat, added_len: nat) -> bool {
        &&& self.length > 0
        &&& self.end() <= if self.is_read_only {
            original_len
        } else {
            added_len
        }
    }
}

} // verus!

//! A piece table: a text document held as an ordered index of pieces, each a
//! span of one of two buffers. The original buffer holds the text that the
//! document started with and never changes; the added buffer holds every
//! inserted text and only grows. An edit rewrites the index around the place
//! it touches and copies no text.
//!
//! [`PieceTable`] owns the buffers and the index and offers the operations:
//! `init`, `add`, `delete`, `char_at`, `length` and `materialize`. Its view is
//! the document as a sequence of characters, and positions and lengths count
//! characters. The contracts are stated over that view and over the index as
//! a sequence of [`PieceTableEntry`] values; [`index`] defines what an index
//! stands for and how an edit rewrites it, [`lemmas`] proves that the
//! rewriting does to the text what the edit asks for, and [`laws`] states
//! what holds of every table and of edits in a row.

pub mod error;
pub mod index;
pub mod laws;
pub mod lemmas;
pub mod piece;
pub mod table;

pub use error::PieceTableError;
pub use piece::PieceTableEntry;
pub use table::PieceTable;

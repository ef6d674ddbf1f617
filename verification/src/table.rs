//! The piece table: the two buffers, the index over them, and the
//! operations that read and edit the document.

use crate::error::PieceTableError;
use crate::index::{
    all_valid, document, initial_index, left_part, locate, right_part, text_with_insertion,
    text_without_range, total_length, with_insertion, without_range,
};
use crate::lemmas::{
    lemma_char_in_piece, lemma_document_len, lemma_locate_finds, lemma_prefix_le,
    lemma_prefix_step, lemma_single, lemma_with_insertion, lemma_without_empty_range,
    lemma_without_range,
};
use crate::piece::PieceTableEntry;
use vstd::prelude::*;

verus! {

/// A text document as an ordered index of pieces over an original buffer,
/// fixed when the table is made, and an added buffer that only grows.
pub struct PieceTable {
    data: Vec<PieceTableEntry>,
    read_only_buffer: String,
    append_only_buffer: String,
}

impl View for PieceTable {
    type V = Seq<char>;

    /// The document: the text that the index stands for.
    open spec fn view(&self) -> Seq<char> {
        document(self.entries(), self.original(), self.added())
    }
}

impl PieceTable {
    /// The piece index, in document order.
    pub closed spec fn entries(&self) -> Seq<PieceTableEntry> {
        self.data@
    }

    /// The original buffer.
    pub closed spec fn original(&self) -> Seq<char> {
        self.read_only_buffer@
    }

    /// The added buffer.
    pub closed spec fn added(&self) -> Seq<char> {
        self.append_only_buffer@
    }

    /// The table's invariant: no stored piece is empty, each lies inside the
    /// buffer it names, and buffer offsets and document positions fit `u32`.
    pub open spec fn wf(&self) -> bool {
        &&& all_valid(self.entries(), self.original().len(), self.added().len())
        &&& total_length(self.entries()) <= u32::MAX
        &&& self.original().len() <= u32::MAX
        &&& self.added().len() <= u32::MAX
    }

    /// Whether `more` further characters can be added: the added buffer and
    /// the document must each stay within `u32::MAX` characters.
    pub open spec fn has_room_for(&self, more: nat) -> bool {
        &&& self@.len() + more <= u32::MAX
        &&& self.added().len() + more <= u32::MAX
    }

    /// The piece that stands for `text` once it is appended to the added
    /// buffer.
    pub open spec fn appended_piece(&self, text: Seq<char>) -> PieceTableEntry {
        PieceTableEntry {
            start: self.added().len() as u32,
            length: text.len() as u32,
            is_read_only: false,
        }
    }

    /// Makes a table over `original_text`: the added buffer is empty, and the
    /// index holds one piece that spans the original buffer, or nothing when
    /// the text is empty.
    pub fn init(original_text: &str) -> (table: PieceTable)
        requires
            original_text@.len() <= u32::MAX,
        ensures
            table.wf(),
            table@ == original_text@,
            table.original() == original_text@,
            table.added() == Seq::<char>::empty(),
            table.entries() == initial_index(original_text@.len()),
    {
        let length = original_text.unicode_len();
        let mut data: Vec<PieceTableEntry> = Vec::new();
        if length > 0 {
            let whole = PieceTableEntry { start: 0, length: length as u32, is_read_only: true };
            data.push(whole);
            proof {
                lemma_single(whole, original_text@, Seq::empty());
            }
        }
        PieceTable {
            data,
            read_only_buffer: String::from_str(original_text),
            append_only_buffer: String::new(),
        }
    }

    /// The document length: the sum of the piece lengths, computed anew on
    /// each call.
    pub fn length(&self) -> (len: u32)
        requires
            self.wf(),
        ensures
            len == self@.len(),
            len == total_length(self.entries()),
    {
        let mut max_position: u32 = 0;
        let mut i: usize = 0;
        while i < self.data.len()
            invariant
                i <= self.data@.len(),
                max_position == total_length(self.data@.take(i as int)),
                total_length(self.data@) <= u32::MAX,
            decreases self.data.len() - i,
        {
            proof {
                lemma_prefix_step(self.data@, i as int);
                lemma_prefix_le(self.data@, i + 1);
            }
            max_position = max_position + self.data[i].length;
            i += 1;
        }
        proof {
            assert(self.data@.take(i as int) =~= self.data@);
            lemma_document_len(self.entries(), self.original(), self.added());
        }
        max_position
    }

    /// Accepts a position up to and including the end of the document.
    pub fn check_position_validity(&self, position: u32) -> (checked: Result<
        (),
        PieceTableError,
    >)
        requires
            self.wf(),
        ensures
            position <= self@.len() ==> checked is Ok,
            position > self@.len() ==> checked == Err::<(), PieceTableError>(
                PieceTableError::PositionOutOfBounds {
                    requested: position,
                    max: self@.len() as u32,
                },
            ),
    {
        let max_position = self.length();
        if position > max_position {
            Err(PieceTableError::PositionOutOfBounds { requested: position, max: max_position })
        } else {
            Ok(())
        }
    }

    /// Resolves a position to the first piece that ends at or after it, and
    /// returns a copy of the piece, its index and the document offset at which
    /// it starts. A position on the boundary of two pieces resolves to the
    /// earlier piece. Nothing is found in an empty index or past the end of
    /// the document.
    pub fn find_entry_at_position(&self, position: u32) -> (found: Option<
        (PieceTableEntry, usize, u32),
    >)
        requires
            self.wf(),
        ensures
            found is Some <==> self.entries().len() > 0 && position <= self@.len(),
            found matches Some((entry, index, cum)) ==> ({
                &&& index == locate(self.entries(), position as int)
                &&& index < self.entries().len()
                &&& entry == self.entries()[index as int]
                &&& cum == total_length(self.entries().take(index as int))
                &&& cum <= position <= cum + entry.length
                &&& index == 0 || cum < position
            }),
    {
        proof {
            assert(self.data@.skip(0) =~= self.data@);
            lemma_locate_finds(self.data@, position as int);
            lemma_document_len(self.entries(), self.original(), self.added());
        }
        let mut cum: u32 = 0;
        let mut index: usize = 0;
        while index < self.data.len()
            invariant
                index <= self.data@.len(),
                total_length(self.data@) <= u32::MAX,
                cum == total_length(self.data@.take(index as int)),
                cum <= position,
                index == 0 || cum < position,
                locate(self.data@, position as int) < self.data@.len() <==> self.data@.len() > 0
                    && position <= self@.len(),
                locate(self.data@, position as int) == index + locate(
                    self.data@.skip(index as int),
                    position - cum,
                ),
            decreases self.data.len() - index,
        {
            let elem = self.data[index];
            proof {
                lemma_prefix_step(self.data@, index as int);
                lemma_prefix_le(self.data@, index + 1);
                assert(self.data@.skip(index as int).drop_first() =~= self.data@.skip(index + 1));
            }
            if cum + elem.length >= position {
                return Some((elem, index, cum));
            }
            cum = cum + elem.length;
            index += 1;
        }
        None
    }

    /// Appends `new_string` to the added buffer and places the piece that
    /// stands for it at `index` in the piece index.
    fn add_new_string_to_table(&mut self, new_string: &str, index: usize)
        requires
            index <= old(self).data@.len(),
            old(self).append_only_buffer@.len() + new_string@.len() <= u32::MAX,
        ensures
            final(self).data@ == old(self).data@.insert(
                index as int,
                old(self).appended_piece(new_string@),
            ),
            final(self).append_only_buffer@ == old(self).append_only_buffer@ + new_string@,
            final(self).read_only_buffer == old(self).read_only_buffer,
    {
        let start = self.append_only_buffer.as_str().unicode_len();
        let length = new_string.unicode_len();
        self.data.insert(
            index,
            PieceTableEntry { is_read_only: false, start: start as u32, length: length as u32 },
        );
        self.append_only_buffer.append(new_string);
    }

    /// Inserts `new_string` into the document at `position`. The text is
    /// appended to the added buffer, and the piece that the position resolves
    /// to gives way to its part left of the position, the new piece, and its
    /// part right of the position, each part only if it is not empty. A
    /// position past the end of the document is refused. An empty text changes
    /// nothing. There must be room for the text, which `can_add` tells.
    pub fn add(&mut self, new_string: &str, position: u32) -> (result: Result<
        (),
        PieceTableError,
    >)
        requires
            old(self).wf(),
            position <= old(self)@.len() ==> old(self).has_room_for(new_string@.len()),
        ensures
            final(self).wf(),
            final(self).original() == old(self).original(),
            old(self).added().is_prefix_of(final(self).added()),
            position <= old(self)@.len() ==> ({
                &&& result is Ok
                &&& final(self).added() == old(self).added() + new_string@
                &&& final(self)@ == text_with_insertion(
                    old(self)@,
                    position as int,
                    new_string@,
                )
                &&& final(self)@.len() == old(self)@.len() + new_string@.len()
                &&& new_string@.len() > 0 ==> final(self).entries() == with_insertion(
                    old(self).entries(),
                    position as int,
                    old(self).appended_piece(new_string@),
                )
            }),
            position > old(self)@.len() ==> result == Err::<(), PieceTableError>(
                PieceTableError::PositionOutOfBounds {
                    requested: position,
                    max: old(self)@.len() as u32,
                },
            ),
            result is Err || new_string@.len() == 0 ==> *final(self) == *old(self),
    {
        if let Err(error) = self.check_position_validity(position) {
            return Err(error);
        }
        if new_string.unicode_len() == 0 {
            return Ok(());
        }
        let ghost pieces = self.data@;
        let ghost inserted = self.appended_piece(new_string@);
        let ghost grown = self.append_only_buffer@ + new_string@;
        proof {
            lemma_document_len(pieces, self.original(), self.added());
            lemma_with_insertion(
                pieces,
                position as int,
                inserted,
                self.original(),
                self.added(),
                grown,
            );
            assert(inserted.span(self.original(), grown) =~= new_string@);
        }
        match self.find_entry_at_position(position) {
            Some((buffer_entry, index, cum)) => {
                let first_piece_length = position - cum;
                let last_piece_length = buffer_entry.length - first_piece_length;
                self.data.remove(index);
                let mut new_index = index;
                if first_piece_length > 0 {
                    self.data.insert(
                        new_index,
                        PieceTableEntry {
                            is_read_only: buffer_entry.is_read_only,
                            start: buffer_entry.start,
                            length: first_piece_length,
                        },
                    );
                    assert(new_index < self.data.len());
                    new_index += 1;
                }
                self.add_new_string_to_table(new_string, new_index);
                assert(new_index < self.data.len());
                new_index += 1;
                if last_piece_length > 0 {
                    self.data.insert(
                        new_index,
                        PieceTableEntry {
                            is_read_only: buffer_entry.is_read_only,
                            start: buffer_entry.start + first_piece_length,
                            length: last_piece_length,
                        },
                    );
                }
                proof {
                    let i = index as int;
                    let first = first_piece_length as int;
                    assert(self.data@ =~= pieces.take(i) + left_part(buffer_entry, first)
                        + seq![inserted] + right_part(buffer_entry, first) + pieces.skip(i + 1));
                }
            },
            None => {
                self.add_new_string_to_table(new_string, 0);
            },
        }
        Ok(())
    }

    /// Deletes `length` characters of the document from `position` on. Every
    /// piece keeps what of it lies outside the range: a piece inside the range
    /// leaves the index, a piece at either end of the range is trimmed, and a
    /// piece that holds the whole range inside it is split in two. A range that
    /// reaches past the end of the document is refused. An empty range changes
    /// nothing.
    pub fn delete(&mut self, position: u32, length: u32) -> (result: Result<(), PieceTableError>)
        requires
            old(self).wf(),
        ensures
            final(self).wf(),
            final(self).original() == old(self).original(),
            final(self).added() == old(self).added(),
            position + length <= old(self)@.len() ==> ({
                &&& result is Ok
                &&& final(self)@ == text_without_range(
                    old(self)@,
                    position as int,
                    position + length,
                )
                &&& final(self)@.len() == old(self)@.len() - length
                &&& final(self).entries() == without_range(
                    old(self).entries(),
                    position as int,
                    position + length,
                )
            }),
            position + length > old(self)@.len() ==> result == Err::<(), PieceTableError>(
                PieceTableError::DeleteRangeInvalid {
                    position,
                    length,
                    document_length: old(self)@.len() as u32,
                },
            ),
            result is Err || length == 0 ==> *final(self) == *old(self),
    {
        let document_length = self.length();
        if length > document_length || position > document_length - length {
            return Err(PieceTableError::DeleteRangeInvalid { position, length, document_length });
        }
        let end = position + length;
        let ghost pieces = self.data@;
        proof {
            lemma_without_range(
                pieces,
                position as int,
                end as int,
                self.original(),
                self.added(),
            );
        }
        if length == 0 {
            proof {
                lemma_without_empty_range(pieces, position as int);
            }
            return Ok(());
        }
        let mut kept: Vec<PieceTableEntry> = Vec::new();
        let mut cum: u32 = 0;
        let mut i: usize = 0;
        while i < self.data.len()
            invariant
                self.wf(),
                pieces == self.data@,
                i <= pieces.len(),
                position < end,
                cum == total_length(pieces.take(i as int)),
                kept@ == without_range(pieces.take(i as int), position as int, end as int),
            decreases self.data.len() - i,
        {
            let piece = self.data[i];
            proof {
                lemma_prefix_step(pieces, i as int);
                lemma_prefix_le(pieces, i + 1);
                assert(pieces.take(i + 1).drop_last() =~= pieces.take(i as int));
            }
            let piece_end = cum + piece.length;
            if piece_end <= position || end <= cum {
                kept.push(piece);
            } else {
                if cum < position {
                    kept.push(
                        PieceTableEntry {
                            is_read_only: piece.is_read_only,
                            start: piece.start,
                            length: position - cum,
                        },
                    );
                }
                if end < piece_end {
                    kept.push(
                        PieceTableEntry {
                            is_read_only: piece.is_read_only,
                            start: piece.start + (end - cum),
                            length: piece_end - end,
                        },
                    );
                }
            }
            cum = piece_end;
            i += 1;
        }
        proof {
            assert(pieces.take(i as int) =~= pieces);
        }
        self.data = kept;
        Ok(())
    }

    /// The character at `position`, read from the buffer that the piece
    /// holding the position names. A position at or past the end of the
    /// document is refused.
    pub fn char_at(&self, position: u32) -> (result: Result<char, PieceTableError>)
        requires
            self.wf(),
        ensures
            position < self@.len() ==> result == Ok::<char, PieceTableError>(
                self@[position as int],
            ),
            position >= self@.len() ==> result == Err::<char, PieceTableError>(
                PieceTableError::PositionOutOfBounds {
                    requested: position,
                    max: self@.len() as u32,
                },
            ),
    {
        let document_length = self.length();
        if position >= document_length {
            return Err(
                PieceTableError::PositionOutOfBounds { requested: position, max: document_length },
            );
        }
        // The piece that holds the character is the first that ends after
        // `position`, that is at or after `position + 1`.
        match self.find_entry_at_position(position + 1) {
            Some((buffer_entry, index, cum)) => {
                let pos = buffer_entry.start + (position - cum);
                proof {
                    lemma_char_in_piece(
                        self.data@,
                        index as int,
                        position - cum,
                        self.original(),
                        self.added(),
                    );
                }
                if buffer_entry.is_read_only {
                    Ok(self.read_only_buffer.as_str().get_char(pos as usize))
                } else {
                    Ok(self.append_only_buffer.as_str().get_char(pos as usize))
                }
            },
            None => Err(
                PieceTableError::PositionOutOfBounds { requested: position, max: document_length },
            ),
        }
    }

    /// The whole document as one string: the spans of the pieces, in index
    /// order.
    pub fn materialize(&self) -> (text: String)
        requires
            self.wf(),
        ensures
            text@ == self@,
    {
        let mut text = String::new();
        let mut i: usize = 0;
        while i < self.data.len()
            invariant
                self.wf(),
                i <= self.data@.len(),
                text@ == document(self.data@.take(i as int), self.original(), self.added()),
            decreases self.data.len() - i,
        {
            let piece = self.data[i];
            let buffer = if piece.is_read_only {
                self.read_only_buffer.as_str()
            } else {
                self.append_only_buffer.as_str()
            };
            let span = buffer.substring_char(
                piece.start as usize,
                (piece.start + piece.length) as usize,
            );
            proof {
                assert(self.data@.take(i + 1).drop_last() =~= self.data@.take(i as int));
            }
            text.append(span);
            i += 1;
        }
        proof {
            assert(self.data@.take(i as int) =~= self.data@);
        }
        text
    }

    /// Tells whether `new_string` can still be added: whether there is room
    /// for its characters.
    pub fn can_add(&self, new_string: &str) -> (fits: bool)
        requires
            self.wf(),
        ensures
            fits == self.has_room_for(new_string@.len()),
    {
        let more = new_string.unicode_len();
        let document_length = self.length();
        let added_length = self.append_only_buffer.as_str().unicode_len();
        more <= (u32::MAX - document_length) as usize && more <= u32::MAX as usize - added_length
    }

    /// A copy of the piece index, in document order.
    pub fn data(&self) -> (pieces: Vec<PieceTableEntry>)
        ensures
            pieces@ == self.entries(),
    {
        self.data.clone()
    }

    /// A copy of the original buffer: the text that the table was made over.
    pub fn read_only_buffer(&self) -> (buffer: String)
        ensures
            buffer@ == self.original(),
    {
        self.read_only_buffer.clone()
    }

    /// A copy of the added buffer: every inserted text, in the order of
    /// insertion.
    pub fn append_only_buffer(&self) -> (buffer: String)
        ensures
            buffer@ == self.added(),
    {
        self.append_only_buffer.clone()
    }
}

} // verus!

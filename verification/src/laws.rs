//! What holds of every well-formed table, and of edits that follow one
//! another.

use crate::error::PieceTableError;
use crate::index::{all_valid, locate, text_with_insertion, text_without_range, total_length};
use crate::lemmas::{lemma_document_len, lemma_locate_is_first, lemma_prefix_lengths_increase};
use crate::piece::PieceTableEntry;
use crate::table::PieceTable;
use vstd::prelude::*;

verus! {

/// In a well-formed table the document is as long as the piece lengths add
/// up to, and no stored piece is empty.
pub proof fn lemma_length_is_sum_of_piece_lengths(table: PieceTable)
    requires
        table.wf(),
    ensures
        table@.len() == total_length(table.entries()),
        forall|i: int|
            0 <= i < table.entries().len() ==> (#[trigger] table.entries()[i]).length > 0,
{
    lemma_document_len(table.entries(), table.original(), table.added());
}

/// A position on the boundary between two valid pieces resolves to the
/// earlier one: the position at which piece `i` ends resolves to piece `i`,
/// not to the piece that starts there.
pub proof fn lemma_boundary_resolves_to_earlier_piece(
    pieces: Seq<PieceTableEntry>,
    i: int,
    original_len: nat,
    added_len: nat,
)
    requires
        all_valid(pieces, original_len, added_len),
        0 <= i < pieces.len(),
    ensures
        locate(pieces, total_length(pieces.take(i + 1)) as int) == i,
{
    let position = total_length(pieces.take(i + 1)) as int;
    let found = locate(pieces, position);
    lemma_locate_is_first(pieces, position);
    if found > i {
        assert(total_length(pieces.take(i + 1)) < position);
    } else if found < i {
        lemma_prefix_lengths_increase(pieces, found + 1, i + 1, original_len, added_len);
    }
}

/// Adding a text and then deleting as many characters from the same position
/// restores the document, whether the two requests are accepted or refused.
/// `between` is any table that `add` may leave behind, and `after` any table
/// that `delete` may then leave behind. Where the addition is accepted, the
/// deleted range lies inside the document in between, so the deletion is
/// accepted too.
pub proof fn lemma_add_then_delete_restores_document(
    before: PieceTable,
    new_string: Seq<char>,
    position: u32,
    between: PieceTable,
    after: PieceTable,
)
    requires
        before.wf(),
        position <= before@.len() ==> between@ == text_with_insertion(
            before@,
            position as int,
            new_string,
        ),
        position > before@.len() ==> between == before,
        position + new_string.len() <= between@.len() ==> after@ == text_without_range(
            between@,
            position as int,
            position + new_string.len(),
        ),
        position + new_string.len() > between@.len() ==> after == between,
    ensures
        position <= before@.len() ==> position + new_string.len() <= between@.len(),
        after@ == before@,
{
}

/// Reading one character gives the character at that position of the
/// materialized text. `text` is any text that `materialize` may return, and
/// `read` any result that `char_at` may return for the position.
pub proof fn lemma_char_at_reads_materialized_text(
    table: PieceTable,
    position: u32,
    text: Seq<char>,
    read: Result<char, PieceTableError>,
)
    requires
        table.wf(),
        position < table@.len(),
        text == table@,
        read == Ok::<char, PieceTableError>(table@[position as int]),
    ensures
        position < text.len(),
        read == Ok::<char, PieceTableError>(text[position as int]),
{
}

} // verus!

//! The piece index as a mathematical object: a sequence of pieces, the text
//! it stands for, and how an insertion or a deletion rewrites it.

use crate::piece::PieceTableEntry;
use vstd::prelude::*;

verus! {

/// The sum of the pieces' lengths.
pub open spec fn total_length(pieces: Seq<PieceTableEntry>) -> nat
    decreases pieces.len(),
{
    if pieces.len() == 0 {
        0
    } else {
        total_length(pieces.drop_last()) + pieces.last().length as nat
    }
}

/// The text that the pieces stand for: their spans, one after the other.
pub open spec fn document(
    pieces: Seq<PieceTableEntry>,
    original: Seq<char>,
    added: Seq<char>,
) -> Seq<char>
    decreases pieces.len(),
{
    if pieces.len() == 0 {
        Seq::empty()
    } else {
        document(pieces.drop_last(), original, added) + pieces.last().span(original, added)
    }
}

/// Every piece is non-empty and lies inside the buffer it names.
pub open spec fn all_valid(
    pieces: Seq<PieceTableEntry>,
    original_len: nat,
    added_len: nat,
) -> bool {
    forall|i: int| 0 <= i < pieces.len() ==> (#[trigger] pieces[i]).valid(original_len, added_len)
}

/// The index over a fresh original buffer of `length` characters: one piece
/// that spans the buffer, or nothing when the buffer is empty.
pub open spec fn initial_index(length: nat) -> Seq<PieceTableEntry> {
    if length == 0 {
        Seq::empty()
    } else {
        seq![PieceTableEntry { start: 0, length: length as u32, is_read_only: true }]
    }
}

/// The index of the piece that a position resolves to: the first piece that
/// ends at or after the position. A position on the boundary of two pieces
/// thus resolves to the earlier one. The result is `pieces.len()` when no
/// piece reaches the position.
pub open spec fn locate(pieces: Seq<PieceTableEntry>, position: int) -> int
    decreases pieces.len(),
{
    if pieces.len() == 0 || position <= pieces.first().length {
        0
    } else {
        1 + locate(pieces.drop_first(), position - pieces.first().length)
    }
}

/// The first `keep` characters of a piece, as a piece; nothing when `keep` is 0.
pub open spec fn left_part(piece: PieceTableEntry, keep: int) -> Seq<PieceTableEntry> {
    if keep > 0 {
        seq![
            PieceTableEntry {
                start: piece.start,
                length: keep as u32,
                is_read_only: piece.is_read_only,
            },
        ]
    } else {
        Seq::empty()
    }
}

/// A piece without its first `skip` characters, as a piece; nothing when
/// `skip` is the whole length.
pub open spec fn right_part(piece: PieceTableEntry, skip: int) -> Seq<PieceTableEntry> {
    if skip < piece.length {
        seq![
            PieceTableEntry {
                start: (piece.start + skip) as u32,
                length: (piece.length - skip) as u32,
                is_read_only: piece.is_read_only,
            },
        ]
    } else {
        Seq::empty()
    }
}

/// The index after `inserted` was placed at `position`: the piece that the
/// position resolves to gives way to what lies left of the position, the new
/// piece, and what lies right of it. An empty index becomes the new piece.
pub open spec fn with_insertion(
    pieces: Seq<PieceTableEntry>,
    position: int,
    inserted: PieceTableEntry,
) -> Seq<PieceTableEntry> {
    if pieces.len() == 0 {
        seq![inserted]
    } else {
        let i = locate(pieces, position);
        let first = position - total_length(pieces.take(i));
        pieces.take(i) + left_part(pieces[i], first) + seq![inserted] + right_part(
            pieces[i],
            first,
        ) + pieces.skip(i + 1)
    }
}

/// `x` brought into the range from 0 to `limit`.
pub open spec fn clamp(x: int, limit: int) -> int {
    if x < 0 {
        0
    } else if x > limit {
        limit
    } else {
        x
    }
}

/// What stays of a piece that starts at document offset `offset` when the
/// document range from `from` to `to` is cut out. A piece that loses nothing
/// stays as it is; otherwise what lies before the cut and what lies after it
/// stay, each only if it is not empty.
pub open spec fn remainder(piece: PieceTableEntry, offset: int, from: int, to: int) -> Seq<
    PieceTableEntry,
> {
    let cut_from = clamp(from - offset, piece.length as int);
    let cut_to = clamp(to - offset, piece.length as int);
    if cut_from == cut_to {
        seq![piece]
    } else {
        left_part(piece, cut_from) + right_part(piece, cut_to)
    }
}

/// The index after the document range from `from` to `to` was cut out: each
/// piece gives way to its remainder, in order.
pub open spec fn without_range(pieces: Seq<PieceTableEntry>, from: int, to: int) -> Seq<
    PieceTableEntry,
>
    decreases pieces.len(),
{
    if pieces.len() == 0 {
        Seq::empty()
    } else {
        without_range(pieces.drop_last(), from, to) + remainder(
            pieces.last(),
            total_length(pieces.drop_last()) as int,
            from,
            to,
        )
    }
}

/// A text with `inserted` placed at `position`.
pub open spec fn text_with_insertion(text: Seq<char>, position: int, inserted: Seq<char>) -> Seq<
    char,
> {
    text.subrange(0, position) + inserted + text.subrange(position, text.len() as int)
}

/// A text with the range from `from` to `to` cut out.
pub open spec fn text_without_range(text: Seq<char>, from: int, to: int) -> Seq<char> {
    text.subrange(0, from) + text.subrange(to, text.len() as int)
}

} // verus!

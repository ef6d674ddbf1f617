//! Lemmas about the piece index: how total length and text behave under
//! concatenation, position resolution, insertion and deletion.

use crate::index::{
    all_valid, clamp, document, left_part, locate, remainder, right_part, text_with_insertion,
    text_without_range, total_length, with_insertion, without_range,
};
use crate::piece::PieceTableEntry;
use vstd::prelude::*;

verus! {

/// The total length of two runs of pieces is the sum of their total lengths.
pub proof fn lemma_total_length_concat(a: Seq<PieceTableEntry>, b: Seq<PieceTableEntry>)
    ensures
        total_length(a + b) == total_length(a) + total_length(b),
    decreases b.len(),
{
    if b.len() > 0 {
        assert((a + b).drop_last() =~= a + b.drop_last());
        lemma_total_length_concat(a, b.drop_last());
    }
}

/// The text of two runs of pieces is the text of the first followed by the
/// text of the second.
pub proof fn lemma_document_concat(
    a: Seq<PieceTableEntry>,
    b: Seq<PieceTableEntry>,
    original: Seq<char>,
    added: Seq<char>,
)
    ensures
        document(a + b, original, added) == document(a, original, added) + document(
            b,
            original,
            added,
        ),
    decreases b.len(),
{
    if b.len() > 0 {
        assert((a + b).drop_last() =~= a + b.drop_last());
        lemma_document_concat(a, b.drop_last(), original, added);
    }
    assert(document(a + b, original, added) =~= document(a, original, added) + document(
        b,
        original,
        added,
    ));
}

/// A single piece stands for its span and has its own length.
pub proof fn lemma_single(piece: PieceTableEntry, original: Seq<char>, added: Seq<char>)
    ensures
        document(seq![piece], original, added) == piece.span(original, added),
        total_length(seq![piece]) == piece.length,
{
    let none = seq![piece].drop_last();
    assert(total_length(none) == 0);
    assert(document(none, original, added).len() == 0);
}

/// Valid pieces stand for a text as long as their total length.
pub proof fn lemma_document_len(
    pieces: Seq<PieceTableEntry>,
    original: Seq<char>,
    added: Seq<char>,
)
    requires
        all_valid(pieces, original.len(), added.len()),
    ensures
        document(pieces, original, added).len() == total_length(pieces),
    decreases pieces.len(),
{
    if pieces.len() > 0 {
        lemma_document_len(pieces.drop_last(), original, added);
    }
}

/// One more piece lengthens a prefix of the index by that piece's length.
pub proof fn lemma_prefix_step(pieces: Seq<PieceTableEntry>, n: int)
    requires
        0 <= n < pieces.len(),
    ensures
        total_length(pieces.take(n + 1)) == total_length(pieces.take(n)) + pieces[n].length,
{
    assert(pieces.take(n + 1).drop_last() =~= pieces.take(n));
}

/// No prefix of the index is longer than the whole.
pub proof fn lemma_prefix_le(pieces: Seq<PieceTableEntry>, n: int)
    requires
        0 <= n <= pieces.len(),
    ensures
        total_length(pieces.take(n)) <= total_length(pieces),
{
    assert(pieces =~= pieces.take(n) + pieces.skip(n));
    lemma_total_length_concat(pieces.take(n), pieces.skip(n));
}

/// Among valid pieces a longer prefix of the index has the greater total
/// length.
pub proof fn lemma_prefix_lengths_increase(
    pieces: Seq<PieceTableEntry>,
    shorter: int,
    longer: int,
    original_len: nat,
    added_len: nat,
)
    requires
        all_valid(pieces, original_len, added_len),
        0 <= shorter < longer <= pieces.len(),
    ensures
        total_length(pieces.take(shorter)) < total_length(pieces.take(longer)),
    decreases longer - shorter,
{
    lemma_prefix_step(pieces, longer - 1);
    if shorter < longer - 1 {
        lemma_prefix_lengths_increase(pieces, shorter, longer - 1, original_len, added_len);
    }
}

/// Position resolution picks the first piece that ends at or after the
/// position: every shorter prefix of the index ends before the position, and
/// the prefix that includes the piece does not. Where no piece reaches the
/// position, the result is the number of pieces.
pub proof fn lemma_locate_is_first(pieces: Seq<PieceTableEntry>, position: int)
    ensures
        0 <= locate(pieces, position) <= pieces.len(),
        forall|n: int|
            1 <= n <= locate(pieces, position) ==> total_length(#[trigger] pieces.take(n))
                < position,
        locate(pieces, position) < pieces.len() ==> position <= total_length(
            pieces.take(locate(pieces, position) + 1),
        ),
    decreases pieces.len(),
{
    if pieces.len() > 0 {
        let first = pieces.first();
        let rest = pieces.drop_first();
        lemma_single(first, Seq::empty(), Seq::empty());
        assert forall|n: int| 1 <= n <= pieces.len() implies total_length(
            #[trigger] pieces.take(n),
        ) == first.length + total_length(rest.take(n - 1)) by {
            assert(pieces.take(n) =~= seq![first] + rest.take(n - 1));
            lemma_total_length_concat(seq![first], rest.take(n - 1));
        }
        if position > first.length {
            lemma_locate_is_first(rest, position - first.length);
        }
    }
}

/// Position resolution finds a piece exactly when the index is not empty and
/// the position is not past the end of the document.
pub proof fn lemma_locate_finds(pieces: Seq<PieceTableEntry>, position: int)
    ensures
        locate(pieces, position) < pieces.len() <==> pieces.len() > 0 && position <= total_length(
            pieces,
        ),
{
    lemma_locate_is_first(pieces, position);
    let i = locate(pieces, position);
    if i < pieces.len() {
        lemma_prefix_le(pieces, i + 1);
    } else if pieces.len() > 0 {
        assert(pieces.take(i) =~= pieces);
    }
}

/// Valid pieces stand for the same text after the added buffer has grown.
pub proof fn lemma_document_added_grows(
    pieces: Seq<PieceTableEntry>,
    original: Seq<char>,
    added: Seq<char>,
    grown: Seq<char>,
)
    requires
        all_valid(pieces, original.len(), added.len()),
        added.is_prefix_of(grown),
    ensures
        all_valid(pieces, original.len(), grown.len()),
        document(pieces, original, grown) == document(pieces, original, added),
    decreases pieces.len(),
{
    if pieces.len() > 0 {
        lemma_document_added_grows(pieces.drop_last(), original, added, grown);
        assert(pieces.last().span(original, grown) =~= pieces.last().span(original, added));
    }
}

/// The two parts of a valid piece around a cut from `cut_from` to `cut_to`
/// are valid pieces, and they stand for the piece's span before the cut and
/// after it.
pub proof fn lemma_parts(
    piece: PieceTableEntry,
    cut_from: int,
    cut_to: int,
    original: Seq<char>,
    added: Seq<char>,
)
    requires
        piece.valid(original.len(), added.len()),
        original.len() <= u32::MAX,
        added.len() <= u32::MAX,
        0 <= cut_from <= cut_to <= piece.length,
    ensures
        all_valid(left_part(piece, cut_from), original.len(), added.len()),
        all_valid(right_part(piece, cut_to), original.len(), added.len()),
        total_length(left_part(piece, cut_from)) == cut_from,
        total_length(right_part(piece, cut_to)) == piece.length - cut_to,
        document(left_part(piece, cut_from), original, added) == piece.span(
            original,
            added,
        ).subrange(0, cut_from),
        document(right_part(piece, cut_to), original, added) == piece.span(
            original,
            added,
        ).subrange(cut_to, piece.length as int),
{
    if cut_from > 0 {
        lemma_single(left_part(piece, cut_from)[0], original, added);
    }
    if cut_to < piece.length {
        lemma_single(right_part(piece, cut_to)[0], original, added);
    }
}

/// The index splits at any piece into the pieces before it, the piece, and
/// the pieces after it, and so do its total length and its text.
pub proof fn lemma_split_at(
    pieces: Seq<PieceTableEntry>,
    i: int,
    original: Seq<char>,
    added: Seq<char>,
)
    requires
        0 <= i < pieces.len(),
        all_valid(pieces, original.len(), added.len()),
    ensures
        all_valid(pieces.take(i), original.len(), added.len()),
        all_valid(pieces.skip(i + 1), original.len(), added.len()),
        total_length(pieces) == total_length(pieces.take(i)) + pieces[i].length + total_length(
            pieces.skip(i + 1),
        ),
        document(pieces, original, added) == document(pieces.take(i), original, added)
            + pieces[i].span(original, added) + document(pieces.skip(i + 1), original, added),
        document(pieces.take(i), original, added).len() == total_length(pieces.take(i)),
        document(pieces.skip(i + 1), original, added).len() == total_length(pieces.skip(i + 1)),
{
    let head = pieces.take(i);
    let tail = pieces.skip(i + 1);
    let one = seq![pieces[i]];
    assert(pieces =~= head + one + tail);
    lemma_single(pieces[i], original, added);
    lemma_total_length_concat(head, one);
    lemma_total_length_concat(head + one, tail);
    lemma_document_concat(head, one, original, added);
    lemma_document_concat(head + one, tail, original, added);
    lemma_document_len(head, original, added);
    lemma_document_len(tail, original, added);
}

/// Replacing one piece of a valid index by a run of valid pieces gives a
/// valid index; its total length and its text are those of the pieces
/// before, of the run, and of the pieces after.
pub proof fn lemma_replace_piece(
    pieces: Seq<PieceTableEntry>,
    i: int,
    run: Seq<PieceTableEntry>,
    original: Seq<char>,
    added: Seq<char>,
)
    requires
        0 <= i < pieces.len(),
        all_valid(pieces, original.len(), added.len()),
        all_valid(run, original.len(), added.len()),
    ensures
        all_valid(pieces.take(i) + run + pieces.skip(i + 1), original.len(), added.len()),
        total_length(pieces.take(i) + run + pieces.skip(i + 1)) == total_length(pieces.take(i))
            + total_length(run) + total_length(pieces.skip(i + 1)),
        document(pieces.take(i) + run + pieces.skip(i + 1), original, added) == document(
            pieces.take(i),
            original,
            added,
        ) + document(run, original, added) + document(pieces.skip(i + 1), original, added),
{
    let head = pieces.take(i);
    let tail = pieces.skip(i + 1);
    lemma_split_at(pieces, i, original, added);
    lemma_total_length_concat(head, run);
    lemma_total_length_concat(head + run, tail);
    lemma_document_concat(head, run, original, added);
    lemma_document_concat(head + run, tail, original, added);
}

/// A valid piece with a new valid piece placed `first` characters into it:
/// the three pieces are valid, as long as both together, and stand for the
/// piece's span with the new piece's span placed at `first`.
pub proof fn lemma_insertion_run(
    piece: PieceTableEntry,
    first: int,
    inserted: PieceTableEntry,
    original: Seq<char>,
    added: Seq<char>,
)
    requires
        piece.valid(original.len(), added.len()),
        inserted.valid(original.len(), added.len()),
        original.len() <= u32::MAX,
        added.len() <= u32::MAX,
        0 <= first <= piece.length,
    ensures
        all_valid(
            left_part(piece, first) + seq![inserted] + right_part(piece, first),
            original.len(),
            added.len(),
        ),
        total_length(left_part(piece, first) + seq![inserted] + right_part(piece, first))
            == piece.length + inserted.length,
        document(
            left_part(piece, first) + seq![inserted] + right_part(piece, first),
            original,
            added,
        ) == text_with_insertion(
            piece.span(original, added),
            first,
            inserted.span(original, added),
        ),
{
    let left = left_part(piece, first);
    let right = right_part(piece, first);
    let new = seq![inserted];
    lemma_single(inserted, original, added);
    lemma_parts(piece, first, first, original, added);
    lemma_total_length_concat(left, new);
    lemma_total_length_concat(left + new, right);
    lemma_document_concat(left, new, original, added);
    lemma_document_concat(left + new, right, original, added);
}

/// Placing a text inside the middle one of three texts places it in their
/// concatenation, further right by the length of the first.
pub proof fn lemma_text_insertion_inside(
    before: Seq<char>,
    middle: Seq<char>,
    after: Seq<char>,
    first: int,
    inserted: Seq<char>,
)
    requires
        0 <= first <= middle.len(),
    ensures
        text_with_insertion(before + middle + after, before.len() + first, inserted) == before
            + text_with_insertion(middle, first, inserted) + after,
{
    assert(text_with_insertion(before + middle + after, before.len() + first, inserted) =~= before
        + text_with_insertion(middle, first, inserted) + after);
}

/// An insertion into a valid index gives a valid index that is longer by the
/// new piece and stands for the old text with the new piece's span placed at
/// the position. The added buffer may have grown to hold that span.
pub proof fn lemma_with_insertion(
    pieces: Seq<PieceTableEntry>,
    position: int,
    inserted: PieceTableEntry,
    original: Seq<char>,
    added: Seq<char>,
    grown: Seq<char>,
)
    requires
        all_valid(pieces, original.len(), added.len()),
        0 <= position <= total_length(pieces),
        added.is_prefix_of(grown),
        inserted.valid(original.len(), grown.len()),
        original.len() <= u32::MAX,
        grown.len() <= u32::MAX,
    ensures
        all_valid(with_insertion(pieces, position, inserted), original.len(), grown.len()),
        total_length(with_insertion(pieces, position, inserted)) == total_length(pieces)
            + inserted.length,
        document(with_insertion(pieces, position, inserted), original, grown)
            == text_with_insertion(
            document(pieces, original, added),
            position,
            inserted.span(original, grown),
        ),
{
    let text = inserted.span(original, grown);
    lemma_single(inserted, original, grown);
    lemma_document_added_grows(pieces, original, added, grown);
    if pieces.len() == 0 {
        assert(text_with_insertion(Seq::<char>::empty(), position, text) =~= text);
    } else {
        let i = locate(pieces, position);
        lemma_locate_finds(pieces, position);
        lemma_locate_is_first(pieces, position);
        lemma_prefix_step(pieces, i);
        let head = pieces.take(i);
        let tail = pieces.skip(i + 1);
        let piece = pieces[i];
        let first = position - total_length(head);
        let run = left_part(piece, first) + seq![inserted] + right_part(piece, first);
        assert(with_insertion(pieces, position, inserted) =~= head + run + tail);
        lemma_split_at(pieces, i, original, grown);
        lemma_insertion_run(piece, first, inserted, original, grown);
        lemma_replace_piece(pieces, i, run, original, grown);
        lemma_text_insertion_inside(
            document(head, original, grown),
            piece.span(original, grown),
            document(tail, original, grown),
            first,
            text,
        );
    }
}

/// What stays of a valid piece around a cut is valid, shorter by what the
/// cut takes from the piece, and stands for the piece's span without that.
pub proof fn lemma_remainder(
    piece: PieceTableEntry,
    offset: int,
    from: int,
    to: int,
    original: Seq<char>,
    added: Seq<char>,
)
    requires
        piece.valid(original.len(), added.len()),
        original.len() <= u32::MAX,
        added.len() <= u32::MAX,
        from <= to,
    ensures
        all_valid(remainder(piece, offset, from, to), original.len(), added.len()),
        total_length(remainder(piece, offset, from, to)) == piece.length - (clamp(
            to - offset,
            piece.length as int,
        ) - clamp(from - offset, piece.length as int)),
        document(remainder(piece, offset, from, to), original, added) == text_without_range(
            piece.span(original, added),
            clamp(from - offset, piece.length as int),
            clamp(to - offset, piece.length as int),
        ),
{
    let cut_from = clamp(from - offset, piece.length as int);
    let cut_to = clamp(to - offset, piece.length as int);
    if cut_from == cut_to {
        let span = piece.span(original, added);
        lemma_single(piece, original, added);
        assert(text_without_range(span, cut_from, cut_to) =~= span);
    } else {
        let left = left_part(piece, cut_from);
        let right = right_part(piece, cut_to);
        lemma_parts(piece, cut_from, cut_to, original, added);
        lemma_total_length_concat(left, right);
        lemma_document_concat(left, right, original, added);
    }
}

/// Cutting a range out of two texts in a row cuts from each what of the
/// range falls into it.
pub proof fn lemma_text_cut_concat(first: Seq<char>, second: Seq<char>, from: int, to: int)
    requires
        0 <= from <= to,
    ensures
        text_without_range(
            first + second,
            clamp(from, (first + second).len() as int),
            clamp(to, (first + second).len() as int),
        ) == text_without_range(
            first,
            clamp(from, first.len() as int),
            clamp(to, first.len() as int),
        ) + text_without_range(
            second,
            clamp(from - first.len(), second.len() as int),
            clamp(to - first.len(), second.len() as int),
        ),
{
    assert(text_without_range(
        first + second,
        clamp(from, (first + second).len() as int),
        clamp(to, (first + second).len() as int),
    ) =~= text_without_range(
        first,
        clamp(from, first.len() as int),
        clamp(to, first.len() as int),
    ) + text_without_range(
        second,
        clamp(from - first.len(), second.len() as int),
        clamp(to - first.len(), second.len() as int),
    ));
}

/// Cutting a range out of a valid index gives a valid index that is shorter
/// by what of the range lies in the document, and that stands for the old
/// text without it.
pub proof fn lemma_without_range(
    pieces: Seq<PieceTableEntry>,
    from: int,
    to: int,
    original: Seq<char>,
    added: Seq<char>,
)
    requires
        all_valid(pieces, original.len(), added.len()),
        original.len() <= u32::MAX,
        added.len() <= u32::MAX,
        0 <= from <= to,
    ensures
        all_valid(without_range(pieces, from, to), original.len(), added.len()),
        total_length(without_range(pieces, from, to)) == total_length(pieces) - (clamp(
            to,
            total_length(pieces) as int,
        ) - clamp(from, total_length(pieces) as int)),
        document(without_range(pieces, from, to), original, added) == text_without_range(
            document(pieces, original, added),
            clamp(from, total_length(pieces) as int),
            clamp(to, total_length(pieces) as int),
        ),
    decreases pieces.len(),
{
    if pieces.len() > 0 {
        let before = pieces.drop_last();
        let last = pieces.last();
        let offset = total_length(before) as int;
        lemma_document_len(before, original, added);
        lemma_without_range(before, from, to, original, added);
        lemma_remainder(last, offset, from, to, original, added);
        let kept = without_range(before, from, to);
        let rest = remainder(last, offset, from, to);
        lemma_total_length_concat(kept, rest);
        lemma_document_concat(kept, rest, original, added);
        lemma_text_cut_concat(
            document(before, original, added),
            last.span(original, added),
            from,
            to,
        );
    }
}

/// Cutting out an empty range leaves the index as it is.
pub proof fn lemma_without_empty_range(pieces: Seq<PieceTableEntry>, position: int)
    ensures
        without_range(pieces, position, position) == pieces,
    decreases pieces.len(),
{
    if pieces.len() > 0 {
        lemma_without_empty_range(pieces.drop_last(), position);
    }
}

/// The character of the document that lies `k` characters into piece `i`
/// is the character `k` places after the piece's start in its buffer.
pub proof fn lemma_char_in_piece(
    pieces: Seq<PieceTableEntry>,
    i: int,
    k: int,
    original: Seq<char>,
    added: Seq<char>,
)
    requires
        all_valid(pieces, original.len(), added.len()),
        0 <= i < pieces.len(),
        0 <= k < pieces[i].length,
    ensures
        total_length(pieces.take(i)) + k < document(pieces, original, added).len(),
        pieces[i].is_read_only ==> document(pieces, original, added)[total_length(pieces.take(i))
            + k] == original[pieces[i].start + k],
        !pieces[i].is_read_only ==> document(pieces, original, added)[total_length(pieces.take(i))
            + k] == added[pieces[i].start + k],
{
    lemma_split_at(pieces, i, original, added);
}

} // verus!

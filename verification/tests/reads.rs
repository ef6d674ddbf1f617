use piece_table::{PieceTable, PieceTableEntry, PieceTableError};

fn all_chars(piece_table: &PieceTable) -> String {
    let mut text = String::new();
    for position in 0..piece_table.length() {
        text.push(piece_table.char_at(position).unwrap());
    }
    text
}

#[test]
fn char_at_init_state() {
    let piece_table = PieceTable::init("lorem");
    assert_eq!(
        piece_table.data(),
        vec![
            PieceTableEntry {
                is_read_only: true,
                start: 0,
                length: 5,
            },
        ]
    );
    assert!(piece_table.read_only_buffer() == "lorem");
    assert!(piece_table.append_only_buffer() == "");

    assert_eq!(piece_table.char_at(0), Ok('l'));
    assert_eq!(piece_table.char_at(1), Ok('o'));
    assert_eq!(piece_table.char_at(2), Ok('r'));
    assert_eq!(piece_table.char_at(3), Ok('e'));
    assert_eq!(piece_table.char_at(4), Ok('m'));
}

#[test]
fn char_at_the_end_or_past_it_is_refused() {
    let piece_table = PieceTable::init("lorem");
    assert_eq!(
        piece_table.char_at(5),
        Err(PieceTableError::PositionOutOfBounds { requested: 5, max: 5 })
    );
    assert_eq!(
        piece_table.char_at(u32::MAX),
        Err(PieceTableError::PositionOutOfBounds { requested: u32::MAX, max: 5 })
    );

    let empty = PieceTable::init("");
    assert_eq!(
        empty.char_at(0),
        Err(PieceTableError::PositionOutOfBounds { requested: 0, max: 0 })
    );
}

#[test]
fn char_at_reads_the_first_character_of_the_piece_after_a_boundary() {
    let mut piece_table = PieceTable::init("lorem");
    piece_table.add("hoho", 2).unwrap();
    assert_eq!(piece_table.char_at(1), Ok('o'));
    assert_eq!(piece_table.char_at(2), Ok('h'));
    assert_eq!(piece_table.char_at(5), Ok('o'));
    assert_eq!(piece_table.char_at(6), Ok('r'));
    assert_eq!(piece_table.char_at(8), Ok('m'));
}

#[test]
fn char_at_agrees_with_materialize() {
    let mut piece_table = PieceTable::init("");
    piece_table.add("haha", 0).unwrap();
    assert_eq!(all_chars(&piece_table), "haha");
    assert_eq!(piece_table.materialize(), "haha");

    let mut piece_table = PieceTable::init("lorem");
    piece_table.add("hoho", 2).unwrap();
    assert_eq!(all_chars(&piece_table), "lohohorem");
    assert_eq!(piece_table.materialize(), "lohohorem");

    let mut piece_table = PieceTable::init("loremipsum");
    piece_table.delete(5, 2).unwrap();
    assert_eq!(all_chars(&piece_table), "loremsum");
    assert_eq!(piece_table.materialize(), "loremsum");

    let mut piece_table = PieceTable::init("loremrem");
    piece_table.add("hoho", 5).unwrap();
    piece_table.delete(7, 4).unwrap();
    assert_eq!(all_chars(&piece_table), "loremhom");
    assert_eq!(piece_table.materialize(), "loremhom");
}

#[test]
fn materialize_can_be_read_again() {
    let mut piece_table = PieceTable::init("lorem");
    piece_table.add("hoho", 2).unwrap();
    assert_eq!(piece_table.materialize(), "lohohorem");
    assert_eq!(piece_table.materialize(), "lohohorem");
    piece_table.delete(0, 1).unwrap();
    assert_eq!(piece_table.materialize(), "ohohorem");
}

#[test]
fn positions_count_characters() {
    let mut piece_table = PieceTable::init("h\u{e9}llo w\u{f6}rld");
    assert_eq!(piece_table.length(), 11);
    assert_eq!(
        piece_table.data(),
        vec![PieceTableEntry { is_read_only: true, start: 0, length: 11 }]
    );
    assert_eq!(piece_table.char_at(1), Ok('\u{e9}'));
    assert_eq!(piece_table.char_at(2), Ok('l'));

    piece_table.add("\u{df}\u{4e16}", 2).unwrap();
    assert_eq!(piece_table.length(), 13);
    assert_eq!(piece_table.materialize(), "h\u{e9}\u{df}\u{4e16}llo w\u{f6}rld");
    assert_eq!(piece_table.char_at(3), Ok('\u{4e16}'));
    assert_eq!(piece_table.char_at(4), Ok('l'));

    piece_table.add("!", 13).unwrap();
    assert_eq!(
        piece_table.data()[3],
        PieceTableEntry { is_read_only: false, start: 2, length: 1 }
    );
    piece_table.delete(1, 2).unwrap();
    assert_eq!(piece_table.materialize(), "h\u{4e16}llo w\u{f6}rld!");
    assert_eq!(all_chars(&piece_table), "h\u{4e16}llo w\u{f6}rld!");
}

#[test]
fn position_resolves_to_the_earlier_piece_at_a_boundary() {
    let mut piece_table = PieceTable::init("lorem");
    piece_table.add("hoho", 2).unwrap();
    let first = PieceTableEntry { is_read_only: true, start: 0, length: 2 };
    let second = PieceTableEntry { is_read_only: false, start: 0, length: 4 };
    let third = PieceTableEntry { is_read_only: true, start: 2, length: 3 };

    assert_eq!(piece_table.find_entry_at_position(0), Some((first, 0, 0)));
    assert_eq!(piece_table.find_entry_at_position(1), Some((first, 0, 0)));
    assert_eq!(piece_table.find_entry_at_position(2), Some((first, 0, 0)));
    assert_eq!(piece_table.find_entry_at_position(3), Some((second, 1, 2)));
    assert_eq!(piece_table.find_entry_at_position(6), Some((second, 1, 2)));
    assert_eq!(piece_table.find_entry_at_position(7), Some((third, 2, 6)));
    assert_eq!(piece_table.find_entry_at_position(9), Some((third, 2, 6)));
    assert_eq!(piece_table.find_entry_at_position(10), None);
}

#[test]
fn position_in_an_empty_index_resolves_to_nothing() {
    let piece_table = PieceTable::init("");
    assert_eq!(piece_table.find_entry_at_position(0), None);
    assert_eq!(piece_table.find_entry_at_position(1), None);
}

#[test]
fn position_validity_runs_up_to_the_document_length() {
    let mut piece_table = PieceTable::init("lorem");
    assert_eq!(piece_table.check_position_validity(0), Ok(()));
    assert_eq!(piece_table.check_position_validity(5), Ok(()));
    assert_eq!(
        piece_table.check_position_validity(6),
        Err(PieceTableError::PositionOutOfBounds { requested: 6, max: 5 })
    );
    piece_table.add("hoho", 5).unwrap();
    assert_eq!(piece_table.check_position_validity(9), Ok(()));
    assert_eq!(
        piece_table.check_position_validity(10),
        Err(PieceTableError::PositionOutOfBounds { requested: 10, max: 9 })
    );
}

#[test]
fn length_follows_every_edit() {
    let mut piece_table = PieceTable::init("lorem");
    assert_eq!(piece_table.length(), 5);
    piece_table.add("hoho", 2).unwrap();
    assert_eq!(piece_table.length(), 9);
    piece_table.delete(1, 5).unwrap();
    assert_eq!(piece_table.length(), 4);
    assert!(piece_table.delete(0, 5).is_err());
    assert_eq!(piece_table.length(), 4);
}

#[test]
fn small_texts_can_be_added() {
    let mut piece_table = PieceTable::init("lorem");
    assert!(piece_table.can_add("hoho"));
    assert!(piece_table.can_add(""));
    piece_table.add("hoho", 2).unwrap();
    assert!(piece_table.can_add("more"));
}

#[test]
fn pieces_are_equal_when_all_three_fields_are() {
    let piece = PieceTableEntry { is_read_only: true, start: 2, length: 3 };
    assert_eq!(piece, PieceTableEntry { is_read_only: true, start: 2, length: 3 });
    assert_ne!(piece, PieceTableEntry { is_read_only: false, start: 2, length: 3 });
    assert_ne!(piece, PieceTableEntry { is_read_only: true, start: 1, length: 3 });
    assert_ne!(piece, PieceTableEntry { is_read_only: true, start: 2, length: 4 });
}

use ropey::Rope;
use zee_edit::movement::{
    move_horizontally, move_to_end_of_line, move_to_start_of_line, move_vertically,
};
use zee_edit::{Cursor, Direction};

#[test]
fn vertical_moves_keep_the_column() {
    let text = Rope::from("abc\nde\nfghij\n");
    let mut cursor = Cursor::with_range(2..3);
    move_vertically(&text, &mut cursor, Direction::Forward, 1);
    // the line is shorter: the cursor comes to its end
    assert_eq!(cursor.range(), 6..7);
    move_vertically(&text, &mut cursor, Direction::Forward, 1);
    // the column is remembered
    assert_eq!(cursor.range(), 9..10);
    move_vertically(&text, &mut cursor, Direction::Forward, 1);
    assert_eq!(cursor.range(), 13..13);
    move_vertically(&text, &mut cursor, Direction::Forward, 5);
    assert_eq!(cursor.range(), 13..13);
    move_vertically(&text, &mut cursor, Direction::Backward, 10);
    assert_eq!(cursor.range(), 2..3);
    assert_eq!(cursor.column_offset(&text), 2);
}

#[test]
fn a_horizontal_move_forgets_the_column() {
    let text = Rope::from("abcdef\nx\nabcdef\n");
    let mut cursor = Cursor::with_range(4..5);
    move_vertically(&text, &mut cursor, Direction::Forward, 1);
    assert_eq!(cursor.range(), 8..9);
    move_horizontally(&text, &mut cursor, Direction::Backward, 1);
    assert_eq!(cursor.range(), 7..8);
    move_vertically(&text, &mut cursor, Direction::Forward, 1);
    assert_eq!(cursor.range(), 9..10);
}

#[test]
fn vertical_moves_count_columns_not_characters() {
    let text = Rope::from("\tx\nabcdefg\n豈豈豈\n");
    let mut cursor = Cursor::with_range(1..2);
    assert_eq!(cursor.column_offset(&text), 4);
    move_vertically(&text, &mut cursor, Direction::Forward, 1);
    assert_eq!(cursor.range(), 7..8);
    move_vertically(&text, &mut cursor, Direction::Forward, 1);
    // two wide characters reach column 4
    assert_eq!(cursor.range(), 13..14);
    move_vertically(&text, &mut cursor, Direction::Backward, 2);
    assert_eq!(cursor.range(), 1..2);
}

#[test]
fn vertical_moves_keep_the_anchor() {
    let text = Rope::from("one\ntwo\n");
    let mut cursor = Cursor::with_range(1..2);
    cursor.begin_selection();
    move_vertically(&text, &mut cursor, Direction::Forward, 1);
    assert_eq!(cursor.range(), 5..6);
    assert_eq!(cursor.selection(), 1..5);
}

#[test]
fn vertical_moves_in_an_empty_buffer() {
    let text = Rope::from("");
    let mut cursor = Cursor::new();
    move_vertically(&text, &mut cursor, Direction::Forward, 3);
    assert_eq!(cursor.range(), 0..0);
    move_vertically(&text, &mut cursor, Direction::Backward, 3);
    assert_eq!(cursor.range(), 0..0);
}

#[test]
fn moves_to_the_ends_of_the_line() {
    let text = Rope::from("ab\ncd\r\nef");
    let mut cursor = Cursor::with_range(4..5);
    cursor.begin_selection();
    move_to_start_of_line(&text, &mut cursor);
    assert_eq!(cursor.range(), 3..4);
    assert_eq!(cursor.selection(), 3..4);
    move_to_end_of_line(&text, &mut cursor);
    // on the cluster of the line break
    assert_eq!(cursor.range(), 5..7);
    assert_eq!(cursor.selection(), 4..5);

    let mut cursor = Cursor::with_range(0..1);
    move_to_end_of_line(&text, &mut cursor);
    assert_eq!(cursor.range(), 2..3);
    move_to_start_of_line(&text, &mut cursor);
    assert_eq!(cursor.range(), 0..1);

    // no line break ends the last line
    let mut cursor = Cursor::with_range(7..8);
    move_to_end_of_line(&text, &mut cursor);
    assert_eq!(cursor.range(), 9..9);
    move_to_start_of_line(&text, &mut cursor);
    assert_eq!(cursor.range(), 7..8);
    let mut cursor = Cursor::with_range(70..80);
    move_to_start_of_line(&text, &mut cursor);
    assert_eq!(cursor.range(), 7..8);
}

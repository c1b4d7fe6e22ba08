use ropey::Rope;
use zee_edit::movement::{move_horizontally, move_to_end_of_buffer, move_to_start_of_buffer};
use zee_edit::{Cursor, Direction};

#[test]
fn new_cursor_is_an_empty_caret_at_the_start() {
    let cursor = Cursor::new();
    assert!(cursor.is_empty());
    assert_eq!(cursor.range(), 0..0);
    assert_eq!(cursor.selection(), 0..0);
    assert_eq!(cursor, Cursor::default());
}

#[test]
fn with_range_covers_the_range_without_selection() {
    let cursor = Cursor::with_range(3..5);
    assert!(!cursor.is_empty());
    assert_eq!(cursor.range(), 3..5);
    assert_eq!(cursor.selection(), 3..5);
}

#[test]
fn selection_reaches_from_the_anchor_to_the_start_either_way() {
    let text = Rope::from("hello world");

    // anchor in front of the cursor
    let mut cursor = Cursor::with_range(2..3);
    cursor.begin_selection();
    move_horizontally(&text, &mut cursor, Direction::Forward, 4);
    assert_eq!(cursor.range(), 6..7);
    assert_eq!(cursor.selection(), 2..6);

    // anchor behind the cursor
    let mut cursor = Cursor::with_range(6..7);
    cursor.begin_selection();
    move_horizontally(&text, &mut cursor, Direction::Backward, 4);
    assert_eq!(cursor.range(), 2..3);
    assert_eq!(cursor.selection(), 2..6);

    // anchor at the start of the cursor: the cursor's own range
    let mut cursor = Cursor::with_range(4..5);
    cursor.begin_selection();
    assert_eq!(cursor.selection(), 4..5);

    cursor.clear_selection();
    assert_eq!(cursor, Cursor::with_range(4..5));
}

#[test]
fn end_of_buffer_is_on_the_last_cluster() {
    let text = Rope::from("abc");
    assert_eq!(Cursor::end_of_buffer(&text).range(), 2..3);
    let text = Rope::from("ab\u{65}\u{301}");
    assert_eq!(Cursor::end_of_buffer(&text).range(), 2..4);
    let text = Rope::from("");
    assert_eq!(Cursor::end_of_buffer(&text).range(), 0..0);
}

#[test]
fn select_all_spans_the_buffer() {
    let text = Rope::from("one\ntwo\n");
    let mut cursor = Cursor::with_range(5..6);
    cursor.select_all(&text);
    assert_eq!(cursor.range(), 0..1);
    assert_eq!(cursor.selection(), 0..8);
}

#[test]
fn column_offset_counts_columns_from_the_start_of_the_line() {
    let text = Rope::from("ab\n\tcd");
    assert_eq!(Cursor::with_range(0..1).column_offset(&text), 0);
    assert_eq!(Cursor::with_range(1..2).column_offset(&text), 1);
    assert_eq!(Cursor::with_range(3..4).column_offset(&text), 0);
    assert_eq!(Cursor::with_range(4..5).column_offset(&text), 4);
    assert_eq!(Cursor::with_range(5..6).column_offset(&text), 5);
    // a start past the end counts as the end
    assert_eq!(Cursor::with_range(40..41).column_offset(&text), 6);
}

#[test]
fn column_offset_counts_wide_and_combining_clusters() {
    let text = Rope::from("豈e\u{301}x");
    assert_eq!(Cursor::with_range(1..3).column_offset(&text), 2);
    assert_eq!(Cursor::with_range(3..4).column_offset(&text), 3);
}

#[test]
fn horizontal_moves_go_cluster_by_cluster_and_stop_at_the_ends() {
    let text = Rope::from("a\u{65}\u{301}b\r\nc");
    let mut cursor = Cursor::new();
    move_horizontally(&text, &mut cursor, Direction::Forward, 1);
    assert_eq!(cursor.range(), 1..3);
    move_horizontally(&text, &mut cursor, Direction::Forward, 1);
    assert_eq!(cursor.range(), 3..4);
    move_horizontally(&text, &mut cursor, Direction::Forward, 1);
    assert_eq!(cursor.range(), 4..6);
    move_horizontally(&text, &mut cursor, Direction::Forward, 10);
    assert_eq!(cursor.range(), 7..7);
    move_horizontally(&text, &mut cursor, Direction::Backward, 2);
    assert_eq!(cursor.range(), 4..6);
    move_horizontally(&text, &mut cursor, Direction::Backward, 10);
    assert_eq!(cursor.range(), 0..1);
}

#[test]
fn a_move_by_nothing_puts_the_cursor_on_the_cluster_at_its_start() {
    let text = Rope::from("abc");
    let mut cursor = Cursor::with_range(1..1);
    move_horizontally(&text, &mut cursor, Direction::Forward, 0);
    assert_eq!(cursor.range(), 1..2);
    let mut cursor = Cursor::with_range(9..9);
    move_horizontally(&text, &mut cursor, Direction::Backward, 0);
    assert_eq!(cursor.range(), 3..3);
}

#[test]
fn moves_to_the_ends_of_the_buffer() {
    let text = Rope::from("\u{65}\u{301}bc");
    let mut cursor = Cursor::with_range(2..3);
    cursor.begin_selection();
    move_to_end_of_buffer(&text, &mut cursor);
    assert_eq!(cursor.range(), 4..4);
    assert_eq!(cursor.selection(), 2..4);
    move_to_start_of_buffer(&text, &mut cursor);
    assert_eq!(cursor.range(), 0..2);
    assert_eq!(cursor.selection(), 0..2);
}

#[test]
fn cursors_stay_on_cluster_boundaries_through_moves_and_syncs() {
    let text = Rope::from("a\u{65}\u{301}\u{1F1F7}\u{1F1F8}\r\nz");
    let mut cursor = Cursor::new();
    for _ in 0..8 {
        move_horizontally(&text, &mut cursor, Direction::Forward, 1);
        let range = cursor.range();
        assert!(range.start <= range.end && range.end <= text.len_chars());
        assert!(zee_edit::graphemes::is_grapheme_boundary(&text, range.start));
        assert!(zee_edit::graphemes::is_grapheme_boundary(&text, range.end));
    }
    let other = Rope::from("\u{1F1F7}\u{1F1F8}\u{1F1EE}\u{1F1F4}\nq\u{308}");
    cursor.sync(&text, &other);
    let range = cursor.range();
    assert!(range.start <= range.end && range.end <= other.len_chars());
    assert!(zee_edit::graphemes::is_grapheme_boundary(&other, range.start));
    assert!(zee_edit::graphemes::is_grapheme_boundary(&other, range.end));
}

#[test]
fn a_cursor_at_a_place_covers_the_cluster_that_holds_it() {
    let text = Rope::from("a\u{65}\u{301}\u{301}b");
    assert_eq!(Cursor::at(&text, 0).range(), 0..1);
    assert_eq!(Cursor::at(&text, 1).range(), 1..4);
    assert_eq!(Cursor::at(&text, 2).range(), 1..4);
    assert_eq!(Cursor::at(&text, 3).range(), 1..4);
    assert_eq!(Cursor::at(&text, 4).range(), 4..5);
    assert_eq!(Cursor::at(&text, 5).range(), 5..5);
    assert_eq!(Cursor::at(&text, 50).range(), 5..5);
    assert_eq!(Cursor::at(&text, 2), Cursor::with_range(1..4));
    assert_eq!(Cursor::at(&Rope::from(""), 3), Cursor::new());
}

#[test]
fn a_move_by_nothing_from_inside_a_cluster_goes_to_its_start() {
    let text = Rope::from("a\u{65}\u{301}\u{301}b");
    let mut cursor = Cursor::with_range(2..3);
    move_horizontally(&text, &mut cursor, Direction::Forward, 0);
    assert_eq!(cursor.range(), 1..4);
    let mut cursor = Cursor::with_range(3..3);
    move_horizontally(&text, &mut cursor, Direction::Backward, 1);
    assert_eq!(cursor.range(), 1..4);
    let mut cursor = Cursor::with_range(3..3);
    move_horizontally(&text, &mut cursor, Direction::Forward, 1);
    assert_eq!(cursor.range(), 4..5);
}

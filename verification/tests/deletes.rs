use ropey::Rope;
use zee_edit::movement::{move_horizontally, move_to_end_of_buffer};
use zee_edit::{Cursor, Direction, OpaqueDiff};

#[test]
fn delete_forward_hands_back_what_it_deleted() {
    let mut text = Rope::from("a\u{65}\u{301}bc");
    let mut cursor = Cursor::with_range(1..3);
    let operation = cursor.delete_forward(&mut text);
    assert_eq!(text, "abc");
    assert_eq!(operation.deleted, "\u{65}\u{301}");
    assert_eq!(operation.diff, OpaqueDiff::new(1, 3, 0, 1, 2, 0));
    assert_eq!(cursor, Cursor::with_range(1..2));
}

#[test]
fn deleting_forward_and_putting_the_text_back_gives_the_buffer_as_it_was() {
    let initial = "Ⅷ 豈 e\u{301}\r\nend";
    let mut index = 0;
    loop {
        let mut text = Rope::from(initial);
        if index >= text.len_chars() {
            break;
        }
        let mut cursor = Cursor::with_range(index..index);
        move_horizontally(&text, &mut cursor, Direction::Forward, 0);
        let start = cursor.range().start;
        let operation = cursor.delete_forward(&mut text);
        assert_ne!(text, initial);
        let deleted: Vec<char> = operation.deleted.chars().collect();
        let mut caret = Cursor::with_range(start..start);
        caret.insert_chars(&mut text, &deleted);
        assert_eq!(text, initial);
        assert_eq!(text.len_bytes(), initial.len());
        index = zee_edit::graphemes::next_grapheme_boundary(&text, index);
    }
}

#[test]
fn deletions_in_an_empty_buffer_do_nothing() {
    let mut text = Rope::from("");
    let mut cursor = Cursor::new();
    for round in 0..4 {
        let operation = match round {
            0 => cursor.delete_forward(&mut text),
            1 => cursor.delete_backward(&mut text),
            2 => cursor.delete_line(&mut text),
            _ => cursor.delete_selection(&mut text),
        };
        assert!(operation.diff.is_empty());
        assert_eq!(operation.diff, OpaqueDiff::empty());
        assert_eq!(operation.deleted.len_chars(), 0);
        assert_eq!(text, "");
        assert_eq!(cursor.range(), 0..0);
        assert_eq!(cursor, Cursor::new());
    }
}

#[test]
fn delete_forward_from_index_clamps_its_range() {
    let mut text = Rope::from("hello");
    let mut cursor = Cursor::with_range(0..1);
    let operation = cursor.delete_forward_from_index(&mut text, 3, 10);
    assert_eq!(text, "hel");
    assert_eq!(operation.deleted, "lo");
    assert_eq!(operation.diff, OpaqueDiff::new(3, 2, 0, 3, 2, 0));
    assert_eq!(cursor, Cursor::with_range(3..3));

    // nothing is left to delete at or past the end, or with no length
    let operation = cursor.delete_forward_from_index(&mut text, 3, 1);
    assert!(operation.diff.is_empty());
    let operation = cursor.delete_forward_from_index(&mut text, 9, 1);
    assert!(operation.diff.is_empty());
    let operation = cursor.delete_forward_from_index(&mut text, 1, 0);
    assert!(operation.diff.is_empty());
    assert_eq!(text, "hel");
    assert_eq!(cursor, Cursor::with_range(3..3));
}

#[test]
fn delete_backward_deletes_the_cluster_in_front() {
    let mut text = Rope::from("ae\u{301}b");
    let mut cursor = Cursor::with_range(3..4);
    let operation = cursor.delete_backward(&mut text);
    assert_eq!(text, "ab");
    assert_eq!(operation.deleted, "e\u{301}");
    assert_eq!(operation.diff, OpaqueDiff::new(1, 3, 0, 1, 2, 0));
    assert_eq!(cursor, Cursor::with_range(1..2));
}

#[test]
fn delete_backward_gives_up_the_selection() {
    let mut text = Rope::from("abc");
    let mut cursor = Cursor::with_range(0..1);
    cursor.begin_selection();
    move_to_end_of_buffer(&text, &mut cursor);
    cursor.delete_backward(&mut text);
    assert_eq!(text, "ab");
    assert_eq!(cursor, Cursor::with_range(2..2));
}

#[test]
fn delete_line_takes_the_line_with_its_break() {
    let mut text = Rope::from("one\ntwo\nthree\n");
    let mut cursor = Cursor::with_range(5..6);
    let operation = cursor.delete_line(&mut text);
    assert_eq!(text, "one\nthree\n");
    assert_eq!(operation.deleted, "two\n");
    assert_eq!(operation.diff, OpaqueDiff::new(4, 4, 0, 4, 4, 0));
    assert_eq!(cursor, Cursor::with_range(4..5));
}

#[test]
fn delete_line_on_the_last_line_goes_to_the_line_before() {
    let mut text = Rope::from("one\ntwo\nthree");
    let mut cursor = Cursor::with_range(9..10);
    let operation = cursor.delete_line(&mut text);
    assert_eq!(text, "one\ntwo\n");
    assert_eq!(operation.deleted, "three");
    assert_eq!(operation.diff, OpaqueDiff::new(8, 5, 0, 8, 5, 0));
    // the last line that ends in a line break
    assert_eq!(cursor, Cursor::with_range(4..5));

    let mut text = Rope::from("only");
    let mut cursor = Cursor::with_range(2..3);
    let operation = cursor.delete_line(&mut text);
    assert_eq!(text, "");
    assert_eq!(operation.deleted, "only");
    assert_eq!(cursor, Cursor::new());
}

#[test]
fn delete_line_on_an_empty_last_line_deletes_nothing_there() {
    let mut text = Rope::from("one\n");
    let mut cursor = Cursor::with_range(4..4);
    let operation = cursor.delete_line(&mut text);
    assert_eq!(text, "one\n");
    assert_eq!(operation.deleted, "");
    assert_eq!(operation.diff, OpaqueDiff::new(4, 0, 0, 4, 0, 0));
    assert_eq!(cursor, Cursor::with_range(0..1));
}

#[test]
fn delete_selection_takes_the_selected_span() {
    let mut text = Rope::from("hello world");
    let mut cursor = Cursor::with_range(2..3);
    cursor.begin_selection();
    move_horizontally(&text, &mut cursor, Direction::Forward, 5);
    assert_eq!(cursor.selection(), 2..7);
    let operation = cursor.delete_selection(&mut text);
    assert_eq!(text, "heorld");
    assert_eq!(operation.deleted, "llo w");
    assert_eq!(operation.diff, OpaqueDiff::new(2, 5, 0, 2, 5, 0));
    assert_eq!(cursor, Cursor::with_range(2..3));
}

#[test]
fn delete_selection_with_the_anchor_behind_the_cursor() {
    let mut text = Rope::from("hello world");
    let mut cursor = Cursor::with_range(7..8);
    cursor.begin_selection();
    move_horizontally(&text, &mut cursor, Direction::Backward, 5);
    assert_eq!(cursor.selection(), 2..7);
    let operation = cursor.delete_selection(&mut text);
    assert_eq!(text, "heorld");
    assert_eq!(operation.deleted, "llo w");
    assert_eq!(cursor, Cursor::with_range(2..3));
}

#[test]
fn delete_selection_up_to_the_end_leaves_the_cursor_on_the_last_cluster() {
    let mut text = Rope::from("hello");
    let mut cursor = Cursor::with_range(3..4);
    cursor.begin_selection();
    move_to_end_of_buffer(&text, &mut cursor);
    let operation = cursor.delete_selection(&mut text);
    assert_eq!(text, "hel");
    assert_eq!(operation.deleted, "lo");
    assert_eq!(cursor, Cursor::with_range(2..3));
}

#[test]
fn delete_selection_without_a_selection_takes_the_cursor_s_range() {
    let mut text = Rope::from("hello");
    let mut cursor = Cursor::with_range(1..2);
    let operation = cursor.delete_selection(&mut text);
    assert_eq!(text, "hllo");
    assert_eq!(operation.deleted, "e");
    assert_eq!(cursor, Cursor::with_range(1..2));
}

#[test]
fn the_diff_of_a_deletion_accounts_for_the_change_of_length() {
    let texts = ["one\ntwo\nthree\n", "\t豈 更\r\nx", "a", "\n\n\n"];
    for initial in texts {
        for start in 0..initial.chars().count() {
            for round in 0..4 {
                let mut text = Rope::from(initial);
                let mut cursor = Cursor::with_range(start..start);
                move_horizontally(&text, &mut cursor, Direction::Forward, 0);
                cursor.begin_selection();
                move_horizontally(&text, &mut cursor, Direction::Forward, 2);
                if round % 2 == 0 {
                    cursor.clear_selection();
                }
                let before = text.len_chars() as i64;
                let operation = match round {
                    0 => cursor.delete_forward(&mut text),
                    1 => cursor.delete_backward(&mut text),
                    2 => cursor.delete_line(&mut text),
                    _ => cursor.delete_selection(&mut text),
                };
                let after = text.len_chars() as i64;
                let diff = operation.diff;
                assert_eq!(diff.new_char_length as i64 - diff.old_char_length as i64, after - before);
                assert_eq!(operation.deleted.len_chars(), diff.old_char_length);
                assert_eq!(operation.deleted.len_bytes(), diff.old_byte_length);
                let range = cursor.range();
                assert!(range.start <= range.end && range.end <= text.len_chars());
            }
        }
    }
}

#[test]
fn a_deletion_that_joins_two_clusters_leaves_the_cursor_on_the_joined_one() {
    // a leading consonant and a vowel of a syllable, with a letter in between
    let mut text = Rope::from("\u{1100}x\u{1161}");
    let mut cursor = Cursor::with_range(1..2);
    let operation = cursor.delete_forward(&mut text);
    assert_eq!(text, "\u{1100}\u{1161}");
    assert_eq!(operation.deleted, "x");
    assert_eq!(operation.diff, OpaqueDiff::new(3, 1, 0, 1, 1, 0));
    assert_eq!(cursor, Cursor::with_range(0..2));

    // a carriage return and a line feed, with a selection in between
    let mut text = Rope::from("a\rxy\nb");
    let mut cursor = Cursor::with_range(2..3);
    cursor.begin_selection();
    move_horizontally(&text, &mut cursor, Direction::Forward, 2);
    let operation = cursor.delete_selection(&mut text);
    assert_eq!(text, "a\r\nb");
    assert_eq!(operation.deleted, "xy");
    assert_eq!(cursor, Cursor::with_range(1..3));
}

#[test]
fn cursors_stay_on_cluster_boundaries_through_deletions() {
    let texts = [
        "\u{1100}x\u{1161}\u{1F1F7}y\u{1F1F8}\r\nq\u{308}",
        "a\rx\ny\u{301}\r\n\u{1F1F7}\u{1F1F8}\u{1F1EE}\u{1F1F4}",
        "\tone\n  two\r\n\u{65}\u{301}three",
    ];
    for initial in texts {
        for start in 0..initial.chars().count() {
            for round in 0..5 {
                let mut text = Rope::from(initial);
                let mut cursor = Cursor::at(&text, start);
                cursor.begin_selection();
                move_horizontally(&text, &mut cursor, Direction::Forward, 2);
                if round % 2 == 0 {
                    cursor.clear_selection();
                }
                match round {
                    0 => cursor.delete_forward(&mut text),
                    1 => cursor.delete_backward(&mut text),
                    2 => cursor.delete_line(&mut text),
                    3 => cursor.delete_selection(&mut text),
                    _ => cursor.unindent(&mut text),
                };
                let range = cursor.range();
                assert!(range.start <= range.end && range.end <= text.len_chars());
                assert!(zee_edit::graphemes::is_grapheme_boundary(&text, range.start));
                assert!(zee_edit::graphemes::is_grapheme_boundary(&text, range.end));
            }
        }
    }
}

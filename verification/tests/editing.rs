use ropey::Rope;
use zee_edit::movement::{move_horizontally, move_to_end_of_buffer, move_to_start_of_buffer};
use zee_edit::{Cursor, Direction};

fn text_with_cursor(text: impl Into<Rope>) -> (Rope, Cursor) {
    let text = text.into();
    let mut cursor = Cursor::new();
    move_horizontally(&text, &mut cursor, Direction::Backward, 1);
    (text, cursor)
}

#[test]
fn sync_with_empty() {
    let current_text = Rope::from("Buy a milk goat\nAt the market\n");
    let new_text = Rope::from("");
    let mut cursor = Cursor::new();
    move_horizontally(&current_text, &mut cursor, Direction::Forward, 4);
    cursor.sync(&current_text, &new_text);
    assert_eq!(Cursor::new(), cursor);
}

// Delete forward
#[test]
fn delete_forward_at_the_end() {
    let (mut text, mut cursor) = text_with_cursor(TEXT);
    let expected = text.clone();
    move_to_end_of_buffer(&text, &mut cursor);
    cursor.delete_forward(&mut text);
    assert_eq!(expected, text);
}

#[test]
fn delete_forward_empty_text() {
    let (mut text, mut cursor) = text_with_cursor("");
    cursor.delete_forward(&mut text);
    assert_eq!(cursor, Cursor::new());
}

#[test]
fn delete_forward_at_the_begining() {
    let (mut text, mut cursor) = text_with_cursor("// Hello world!\n\n");
    let expected = Rope::from("Hello world!\n\n");
    cursor.delete_forward(&mut text);
    cursor.delete_forward(&mut text);
    cursor.delete_forward(&mut text);
    assert_eq!(expected, text);
}

#[test]
fn delete_forward_from_index() {
    let (mut text, mut cursor) = text_with_cursor("// Hello world!\n\n");
    let expected = Rope::from("// Hello rld!\n\n");

    cursor.delete_forward_from_index(&mut text, 9, 2);
    assert_eq!(expected, text);
}

// Delete backward
#[test]
fn delete_backward_at_the_end() {
    let (mut text, mut cursor) = text_with_cursor("// Hello world!\n");
    move_to_end_of_buffer(&text, &mut cursor);
    cursor.delete_backward(&mut text);
    assert_eq!(Rope::from("// Hello world!"), text);
    cursor.delete_backward(&mut text);
    assert_eq!(Rope::from("// Hello world"), text);
}

#[test]
fn delete_backward_empty_text() {
    let (mut text, mut cursor) = text_with_cursor("");
    cursor.delete_backward(&mut text);
    assert_eq!(cursor, Cursor::new());
}

#[test]
fn delete_backward_at_the_begining() {
    let (mut text, mut cursor) = text_with_cursor("// Hello world!\n");
    let expected = text.clone();
    cursor.delete_backward(&mut text);
    assert_eq!(expected, text);
}

#[test]
fn unindent_selection_text_on_all_lines() {
    let (mut text, mut cursor) = text_with_cursor("\tline1\n\tline2\n\tline3\n");
    cursor.begin_selection();
    move_to_end_of_buffer(&text, &mut cursor);
    move_horizontally(&text, &mut cursor, Direction::Backward, 4);

    let expected = "line1\nline2\nline3\n";
    cursor.unindent_selection(&mut text);
    assert_eq!(expected, text);
}

#[test]
fn unindent_selection_text_on_all_lines_bottom_up() {
    let (mut text, mut cursor) = text_with_cursor("\tline1\n\tline2\n\tline3\n");
    move_to_end_of_buffer(&text, &mut cursor);
    cursor.begin_selection();
    move_to_start_of_buffer(&text, &mut cursor);

    let expected = "line1\nline2\nline3\n";
    cursor.unindent_selection(&mut text);
    assert_eq!(expected, text);
}

#[test]
fn unindent_selection_blank_last_line() {
    let (mut text, mut cursor) = text_with_cursor("\tline1\n\tline2\n");
    cursor.begin_selection();
    move_to_end_of_buffer(&text, &mut cursor);
    move_horizontally(&text, &mut cursor, Direction::Backward, 2);

    let expected = "line1\nline2\n";
    cursor.unindent_selection(&mut text);
    assert_eq!(expected, text);
}

#[test]
fn unindent_selection_blank_last_line_bottom_up() {
    let (mut text, mut cursor) = text_with_cursor("\tline1\n\tline2\n\n\n");
    move_to_end_of_buffer(&text, &mut cursor);
    cursor.begin_selection();
    move_to_start_of_buffer(&text, &mut cursor);

    let expected = "line1\nline2\n\n\n";
    cursor.unindent_selection(&mut text);
    assert_eq!(expected, text);
}

#[test]
fn unindent_selection_blank_first_line() {
    let (mut text, mut cursor) = text_with_cursor("\n\tline1\nline2\n");
    cursor.begin_selection();
    move_to_end_of_buffer(&text, &mut cursor);
    move_horizontally(&text, &mut cursor, Direction::Backward, 2);

    let expected = "\nline1\nline2\n";
    cursor.unindent_selection(&mut text);

    assert_eq!(expected, text);

    assert_eq!(cursor.selection().start, 0);
    assert_eq!(cursor.selection().end, text.len_chars() - 2);
}

#[test]
fn unindent_selection_blank_first_line_bottom_up() {
    let (mut text, mut cursor) = text_with_cursor("\n\t\tline1\n\tline2\n");
    move_to_end_of_buffer(&text, &mut cursor);
    cursor.begin_selection();
    move_to_start_of_buffer(&text, &mut cursor);

    cursor.unindent_selection(&mut text);
    cursor.unindent_selection(&mut text);

    let expected = "\nline1\nline2\n";
    assert_eq!(expected, text);

    assert_eq!(cursor.selection().start, 0);
    assert_eq!(cursor.selection().end, text.len_chars());
}

// Leading whitespace calculation

#[test]
fn length_of_leading_whitespace_spaces() {
    let (mut text, cursor) = text_with_cursor("    // Hello world!\n\n");
    let expected = 4;
    let result = cursor.length_of_leading_whitespace(&mut text, 0);
    assert_eq!(expected, result);
}

#[test]
fn length_of_leading_whitespace_tab() {
    let (mut text, cursor) = text_with_cursor("\t// Hello world!\n\n");
    let expected = 1;
    let result = cursor.length_of_leading_whitespace(&mut text, 0);
    assert_eq!(expected, result);
}

#[test]
fn length_of_leading_whitespace_mixed() {
    let (mut text, cursor) = text_with_cursor("  \t// Hello world!\n\n");
    let expected = 2;
    let result = cursor.length_of_leading_whitespace(&mut text, 0);
    assert_eq!(expected, result);
}

const TEXT: &str = r#"
Basic Latin
    ! " # $ % & ' ( ) *+,-./012ABCDEFGHI` a m  t u v z { | } ~
CJK
    豈 更 車 Ⅷ
"#;

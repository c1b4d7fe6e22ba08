use ropey::Rope;
use zee_edit::viewport::{displayed_lines, Arrow, Message, Step, Viewport};

#[test]
fn a_new_viewport_starts_at_the_top() {
    let viewport = Viewport::new();
    assert_eq!(viewport, Viewport { line_offset: 0, viewing_edit_tree: false });
}

#[test]
fn the_window_scrolls_up_to_a_line_above() {
    let mut viewport = Viewport { line_offset: 10, viewing_edit_tree: false };
    assert!(viewport.ensure_cursor_in_view(5, 20));
    assert_eq!(viewport.line_offset, 5);
}

#[test]
fn the_window_scrolls_down_until_a_line_below_is_the_last_shown() {
    let mut viewport = Viewport::new();
    assert!(viewport.ensure_cursor_in_view(30, 20));
    assert_eq!(viewport.line_offset, 12);
    let mut viewport = Viewport::new();
    assert!(viewport.ensure_cursor_in_view(19, 20));
    assert_eq!(viewport.line_offset, 1);
}

#[test]
fn the_window_stays_while_the_line_is_shown() {
    let mut viewport = Viewport { line_offset: 3, viewing_edit_tree: true };
    assert!(!viewport.ensure_cursor_in_view(3, 20));
    assert!(!viewport.ensure_cursor_in_view(21, 20));
    assert_eq!(viewport, Viewport { line_offset: 3, viewing_edit_tree: true });
    assert!(viewport.ensure_cursor_in_view(22, 20));
    assert_eq!(viewport.line_offset, 4);
}

#[test]
fn a_frame_without_text_rows() {
    let mut viewport = Viewport { line_offset: 3, viewing_edit_tree: false };
    assert!(!viewport.ensure_cursor_in_view(3, 0));
    assert!(viewport.ensure_cursor_in_view(4, 1));
    assert_eq!(viewport.line_offset, 5);
}

#[test]
fn centring_goes_to_the_middle_and_from_there_to_the_top() {
    let mut viewport = Viewport::new();
    viewport.center_visual_cursor(25, 20);
    assert_eq!(viewport.line_offset, 15);
    viewport.center_visual_cursor(25, 20);
    assert_eq!(viewport.line_offset, 25);
    viewport.center_visual_cursor(25, 20);
    assert_eq!(viewport.line_offset, 15);
}

#[test]
fn centring_near_the_top() {
    let mut viewport = Viewport { line_offset: 7, viewing_edit_tree: false };
    viewport.center_visual_cursor(3, 20);
    assert_eq!(viewport.line_offset, 3);
    viewport.center_visual_cursor(3, 20);
    assert_eq!(viewport.line_offset, 0);
    viewport.center_visual_cursor(3, 20);
    assert_eq!(viewport.line_offset, 3);
    // a frame too low to have a middle
    let mut viewport = Viewport { line_offset: 0, viewing_edit_tree: false };
    viewport.center_visual_cursor(3, 1);
    assert_eq!(viewport.line_offset, 3);
    viewport.center_visual_cursor(3, 1);
    assert_eq!(viewport.line_offset, 0);
}

#[test]
fn messages_change_the_window_and_ask_for_drawing() {
    let mut viewport = Viewport::new();
    assert!(viewport.update(Message::CenterCursorVisually, 25, 20));
    assert_eq!(viewport, Viewport { line_offset: 15, viewing_edit_tree: false });
    assert!(!viewport.update(Message::ClearSelection, 25, 20));
    assert_eq!(viewport, Viewport { line_offset: 15, viewing_edit_tree: false });
    assert!(viewport.update(Message::ToggleEditTree, 25, 20));
    assert_eq!(viewport, Viewport { line_offset: 15, viewing_edit_tree: true });
    assert!(viewport.update(Message::ClearSelection, 25, 20));
    assert_eq!(viewport, Viewport { line_offset: 15, viewing_edit_tree: false });
    assert!(viewport.update(Message::ToggleEditTree, 25, 20));
    assert!(viewport.update(Message::ToggleEditTree, 25, 20));
    assert_eq!(viewport, Viewport { line_offset: 15, viewing_edit_tree: false });
}

#[test]
fn arrows_move_the_cursor_or_walk_the_edit_tree() {
    let viewport = Viewport { line_offset: 0, viewing_edit_tree: false };
    assert_eq!(viewport.arrow(Arrow::Up), Step::MoveUp);
    assert_eq!(viewport.arrow(Arrow::Down), Step::MoveDown);
    assert_eq!(viewport.arrow(Arrow::Left), Step::MoveLeft);
    assert_eq!(viewport.arrow(Arrow::Right), Step::MoveRight);
    let viewport = Viewport { line_offset: 0, viewing_edit_tree: true };
    assert_eq!(viewport.arrow(Arrow::Up), Step::Undo);
    assert_eq!(viewport.arrow(Arrow::Down), Step::Redo);
    assert_eq!(viewport.arrow(Arrow::Left), Step::PreviousChildRevision);
    assert_eq!(viewport.arrow(Arrow::Right), Step::NextChildRevision);
}

#[test]
fn a_page_is_the_text_rows_of_the_frame() {
    assert_eq!(Viewport::page(20), 19);
    assert_eq!(Viewport::page(1), 0);
    assert_eq!(Viewport::page(0), 0);
}

#[test]
fn an_empty_last_line_is_not_numbered() {
    assert_eq!(displayed_lines(&Rope::from("a\nb\n")), 2);
    assert_eq!(displayed_lines(&Rope::from("a\nb")), 2);
    assert_eq!(displayed_lines(&Rope::from("\n")), 1);
    assert_eq!(displayed_lines(&Rope::from("")), 0);
    assert_eq!(displayed_lines(&Rope::from("a\r\nb\rc\u{2028}")), 3);
}

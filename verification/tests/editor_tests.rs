use zar::editor::EditorView;
use zar::input::{ctrl_hold, no_modifiers, shift_hold, Key, KeyState, MouseButton};

const TEXT: &str = "abc\nde\nfghij\n";

fn editor() -> EditorView {
    let mut e = EditorView::new(TEXT);
    e.set_viewport_rows(10);
    e
}

fn whole(e: &EditorView) -> String {
    e.buffer.get_lines(0, e.buffer.get_lines_count())
}

#[test]
fn new_editor_starts_at_top_left() {
    let e = EditorView::new(TEXT);
    assert_eq!(e.cursor.row, 0);
    assert_eq!(e.cursor.col, 0);
    assert_eq!(e.offset_y, 0);
    assert_eq!(e.last_column, -1);
    assert_eq!(e.viewport_rows, 0);
    assert_eq!(e.scale, 0);
    assert_eq!(e.visible, vec![String::new()]);
    assert_eq!(e.buffer.get_lines_count(), 4);
}

#[test]
fn right_moves_along_then_wraps_to_next_line() {
    let mut e = editor();
    e.move_cursor_right();
    e.move_cursor_right();
    e.move_cursor_right();
    assert_eq!((e.cursor.row, e.cursor.col), (0, 3));
    e.move_cursor_right();
    assert_eq!((e.cursor.row, e.cursor.col), (1, 0));
    assert_eq!(e.last_column, -1);
}

#[test]
fn right_does_nothing_on_last_line() {
    let mut e = editor();
    e.cursor.row = 3;
    e.move_cursor_right();
    assert_eq!((e.cursor.row, e.cursor.col), (3, 0));
}

#[test]
fn down_keeps_column_within_line_and_remembers_it() {
    let mut e = editor();
    e.cursor.col = 3;
    e.move_cursor_down();
    assert_eq!((e.cursor.row, e.cursor.col), (1, 2));
    assert_eq!(e.last_column, 3);
    e.move_cursor_down();
    assert_eq!((e.cursor.row, e.cursor.col), (2, 3));
    assert_eq!(e.last_column, -1);
}

#[test]
fn down_stops_two_lines_before_the_end() {
    let mut e = editor();
    e.cursor.row = 2;
    e.cursor.col = 1;
    e.move_cursor_down();
    assert_eq!((e.cursor.row, e.cursor.col), (2, 1));
}

#[test]
fn down_near_the_bottom_scrolls() {
    let mut e = editor();
    e.set_viewport_rows(4);
    e.move_cursor_down();
    assert_eq!((e.offset_y, e.cursor.row), (0, 1));
    e.move_cursor_down();
    assert_eq!((e.offset_y, e.cursor.row), (1, 1));
}

#[test]
fn up_restores_remembered_column() {
    let mut e = editor();
    e.cursor.row = 2;
    e.cursor.col = 3;
    e.move_cursor_up();
    assert_eq!((e.cursor.row, e.cursor.col, e.last_column), (1, 2, 3));
    e.move_cursor_up();
    assert_eq!((e.cursor.row, e.cursor.col, e.last_column), (0, 3, -1));
}

#[test]
fn up_on_top_row_scrolls_up() {
    let mut e = editor();
    e.offset_y = 2;
    e.cursor.row = 0;
    e.move_cursor_up();
    assert_eq!((e.offset_y, e.cursor.row), (1, 0));
}

#[test]
fn left_at_start_of_text_does_nothing() {
    let mut e = editor();
    e.last_column = 5;
    e.move_cursor_left();
    assert_eq!((e.cursor.row, e.cursor.col, e.last_column), (0, 0, -1));
}

#[test]
fn left_at_line_start_goes_to_end_of_line_above() {
    let mut e = editor();
    e.cursor.row = 1;
    e.move_cursor_left();
    assert_eq!((e.cursor.row, e.cursor.col), (0, 3));
    e.move_cursor_left();
    assert_eq!((e.cursor.row, e.cursor.col), (0, 2));
}

#[test]
fn eol_and_bol() {
    let mut e = editor();
    e.cursor.col = 9;
    e.move_to_eol();
    assert_eq!((e.cursor.col, e.last_column), (3, 9));
    e.move_to_bol();
    assert_eq!((e.cursor.col, e.last_column), (0, -1));
}

#[test]
fn eol_on_empty_last_line_goes_to_minus_one() {
    let mut e = editor();
    e.cursor.row = 3;
    e.move_to_eol();
    assert_eq!((e.cursor.col, e.last_column), (-1, 0));
}

#[test]
fn push_char_types_and_moves_right() {
    let mut e = editor();
    e.cursor.col = 1;
    e.push_char('x');
    assert_eq!(whole(&e), "axbc\nde\nfghij\n");
    assert_eq!((e.cursor.row, e.cursor.col), (0, 2));
}

#[test]
fn push_carriage_return_breaks_the_line() {
    let mut e = editor();
    e.cursor.col = 1;
    e.push_char('\r');
    assert_eq!(whole(&e), "a\nbc\nde\nfghij\n");
    assert_eq!((e.cursor.row, e.cursor.col), (1, 0));
    e.pop_char();
    assert_eq!(whole(&e), TEXT);
    assert_eq!((e.cursor.row, e.cursor.col), (0, 1));
}

#[test]
fn pop_char_undoes_push_char() {
    let mut e = editor();
    e.cursor.row = 2;
    e.cursor.col = 4;
    e.push_char('z');
    assert_eq!(whole(&e), "abc\nde\nfghizj\n");
    e.pop_char();
    assert_eq!(whole(&e), TEXT);
    assert_eq!((e.cursor.row, e.cursor.col, e.last_column), (2, 4, -1));
}

#[test]
fn pop_char_at_line_start_joins_lines() {
    let mut e = editor();
    e.cursor.row = 1;
    e.pop_char();
    assert_eq!(whole(&e), "abcde\nfghij\n");
    assert_eq!((e.cursor.row, e.cursor.col), (0, 3));
}

#[test]
fn update_value_for_editor_loads_text() {
    let mut e = editor();
    e.cursor.row = 2;
    e.cursor.col = 2;
    e.update_value("new\n", "editor");
    assert_eq!(whole(&e), "new\n");
    assert_eq!((e.cursor.row, e.cursor.col), (0, 0));
    e.update_value("other\n", "file");
    assert_eq!(whole(&e), "new\n");
}

#[test]
fn keys_dispatch_to_moves_and_zoom() {
    let mut e = editor();
    e.handle_input(Key::Right, KeyState::Pressed, no_modifiers());
    assert_eq!(e.cursor.col, 1);
    e.handle_input(Key::Right, KeyState::Released, no_modifiers());
    assert_eq!(e.cursor.col, 1);
    e.handle_input(Key::Right, KeyState::Pressed, shift_hold());
    assert_eq!(e.cursor.col, 1);
    e.handle_input(Key::Period, KeyState::Pressed, ctrl_hold());
    assert_eq!(e.cursor.col, 1);
    e.cursor.col = 7;
    e.handle_input(Key::Period, KeyState::Pressed, ctrl_hold());
    assert_eq!(e.cursor.col, 3);
    e.handle_input(Key::Comma, KeyState::Pressed, ctrl_hold());
    assert_eq!(e.cursor.col, 0);
    e.handle_input(Key::Down, KeyState::Pressed, no_modifiers());
    assert_eq!(e.cursor.row, 1);
    e.handle_input(Key::Up, KeyState::Pressed, no_modifiers());
    assert_eq!(e.cursor.row, 0);
    e.handle_input(Key::Subtract, KeyState::Pressed, ctrl_hold());
    e.handle_input(Key::Subtract, KeyState::Pressed, ctrl_hold());
    assert_eq!(e.scale, 2);
    e.handle_input(Key::Equals, KeyState::Pressed, ctrl_hold());
    assert_eq!(e.scale, 1);
}

#[test]
fn zoom_saturates() {
    let mut e = editor();
    e.scale = i32::MAX;
    e.handle_input(Key::Subtract, KeyState::Pressed, ctrl_hold());
    assert_eq!(e.scale, i32::MAX);
}

#[test]
fn content_to_draw_shows_the_visible_rows() {
    let mut e = editor();
    e.set_viewport_rows(2);
    e.offset_y = 1;
    assert_eq!(e.content_to_draw(), "de\nfghij\n");
    e.set_viewport_rows(50);
    assert_eq!(e.content_to_draw(), "de\nfghij\n");
}

#[test]
fn text_shifts_when_file_list_is_named_last() {
    let mut e = editor();
    assert!(!e.shifted_for_files());
    e.on_other_visible(&vec!["editor".to_string(), "file".to_string()]);
    assert_eq!(e.visible, vec!["editor".to_string(), "file".to_string()]);
    assert!(e.shifted_for_files());
    e.on_other_visible(&vec!["file".to_string(), "cmd".to_string()]);
    assert!(!e.shifted_for_files());
    e.on_other_visible(&vec![]);
    assert!(!e.shifted_for_files());
}

#[test]
fn editor_is_always_visible_and_ignores_clicks() {
    let e = editor();
    assert_eq!(e.is_visible(), (true, "editor"));
    assert_eq!(e.handle_mouse_input(MouseButton::Left), ("", String::new()));
    assert_eq!(e.handle_mouse_input(MouseButton::Other(4)), ("", String::new()));
}

#[test]
fn scroll_down_and_up() {
    let mut e = editor();
    e.scroll_down();
    assert_eq!(e.offset_y, 1);
    e.cursor.row = 2;
    e.scroll_down();
    assert_eq!(e.offset_y, 1);
    e.scroll_up();
    e.scroll_up();
    assert_eq!(e.offset_y, 0);
}

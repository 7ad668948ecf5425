use zar::cmdline::CmdlineView;
use zar::editor::EditorView;
use zar::filelisting::{DirEntry, FileView};
use zar::input::{cmd_shift_hold, ctrl_hold, no_modifiers, Key, KeyState, MouseButton};
use zar::layout_manager::{AnyView, LayoutManager};

#[test]
fn down_needs_three_lines_and_four_rows() {
    let mut e = EditorView::new("one line\n");
    e.set_viewport_rows(10);
    assert!(!e.down_ok());
    assert!(!e.key_ok(Key::Down, KeyState::Pressed, no_modifiers()));
    assert!(e.key_ok(Key::Down, KeyState::Released, no_modifiers()));
    let mut e = EditorView::new("a\nb\nc\n");
    assert!(!e.down_ok());
    e.set_viewport_rows(4);
    assert!(e.down_ok());
    e.cursor.row = 2;
    e.set_viewport_rows(0);
    assert!(e.down_ok());
}

#[test]
fn right_needs_two_lines() {
    let e = EditorView::new("no newline");
    assert!(!e.right_ok());
    assert!(!e.push_ok('x'));
    assert!(e.push_ok('\n'));
    let e = EditorView::new("ab\n");
    assert!(e.right_ok());
    assert!(e.push_ok('x'));
}

#[test]
fn row_minus_one_after_scrolled_left_blocks_further_moves() {
    let mut e = EditorView::new("a\nb\nc\nd\n");
    e.set_viewport_rows(10);
    e.offset_y = 1;
    e.cursor.row = 0;
    e.cursor.col = 0;
    assert!(e.left_ok());
    e.move_cursor_left();
    assert_eq!((e.cursor.row, e.cursor.col), (-1, 1));
    assert!(!e.up_ok());
    assert!(!e.right_ok());
    assert!(!e.pop_ok());
    assert!(!e.push_ok('x'));
    assert!(!e.key_ok(Key::Period, KeyState::Pressed, ctrl_hold()));
    assert!(e.key_ok(Key::Comma, KeyState::Pressed, ctrl_hold()));
}

#[test]
fn moves_keep_the_cursor_on_the_text() {
    let mut e = EditorView::new("first\nsecond line\n\nfourth\nfifth\n");
    e.set_viewport_rows(5);
    let keys = [Key::Down, Key::Right, Key::Right, Key::Down, Key::Down, Key::Up, Key::Left, Key::Left, Key::Down, Key::Down, Key::Down, Key::Right];
    for k in keys.iter() {
        assert!(e.key_ok(*k, KeyState::Pressed, no_modifiers()));
        e.handle_input(*k, KeyState::Pressed, no_modifiers());
        let pos = e.offset_y + e.cursor.row as usize;
        assert!(e.cursor.row >= 0);
        assert!(pos < e.buffer.get_lines_count());
    }
}

#[test]
fn click_check_fails_when_columns_disagree() {
    let entries = vec![
        DirEntry { name: Some("root".to_string()), is_dir: true },
        DirEntry { name: Some("odd\nname".to_string()), is_dir: true },
        DirEntry { name: Some("f".to_string()), is_dir: false },
    ];
    let mut v = FileView::new("/r/x", "/r", &entries);
    assert_eq!(v.dir_column, "odd\nname/\n\n");
    assert_eq!(v.file_column, "\nf\n");
    assert!(!v.click_ok(MouseButton::Left));
    assert!(v.click_ok(MouseButton::Right));
    v.handle_input(Key::F, KeyState::Pressed, cmd_shift_hold());
    assert!(v.click_ok(MouseButton::Left));
}

#[test]
fn click_check_passes_on_plain_names() {
    let entries = vec![
        DirEntry { name: Some("root".to_string()), is_dir: true },
        DirEntry { name: Some("a".to_string()), is_dir: true },
        DirEntry { name: Some("b".to_string()), is_dir: false },
    ];
    let v = FileView::new("/r/x", "/r", &entries);
    assert!(v.click_ok(MouseButton::Left));
    let l = LayoutManager { views: vec![AnyView::Files(v)] };
    assert!(l.click_ok(MouseButton::Left));
}

#[test]
fn layout_checks_ask_every_view() {
    let l = LayoutManager {
        views: vec![
            AnyView::Editor(EditorView::new("x")),
            AnyView::Cmdline(CmdlineView::new()),
        ],
    };
    assert!(!l.key_ok(Key::Right, KeyState::Pressed, no_modifiers()));
    assert!(l.key_ok(Key::Left, KeyState::Pressed, no_modifiers()));
    assert!(!l.push_ok('a'));
    assert!(l.pop_ok());
    assert!(l.click_ok(MouseButton::Left));
}

#[test]
fn cmdline_backspace_undoes_typing() {
    let mut c = CmdlineView::new();
    c.handle_input(Key::P, KeyState::Pressed, cmd_shift_hold());
    c.push_char('a');
    c.push_char('b');
    c.pop_char();
    assert_eq!(c.command_text, "a");
    assert!(c.visible);
}

use zar::cmdline::CmdlineView;
use zar::editor::EditorView;
use zar::filelisting::{listing_columns, DirEntry, FileView};
use zar::input::{char_action, cmd_shift_hold, ctrl_hold, no_modifiers, CharAction, Key, KeyState, MouseButton};
use zar::layout_manager::{AnyView, LayoutManager};

fn entry(name: &str, is_dir: bool) -> DirEntry {
    DirEntry { name: Some(name.to_string()), is_dir }
}

fn listing() -> Vec<DirEntry> {
    vec![entry("proj", true), entry("src", true), entry("main.rs", false), entry("Cargo.toml", false), entry("docs", true)]
}

#[test]
fn char_actions() {
    assert_eq!(char_action('a'), CharAction::Push);
    assert_eq!(char_action(' '), CharAction::Push);
    assert_eq!(char_action('\u{7f}'), CharAction::Push);
    assert_eq!(char_action('\r'), CharAction::Push);
    assert_eq!(char_action('\n'), CharAction::Push);
    assert_eq!(char_action('\u{8}'), CharAction::Pop);
    assert_eq!(char_action('\t'), CharAction::Ignore);
    assert_eq!(char_action('é'), CharAction::Ignore);
}

#[test]
fn cmdline_toggles_and_collects_a_command() {
    let mut c = CmdlineView::new();
    assert_eq!(c.is_visible(), (false, "cmd"));
    assert_eq!(c.push_char('x'), None);
    assert_eq!(c.command_text, "");
    c.handle_input(Key::P, KeyState::Pressed, cmd_shift_hold());
    assert!(c.visible);
    for ch in "ls -l".chars() {
        assert_eq!(c.push_char(ch), None);
    }
    assert_eq!(c.push_char('\u{10}'), None);
    assert_eq!(c.command_text, "ls -l");
    c.pop_char();
    assert_eq!(c.command_text, "ls -");
    assert_eq!(c.push_char('\u{8}'), None);
    assert_eq!(c.command_text, "ls ");
    assert_eq!(c.push_char('\r'), Some("ls ".to_string()));
    assert!(!c.visible);
    assert_eq!(c.command_text, "ls ");
}

#[test]
fn cmdline_toggle_clears_and_escape_hides() {
    let mut c = CmdlineView::new();
    c.handle_input(Key::P, KeyState::Pressed, cmd_shift_hold());
    c.push_char('a');
    c.handle_input(Key::P, KeyState::Pressed, cmd_shift_hold());
    assert!(!c.visible);
    assert_eq!(c.command_text, "");
    c.handle_input(Key::P, KeyState::Pressed, cmd_shift_hold());
    c.handle_input(Key::Escape, KeyState::Pressed, ctrl_hold());
    assert!(c.visible);
    c.handle_input(Key::Escape, KeyState::Pressed, no_modifiers());
    assert!(!c.visible);
    assert_eq!(c.handle_mouse_input(MouseButton::Left), ("", String::new()));
}

#[test]
fn listing_puts_directories_and_files_in_columns() {
    let (d, f) = listing_columns(&listing());
    assert_eq!(d, "src/\n\n\ndocs/\n");
    assert_eq!(f, "\nmain.rs\nCargo.toml\n\n");
    let (d, f) = listing_columns(&vec![entry("only", true)]);
    assert_eq!((d.as_str(), f.as_str()), ("", ""));
    let (d, f) = listing_columns(&vec![entry("root", true), DirEntry { name: None, is_dir: false }, entry("a", false)]);
    assert_eq!((d.as_str(), f.as_str()), ("\n", "a\n"));
}

#[test]
fn click_on_a_file_row_gives_its_path() {
    let mut v = FileView::new("/p/x.rs", "/p", &listing());
    assert_eq!(v.is_visible(), (true, "file"));
    v.update_mouse_pos(2, 3);
    assert_eq!(v.handle_mouse_input(MouseButton::Left), Some("/p/Cargo.toml".to_string()));
    v.update_mouse_pos(0, 0);
    assert_eq!(v.handle_mouse_input(MouseButton::Left), Some("/p/src/".to_string()));
    v.update_mouse_pos(1, 7);
    assert_eq!(v.handle_mouse_input(MouseButton::Left), None);
    v.update_mouse_pos(4, 0);
    assert_eq!(v.handle_mouse_input(MouseButton::Left), None);
    v.update_mouse_pos(-1, 0);
    assert_eq!(v.handle_mouse_input(MouseButton::Left), None);
    v.update_mouse_pos(1, -1);
    assert_eq!(v.handle_mouse_input(MouseButton::Left), None);
    v.update_mouse_pos(1, 0);
    assert_eq!(v.handle_mouse_input(MouseButton::Right), None);
}

#[test]
fn click_column_counts_bytes() {
    let v0 = FileView::new("/d/f", "/d", &vec![entry("d", true), entry("é", false)]);
    let mut v = v0;
    v.update_mouse_pos(0, 1);
    assert_eq!(v.handle_mouse_input(MouseButton::Left), Some("/d/é".to_string()));
    v.update_mouse_pos(0, 2);
    assert_eq!(v.handle_mouse_input(MouseButton::Left), None);
}

#[test]
fn hidden_file_list_ignores_clicks_and_backspace() {
    let mut v = FileView::new("/p/x.rs", "/p", &listing());
    v.handle_input(Key::F, KeyState::Pressed, cmd_shift_hold());
    assert_eq!(v.is_visible(), (false, "file"));
    v.update_mouse_pos(1, 0);
    assert_eq!(v.handle_mouse_input(MouseButton::Left), None);
    v.command_text = "ab".to_string();
    v.pop_char();
    assert_eq!(v.command_text, "ab");
    v.handle_input(Key::F, KeyState::Pressed, cmd_shift_hold());
    v.pop_char();
    assert_eq!(v.command_text, "a");
}

#[test]
fn file_list_update_relists() {
    let mut v = FileView::new("/p/x.rs", "/p", &listing());
    v.update(&vec![entry("p", true), entry("new.txt", false)]);
    assert_eq!(v.dir_column, "\n");
    assert_eq!(v.file_column, "new.txt\n");
}

fn layout() -> LayoutManager {
    let mut e = EditorView::new("abc\nde\nfg\n");
    e.set_viewport_rows(10);
    LayoutManager {
        views: vec![
            AnyView::Editor(e),
            AnyView::Files(FileView::new("/p/x.rs", "/p", &listing())),
            AnyView::Cmdline(CmdlineView::new()),
        ],
    }
}

fn editor_of(l: &LayoutManager) -> &EditorView {
    match &l.views[0] {
        AnyView::Editor(e) => e,
        _ => panic!("no editor"),
    }
}

#[test]
fn visible_views_and_their_notice() {
    let mut l = layout();
    assert_eq!(l.visible_views(), vec!["editor".to_string(), "file".to_string()]);
    l.update_value_views();
    assert_eq!(editor_of(&l).visible, vec!["editor".to_string(), "file".to_string()]);
    assert!(editor_of(&l).shifted_for_files());
    l.handle_input(Key::P, KeyState::Pressed, cmd_shift_hold());
    assert_eq!(l.visible_views(), vec!["editor".to_string(), "file".to_string(), "cmd".to_string()]);
    l.handle_input(Key::F, KeyState::Pressed, cmd_shift_hold());
    assert_eq!(l.visible_views(), vec!["editor".to_string(), "cmd".to_string()]);
}

#[test]
fn typed_characters_reach_every_view() {
    let mut l = layout();
    assert!(l.push_char('x').is_empty());
    assert_eq!(editor_of(&l).buffer.get_lines(0, 1), "xabc\n");
    l.handle_input(Key::P, KeyState::Pressed, cmd_shift_hold());
    l.push_char('l');
    l.push_char('s');
    l.pop_char();
    assert_eq!(editor_of(&l).buffer.get_lines(0, 1), "xlabc\n");
    let cmds = l.push_char('\r');
    assert_eq!(cmds, vec!["l".to_string()]);
    assert_eq!(editor_of(&l).buffer.get_lines(0, 2), "xl\nabc\n");
}

#[test]
fn clicks_open_the_first_path_that_is_not_a_directory() {
    let mut l = layout();
    l.update_mouse_pos(1, 0);
    let paths = l.handle_mouse_input(MouseButton::Left);
    assert_eq!(paths, vec!["/p/main.rs".to_string()]);
    assert_eq!(LayoutManager::open_target(&paths, &vec![false]), Some("/p/main.rs".to_string()));
    assert_eq!(LayoutManager::open_target(&paths, &vec![true]), None);
    let two = vec!["/a".to_string(), "/b".to_string()];
    assert_eq!(LayoutManager::open_target(&two, &vec![true, false]), Some("/b".to_string()));
    assert_eq!(LayoutManager::open_target(&vec![], &vec![]), None);
    l.update_value("opened\n", "editor");
    assert_eq!(editor_of(&l).buffer.get_lines(0, 9), "opened\n");
}

#[test]
fn frame_update_sets_rows_and_listing() {
    let mut l = layout();
    l.update_views(3, &vec![entry("p", true), entry("q", true)]);
    assert_eq!(editor_of(&l).viewport_rows, 3);
    match &l.views[1] {
        AnyView::Files(f) => assert_eq!(f.dir_column, "q/\n"),
        _ => panic!("no file list"),
    }
}

# zar

The logic of a small text editor, verified with Verus: a window shows an
editor, a list of the files next to the open file, and a command line that
runs shell commands.

- `src/buffer.rs` — the text as lines; typing, backspace, reading lines back.
- `src/editor.rs` — the cursor and the scrolled view over the text
  (`EditorModel` states what each key does).
- `src/filelisting.rs` — the two-column list of directories and files, and
  which path a click points at.
- `src/cmdline.rs` — the command line.
- `src/layout_manager.rs` — hands every event to every view, in order.
- `src/input.rs`, `src/text.rs`, `src/cursor.rs` — keys, characters, lines of text.
- `app/` — the window, drawing, the file system and the shell (glium,
  glium-glyph, walkdir); it reads the font from `assets/haskplex.ttf`.

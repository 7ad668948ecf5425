use vstd::prelude::*;

use crate::buffer::{
    Buffer, content_len, insert_at, is_line_break, remove_at, line_len_of, lines_between, split_lines,
    wf_lines, lemma_remove_undoes_insert, lemma_insert_at_count, lemma_remove_at_count,
    lemma_insert_at_text, lemma_remove_at_text, lemma_split_lines_flatten, lemma_split_lines_wf,
    text_offset,
};
use crate::cursor::Cursor;
use crate::input::{Key, KeyState, Modifiers, MouseButton, no_modifiers, ctrl_hold};
use crate::text::string_seq_views;

verus! {

/// What the editor holds, as plain values.
#[verifier::ext_equal]
pub struct EditorModel {
    /// The lines of the text.
    pub lines: Seq<Seq<char>>,
    /// The first line shown.
    pub offset_y: usize,
    /// The cursor's row, counted from the first line shown.
    pub row: i32,
    /// The cursor's column.
    pub col: i32,
    /// The column to go back to on the next vertical move, or -1.
    pub last_column: i32,
    /// How many rows fit on the screen.
    pub viewport_rows: usize,
    /// Zoom steps: each one makes the font a point smaller.
    pub scale: i32,
    /// The names of the views that were visible on the last frame.
    pub visible: Seq<Seq<char>>,
}

impl EditorModel {
    /// The line the cursor is on, computed as the editor computes it
    /// (a negative row is read as an unsigned number).
    pub open spec fn pos(self) -> int {
        self.offset_y + (self.row as usize)
    }

    pub open spec fn count(self) -> int {
        self.lines.len() as int
    }

    pub open spec fn line_len(self, i: int) -> int {
        line_len_of(self.lines, i)
    }

    pub open spec fn with_lines(self, lines: Seq<Seq<char>>) -> Self {
        EditorModel { lines, ..self }
    }

    /// One line further down, where there is a line below the cursor.
    pub open spec fn scrolled_down(self) -> Self {
        if self.pos() + 1 < self.count() {
            EditorModel { offset_y: (self.offset_y + 1) as usize, ..self }
        } else {
            self
        }
    }

    /// One line further up, unless the first line is shown.
    pub open spec fn scrolled_up(self) -> Self {
        if self.offset_y != 0 {
            EditorModel { offset_y: (self.offset_y - 1) as usize, ..self }
        } else {
            self
        }
    }

    /// Finding the end of the cursor's line neither overflows nor panics.
    pub open spec fn eol_ok(self) -> bool {
        &&& self.pos() <= usize::MAX
        &&& (self.line_len(self.pos()) as i32) > i32::MIN
    }

    /// A cursor past the last column of its line goes to that column and
    /// remembers where it was.
    pub open spec fn at_eol(self) -> Self {
        let length = (self.line_len(self.pos()) as i32) - 1;
        if self.col > length {
            EditorModel { last_column: self.col, col: length as i32, ..self }
        } else {
            self
        }
    }

    /// The cursor at the start of its line, with no column remembered.
    pub open spec fn at_bol(self) -> Self {
        EditorModel { col: 0, last_column: -1i32, ..self }
    }

    /// Back to the remembered column, if any; the memory is cleared.
    pub open spec fn restore_column(self) -> Self {
        EditorModel {
            col: if self.last_column != -1 {
                self.last_column
            } else {
                self.col
            },
            last_column: -1i32,
            ..self
        }
    }

    /// One row down: near the bottom of the screen the view scrolls instead.
    pub open spec fn stepped_down(self) -> Self {
        if (self.row as usize) > self.viewport_rows - 4 {
            self.scrolled_down()
        } else {
            EditorModel { row: (self.row + 1) as i32, ..self }
        }
    }

    pub open spec fn down_ok(self) -> bool {
        &&& self.count() >= 3
        &&& self.pos() <= usize::MAX
        &&& self.pos() <= self.count() - 3 ==> {
            &&& self.viewport_rows >= 4
            &&& (self.row as usize) <= self.viewport_rows - 4 ==> self.row < i32::MAX
            &&& self.stepped_down().restore_column().eol_ok()
        }
    }

    /// The down arrow: nothing within the last two lines, else one line down,
    /// to the remembered column, kept within the line.
    pub open spec fn moved_down(self) -> Self {
        if self.pos() > self.count() - 3 {
            self
        } else {
            self.stepped_down().restore_column().at_eol()
        }
    }

    /// One row up; on the top row the view scrolls up.
    pub open spec fn stepped_up(self) -> Self {
        let m = if self.row > 0 {
            EditorModel { row: (self.row - 1) as i32, ..self }
        } else {
            self
        };
        if m.row == 0 {
            m.scrolled_up()
        } else {
            m
        }
    }

    pub open spec fn up_ok(self) -> bool {
        self.stepped_up().restore_column().eol_ok()
    }

    /// The up arrow: one line up, to the remembered column, kept within the line.
    pub open spec fn moved_up(self) -> Self {
        self.stepped_up().restore_column().at_eol()
    }

    pub open spec fn left_ok(self) -> bool {
        self.col <= 0 ==> {
            &&& self.pos() <= usize::MAX
            &&& self.pos() != 0 ==> {
                &&& self.row > i32::MIN
                &&& (self.line_len(self.pos() - 1) as i32) > i32::MIN
            }
        }
    }

    /// The left arrow: one column left; from the first column to the last column
    /// of the line above; nothing at the start of the text.
    pub open spec fn moved_left(self) -> Self {
        if self.col > 0 {
            EditorModel { col: (self.col - 1) as i32, last_column: -1i32, ..self }
        } else if self.pos() == 0 {
            EditorModel { last_column: -1i32, ..self }
        } else {
            EditorModel {
                row: (self.row - 1) as i32,
                col: ((self.line_len(self.pos() - 1) as i32) - 1) as i32,
                last_column: -1i32,
                ..self
            }
        }
    }

    pub open spec fn right_ok(self) -> bool {
        &&& self.pos() <= usize::MAX
        &&& self.count() >= 2
        &&& self.pos() <= self.count() - 2 ==> if self.line_len(self.pos()) - 1 > (
        self.col as usize) {
            self.col < i32::MAX
        } else {
            self.row < i32::MAX
        }
    }

    /// The right arrow: nothing on the last line; one column right; from the
    /// last column to the start of the next line.
    pub open spec fn moved_right(self) -> Self {
        if self.pos() > self.count() - 2 {
            self
        } else if self.line_len(self.pos()) - 1 > (self.col as usize) {
            EditorModel { col: (self.col + 1) as i32, last_column: -1i32, ..self }
        } else {
            EditorModel { row: (self.row + 1) as i32, col: 0, last_column: -1i32, ..self }
        }
    }

    /// The lines after `c` is typed at the cursor.
    pub open spec fn typed(self, c: char) -> Self {
        self.with_lines(insert_at(self.lines, self.pos(), (self.col as usize) as int, c))
    }

    pub open spec fn push_ok(self, c: char) -> bool {
        &&& self.pos() <= usize::MAX
        &&& self.typed(c).right_ok()
    }

    /// Typing a character: it goes in at the cursor, then the cursor moves right.
    pub open spec fn pushed(self, c: char) -> Self {
        self.typed(c).moved_right()
    }

    pub open spec fn pop_ok(self) -> bool {
        &&& self.pos() <= usize::MAX
        &&& self.left_ok()
    }

    /// A backspace: the cursor moves left, and the character before the
    /// cursor's old position goes.
    pub open spec fn popped(self) -> Self {
        let m = self.moved_left();
        m.with_lines(remove_at(m.lines, self.pos(), (self.col as usize) as int))
    }

    /// A smaller font, up to the largest step.
    pub open spec fn zoomed_out(self) -> Self {
        if self.scale < i32::MAX {
            EditorModel { scale: (self.scale + 1) as i32, ..self }
        } else {
            self
        }
    }

    /// A larger font, down to the smallest step.
    pub open spec fn zoomed_in(self) -> Self {
        if self.scale > i32::MIN {
            EditorModel { scale: (self.scale - 1) as i32, ..self }
        } else {
            self
        }
    }

    /// The state after a new text is offered: when `check` is "editor" the text
    /// becomes `contents` and the cursor goes to row 0, column 0; otherwise nothing changes.
    pub open spec fn loaded(self, contents: Seq<char>, check: Seq<char>) -> Self {
        if check == "editor"@ {
            EditorModel { lines: split_lines(contents), row: 0, col: 0, ..self }
        } else {
            self
        }
    }

    /// A key event can be handled without a panic.
    pub open spec fn key_ok(self, key: Key, state: KeyState, mods: Modifiers) -> bool {
        state == KeyState::Pressed ==> if mods == no_modifiers() {
            match key {
                Key::Down => self.down_ok(),
                Key::Up => self.up_ok(),
                Key::Left => self.left_ok(),
                Key::Right => self.right_ok(),
                _ => true,
            }
        } else if mods == ctrl_hold() {
            key == Key::Period ==> self.eol_ok()
        } else {
            true
        }
    }

    /// The arrows move the cursor; control with comma or period goes to the
    /// start or end of the line, with minus or equals zooms out or in.
    pub open spec fn keyed(self, key: Key, state: KeyState, mods: Modifiers) -> Self {
        if state != KeyState::Pressed {
            self
        } else if mods == no_modifiers() {
            match key {
                Key::Down => self.moved_down(),
                Key::Up => self.moved_up(),
                Key::Left => self.moved_left(),
                Key::Right => self.moved_right(),
                _ => self,
            }
        } else if mods == ctrl_hold() {
            match key {
                Key::Comma => self.at_bol(),
                Key::Period => self.at_eol(),
                Key::Subtract => self.zoomed_out(),
                Key::Equals => self.zoomed_in(),
                _ => self,
            }
        } else {
            self
        }
    }
}

impl EditorModel {
    /// The cursor is on a line of the text, on a row at or below the top of the screen.
    pub open spec fn in_text(self) -> bool {
        0 <= self.row && self.pos() < self.count()
    }

    /// The left arrow at the start of the top row, scrolled down, leaves the cursor
    /// on row -1: the one move that takes the cursor off the screen.
    pub open spec fn leaves_screen_left(self) -> bool {
        self.col <= 0 && self.row == 0 && self.offset_y > 0
    }
}

impl EditorModel {
    /// Every line is shorter than the largest column number.
    pub open spec fn lines_fit_columns(self) -> bool {
        forall|i: int| 0 <= i < self.lines.len() ==> (#[trigger] self.lines[i]).len() < i32::MAX
    }

    /// The column that a vertical move goes back to: the remembered one, if any.
    pub open spec fn wanted_column(self) -> int {
        if self.last_column != -1 {
            self.last_column as int
        } else {
            self.col as int
        }
    }
}

/// A key that is released, or pressed with modifiers other than none or control
/// alone, changes nothing in the editor.
pub proof fn lemma_editor_ignores_other_events(m: EditorModel, key: Key, state: KeyState, mods: Modifiers)
    requires
        state != KeyState::Pressed || (mods != no_modifiers() && mods != ctrl_hold()),
    ensures
        m.keyed(key, state, mods) == m,
{
}

/// The left arrow: one column left within a line; from the first column to the
/// last column of the line above (its newline); nothing at the start of the text.
/// The text, the scroll position and the zoom never change, and no column is remembered.
pub proof fn lemma_left_arrow(m: EditorModel)
    requires
        m.in_text(),
        m.lines_fit_columns(),
    ensures
        ({
            let r = m.keyed(Key::Left, KeyState::Pressed, no_modifiers());
            &&& r.lines == m.lines
            &&& r.offset_y == m.offset_y
            &&& r.scale == m.scale
            &&& r.last_column == -1
            &&& m.col > 0 ==> r.row == m.row && r.col == m.col - 1
            &&& m.col <= 0 && m.pos() == 0 ==> r.row == m.row && r.col == m.col
            &&& m.col <= 0 && m.pos() > 0 ==> r.row == m.row - 1 && r.col == m.lines[m.pos() - 1].len() - 1
        }),
{
}

/// The right arrow: one column right within a line; from the last column to the
/// start of the next line; nothing on the last line of the text.
pub proof fn lemma_right_arrow(m: EditorModel)
    requires
        wf_lines(m.lines),
        m.in_text(),
        m.lines_fit_columns(),
        m.row < i32::MAX,
        m.col >= 0,
    ensures
        ({
            let r = m.keyed(Key::Right, KeyState::Pressed, no_modifiers());
            let len = m.lines[m.pos()].len();
            &&& r.lines == m.lines
            &&& r.offset_y == m.offset_y
            &&& r.scale == m.scale
            &&& m.pos() == m.count() - 1 ==> r == m
            &&& m.pos() < m.count() - 1 ==> r.last_column == -1
            &&& m.pos() < m.count() - 1 && m.col + 1 < len ==> r.row == m.row && r.col == m.col + 1
            &&& m.pos() < m.count() - 1 && m.col + 1 >= len ==> r.row == m.row + 1 && r.col == 0
        }),
{
    assert((m.col as usize) as int == m.col);
}

/// The down arrow: within the last two lines nothing happens; otherwise the cursor
/// goes one line down (the view scrolls instead when the cursor is near the bottom
/// of the screen), to the wanted column if the line is long enough, else to the
/// line's last column, remembering the wanted one.
pub proof fn lemma_down_arrow(m: EditorModel)
    requires
        m.in_text(),
        m.lines_fit_columns(),
        m.down_ok(),
    ensures
        ({
            let r = m.keyed(Key::Down, KeyState::Pressed, no_modifiers());
            let c = m.wanted_column();
            &&& m.pos() + 3 > m.count() ==> r == m
            &&& m.pos() + 3 <= m.count() ==> {
                let len = m.lines[m.pos() + 1].len();
                &&& r.lines == m.lines
                &&& r.scale == m.scale
                &&& r.pos() == m.pos() + 1
                &&& m.row > m.viewport_rows - 4 ==> r.row == m.row && r.offset_y == m.offset_y + 1
                &&& m.row <= m.viewport_rows - 4 ==> r.row == m.row + 1 && r.offset_y == m.offset_y
                &&& c <= len - 1 ==> r.col == c && r.last_column == -1
                &&& c > len - 1 ==> r.col == len - 1 && r.last_column == c
            }
        }),
{
    let s = m.stepped_down();
    assert((m.row as usize) as int == m.row);
    if m.pos() + 3 <= m.count() {
        if m.row <= m.viewport_rows - 4 {
            assert(s.row == m.row + 1);
            assert((s.row as usize) as int == s.row);
        }
        assert(s.pos() == m.pos() + 1);
    }
}

/// The up arrow: the cursor goes one row up; when it reaches (or is on) the top row
/// the view scrolls up a line if it can. It goes to the wanted column if the line is
/// long enough, else to the line's last column, remembering the wanted one.
pub proof fn lemma_up_arrow(m: EditorModel)
    requires
        m.in_text(),
        m.lines_fit_columns(),
    ensures
        ({
            let r = m.keyed(Key::Up, KeyState::Pressed, no_modifiers());
            let c = m.wanted_column();
            let len = m.lines[r.pos()].len();
            &&& r.lines == m.lines
            &&& r.scale == m.scale
            &&& r.row == if m.row > 0 {
                m.row - 1
            } else {
                0
            }
            &&& r.offset_y == if r.row == 0 && m.offset_y > 0 {
                m.offset_y - 1
            } else {
                m.offset_y as int
            }
            &&& 0 <= r.pos() <= m.pos()
            &&& c <= len - 1 ==> r.col == c && r.last_column == -1
            &&& c > len - 1 ==> r.col == len - 1 && r.last_column == c
        }),
{
    let s = m.stepped_up();
    assert((m.row as usize) as int == m.row);
    assert(s.row >= 0);
    assert((s.row as usize) as int == s.row);
}

/// Control with comma puts the cursor at the start of its line; with period at
/// most at the line's last column (remembering where it was); with minus the font
/// gets one step smaller, with equals one step larger (while the step fits in an
/// `i32`). Nothing else changes.
pub proof fn lemma_control_keys(m: EditorModel)
    requires
        m.in_text(),
        m.lines_fit_columns(),
    ensures
        ({
            let b = m.keyed(Key::Comma, KeyState::Pressed, ctrl_hold());
            &&& b.col == 0 && b.last_column == -1 && b.row == m.row && b.offset_y == m.offset_y
            &&& b.lines == m.lines && b.scale == m.scale
        }),
        ({
            let e = m.keyed(Key::Period, KeyState::Pressed, ctrl_hold());
            let len = m.lines[m.pos()].len();
            &&& e.row == m.row && e.offset_y == m.offset_y && e.lines == m.lines && e.scale == m.scale
            &&& m.col <= len - 1 ==> e == m
            &&& m.col > len - 1 ==> e.col == len - 1 && e.last_column == m.col
        }),
        ({
            let z = m.keyed(Key::Subtract, KeyState::Pressed, ctrl_hold());
            &&& z == (EditorModel { scale: z.scale, ..m })
            &&& m.scale < i32::MAX ==> z.scale == m.scale + 1
            &&& m.scale == i32::MAX ==> z.scale == m.scale
        }),
        ({
            let z = m.keyed(Key::Equals, KeyState::Pressed, ctrl_hold());
            &&& z == (EditorModel { scale: z.scale, ..m })
            &&& m.scale > i32::MIN ==> z.scale == m.scale - 1
            &&& m.scale == i32::MIN ==> z.scale == m.scale
        }),
{
    assert((m.row as usize) as int == m.row);
}

/// Typing puts exactly one character into the whole text, at the cursor: the
/// character itself, or a newline for a line break. Off the line's characters
/// (a column past them, or negative) the text stays as it was.
pub proof fn lemma_typing_inserts_at_cursor(m: EditorModel, c: char)
    requires
        wf_lines(m.lines),
        m.in_text(),
        m.push_ok(c),
    ensures
        0 <= m.col <= content_len(m.lines[m.pos()]) ==> m.pushed(c).lines.flatten()
            == m.lines.flatten().insert(
            text_offset(m.lines, m.pos(), m.col as int),
            if is_line_break(c) {
                '\n'
            } else {
                c
            },
        ),
        !(0 <= (m.col as usize) <= content_len(m.lines[m.pos()])) ==> m.pushed(c).lines == m.lines,
{
    if 0 <= m.col {
        assert((m.col as usize) as int == m.col);
    }
    if 0 <= m.col <= content_len(m.lines[m.pos()]) {
        lemma_insert_at_text(m.lines, m.pos(), m.col as int, c);
    }
}

/// A backspace takes exactly the character of the whole text before the cursor
/// away (the newline above at the start of a line), and the cursor moves left as
/// with the left arrow; at the start of the text nothing is taken away.
pub proof fn lemma_backspace_at_cursor(m: EditorModel)
    requires
        wf_lines(m.lines),
        m.in_text(),
        0 <= m.col <= content_len(m.lines[m.pos()]),
    ensures
        m.pos() > 0 || m.col > 0 ==> m.popped().lines.flatten() == m.lines.flatten().remove(
            text_offset(m.lines, m.pos(), m.col as int) - 1,
        ),
        m.pos() == 0 && m.col == 0 ==> m.popped().lines == m.lines,
        m.popped() == m.keyed(Key::Left, KeyState::Pressed, no_modifiers()).with_lines(
            m.popped().lines,
        ),
{
    assert((m.col as usize) as int == m.col);
    if m.pos() > 0 || m.col > 0 {
        lemma_remove_at_text(m.lines, m.pos(), m.col as int);
    }
}

/// Offering a text to the editor as "editor" opens it: the whole text reads back
/// as that text, the cursor is at row 0, column 0, the scroll and zoom stay. Any
/// other offer changes nothing.
pub proof fn lemma_open_text(m: EditorModel, contents: Seq<char>, check: Seq<char>)
    ensures
        check == "editor"@ ==> {
            let r = m.loaded(contents, check);
            &&& r.lines.flatten() == contents
            &&& wf_lines(r.lines)
            &&& r.row == 0 && r.col == 0
            &&& r.offset_y == m.offset_y && r.scale == m.scale && r.viewport_rows == m.viewport_rows
        },
        check != "editor"@ ==> m.loaded(contents, check) == m,
{
    lemma_split_lines_flatten(contents);
    lemma_split_lines_wf(contents);
}

/// Every move keeps the cursor on a line of the text, but the left arrow (and the
/// backspace) at the start of the top row of a scrolled view.
pub proof fn lemma_moves_keep_cursor_in_text(m: EditorModel, c: char)
    requires
        wf_lines(m.lines),
        m.in_text(),
    ensures
        m.down_ok() ==> m.moved_down().in_text(),
        m.up_ok() ==> m.moved_up().in_text(),
        m.right_ok() ==> m.moved_right().in_text(),
        !m.leaves_screen_left() ==> m.moved_left().in_text(),
        m.at_eol().in_text(),
        m.at_bol().in_text(),
        m.push_ok(c) ==> m.pushed(c).in_text(),
        m.pop_ok() && !m.leaves_screen_left() ==> m.popped().in_text(),
{
    lemma_insert_at_count(m.lines, m.pos(), (m.col as usize) as int, c);
    let l = m.moved_left();
    lemma_remove_at_count(l.lines, m.pos(), (m.col as usize) as int);
    if m.col > 0 {
        assert((m.col as usize) as int == m.col);
    }
}

/// Typing a character and then a backspace leave the text as it was and the
/// cursor where it was, on any line but the last (where the cursor does not
/// move right after typing).
pub proof fn lemma_pop_undoes_push(m: EditorModel, c: char)
    requires
        wf_lines(m.lines),
        m.count() <= usize::MAX,
        0 <= m.row < i32::MAX,
        0 <= m.col < i32::MAX,
        m.pos() + 1 < m.count(),
        m.col <= content_len(m.lines[m.pos()]),
    ensures
        m.push_ok(c),
        m.pushed(c).pop_ok(),
        m.pushed(c).popped().lines == m.lines,
        m.pushed(c).popped().offset_y == m.offset_y,
        m.pushed(c).popped().row == m.row,
        m.pushed(c).popped().col == m.col,
        m.pushed(c).popped().last_column == -1,
{
    let p = m.pos();
    assert(p == m.offset_y + m.row);
    assert((m.col as usize) as int == m.col);
    lemma_remove_undoes_insert(m.lines, p, m.col as int, c);
    let t = m.typed(c);
    let l = m.lines[p];
    if is_line_break(c) {
        assert(t.lines[p] == l.take(m.col as int).push('\n'));
        assert(t.line_len(p) == m.col + 1);
        let q = m.pushed(c);
        assert(q.row == m.row + 1 && q.col == 0);
        assert(q.pos() == p + 1);
        assert(((t.line_len(p) as i32) - 1) == m.col);
    } else {
        assert(t.lines[p] == l.insert(m.col as int, c));
        assert(l.len() >= 1 && l.last() == '\n');
    }
}

/// The text editor: a buffer, a cursor and the part of the text on screen.
pub struct EditorView {
    pub buffer: Buffer,
    pub cursor: Cursor,
    pub offset_y: usize,
    pub viewport_rows: usize,
    pub last_column: i32,
    pub scale: i32,
    pub visible: Vec<String>,
}

impl View for EditorView {
    type V = EditorModel;

    open spec fn view(&self) -> EditorModel {
        EditorModel {
            lines: self.buffer@,
            offset_y: self.offset_y,
            row: self.cursor.row,
            col: self.cursor.col,
            last_column: self.last_column,
            viewport_rows: self.viewport_rows,
            scale: self.scale,
            visible: string_seq_views(self.visible@),
        }
    }
}

impl EditorView {
    /// The editor is consistent: its buffer's lines are well formed.
    pub open spec fn wf(&self) -> bool {
        self.buffer.wf()
    }

    /// An editor on `text`, with the cursor at the top-left corner.
    pub fn new(text: &str) -> (e: EditorView)
        ensures
            e.wf(),
            e@.lines == split_lines(text@),
            e@.offset_y == 0,
            e@.row == 0,
            e@.col == 0,
            e@.last_column == -1,
            e@.viewport_rows == 0,
            e@.scale == 0,
            e@.visible == seq![Seq::<char>::empty()],
    {
        let mut visible: Vec<String> = Vec::new();
        visible.push(String::new());
        let e = EditorView {
            buffer: Buffer::new(text),
            cursor: Cursor::new(),
            offset_y: 0,
            viewport_rows: 0,
            last_column: -1i32,
            scale: 0,
            visible,
        };
        assert(e@.visible =~= seq![Seq::<char>::empty()]);
        e
    }

    /// The line the cursor is on.
    fn pos(&self) -> (p: usize)
        requires
            self@.pos() <= usize::MAX,
        ensures
            p == self@.pos(),
    {
        self.offset_y + self.cursor.row as usize
    }

    /// Shows one more line at the bottom: see `EditorModel::scrolled_down`.
    pub fn scroll_down(&mut self)
        requires
            old(self)@.pos() + 1 <= usize::MAX,
        ensures
            final(self)@ == old(self)@.scrolled_down(),
            final(self).buffer == old(self).buffer,
    {
        if self.offset_y + self.cursor.row as usize + 1 < self.buffer.get_lines_count() {
            self.offset_y += 1;
        }
    }

    /// Shows one more line at the top: see `EditorModel::scrolled_up`.
    pub fn scroll_up(&mut self)
        ensures
            final(self)@ == old(self)@.scrolled_up(),
            final(self).buffer == old(self).buffer,
    {
        if self.offset_y != 0 {
            self.offset_y -= 1;
        }
    }

    /// Control+comma: see `EditorModel::at_bol`.
    pub fn move_to_bol(&mut self)
        ensures
            final(self)@ == old(self)@.at_bol(),
            final(self).buffer == old(self).buffer,
    {
        self.cursor.col = 0;
        self.last_column = -1;
    }

    /// Control+period: see `EditorModel::at_eol`.
    pub fn move_to_eol(&mut self)
        requires
            old(self)@.eol_ok(),
        ensures
            final(self)@ == old(self)@.at_eol(),
            final(self).buffer == old(self).buffer,
    {
        let n = self.buffer.line_len(self.pos());
        let length = n as i32 - 1;
        if self.cursor.col > length {
            self.last_column = self.cursor.col;
            self.cursor.col = length;
        }
    }

    /// See `EditorModel::restore_column`.
    fn restore_column(&mut self)
        ensures
            final(self)@ == old(self)@.restore_column(),
            final(self).buffer == old(self).buffer,
    {
        if self.last_column != -1 {
            self.cursor.col = self.last_column;
        }
        self.last_column = -1;
    }

    /// The down arrow: see `EditorModel::moved_down`.
    pub fn move_cursor_down(&mut self)
        requires
            old(self)@.down_ok(),
        ensures
            final(self)@ == old(self)@.moved_down(),
            final(self).buffer == old(self).buffer,
    {
        if self.pos() > self.buffer.get_lines_count() - 3 {
            return;
        }
        if self.cursor.row as usize > self.viewport_rows - 4 {
            self.scroll_down();
        } else {
            self.cursor.row += 1;
        }
        self.restore_column();
        self.move_to_eol();
    }

    /// The up arrow: see `EditorModel::moved_up`.
    pub fn move_cursor_up(&mut self)
        requires
            old(self)@.up_ok(),
        ensures
            final(self)@ == old(self)@.moved_up(),
            final(self).buffer == old(self).buffer,
    {
        if self.cursor.row > 0 {
            self.cursor.row -= 1;
        }
        if self.cursor.row == 0 {
            self.scroll_up();
        }
        self.restore_column();
        self.move_to_eol();
    }

    /// The left arrow: see `EditorModel::moved_left`.
    pub fn move_cursor_left(&mut self)
        requires
            old(self)@.left_ok(),
        ensures
            final(self)@ == old(self)@.moved_left(),
            final(self).buffer == old(self).buffer,
    {
        if self.cursor.col > 0 {
            self.cursor.col -= 1;
        } else {
            let pos = self.pos();
            if pos == 0 {
                self.last_column = -1;
                return;
            }
            let n = self.buffer.line_len(pos - 1);
            self.cursor.row -= 1;
            self.cursor.col = n as i32 - 1;
        }
        self.last_column = -1;
    }

    /// The right arrow: see `EditorModel::moved_right`.
    pub fn move_cursor_right(&mut self)
        requires
            old(self).wf(),
            old(self)@.right_ok(),
        ensures
            final(self)@ == old(self)@.moved_right(),
            final(self).buffer == old(self).buffer,
    {
        let pos = self.pos();
        if pos > self.buffer.get_lines_count() - 2 {
            return;
        }
        let n = self.buffer.line_len(pos);
        if n - 1 > self.cursor.col as usize {
            self.cursor.col += 1;
        } else {
            self.cursor.row += 1;
            self.cursor.col = 0;
        }
        self.last_column = -1;
    }

    /// Types `c` at the cursor, then moves the cursor right.
    pub fn push_char(&mut self, c: char)
        requires
            old(self).wf(),
            old(self)@.push_ok(c),
        ensures
            final(self).wf(),
            final(self)@ == old(self)@.pushed(c),
    {
        let pos = self.pos();
        self.buffer.insert_char(pos, self.cursor.col as usize, c);
        self.move_cursor_right();
    }

    /// A backspace at the cursor.
    pub fn pop_char(&mut self)
        requires
            old(self).wf(),
            old(self)@.pop_ok(),
        ensures
            final(self).wf(),
            final(self)@ == old(self)@.popped(),
    {
        let row = self.cursor.row as usize;
        let col = self.cursor.col as usize;
        self.move_cursor_left();
        self.buffer.remove_char(self.offset_y + row, col);
    }

    /// Opens a new text when the message is meant for the editor (`check` is
    /// "editor"): the text becomes `contents` and the cursor goes to row 0, column 0.
    /// Any other message changes nothing.
    pub fn update_value(&mut self, contents: &str, check: &str)
        requires
            old(self).wf(),
        ensures
            final(self).wf(),
            final(self)@ == old(self)@.loaded(contents@, check@),
    {
        if check.to_owned() == "editor".to_owned() {
            self.buffer = Buffer::new(contents);
            self.cursor.col = 0;
            self.cursor.row = 0;
        }
    }

    /// The editor is always visible.
    pub fn is_visible(&self) -> (r: (bool, &'static str))
        ensures
            r.0,
            r.1@ == "editor"@,
    {
        (true, "editor")
    }

    /// Remembers which views are visible.
    pub fn on_other_visible(&mut self, visible: &Vec<String>)
        ensures
            final(self)@ == (EditorModel { visible: string_seq_views(visible@), ..old(self)@ }),
            final(self).buffer == old(self).buffer,
    {
        let mut copy: Vec<String> = Vec::new();
        let mut i: usize = 0;
        while i < visible.len()
            invariant
                0 <= i <= visible@.len(),
                copy@ == visible@.take(i as int),
            decreases visible@.len() - i,
        {
            let item = visible[i].clone();
            copy.push(item);
            assert(copy@ =~= visible@.take(i + 1));
            i = i + 1;
        }
        assert(visible@.take(visible@.len() as int) == visible@);
        self.visible = copy;
    }

    /// The editor answers no mouse button.
    pub fn handle_mouse_input(&self, button: MouseButton) -> (r: (&'static str, String))
        ensures
            r.0@ == ""@,
            r.1@ == Seq::<char>::empty(),
    {
        ("", String::new())
    }

    /// Handles a key event: see `EditorModel::keyed`.
    pub fn handle_input(&mut self, key: Key, state: KeyState, mods: Modifiers)
        requires
            old(self).wf(),
            old(self)@.key_ok(key, state, mods),
        ensures
            final(self).wf(),
            final(self)@ == old(self)@.keyed(key, state, mods),
    {
        if state == KeyState::Pressed {
            if mods == no_modifiers() {
                match key {
                    Key::Down => self.move_cursor_down(),
                    Key::Up => self.move_cursor_up(),
                    Key::Left => self.move_cursor_left(),
                    Key::Right => self.move_cursor_right(),
                    _ => {},
                }
            } else if mods == ctrl_hold() {
                match key {
                    Key::Comma => self.move_to_bol(),
                    Key::Period => self.move_to_eol(),
                    Key::Subtract => {
                        if self.scale < i32::MAX {
                            self.scale += 1;
                        }
                    },
                    Key::Equals => {
                        if self.scale > i32::MIN {
                            self.scale -= 1;
                        }
                    },
                    _ => {},
                }
            }
        }
    }

    /// Sets how many rows fit on the screen.
    pub fn set_viewport_rows(&mut self, rows: usize)
        ensures
            final(self)@ == (EditorModel { viewport_rows: rows, ..old(self)@ }),
            final(self).buffer == old(self).buffer,
    {
        self.viewport_rows = rows;
    }

    /// The text on screen: the lines from the first one shown, as many as fit.
    pub fn content_to_draw(&self) -> (s: String)
        requires
            self.offset_y + self.viewport_rows <= usize::MAX,
        ensures
            s@ == lines_between(self@.lines, self.offset_y as int, self.offset_y + self.viewport_rows),
    {
        self.buffer.get_lines(self.offset_y, self.offset_y + self.viewport_rows)
    }

    /// The text moves right to make room for the file list when the last view
    /// named among the visible ones is the file list.
    pub fn shifted_for_files(&self) -> (b: bool)
        ensures
            b == (self@.visible.len() > 0 && self@.visible.last() == "file"@),
    {
        let n = self.visible.len();
        if n == 0 {
            false
        } else {
            self.visible[n - 1] == "file".to_owned()
        }
    }

    /// The length of the line at `offset + row`, unless that sum overflows.
    fn line_len_for(&self, offset: usize, row: i32) -> (r: Option<usize>)
        ensures
            r is Some <==> offset + (row as usize) <= usize::MAX,
            r matches Some(n) ==> n == line_len_of(self@.lines, offset + (row as usize)),
    {
        match offset.checked_add(row as usize) {
            None => None,
            Some(p) => Some(self.buffer.line_len(p)),
        }
    }

    /// Whether finding the end of the line with the view scrolled to `offset` and the
    /// cursor on `row` neither overflows nor panics.
    fn eol_ok_for(&self, offset: usize, row: i32) -> (b: bool)
        ensures
            b == (EditorModel { offset_y: offset, row, ..self@ }).eol_ok(),
    {
        match self.line_len_for(offset, row) {
            None => false,
            Some(n) => (n as i32) > i32::MIN,
        }
    }

    /// See `EditorModel::down_ok`.
    pub fn down_ok(&self) -> (b: bool)
        ensures
            b == self@.down_ok(),
    {
        let n = self.buffer.get_lines_count();
        if n < 3 {
            return false;
        }
        match self.offset_y.checked_add(self.cursor.row as usize) {
            None => false,
            Some(p) => {
                if p > n - 3 {
                    true
                } else if self.viewport_rows < 4 {
                    false
                } else if self.cursor.row as usize > self.viewport_rows - 4 {
                    self.eol_ok_for(self.offset_y + 1, self.cursor.row)
                } else if self.cursor.row == i32::MAX {
                    false
                } else {
                    self.eol_ok_for(self.offset_y, self.cursor.row + 1)
                }
            },
        }
    }

    /// See `EditorModel::up_ok`.
    pub fn up_ok(&self) -> (b: bool)
        ensures
            b == self@.up_ok(),
    {
        let row = if self.cursor.row > 0 {
            self.cursor.row - 1
        } else {
            self.cursor.row
        };
        let offset = if row == 0 && self.offset_y != 0 {
            self.offset_y - 1
        } else {
            self.offset_y
        };
        self.eol_ok_for(offset, row)
    }

    /// See `EditorModel::left_ok`.
    pub fn left_ok(&self) -> (b: bool)
        ensures
            b == self@.left_ok(),
    {
        if self.cursor.col > 0 {
            return true;
        }
        match self.offset_y.checked_add(self.cursor.row as usize) {
            None => false,
            Some(p) => {
                if p == 0 {
                    true
                } else {
                    self.cursor.row > i32::MIN && (self.buffer.line_len(p - 1) as i32) > i32::MIN
                }
            },
        }
    }

    /// `EditorModel::right_ok` for a text of `count` lines whose line at the cursor
    /// has `len` characters, `len` given as `len - 1` where it is not negative.
    fn right_ok_with(&self, count: usize, last: Option<usize>, len: Ghost<int>) -> (b: bool)
        requires
            self@.pos() <= usize::MAX,
            last is Some <==> len@ >= 1,
            last matches Some(e) ==> e == len@ - 1,
        ensures
            b == ({
                &&& count >= 2
                &&& self@.pos() <= count - 2 ==> if len@ - 1 > (self.cursor.col as usize) {
                    self.cursor.col < i32::MAX
                } else {
                    self.cursor.row < i32::MAX
                }
            }),
    {
        if count < 2 {
            return false;
        }
        let p = self.offset_y + self.cursor.row as usize;
        if p > count - 2 {
            true
        } else {
            match last {
                Some(e) => {
                    if e > self.cursor.col as usize {
                        self.cursor.col < i32::MAX
                    } else {
                        self.cursor.row < i32::MAX
                    }
                },
                None => self.cursor.row < i32::MAX,
            }
        }
    }

    /// See `EditorModel::right_ok`.
    pub fn right_ok(&self) -> (b: bool)
        ensures
            b == self@.right_ok(),
    {
        match self.line_len_for(self.offset_y, self.cursor.row) {
            None => false,
            Some(len) => {
                let last = if len > 0 {
                    Some(len - 1)
                } else {
                    None
                };
                self.right_ok_with(self.buffer.get_lines_count(), last, Ghost(len as int))
            },
        }
    }

    /// See `EditorModel::push_ok`.
    pub fn push_ok(&self, c: char) -> (b: bool)
        requires
            self.wf(),
        ensures
            b == self@.push_ok(c),
    {
        match self.offset_y.checked_add(self.cursor.row as usize) {
            None => false,
            Some(p) => {
                let n = self.buffer.get_lines_count();
                let col = self.cursor.col as usize;
                let ghost t = self@.typed(c);
                if p < n && col <= self.buffer.content_len_at(p) {
                    let len = self.buffer.line_len(p);
                    if c == '\n' || c == '\r' {
                        assert(t.count() == n + 1);
                        assert(t.line_len(p as int) == col + 1);
                        self.cursor.row < i32::MAX
                    } else {
                        assert(t.count() == n);
                        assert(t.line_len(p as int) == len + 1);
                        self.right_ok_with(n, Some(len), Ghost(len + 1))
                    }
                } else {
                    assert(t.lines == self@.lines);
                    let len = self.buffer.line_len(p);
                    let last = if len > 0 {
                        Some(len - 1)
                    } else {
                        None
                    };
                    self.right_ok_with(n, last, Ghost(len as int))
                }
            },
        }
    }

    /// See `EditorModel::pop_ok`.
    pub fn pop_ok(&self) -> (b: bool)
        ensures
            b == self@.pop_ok(),
    {
        self.offset_y.checked_add(self.cursor.row as usize).is_some() && self.left_ok()
    }

    /// See `EditorModel::key_ok`.
    pub fn key_ok(&self, key: Key, state: KeyState, mods: Modifiers) -> (b: bool)
        ensures
            b == self@.key_ok(key, state, mods),
    {
        if state != KeyState::Pressed {
            true
        } else if mods == no_modifiers() {
            match key {
                Key::Down => self.down_ok(),
                Key::Up => self.up_ok(),
                Key::Left => self.left_ok(),
                Key::Right => self.right_ok(),
                _ => true,
            }
        } else if mods == ctrl_hold() {
            if key == Key::Period {
                self.eol_ok_for(self.offset_y, self.cursor.row)
            } else {
                true
            }
        } else {
            true
        }
    }
}

} // verus!

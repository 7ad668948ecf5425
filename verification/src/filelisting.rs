use vstd::prelude::*;

use crate::input::{Key, KeyState, Modifiers, MouseButton, cmd_shift_hold};
use crate::text::{string_pop, text_lines, text_lines_of, string_seq_views};
use crate::buffer::{split_lines, lemma_split_lines_len};
use crate::cmdline::without_last;

verus! {

broadcast use vstd::seq_lib::group_seq_properties;

/// An entry of a directory listing: its file name, where it has one, and whether
/// it is a directory.
pub struct DirEntry {
    pub name: Option<String>,
    pub is_dir: bool,
}

/// What an entry adds to the directory column: the name and a slash for a
/// directory, an empty line for anything else, nothing for an entry without a name.
pub open spec fn dir_piece(e: DirEntry) -> Seq<char> {
    match e.name {
        Some(n) => if e.is_dir {
            n@ + seq!['/', '\n']
        } else {
            seq!['\n']
        },
        None => Seq::empty(),
    }
}

/// What an entry adds to the file column: an empty line for a directory, the name
/// for anything else, nothing for an entry without a name.
pub open spec fn file_piece(e: DirEntry) -> Seq<char> {
    match e.name {
        Some(n) => if e.is_dir {
            seq!['\n']
        } else {
            n@ + seq!['\n']
        },
        None => Seq::empty(),
    }
}

/// The directory column of a listing; the first entry (the listed directory
/// itself) is left out.
pub open spec fn dir_column(es: Seq<DirEntry>) -> Seq<char>
    decreases es.len(),
{
    if es.len() <= 1 {
        Seq::empty()
    } else {
        dir_column(es.drop_last()) + dir_piece(es.last())
    }
}

/// The file column of a listing; the first entry is left out.
pub open spec fn file_column(es: Seq<DirEntry>) -> Seq<char>
    decreases es.len(),
{
    if es.len() <= 1 {
        Seq::empty()
    } else {
        file_column(es.drop_last()) + file_piece(es.last())
    }
}

/// The name on each row: the directory column's line, or the file column's
/// line where the former is empty.
pub open spec fn merged_names(dirs: Seq<Seq<char>>, files: Seq<Seq<char>>) -> Seq<Seq<char>> {
    Seq::new(
        dirs.len(),
        |i: int|
            if dirs[i].len() == 0 {
                files[i]
            } else {
                dirs[i]
            },
    )
}

/// Appends `t` to `s`.
fn append_chars(s: &mut String, t: &String)
    ensures
        final(s)@ == old(s)@ + t@,
{
    s.append(t.as_str());
}

/// The two columns of a listing: directories and files, line by line.
pub fn listing_columns(entries: &Vec<DirEntry>) -> (r: (String, String))
    ensures
        r.0@ == dir_column(entries@),
        r.1@ == file_column(entries@),
{
    let mut dirs = String::new();
    let mut files = String::new();
    if entries.len() <= 1 {
        return (dirs, files);
    }
    let mut i: usize = 1;
    while i < entries.len()
        invariant
            1 <= i <= entries@.len(),
            dirs@ == dir_column(entries@.take(i as int)),
            files@ == file_column(entries@.take(i as int)),
        decreases entries@.len() - i,
    {
        let e = &entries[i];
        assert(entries@.take(i + 1).drop_last() == entries@.take(i as int));
        match &e.name {
            Some(n) => {
                if e.is_dir {
                    append_chars(&mut dirs, n);
                    dirs.append("/\n");
                    files.append("\n");
                } else {
                    dirs.append("\n");
                    append_chars(&mut files, n);
                    files.append("\n");
                }
                proof {
                    reveal_strlit("/\n");
                    reveal_strlit("\n");
                }
                assert(dirs@ =~= dir_column(entries@.take(i + 1)));
                assert(files@ =~= file_column(entries@.take(i + 1)));
            },
            None => {
                assert(dirs@ =~= dir_column(entries@.take(i + 1)));
                assert(files@ =~= file_column(entries@.take(i + 1)));
            },
        }
        i = i + 1;
    }
    assert(entries@.take(entries@.len() as int) == entries@);
    (dirs, files)
}

/// The number of newlines in a text.
pub open spec fn newlines(t: Seq<char>) -> nat
    decreases t.len(),
{
    if t.len() == 0 {
        0
    } else {
        newlines(t.drop_last()) + if t.last() == '\n' {
            1nat
        } else {
            0nat
        }
    }
}

proof fn lemma_newlines_concat(a: Seq<char>, b: Seq<char>)
    ensures
        newlines(a + b) == newlines(a) + newlines(b),
    decreases b.len(),
{
    if b.len() == 0 {
        assert(a + b =~= a);
    } else {
        lemma_newlines_concat(a, b.drop_last());
        assert((a + b).drop_last() =~= a + b.drop_last());
        assert((a + b).last() == b.last());
    }
}

proof fn lemma_newlines_plain(t: Seq<char>)
    requires
        forall|j: int| 0 <= j < t.len() ==> #[trigger] t[j] != '\n',
    ensures
        newlines(t) == 0,
    decreases t.len(),
{
    if t.len() > 0 {
        lemma_newlines_plain(t.drop_last());
    }
}

proof fn lemma_split_lines_count(t: Seq<char>)
    ensures
        split_lines(t).len() == newlines(t) + 1,
        (t.len() == 0 || t.last() == '\n') ==> split_lines(t).last().len() == 0,
    decreases t.len(),
{
    if t.len() > 0 {
        lemma_split_lines_count(t.drop_last());
        lemma_split_lines_len(t.drop_last());
    }
}

/// No entry's name holds a newline.
pub open spec fn names_are_plain(es: Seq<DirEntry>) -> bool {
    forall|i: int, j: int|
        0 <= i < es.len() && es[i].name is Some && 0 <= j < es[i].name->0@.len()
            ==> #[trigger] es[i].name->0@[j] != '\n'
}

proof fn lemma_columns_newlines(es: Seq<DirEntry>)
    requires
        names_are_plain(es),
    ensures
        newlines(dir_column(es)) == newlines(file_column(es)),
        dir_column(es).len() == 0 || dir_column(es).last() == '\n',
        file_column(es).len() == 0 || file_column(es).last() == '\n',
    decreases es.len(),
{
    if es.len() > 1 {
        let init = es.drop_last();
        assert forall|i: int, j: int|
            0 <= i < init.len() && init[i].name is Some && 0 <= j < init[i].name->0@.len()
                implies #[trigger] init[i].name->0@[j] != '\n' by {
            assert(init[i] == es[i]);
            assert(es[i].name->0@[j] != '\n');
        }
        lemma_columns_newlines(init);
        let e = es.last();
        lemma_newlines_concat(dir_column(init), dir_piece(e));
        lemma_newlines_concat(file_column(init), file_piece(e));
        match e.name {
            Some(n) => {
                assert forall|j: int| 0 <= j < n@.len() implies #[trigger] n@[j] != '\n' by {
                    assert(es[es.len() - 1].name->0@[j] != '\n');
                }
                lemma_newlines_plain(n@);
                lemma_newlines_concat(n@, seq!['/', '\n']);
                lemma_newlines_concat(n@, seq!['\n']);
                assert(newlines(seq!['/', '\n']) == 1) by {
                    reveal_with_fuel(newlines, 3);
                    assert(seq!['/', '\n'].drop_last() =~= seq!['/']);
                    assert(seq!['/'].drop_last() =~= Seq::<char>::empty());
                }
                assert(newlines(seq!['\n']) == 1) by {
                    assert(seq!['\n'].drop_last() =~= Seq::<char>::empty());
                }
            },
            None => {
                assert(dir_column(init) + dir_piece(e) =~= dir_column(init));
                assert(file_column(init) + file_piece(e) =~= file_column(init));
            },
        }
    }
}

/// A listing whose names hold no newline has as many rows in its directory column
/// as in its file column, so a click on the list is always handled.
pub proof fn lemma_listing_rows_match(es: Seq<DirEntry>, m: FileModel)
    requires
        names_are_plain(es),
        m.dirs == dir_column(es),
        m.files == file_column(es),
    ensures
        text_lines_of(m.dirs).len() == text_lines_of(m.files).len(),
        m.rows_match(),
{
    lemma_columns_newlines(es);
    lemma_split_lines_count(m.dirs);
    lemma_split_lines_count(m.files);
}

/// What the file list holds, as plain values.
pub struct FileModel {
    pub text: Seq<char>,
    pub visible: bool,
    pub dir: Seq<char>,
    pub parent: Seq<char>,
    pub dirs: Seq<char>,
    pub files: Seq<char>,
    pub mouse_row: i64,
    pub mouse_col: i64,
}

impl FileModel {
    /// The name on each row of the list.
    pub open spec fn names(self) -> Seq<Seq<char>> {
        merged_names(text_lines_of(self.dirs), text_lines_of(self.files))
    }

    /// Every empty row of the directory column has a row in the file column.
    pub open spec fn rows_match(self) -> bool {
        forall|i: int|
            0 <= i < text_lines_of(self.dirs).len() && (#[trigger] text_lines_of(self.dirs)[i]).len()
                == 0 ==> i < text_lines_of(self.files).len()
    }

    /// A click can be handled without a panic.
    pub open spec fn click_ok(self, button: MouseButton) -> bool {
        (button == MouseButton::Left && self.visible) ==> self.rows_match()
    }

    /// The path under the mouse when `button` is clicked: with the left button,
    /// while the list is shown, on a row that has a name and a column within the
    /// name's bytes, the name after the parent directory and a slash.
    pub open spec fn clicked(self, button: MouseButton) -> Option<Seq<char>> {
        if button == MouseButton::Left && self.visible {
            let names = self.names();
            if 0 <= self.mouse_row < names.len() && 0 <= self.mouse_col
                < (vstd::utf8::encode_utf8(names[self.mouse_row as int]).len() as usize) {
                Some(self.parent + seq!['/'] + names[self.mouse_row as int])
            } else {
                None
            }
        } else {
            None
        }
    }

    /// A backspace deletes the last character of the list's text while it is shown.
    pub open spec fn popped(self) -> Self {
        if self.visible {
            FileModel { text: without_last(self.text), ..self }
        } else {
            self
        }
    }

    /// Command+shift+F shows or hides the list.
    pub open spec fn keyed(self, key: Key, state: KeyState, mods: Modifiers) -> Self {
        if state == KeyState::Pressed && key == Key::F && mods == cmd_shift_hold() {
            FileModel { visible: !self.visible, ..self }
        } else {
            self
        }
    }
}

/// Only a pressed command+shift+F changes the file list, and it only flips whether
/// the list is shown; a release, or any other key, changes nothing.
pub proof fn lemma_file_list_keys(f: FileModel, key: Key, state: KeyState, mods: Modifiers)
    ensures
        state != KeyState::Pressed ==> f.keyed(key, state, mods) == f,
        !(key == Key::F && mods == cmd_shift_hold()) ==> f.keyed(key, state, mods) == f,
        state == KeyState::Pressed && key == Key::F && mods == cmd_shift_hold() ==> f.keyed(
            key,
            state,
            mods,
        ) == (FileModel { visible: !f.visible, ..f }),
{
}

/// Only a left click on a shown list points at a path, and every such path is the
/// parent directory, a slash, and the name on the clicked row, whose bytes reach
/// past the clicked column. Any other click can always be handled.
pub proof fn lemma_only_left_clicks_open(f: FileModel, button: MouseButton)
    ensures
        button != MouseButton::Left ==> f.clicked(button) is None && f.click_ok(button),
        !f.visible ==> f.clicked(button) is None && f.click_ok(button),
        f.clicked(button) matches Some(p) ==> {
            &&& button == MouseButton::Left
            &&& f.visible
            &&& 0 <= f.mouse_row < f.names().len()
            &&& 0 <= f.mouse_col
            &&& p == f.parent + seq!['/'] + f.names()[f.mouse_row as int]
        },
        button == MouseButton::Left && f.visible && 0 <= f.mouse_row < f.names().len() && 0
            <= f.mouse_col < (vstd::utf8::encode_utf8(f.names()[f.mouse_row as int]).len() as usize)
            ==> f.clicked(button) is Some,
{
}

/// A backspace reaches the list's text only while the list is shown.
pub proof fn lemma_file_list_backspace(f: FileModel)
    ensures
        !f.visible ==> f.popped() == f,
        f.visible ==> f.popped() == (FileModel { text: without_last(f.text), ..f }),
{
}

/// The list of the entries of the directory that holds the open file.
pub struct FileView {
    pub command_text: String,
    pub visible: bool,
    pub dir: String,
    pub parent: String,
    pub dir_column: String,
    pub file_column: String,
    pub mouse_row: i64,
    pub mouse_col: i64,
}

impl View for FileView {
    type V = FileModel;

    open spec fn view(&self) -> FileModel {
        FileModel {
            text: self.command_text@,
            visible: self.visible,
            dir: self.dir@,
            parent: self.parent@,
            dirs: self.dir_column@,
            files: self.file_column@,
            mouse_row: self.mouse_row,
            mouse_col: self.mouse_col,
        }
    }
}

impl FileView {
    /// A shown list for the file `dir`, whose directory is `parent` and holds `entries`
    /// (the directory itself first).
    pub fn new(dir: &str, parent: &str, entries: &Vec<DirEntry>) -> (f: FileView)
        ensures
            f@ == (FileModel {
                text: Seq::empty(),
                visible: true,
                dir: dir@,
                parent: parent@,
                dirs: dir_column(entries@),
                files: file_column(entries@),
                mouse_row: 0,
                mouse_col: 0,
            }),
    {
        let (d, f) = listing_columns(entries);
        FileView {
            command_text: String::new(),
            visible: true,
            dir: dir.to_owned(),
            parent: parent.to_owned(),
            dir_column: d,
            file_column: f,
            mouse_row: 0,
            mouse_col: 0,
        }
    }

    /// Lists `entries` anew.
    pub fn update(&mut self, entries: &Vec<DirEntry>)
        ensures
            final(self)@ == (FileModel {
                dirs: dir_column(entries@),
                files: file_column(entries@),
                ..old(self)@
            }),
    {
        let (d, f) = listing_columns(entries);
        self.dir_column = d;
        self.file_column = f;
    }

    /// Handles a key event: see `FileModel::keyed`.
    pub fn handle_input(&mut self, key: Key, state: KeyState, mods: Modifiers)
        ensures
            final(self)@ == old(self)@.keyed(key, state, mods),
    {
        if state == KeyState::Pressed && key == Key::F && mods == cmd_shift_hold() {
            self.visible = !self.visible;
        }
    }

    /// Remembers the row and column under the mouse.
    pub fn update_mouse_pos(&mut self, row: i64, col: i64)
        ensures
            final(self)@ == (FileModel { mouse_row: row, mouse_col: col, ..old(self)@ }),
    {
        self.mouse_row = row;
        self.mouse_col = col;
    }

    /// A backspace deletes the last character of the list's text while it is shown.
    pub fn pop_char(&mut self)
        ensures
            final(self)@ == old(self)@.popped(),
    {
        if self.visible {
            string_pop(&mut self.command_text);
        }
    }

    /// Whether the list is shown, and its name "file".
    pub fn is_visible(&self) -> (r: (bool, &'static str))
        ensures
            r.0 == self.visible,
            r.1@ == "file"@,
    {
        if self.visible {
            return (true, "file");
        }
        (false, "file")
    }

    /// The path that a click with `button` points at: see `FileModel::clicked`.
    pub fn handle_mouse_input(&self, button: MouseButton) -> (r: Option<String>)
        requires
            self@.click_ok(button),
        ensures
            r is Some <==> self@.clicked(button) is Some,
            r matches Some(p) ==> Some(p@) == self@.clicked(button),
    {
        if button == MouseButton::Left && self.visible {
            let dl = text_lines(self.dir_column.as_str());
            let fl = text_lines(self.file_column.as_str());
            let ghost dls = text_lines_of(self.dir_column@);
            let ghost fls = text_lines_of(self.file_column@);
            let mut names: Vec<String> = Vec::new();
            let mut i: usize = 0;
            while i < dl.len()
                invariant
                    0 <= i <= dl@.len(),
                    string_seq_views(dl@) == dls,
                    dls == text_lines_of(self@.dirs),
                    fls == text_lines_of(self@.files),
                    dl@.len() == dls.len(),
                    fl@.len() == fls.len(),
                    string_seq_views(fl@) == fls,
                    self@.rows_match(),
                    names@.len() == i,
                    forall|x: int| 0 <= x < i ==> (#[trigger] names@[x])@ == merged_names(dls, fls)[x],
                decreases dl@.len() - i,
            {
                assert(string_seq_views(dl@)[i as int] == dl@[i as int]@);
                let ghost old_names = names@;
                if dl[i].as_str().is_empty() {
                    assert(text_lines_of(self@.dirs)[i as int].len() == 0);
                    assert(i < fls.len());
                    assert(string_seq_views(fl@)[i as int] == fl@[i as int]@);
                    let item = fl[i].clone();
                    names.push(item);
                } else {
                    let item = dl[i].clone();
                    names.push(item);
                }
                assert(forall|x: int| 0 <= x < i ==> names@[x] == old_names[x]);
                i = i + 1;
            }
            let ghost merged = merged_names(dls, fls);
            assert(names@.len() == merged.len());
            assert(merged == self@.names());
            let row = self.mouse_row;
            let col = self.mouse_col;
            if row >= 0 && (row as u64) < (names.len() as u64) {
                let name = &names[row as usize];
                assert(name@ == merged[row as int]);
                let bytes = name.as_str().len();
                assert(bytes == (vstd::utf8::encode_utf8(merged[row as int]).len() as usize));
                if col >= 0 && (col as u64) < (bytes as u64) {
                    let mut p = self.parent.clone();
                    p.append("/");
                    append_chars(&mut p, name);
                    proof {
                        reveal_strlit("/");
                    }
                    assert(p@ =~= self.parent@ + seq!['/'] + names@[row as int]@);
                    return Some(p);
                }
            }
            None
        } else {
            None
        }
    }

    /// See `FileModel::click_ok`.
    pub fn click_ok(&self, button: MouseButton) -> (b: bool)
        ensures
            b == self@.click_ok(button),
    {
        if !(button == MouseButton::Left && self.visible) {
            return true;
        }
        let dl = text_lines(self.dir_column.as_str());
        let fl = text_lines(self.file_column.as_str());
        let ghost dls = text_lines_of(self.dir_column@);
        let ghost fls = text_lines_of(self.file_column@);
        let mut i: usize = 0;
        while i < dl.len()
            invariant
                0 <= i <= dl@.len(),
                string_seq_views(dl@) == dls,
                string_seq_views(fl@) == fls,
                dls == text_lines_of(self@.dirs),
                fls == text_lines_of(self@.files),
                dl@.len() == dls.len(),
                fl@.len() == fls.len(),
                forall|x: int| 0 <= x < i && (#[trigger] dls[x]).len() == 0 ==> x < fls.len(),
                button == MouseButton::Left && self.visible,
            decreases dl@.len() - i,
        {
            assert(string_seq_views(dl@)[i as int] == dl@[i as int]@);
            if dl[i].as_str().is_empty() && i >= fl.len() {
                assert(dls[i as int].len() == 0);
                assert(!self@.rows_match());
                return false;
            }
            i = i + 1;
        }
        true
    }
}

} // verus!

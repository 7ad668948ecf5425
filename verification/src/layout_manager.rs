use vstd::prelude::*;

use crate::cmdline::{CmdlineModel, CmdlineView};
use crate::editor::{EditorModel, EditorView};
use crate::filelisting::{DirEntry, FileModel, FileView, dir_column, file_column};
use crate::input::{Key, KeyState, Modifiers, MouseButton};
use crate::text::string_seq_views;

verus! {

broadcast use vstd::seq_lib::group_seq_properties;

/// One of the views on screen.
pub enum AnyView {
    Editor(EditorView),
    Files(FileView),
    Cmdline(CmdlineView),
}

/// What a view holds, as plain values.
pub enum ViewModel {
    Editor(EditorModel),
    Files(FileModel),
    Cmdline(CmdlineModel),
}

impl ViewModel {
    /// Whether the view is shown: the editor always is.
    pub open spec fn shown(self) -> bool {
        match self {
            ViewModel::Editor(_) => true,
            ViewModel::Files(f) => f.visible,
            ViewModel::Cmdline(c) => c.visible,
        }
    }

    /// The view's name: "editor", "file" or "cmd".
    pub open spec fn name(self) -> Seq<char> {
        match self {
            ViewModel::Editor(_) => "editor"@,
            ViewModel::Files(_) => "file"@,
            ViewModel::Cmdline(_) => "cmd"@,
        }
    }

    pub open spec fn key_ok(self, key: Key, state: KeyState, mods: Modifiers) -> bool {
        match self {
            ViewModel::Editor(e) => e.key_ok(key, state, mods),
            _ => true,
        }
    }

    pub open spec fn keyed(self, key: Key, state: KeyState, mods: Modifiers) -> Self {
        match self {
            ViewModel::Editor(e) => ViewModel::Editor(e.keyed(key, state, mods)),
            ViewModel::Files(f) => ViewModel::Files(f.keyed(key, state, mods)),
            ViewModel::Cmdline(c) => ViewModel::Cmdline(c.keyed(key, state, mods)),
        }
    }

    pub open spec fn push_ok(self, c: char) -> bool {
        match self {
            ViewModel::Editor(e) => e.push_ok(c),
            _ => true,
        }
    }

    pub open spec fn pushed(self, c: char) -> Self {
        match self {
            ViewModel::Editor(e) => ViewModel::Editor(e.pushed(c)),
            ViewModel::Files(f) => self,
            ViewModel::Cmdline(m) => ViewModel::Cmdline(m.pushed(c)),
        }
    }

    /// The command that typing `c` asks to run, if any.
    pub open spec fn command_for(self, c: char) -> Option<Seq<char>> {
        match self {
            ViewModel::Cmdline(m) => m.command_for(c),
            _ => None,
        }
    }

    pub open spec fn pop_ok(self) -> bool {
        match self {
            ViewModel::Editor(e) => e.pop_ok(),
            _ => true,
        }
    }

    pub open spec fn popped(self) -> Self {
        match self {
            ViewModel::Editor(e) => ViewModel::Editor(e.popped()),
            ViewModel::Files(f) => ViewModel::Files(f.popped()),
            ViewModel::Cmdline(m) => ViewModel::Cmdline(m.popped()),
        }
    }

    pub open spec fn click_ok(self, button: MouseButton) -> bool {
        match self {
            ViewModel::Files(f) => f.click_ok(button),
            _ => true,
        }
    }

    /// The path that a click points at in this view, if any.
    pub open spec fn clicked(self, button: MouseButton) -> Option<Seq<char>> {
        match self {
            ViewModel::Files(f) => f.clicked(button),
            _ => None,
        }
    }

    /// The mouse is over `(row, col)`: the file list remembers it.
    pub open spec fn moused(self, row: i64, col: i64) -> Self {
        match self {
            ViewModel::Files(f) => ViewModel::Files(FileModel { mouse_row: row, mouse_col: col, ..f }),
            _ => self,
        }
    }

    /// A new frame: the editor learns how many rows fit, the file list lists `entries`.
    pub open spec fn updated(self, rows: usize, entries: Seq<DirEntry>) -> Self {
        match self {
            ViewModel::Editor(e) => ViewModel::Editor(EditorModel { viewport_rows: rows, ..e }),
            ViewModel::Files(f) => ViewModel::Files(
                FileModel { dirs: dir_column(entries), files: file_column(entries), ..f },
            ),
            ViewModel::Cmdline(_) => self,
        }
    }

    /// A new text is offered to the view.
    pub open spec fn loaded(self, contents: Seq<char>, check: Seq<char>) -> Self {
        match self {
            ViewModel::Editor(e) => ViewModel::Editor(e.loaded(contents, check)),
            _ => self,
        }
    }

    /// The view learns which views are visible: the editor remembers them.
    pub open spec fn noticed(self, names: Seq<Seq<char>>) -> Self {
        match self {
            ViewModel::Editor(e) => ViewModel::Editor(EditorModel { visible: names, ..e }),
            _ => self,
        }
    }
}

impl View for AnyView {
    type V = ViewModel;

    open spec fn view(&self) -> ViewModel {
        match self {
            AnyView::Editor(e) => ViewModel::Editor(e@),
            AnyView::Files(f) => ViewModel::Files(f@),
            AnyView::Cmdline(c) => ViewModel::Cmdline(c@),
        }
    }
}

impl AnyView {
    /// An editor view's buffer is well formed.
    pub open spec fn wf(&self) -> bool {
        match self {
            AnyView::Editor(e) => e.wf(),
            _ => true,
        }
    }

    /// Gives a key event to the view.
    pub fn handle_input(&mut self, key: Key, state: KeyState, mods: Modifiers)
        requires
            old(self).wf(),
            old(self)@.key_ok(key, state, mods),
        ensures
            final(self).wf(),
            final(self)@ == old(self)@.keyed(key, state, mods),
    {
        match self {
            AnyView::Editor(e) => e.handle_input(key, state, mods),
            AnyView::Files(f) => f.handle_input(key, state, mods),
            AnyView::Cmdline(c) => c.handle_input(key, state, mods),
        }
    }

    /// Gives a typed character to the view; returns the command it asks to run, if any.
    pub fn push_char(&mut self, c: char) -> (cmd: Option<String>)
        requires
            old(self).wf(),
            old(self)@.push_ok(c),
        ensures
            final(self).wf(),
            final(self)@ == old(self)@.pushed(c),
            cmd is Some <==> old(self)@.command_for(c) is Some,
            cmd matches Some(s) ==> Some(s@) == old(self)@.command_for(c),
    {
        match self {
            AnyView::Editor(e) => {
                e.push_char(c);
                None
            },
            AnyView::Files(_) => None,
            AnyView::Cmdline(m) => m.push_char(c),
        }
    }

    /// Gives a backspace to the view.
    pub fn pop_char(&mut self)
        requires
            old(self).wf(),
            old(self)@.pop_ok(),
        ensures
            final(self).wf(),
            final(self)@ == old(self)@.popped(),
    {
        match self {
            AnyView::Editor(e) => e.pop_char(),
            AnyView::Files(f) => f.pop_char(),
            AnyView::Cmdline(m) => m.pop_char(),
        }
    }

    /// The path that a click points at in the view, if any.
    pub fn handle_mouse_input(&self, button: MouseButton) -> (r: Option<String>)
        requires
            self@.click_ok(button),
        ensures
            r is Some <==> self@.clicked(button) is Some,
            r matches Some(p) ==> Some(p@) == self@.clicked(button),
    {
        match self {
            AnyView::Files(f) => f.handle_mouse_input(button),
            _ => None,
        }
    }

    /// Tells the view where the mouse is.
    pub fn update_mouse_pos(&mut self, row: i64, col: i64)
        requires
            old(self).wf(),
        ensures
            final(self).wf(),
            final(self)@ == old(self)@.moused(row, col),
    {
        match self {
            AnyView::Files(f) => f.update_mouse_pos(row, col),
            _ => {},
        }
    }

    /// A new frame: see `ViewModel::updated`.
    pub fn update(&mut self, rows: usize, entries: &Vec<DirEntry>)
        requires
            old(self).wf(),
        ensures
            final(self).wf(),
            final(self)@ == old(self)@.updated(rows, entries@),
    {
        match self {
            AnyView::Editor(e) => e.set_viewport_rows(rows),
            AnyView::Files(f) => f.update(entries),
            AnyView::Cmdline(_) => {},
        }
    }

    /// Offers a new text to the view.
    pub fn update_value(&mut self, contents: &str, check: &str)
        requires
            old(self).wf(),
        ensures
            final(self).wf(),
            final(self)@ == old(self)@.loaded(contents@, check@),
    {
        match self {
            AnyView::Editor(e) => e.update_value(contents, check),
            _ => {},
        }
    }

    /// Tells the view which views are visible.
    pub fn on_other_visible(&mut self, visible: &Vec<String>)
        requires
            old(self).wf(),
        ensures
            final(self).wf(),
            final(self)@ == old(self)@.noticed(string_seq_views(visible@)),
    {
        match self {
            AnyView::Editor(e) => e.on_other_visible(visible),
            _ => {},
        }
    }

    /// Whether the view is shown, and its name.
    pub fn is_visible(&self) -> (r: (bool, &'static str))
        ensures
            r.0 == self@.shown(),
            r.1@ == self@.name(),
    {
        match self {
            AnyView::Editor(e) => e.is_visible(),
            AnyView::Files(f) => f.is_visible(),
            AnyView::Cmdline(c) => c.is_visible(),
        }
    }
}

/// The names of the shown views, in order.
pub open spec fn visible_names(ms: Seq<ViewModel>) -> Seq<Seq<char>>
    decreases ms.len(),
{
    if ms.len() == 0 {
        Seq::empty()
    } else {
        let r = visible_names(ms.drop_last());
        if ms.last().shown() {
            r.push(ms.last().name())
        } else {
            r
        }
    }
}

/// The commands that typing `c` asks to run, in the order of the views.
pub open spec fn commands_for(ms: Seq<ViewModel>, c: char) -> Seq<Seq<char>>
    decreases ms.len(),
{
    if ms.len() == 0 {
        Seq::empty()
    } else {
        let r = commands_for(ms.drop_last(), c);
        match ms.last().command_for(c) {
            Some(t) => r.push(t),
            None => r,
        }
    }
}

/// The paths that a click points at, in the order of the views.
pub open spec fn clicked_paths(ms: Seq<ViewModel>, button: MouseButton) -> Seq<Seq<char>>
    decreases ms.len(),
{
    if ms.len() == 0 {
        Seq::empty()
    } else {
        let r = clicked_paths(ms.drop_last(), button);
        match ms.last().clicked(button) {
            Some(p) => r.push(p),
            None => r,
        }
    }
}

/// The first path that is not a directory.
pub open spec fn first_file(paths: Seq<Seq<char>>, is_dir: Seq<bool>) -> Option<Seq<char>>
    decreases paths.len(),
{
    if paths.len() == 0 {
        None
    } else if !is_dir[0] {
        Some(paths[0])
    } else {
        first_file(paths.drop_first(), is_dir.drop_first())
    }
}

/// Each view of the layout handles a key event as it does on its own, and a key
/// that is not pressed changes no view.
pub proof fn lemma_views_handle_keys(v: ViewModel, key: Key, state: KeyState, mods: Modifiers)
    ensures
        state != KeyState::Pressed ==> v.keyed(key, state, mods) == v,
        v matches ViewModel::Editor(e) ==> v.keyed(key, state, mods) == ViewModel::Editor(
            e.keyed(key, state, mods),
        ),
        v matches ViewModel::Files(f) ==> v.keyed(key, state, mods) == ViewModel::Files(
            f.keyed(key, state, mods),
        ),
        v matches ViewModel::Cmdline(c) ==> v.keyed(key, state, mods) == ViewModel::Cmdline(
            c.keyed(key, state, mods),
        ),
{
    match v {
        ViewModel::Editor(e) => {},
        ViewModel::Files(f) => crate::filelisting::lemma_file_list_keys(f, key, state, mods),
        ViewModel::Cmdline(c) => crate::cmdline::lemma_command_line_keys(c, key, state, mods),
    }
}

/// Only a file list can point at a path, only on a left click, and a typed
/// character asks for a command only from a command line.
pub proof fn lemma_views_paths_and_commands(v: ViewModel, button: MouseButton, c: char)
    ensures
        v.clicked(button) is Some ==> (v is Files && button == MouseButton::Left),
        v.command_for(c) is Some ==> (v is Cmdline && c == '\r'),
        v matches ViewModel::Files(f) ==> v.clicked(button) == f.clicked(button),
        v matches ViewModel::Cmdline(m) ==> v.command_for(c) == m.command_for(c),
        v matches ViewModel::Editor(e) ==> v.pushed(c) == ViewModel::Editor(e.pushed(c)),
        v matches ViewModel::Cmdline(m) ==> v.pushed(c) == ViewModel::Cmdline(m.pushed(c)),
        v is Files ==> v.pushed(c) == v,
{
    match v {
        ViewModel::Files(f) => crate::filelisting::lemma_only_left_clicks_open(f, button),
        ViewModel::Cmdline(m) => crate::cmdline::lemma_typing_into_command_line(m, c),
        _ => {},
    }
}

/// The visible views of an editor, a file list and a command line, in this order:
/// the editor always, then the file list and the command line while they are shown.
pub proof fn lemma_visible_names_of_three(e: EditorModel, f: FileModel, c: CmdlineModel)
    ensures
        visible_names(seq![ViewModel::Editor(e), ViewModel::Files(f), ViewModel::Cmdline(c)])
            == seq!["editor"@] + (if f.visible {
            seq!["file"@]
        } else {
            Seq::empty()
        }) + (if c.visible {
            seq!["cmd"@]
        } else {
            Seq::empty()
        }),
{
    let ms = seq![ViewModel::Editor(e), ViewModel::Files(f), ViewModel::Cmdline(c)];
    assert(ms.drop_last() =~= seq![ViewModel::Editor(e), ViewModel::Files(f)]);
    assert(ms.drop_last().drop_last() =~= seq![ViewModel::Editor(e)]);
    assert(ms.drop_last().drop_last().drop_last() =~= Seq::<ViewModel>::empty());
    reveal_with_fuel(visible_names, 4);
    assert(visible_names(ms) =~= seq!["editor"@] + (if f.visible {
        seq!["file"@]
    } else {
        Seq::empty()
    }) + (if c.visible {
        seq!["cmd"@]
    } else {
        Seq::empty()
    }));
}

/// A click with any button but the left one points at no path in any layout.
pub proof fn lemma_no_paths_without_left_click(ms: Seq<ViewModel>, button: MouseButton)
    requires
        button != MouseButton::Left,
    ensures
        clicked_paths(ms, button).len() == 0,
    decreases ms.len(),
{
    if ms.len() > 0 {
        lemma_no_paths_without_left_click(ms.drop_last(), button);
        lemma_views_paths_and_commands(ms.last(), button, ' ');
    }
}

/// The views of a window, in the order in which they get events and draw.
pub struct LayoutManager {
    pub views: Vec<AnyView>,
}

/// The models of some views.
pub open spec fn view_models(v: Seq<AnyView>) -> Seq<ViewModel> {
    v.map_values(|a: AnyView| a@)
}

impl View for LayoutManager {
    type V = Seq<ViewModel>;

    open spec fn view(&self) -> Seq<ViewModel> {
        view_models(self.views@)
    }
}

impl LayoutManager {
    /// Every view is consistent.
    pub open spec fn wf(&self) -> bool {
        forall|i: int| 0 <= i < self.views@.len() ==> (#[trigger] self.views@[i]).wf()
    }

    /// Gives a key event to every view, in order.
    pub fn handle_input(&mut self, key: Key, state: KeyState, mods: Modifiers)
        requires
            old(self).wf(),
            forall|i: int| 0 <= i < old(self)@.len() ==> (#[trigger] old(self)@[i]).key_ok(key, state, mods),
        ensures
            final(self).wf(),
            final(self)@.len() == old(self)@.len(),
            forall|i: int| 0 <= i < old(self)@.len() ==> #[trigger] final(self)@[i] == old(self)@[i].keyed(key, state, mods),
    {
        let n = self.views.len();
        let mut i: usize = 0;
        while i < n
            invariant
                0 <= i <= n == self.views@.len() == old(self).views@.len(),
                self.wf(),
                self@.len() == n,
                forall|j: int| 0 <= j < i ==> #[trigger] self@[j] == old(self)@[j].keyed(key, state, mods),
                forall|j: int| i <= j < n ==> #[trigger] self.views@[j] == old(self).views@[j],
                forall|j: int| 0 <= j < n ==> (#[trigger] old(self)@[j]).key_ok(key, state, mods),
            decreases n - i,
        {
            assert(old(self)@[i as int] == old(self).views@[i as int]@);
            assert(old(self)@[i as int].key_ok(key, state, mods));
            assert(self.views@[i as int].wf());
            let ghost prev = self.views@;
            self.views[i].handle_input(key, state, mods);
            assert forall|j: int| 0 <= j < n implies #[trigger] self@[j] == (if j == i {
                old(self)@[j].keyed(key, state, mods)
            } else {
                view_models(prev)[j]
            }) by {
                assert(self@[j] == self.views@[j]@);
                assert(view_models(prev)[j] == prev[j]@);
            }
            i = i + 1;
        }
    }

    /// Gives a typed character to every view, in order, and returns the commands
    /// that it asks to run, in the order of the views.
    pub fn push_char(&mut self, c: char) -> (cmds: Vec<String>)
        requires
            old(self).wf(),
            forall|i: int| 0 <= i < old(self)@.len() ==> (#[trigger] old(self)@[i]).push_ok(c),
        ensures
            final(self).wf(),
            final(self)@.len() == old(self)@.len(),
            forall|i: int| 0 <= i < old(self)@.len() ==> #[trigger] final(self)@[i] == old(self)@[i].pushed(c),
            string_seq_views(cmds@) == commands_for(old(self)@, c),
    {
        let n = self.views.len();
        let mut cmds: Vec<String> = Vec::new();
        let mut i: usize = 0;
        while i < n
            invariant
                0 <= i <= n == self.views@.len() == old(self).views@.len(),
                self.wf(),
                self@.len() == n,
                forall|j: int| 0 <= j < i ==> #[trigger] self@[j] == old(self)@[j].pushed(c),
                forall|j: int| i <= j < n ==> #[trigger] self.views@[j] == old(self).views@[j],
                forall|j: int| 0 <= j < n ==> (#[trigger] old(self)@[j]).push_ok(c),
                string_seq_views(cmds@) == commands_for(old(self)@.take(i as int), c),
            decreases n - i,
        {
            assert(old(self)@[i as int] == old(self).views@[i as int]@);
            assert(old(self)@[i as int].push_ok(c));
            assert(self.views@[i as int].wf());
            let ghost prev = self.views@;
            let ghost prev_cmds = cmds@;
            let cmd = self.views[i].push_char(c);
            assert forall|j: int| 0 <= j < n implies #[trigger] self@[j] == (if j == i {
                old(self)@[j].pushed(c)
            } else {
                view_models(prev)[j]
            }) by {
                assert(self@[j] == self.views@[j]@);
                assert(view_models(prev)[j] == prev[j]@);
            }
            assert(old(self)@.take(i + 1).drop_last() == old(self)@.take(i as int));
            match cmd {
                Some(t) => {
                    cmds.push(t);
                    assert(string_seq_views(cmds@) =~= string_seq_views(prev_cmds).push(t@));
                },
                None => {},
            }
            i = i + 1;
        }
        assert(old(self)@.take(n as int) == old(self)@);
        cmds
    }

    /// Gives a backspace to every view, in order.
    pub fn pop_char(&mut self)
        requires
            old(self).wf(),
            forall|i: int| 0 <= i < old(self)@.len() ==> (#[trigger] old(self)@[i]).pop_ok(),
        ensures
            final(self).wf(),
            final(self)@.len() == old(self)@.len(),
            forall|i: int| 0 <= i < old(self)@.len() ==> #[trigger] final(self)@[i] == old(self)@[i].popped(),
    {
        let n = self.views.len();
        let mut i: usize = 0;
        while i < n
            invariant
                0 <= i <= n == self.views@.len() == old(self).views@.len(),
                self.wf(),
                self@.len() == n,
                forall|j: int| 0 <= j < i ==> #[trigger] self@[j] == old(self)@[j].popped(),
                forall|j: int| i <= j < n ==> #[trigger] self.views@[j] == old(self).views@[j],
                forall|j: int| 0 <= j < n ==> (#[trigger] old(self)@[j]).pop_ok(),
            decreases n - i,
        {
            assert(old(self)@[i as int] == old(self).views@[i as int]@);
            assert(old(self)@[i as int].pop_ok());
            assert(self.views@[i as int].wf());
            let ghost prev = self.views@;
            self.views[i].pop_char();
            assert forall|j: int| 0 <= j < n implies #[trigger] self@[j] == (if j == i {
                old(self)@[j].popped()
            } else {
                view_models(prev)[j]
            }) by {
                assert(self@[j] == self.views@[j]@);
                assert(view_models(prev)[j] == prev[j]@);
            }
            i = i + 1;
        }
    }

    /// Tells every view where the mouse is.
    pub fn update_mouse_pos(&mut self, row: i64, col: i64)
        requires
            old(self).wf(),
        ensures
            final(self).wf(),
            final(self)@.len() == old(self)@.len(),
            forall|i: int| 0 <= i < old(self)@.len() ==> #[trigger] final(self)@[i] == old(self)@[i].moused(row, col),
    {
        let n = self.views.len();
        let mut i: usize = 0;
        while i < n
            invariant
                0 <= i <= n == self.views@.len() == old(self).views@.len(),
                self.wf(),
                self@.len() == n,
                forall|j: int| 0 <= j < i ==> #[trigger] self@[j] == old(self)@[j].moused(row, col),
                forall|j: int| i <= j < n ==> #[trigger] self.views@[j] == old(self).views@[j],
            decreases n - i,
        {
            assert(old(self)@[i as int] == old(self).views@[i as int]@);
            assert(self.views@[i as int].wf());
            let ghost prev = self.views@;
            self.views[i].update_mouse_pos(row, col);
            assert forall|j: int| 0 <= j < n implies #[trigger] self@[j] == (if j == i {
                old(self)@[j].moused(row, col)
            } else {
                view_models(prev)[j]
            }) by {
                assert(self@[j] == self.views@[j]@);
                assert(view_models(prev)[j] == prev[j]@);
            }
            i = i + 1;
        }
    }

    /// A new frame: the editors learn that `rows` rows fit on screen, the file
    /// lists list `entries` anew.
    pub fn update_views(&mut self, rows: usize, entries: &Vec<DirEntry>)
        requires
            old(self).wf(),
        ensures
            final(self).wf(),
            final(self)@.len() == old(self)@.len(),
            forall|i: int| 0 <= i < old(self)@.len() ==> #[trigger] final(self)@[i] == old(self)@[i].updated(rows, entries@),
    {
        let n = self.views.len();
        let mut i: usize = 0;
        while i < n
            invariant
                0 <= i <= n == self.views@.len() == old(self).views@.len(),
                self.wf(),
                self@.len() == n,
                forall|j: int| 0 <= j < i ==> #[trigger] self@[j] == old(self)@[j].updated(rows, entries@),
                forall|j: int| i <= j < n ==> #[trigger] self.views@[j] == old(self).views@[j],
            decreases n - i,
        {
            assert(old(self)@[i as int] == old(self).views@[i as int]@);
            assert(self.views@[i as int].wf());
            let ghost prev = self.views@;
            self.views[i].update(rows, entries);
            assert forall|j: int| 0 <= j < n implies #[trigger] self@[j] == (if j == i {
                old(self)@[j].updated(rows, entries@)
            } else {
                view_models(prev)[j]
            }) by {
                assert(self@[j] == self.views@[j]@);
                assert(view_models(prev)[j] == prev[j]@);
            }
            i = i + 1;
        }
    }

    /// Offers a new text to every view.
    pub fn update_value(&mut self, contents: &str, check: &str)
        requires
            old(self).wf(),
        ensures
            final(self).wf(),
            final(self)@.len() == old(self)@.len(),
            forall|i: int| 0 <= i < old(self)@.len() ==> #[trigger] final(self)@[i] == old(self)@[i].loaded(contents@, check@),
    {
        let n = self.views.len();
        let mut i: usize = 0;
        while i < n
            invariant
                0 <= i <= n == self.views@.len() == old(self).views@.len(),
                self.wf(),
                self@.len() == n,
                forall|j: int| 0 <= j < i ==> #[trigger] self@[j] == old(self)@[j].loaded(contents@, check@),
                forall|j: int| i <= j < n ==> #[trigger] self.views@[j] == old(self).views@[j],
            decreases n - i,
        {
            assert(old(self)@[i as int] == old(self).views@[i as int]@);
            assert(self.views@[i as int].wf());
            let ghost prev = self.views@;
            self.views[i].update_value(contents, check);
            assert forall|j: int| 0 <= j < n implies #[trigger] self@[j] == (if j == i {
                old(self)@[j].loaded(contents@, check@)
            } else {
                view_models(prev)[j]
            }) by {
                assert(self@[j] == self.views@[j]@);
                assert(view_models(prev)[j] == prev[j]@);
            }
            i = i + 1;
        }
    }

    /// The names of the shown views, in order.
    pub fn visible_views(&self) -> (r: Vec<String>)
        ensures
            string_seq_views(r@) == visible_names(self@),
    {
        let n = self.views.len();
        let mut r: Vec<String> = Vec::new();
        let mut i: usize = 0;
        while i < n
            invariant
                0 <= i <= n == self.views@.len(),
                self@.len() == n,
                string_seq_views(r@) == visible_names(self@.take(i as int)),
            decreases n - i,
        {
            let (shown, name) = self.views[i].is_visible();
            assert(self@[i as int] == self.views@[i as int]@);
            assert(self@.take(i + 1).drop_last() == self@.take(i as int));
            let ghost prev = r@;
            if shown {
                r.push(name.to_owned());
                assert(string_seq_views(r@) =~= string_seq_views(prev).push(name@));
            }
            i = i + 1;
        }
        assert(self@.take(n as int) == self@);
        r
    }

    /// Tells every view which views are shown.
    pub fn update_value_views(&mut self)
        requires
            old(self).wf(),
        ensures
            final(self).wf(),
            final(self)@.len() == old(self)@.len(),
            forall|i: int| 0 <= i < old(self)@.len() ==> #[trigger] final(self)@[i] == old(self)@[i].noticed(visible_names(old(self)@)),
    {
        let a = self.visible_views();
        let ghost names = string_seq_views(a@);
        let n = self.views.len();
        let mut i: usize = 0;
        while i < n
            invariant
                0 <= i <= n == self.views@.len() == old(self).views@.len(),
                self.wf(),
                self@.len() == n,
                names == string_seq_views(a@),
                names == visible_names(old(self)@),
                forall|j: int| 0 <= j < i ==> #[trigger] self@[j] == old(self)@[j].noticed(names),
                forall|j: int| i <= j < n ==> #[trigger] self.views@[j] == old(self).views@[j],
            decreases n - i,
        {
            assert(old(self)@[i as int] == old(self).views@[i as int]@);
            assert(self.views@[i as int].wf());
            let ghost prev = self.views@;
            self.views[i].on_other_visible(&a);
            assert forall|j: int| 0 <= j < n implies #[trigger] self@[j] == (if j == i {
                old(self)@[j].noticed(names)
            } else {
                view_models(prev)[j]
            }) by {
                assert(self@[j] == self.views@[j]@);
                assert(view_models(prev)[j] == prev[j]@);
            }
            i = i + 1;
        }
    }

    /// The paths that a click with `button` points at, in the order of the views.
    pub fn handle_mouse_input(&self, button: MouseButton) -> (r: Vec<String>)
        requires
            forall|i: int| 0 <= i < self@.len() ==> (#[trigger] self@[i]).click_ok(button),
        ensures
            string_seq_views(r@) == clicked_paths(self@, button),
    {
        let n = self.views.len();
        let mut r: Vec<String> = Vec::new();
        let mut i: usize = 0;
        while i < n
            invariant
                0 <= i <= n == self.views@.len(),
                self@.len() == n,
                forall|j: int| 0 <= j < n ==> (#[trigger] self@[j]).click_ok(button),
                string_seq_views(r@) == clicked_paths(self@.take(i as int), button),
            decreases n - i,
        {
            assert(self@[i as int] == self.views@[i as int]@);
            assert(self@[i as int].click_ok(button));
            assert(self@.take(i + 1).drop_last() == self@.take(i as int));
            let ghost prev = r@;
            match self.views[i].handle_mouse_input(button) {
                Some(p) => {
                    r.push(p);
                    assert(string_seq_views(r@) =~= string_seq_views(prev).push(p@));
                },
                None => {},
            }
            i = i + 1;
        }
        assert(self@.take(n as int) == self@);
        r
    }

    /// The file to open after a click: the first of the clicked paths that is not
    /// a directory (`is_dir` tells, path by path).
    pub fn open_target(paths: &Vec<String>, is_dir: &Vec<bool>) -> (r: Option<String>)
        requires
            paths@.len() == is_dir@.len(),
        ensures
            r is Some <==> first_file(string_seq_views(paths@), is_dir@) is Some,
            r matches Some(p) ==> Some(p@) == first_file(string_seq_views(paths@), is_dir@),
    {
        let n = paths.len();
        let mut i: usize = 0;
        while i < n
            invariant
                0 <= i <= n == paths@.len() == is_dir@.len(),
                first_file(string_seq_views(paths@), is_dir@) == first_file(
                    string_seq_views(paths@).skip(i as int),
                    is_dir@.skip(i as int),
                ),
            decreases n - i,
        {
            let ghost ps = string_seq_views(paths@).skip(i as int);
            let ghost ds = is_dir@.skip(i as int);
            assert(ps[0] == paths@[i as int]@);
            assert(ps.drop_first() == string_seq_views(paths@).skip(i + 1));
            assert(ds.drop_first() == is_dir@.skip(i + 1));
            if !is_dir[i] {
                return Some(paths[i].clone());
            }
            i = i + 1;
        }
        None
    }

    /// Whether every view can handle the key event: see `ViewModel::key_ok`.
    pub fn key_ok(&self, key: Key, state: KeyState, mods: Modifiers) -> (b: bool)
        ensures
            b == forall|i: int| 0 <= i < self@.len() ==> (#[trigger] self@[i]).key_ok(key, state, mods),
    {
        let mut i: usize = 0;
        while i < self.views.len()
            invariant
                0 <= i <= self.views@.len() == self@.len(),
                forall|j: int| 0 <= j < i ==> (#[trigger] self@[j]).key_ok(key, state, mods),
            decreases self.views@.len() - i,
        {
            assert(self@[i as int] == self.views@[i as int]@);
            let ok = match &self.views[i] {
                AnyView::Editor(e) => e.key_ok(key, state, mods),
                _ => true,
            };
            if !ok {
                return false;
            }
            i = i + 1;
        }
        true
    }

    /// Whether every view can take the typed character: see `ViewModel::push_ok`.
    pub fn push_ok(&self, c: char) -> (b: bool)
        requires
            self.wf(),
        ensures
            b == forall|i: int| 0 <= i < self@.len() ==> (#[trigger] self@[i]).push_ok(c),
    {
        let mut i: usize = 0;
        while i < self.views.len()
            invariant
                0 <= i <= self.views@.len() == self@.len(),
                self.wf(),
                forall|j: int| 0 <= j < i ==> (#[trigger] self@[j]).push_ok(c),
            decreases self.views@.len() - i,
        {
            assert(self@[i as int] == self.views@[i as int]@);
            assert(self.views@[i as int].wf());
            let ok = match &self.views[i] {
                AnyView::Editor(e) => e.push_ok(c),
                _ => true,
            };
            if !ok {
                return false;
            }
            i = i + 1;
        }
        true
    }

    /// Whether every view can take a backspace: see `ViewModel::pop_ok`.
    pub fn pop_ok(&self) -> (b: bool)
        ensures
            b == forall|i: int| 0 <= i < self@.len() ==> (#[trigger] self@[i]).pop_ok(),
    {
        let mut i: usize = 0;
        while i < self.views.len()
            invariant
                0 <= i <= self.views@.len() == self@.len(),
                forall|j: int| 0 <= j < i ==> (#[trigger] self@[j]).pop_ok(),
            decreases self.views@.len() - i,
        {
            assert(self@[i as int] == self.views@[i as int]@);
            let ok = match &self.views[i] {
                AnyView::Editor(e) => e.pop_ok(),
                _ => true,
            };
            if !ok {
                return false;
            }
            i = i + 1;
        }
        true
    }

    /// Whether every view can handle the click: see `ViewModel::click_ok`.
    pub fn click_ok(&self, button: MouseButton) -> (b: bool)
        ensures
            b == forall|i: int| 0 <= i < self@.len() ==> (#[trigger] self@[i]).click_ok(button),
    {
        let mut i: usize = 0;
        while i < self.views.len()
            invariant
                0 <= i <= self.views@.len() == self@.len(),
                forall|j: int| 0 <= j < i ==> (#[trigger] self@[j]).click_ok(button),
            decreases self.views@.len() - i,
        {
            assert(self@[i as int] == self.views@[i as int]@);
            let ok = match &self.views[i] {
                AnyView::Files(f) => f.click_ok(button),
                _ => true,
            };
            if !ok {
                return false;
            }
            i = i + 1;
        }
        true
    }
}

} // verus!

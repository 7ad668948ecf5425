use vstd::prelude::*;

use crate::input::{Key, KeyState, Modifiers, MouseButton, no_modifiers, cmd_shift_hold};
use crate::text::{string_pop, string_push};

verus! {

/// What the command line holds, as plain values.
pub struct CmdlineModel {
    /// The command typed so far.
    pub text: Seq<char>,
    /// Whether the command line is shown and takes typed characters.
    pub visible: bool,
}

/// The text without its last character, if it has one.
pub open spec fn without_last(t: Seq<char>) -> Seq<char> {
    if t.len() > 0 {
        t.drop_last()
    } else {
        t
    }
}

impl CmdlineModel {
    /// Command+shift+P shows or hides the command line and clears the command;
    /// escape hides it.
    pub open spec fn keyed(self, key: Key, state: KeyState, mods: Modifiers) -> Self {
        if state == KeyState::Pressed && key == Key::P && mods == cmd_shift_hold() {
            CmdlineModel { visible: !self.visible, text: Seq::empty() }
        } else if state == KeyState::Pressed && key == Key::Escape && mods == no_modifiers() {
            CmdlineModel { visible: false, ..self }
        } else {
            self
        }
    }

    /// A typed character, while the command line is shown: code 16 is dropped,
    /// a carriage return (13) hides the command line (the command stays),
    /// a backspace (8) deletes the last character, anything else is appended.
    pub open spec fn pushed(self, c: char) -> Self {
        if !self.visible {
            self
        } else if c as u32 == 16 {
            self
        } else if c as u32 == 13 {
            CmdlineModel { visible: false, ..self }
        } else if c as u32 == 8 {
            CmdlineModel { text: without_last(self.text), ..self }
        } else {
            CmdlineModel { text: self.text.push(c), ..self }
        }
    }

    /// The command to run after `c` is typed: the command typed so far, when
    /// `c` is a carriage return and the command line is shown.
    pub open spec fn command_for(self, c: char) -> Option<Seq<char>> {
        if self.visible && c as u32 == 13 {
            Some(self.text)
        } else {
            None
        }
    }

    /// A backspace deletes the last character while the command line is shown.
    pub open spec fn popped(self) -> Self {
        if self.visible {
            CmdlineModel { text: without_last(self.text), ..self }
        } else {
            self
        }
    }
}

/// What a typed character does to the command line: while it is hidden, nothing,
/// and no command runs. While it is shown, a carriage return hides it and asks to
/// run the command typed so far (which stays); a backspace deletes the last
/// character; code 16 is dropped; any other character is appended. Only a carriage
/// return on a shown command line asks for a command.
pub proof fn lemma_typing_into_command_line(m: CmdlineModel, c: char)
    ensures
        !m.visible ==> m.pushed(c) == m && m.command_for(c) is None,
        m.command_for(c) is Some <==> (m.visible && c == '\r'),
        m.command_for(c) matches Some(t) ==> t == m.text,
        m.visible && c == '\r' ==> !m.pushed(c).visible && m.pushed(c).text == m.text,
        m.visible && c as u32 == 8 ==> m.pushed(c).visible && m.pushed(c).text == without_last(m.text),
        m.visible && c as u32 == 16 ==> m.pushed(c) == m,
        m.visible && c as u32 != 8 && c as u32 != 13 && c as u32 != 16 ==> m.pushed(c).visible
            && m.pushed(c).text == m.text.push(c),
        !m.visible ==> m.popped() == m,
        m.visible ==> m.popped().visible && m.popped().text == without_last(m.text),
{
    assert(('\r' as u32) == 13);
    if c as u32 == 13 {
        assert(c == '\r');
    }
}

/// Key events other than a pressed command+shift+P or a pressed escape without
/// modifiers leave the command line as it was; command+shift+P flips whether it is
/// shown and empties the command; escape hides it and keeps the command.
pub proof fn lemma_command_line_keys(m: CmdlineModel, key: Key, state: KeyState, mods: Modifiers)
    ensures
        state != KeyState::Pressed ==> m.keyed(key, state, mods) == m,
        !((key == Key::P && mods == cmd_shift_hold()) || (key == Key::Escape && mods
            == no_modifiers())) ==> m.keyed(key, state, mods) == m,
        state == KeyState::Pressed && key == Key::P && mods == cmd_shift_hold() ==> m.keyed(
            key,
            state,
            mods,
        ).visible == !m.visible && m.keyed(key, state, mods).text.len() == 0,
        state == KeyState::Pressed && key == Key::Escape && mods == no_modifiers() ==> !m.keyed(
            key,
            state,
            mods,
        ).visible && m.keyed(key, state, mods).text == m.text,
{
}

/// Command+shift+P twice leaves the command line as visible as it was, with an
/// empty command; escape always hides it.
pub proof fn lemma_toggle_twice(m: CmdlineModel)
    ensures
        m.keyed(Key::P, KeyState::Pressed, cmd_shift_hold()).keyed(
            Key::P,
            KeyState::Pressed,
            cmd_shift_hold(),
        ) == (CmdlineModel { visible: m.visible, text: Seq::empty() }),
        !m.keyed(Key::Escape, KeyState::Pressed, no_modifiers()).visible,
{
}

/// While the command line is shown, a character other than the control codes
/// 8, 13 and 16, followed by a backspace, leaves the command as it was.
pub proof fn lemma_backspace_undoes_typing(m: CmdlineModel, c: char)
    requires
        m.visible,
        c as u32 != 8 && c as u32 != 13 && c as u32 != 16,
    ensures
        m.pushed(c).popped() == m,
{
    assert(m.text.push(c).drop_last() =~= m.text);
}

/// The command line: a line of text that runs as a shell command.
pub struct CmdlineView {
    pub command_text: String,
    pub visible: bool,
}

impl View for CmdlineView {
    type V = CmdlineModel;

    open spec fn view(&self) -> CmdlineModel {
        CmdlineModel { text: self.command_text@, visible: self.visible }
    }
}

impl CmdlineView {
    /// A hidden, empty command line.
    pub fn new() -> (c: CmdlineView)
        ensures
            c@ == (CmdlineModel { text: Seq::empty(), visible: false }),
    {
        CmdlineView { command_text: String::new(), visible: false }
    }

    /// Handles a key event: see `CmdlineModel::keyed`.
    pub fn handle_input(&mut self, key: Key, state: KeyState, mods: Modifiers)
        ensures
            final(self)@ == old(self)@.keyed(key, state, mods),
    {
        if state == KeyState::Pressed && key == Key::P && mods == cmd_shift_hold() {
            self.visible = !self.visible;
            self.command_text = String::new();
        } else if state == KeyState::Pressed && key == Key::Escape && mods == no_modifiers() {
            self.visible = false;
        }
    }

    /// Handles a typed character (see `CmdlineModel::pushed`) and returns the
    /// command to run, if any (see `CmdlineModel::command_for`).
    pub fn push_char(&mut self, c: char) -> (cmd: Option<String>)
        ensures
            final(self)@ == old(self)@.pushed(c),
            cmd is Some <==> old(self)@.command_for(c) is Some,
            cmd matches Some(s) ==> Some(s@) == old(self)@.command_for(c),
    {
        if self.visible {
            let n = c as u32;
            if n == 16 {
                None
            } else if n == 13 {
                self.visible = false;
                Some(self.command_text.clone())
            } else if n == 8 {
                string_pop(&mut self.command_text);
                None
            } else {
                string_push(&mut self.command_text, c);
                None
            }
        } else {
            None
        }
    }

    /// A backspace: see `CmdlineModel::popped`.
    pub fn pop_char(&mut self)
        ensures
            final(self)@ == old(self)@.popped(),
    {
        if self.visible {
            string_pop(&mut self.command_text);
        }
    }

    /// Whether the command line is shown, and its name "cmd".
    pub fn is_visible(&self) -> (r: (bool, &'static str))
        ensures
            r.0 == self.visible,
            r.1@ == "cmd"@,
    {
        if self.visible {
            return (true, "cmd");
        }
        (false, "cmd")
    }

    /// The command line answers no mouse button.
    pub fn handle_mouse_input(&self, button: MouseButton) -> (r: (&'static str, String))
        ensures
            r.0@ == ""@,
            r.1@ == Seq::<char>::empty(),
    {
        ("", String::new())
    }
}

} // verus!

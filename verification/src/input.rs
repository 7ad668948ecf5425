use vstd::prelude::*;

verus! {

/// The keys that the views react to; every other key is `Other`.
#[derive(Clone, Copy, Debug, PartialEq, Eq, Structural)]
pub enum Key {
    Down,
    Up,
    Left,
    Right,
    Comma,
    Period,
    Subtract,
    Equals,
    F,
    P,
    Escape,
    Other,
}

/// Whether a key went down or up.
#[derive(Clone, Copy, Debug, PartialEq, Eq, Structural)]
pub enum KeyState {
    Pressed,
    Released,
}

/// The modifier keys held while a key event came.
#[derive(Clone, Copy, Debug, PartialEq, Eq, Structural)]
pub struct Modifiers {
    pub shift: bool,
    pub ctrl: bool,
    pub alt: bool,
    pub logo: bool,
}

/// The mouse buttons.
#[derive(Clone, Copy, Debug, PartialEq, Eq, Structural)]
pub enum MouseButton {
    Left,
    Right,
    Middle,
    Other(u8),
}

/// No modifier held.
pub open spec fn spec_no_modifiers() -> Modifiers {
    Modifiers { shift: false, ctrl: false, alt: false, logo: false }
}

/// Control alone.
pub open spec fn spec_ctrl_hold() -> Modifiers {
    Modifiers { shift: false, ctrl: true, alt: false, logo: false }
}

/// Shift alone.
pub open spec fn spec_shift_hold() -> Modifiers {
    Modifiers { shift: true, ctrl: false, alt: false, logo: false }
}

/// The command (logo) key together with shift.
pub open spec fn spec_cmd_shift_hold() -> Modifiers {
    Modifiers { shift: true, ctrl: false, alt: false, logo: true }
}

#[verifier::when_used_as_spec(spec_no_modifiers)]
pub fn no_modifiers() -> (m: Modifiers)
    ensures
        m == spec_no_modifiers(),
{
    Modifiers { shift: false, ctrl: false, alt: false, logo: false }
}

#[verifier::when_used_as_spec(spec_ctrl_hold)]
pub fn ctrl_hold() -> (m: Modifiers)
    ensures
        m == spec_ctrl_hold(),
{
    Modifiers { shift: false, ctrl: true, alt: false, logo: false }
}

#[verifier::when_used_as_spec(spec_shift_hold)]
pub fn shift_hold() -> (m: Modifiers)
    ensures
        m == spec_shift_hold(),
{
    Modifiers { shift: true, ctrl: false, alt: false, logo: false }
}

#[verifier::when_used_as_spec(spec_cmd_shift_hold)]
pub fn cmd_shift_hold() -> (m: Modifiers)
    ensures
        m == spec_cmd_shift_hold(),
{
    Modifiers { shift: true, ctrl: false, alt: false, logo: true }
}

/// What a typed character does to the views.
#[derive(Clone, Copy, Debug, PartialEq, Eq, Structural)]
pub enum CharAction {
    /// The character is typed into the views.
    Push,
    /// A backspace: the views delete a character.
    Pop,
    /// The character is dropped.
    Ignore,
}

/// Printable ASCII (codes 32 to 127) and the line breaks (10, 13) are typed,
/// a backspace (8) deletes, everything else is dropped.
pub open spec fn spec_char_action(c: char) -> CharAction {
    let n = c as u32;
    if (31 < n && n < 128) || n == 13 || n == 10 {
        CharAction::Push
    } else if n == 8 {
        CharAction::Pop
    } else {
        CharAction::Ignore
    }
}

/// The characters with codes 32 to 127 and the line breaks are typed, only the
/// backspace deletes, and the tab, other control codes and non-ASCII characters
/// are dropped.
pub proof fn lemma_char_actions(c: char)
    ensures
        spec_char_action(c) == CharAction::Push <==> (32 <= c as u32 <= 127 || c == '\n' || c == '\r'),
        spec_char_action(c) == CharAction::Pop <==> c as u32 == 8,
        c as u32 > 127 ==> spec_char_action(c) == CharAction::Ignore,
        c == '\t' ==> spec_char_action(c) == CharAction::Ignore,
{
    assert(('\n' as u32) == 10 && ('\r' as u32) == 13 && ('\t' as u32) == 9);
    if c as u32 == 10 {
        assert(c == '\n');
    }
    if c as u32 == 13 {
        assert(c == '\r');
    }
}

/// How a received character is dispatched to the views.
pub fn char_action(c: char) -> (a: CharAction)
    ensures
        a == spec_char_action(c),
{
    let n = c as u32;
    if (n > 31 && n < 128) || n == 13 || n == 10 {
        CharAction::Push
    } else if n == 8 {
        CharAction::Pop
    } else {
        CharAction::Ignore
    }
}

} // verus!

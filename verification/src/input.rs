//! Keys and the mouse.

use vstd::prelude::*;

verus! {

/// A key on the keyboard.
#[derive(Clone, Copy, Debug, PartialEq, Eq, Structural)]
pub enum KeyCode {
    Char(char),
    Enter,
    Backspace,
    Delete,
    Left,
    Right,
    Up,
    Down,
    Home,
    End,
    Tab,
    Other,
}

/// A key pressed, with or without control.
#[derive(Clone, Copy, Debug, PartialEq, Eq, Structural)]
pub struct KeyEvent {
    pub code: KeyCode,
    pub ctrl: bool,
}

impl KeyEvent {
    /// The key `code`, pressed with control or without.
    pub fn new(code: KeyCode, ctrl: bool) -> (k: KeyEvent)
        ensures
            k == (KeyEvent { code, ctrl }),
    {
        KeyEvent { code, ctrl }
    }
}

/// What the mouse did.
#[derive(Clone, Copy, Debug, PartialEq, Eq, Structural)]
pub enum MouseEventKind {
    LeftDown,
    LeftDrag,
    ScrollUp,
    ScrollDown,
    Moved,
    Other,
}

} // verus!

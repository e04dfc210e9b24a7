//! Keyboard and mouse input as the interface receives it.
use vstd::prelude::*;

verus! {

/// The key of a key event.
#[derive(Clone, Copy, PartialEq, Eq, Structural)]
pub enum KeyCode {
    Char(char),
    Enter,
    Backspace,
    Tab,
    BackTab,
    Esc,
    Up,
    Down,
    Left,
    Right,
    Home,
    End,
    PageUp,
    PageDown,
    Insert,
    Delete,
    F(u8),
    Other,
}

/// Whether the key went down, repeats, or came up.
#[derive(Clone, Copy, PartialEq, Eq, Structural)]
pub enum KeyKind {
    Press,
    Repeat,
    Release,
}

/// A key event with the modifiers that matter here.
#[derive(Clone, Copy, PartialEq, Eq, Structural)]
pub struct Key {
    pub code: KeyCode,
    pub ctrl: bool,
    pub alt: bool,
    pub kind: KeyKind,
}

impl Key {
    /// A key press without modifiers.
    pub fn press(code: KeyCode) -> (r: Key)
        ensures
            r == (Key { code, ctrl: false, alt: false, kind: KeyKind::Press }),
    {
        Key { code, ctrl: false, alt: false, kind: KeyKind::Press }
    }
}

/// What the mouse did (left button only; other buttons are `Other`).
#[derive(Clone, Copy, PartialEq, Eq, Structural)]
pub enum MouseKind {
    ScrollUp,
    ScrollDown,
    Down,
    Drag,
    Up,
    Other,
}

/// A mouse event at a terminal cell.
#[derive(Clone, Copy, PartialEq, Eq, Structural)]
pub struct Mouse {
    pub kind: MouseKind,
    pub column: u16,
    pub row: u16,
}

} // verus!

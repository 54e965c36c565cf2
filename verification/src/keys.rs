//! A plain model of a key press: the key itself and the two modifiers the
//! application distinguishes. The caller translates terminal events into
//! this form.

use vstd::prelude::*;

verus! {

/// The keys the application reacts to.
#[derive(Clone, Copy, Debug, PartialEq, Eq, Structural)]
pub enum Key {
    /// A printable character, as typed (upper case keeps its shift).
    Char(char),
    Enter,
    Esc,
    Backspace,
    Tab,
    Up,
    Down,
}

/// One key press with its modifier state.
#[derive(Clone, Copy, Debug, PartialEq, Eq, Structural)]
pub struct KeyInput {
    pub key: Key,
    /// Control was held, and no other modifier.
    pub ctrl: bool,
    /// Shift was held, and no other modifier.
    pub shift: bool,
}

impl KeyInput {
    /// A key press without modifiers.
    pub fn plain(key: Key) -> (r: KeyInput)
        ensures
            r == (KeyInput { key, ctrl: false, shift: false }),
    {
        KeyInput { key, ctrl: false, shift: false }
    }

    /// A key press with Control held.
    pub fn with_ctrl(key: Key) -> (r: KeyInput)
        ensures
            r == (KeyInput { key, ctrl: true, shift: false }),
    {
        KeyInput { key, ctrl: true, shift: false }
    }

    /// A key press with Shift held.
    pub fn with_shift(key: Key) -> (r: KeyInput)
        ensures
            r == (KeyInput { key, ctrl: false, shift: true }),
    {
        KeyInput { key, ctrl: false, shift: true }
    }
}

} // verus!

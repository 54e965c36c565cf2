//! The single-line input buffer at the bottom of the screen.

use vstd::prelude::*;

use crate::keys::{Key, KeyInput};
use crate::text::{string_pop_char, string_push_char};

verus! {

/// What the input bar asks its owner to do after a key press.
#[derive(Debug)]
pub enum InputBarAction {
    /// Open the target-set selector.
    OpenSendGroup,
    /// Send this text to the selected ports.
    Send(String),
}

/// A single-line edit buffer.
#[derive(Debug)]
pub struct InputBar {
    pub input: String,
}

impl InputBar {
    /// Creates a new empty input bar.
    pub fn new() -> (r: InputBar)
        ensures
            r.input@.len() == 0,
    {
        InputBar { input: String::new() }
    }

    /// The current buffer contents.
    pub fn text(&self) -> (r: &str)
        ensures
            r@ == self.input@,
    {
        self.input.as_str()
    }

    /// Handles one key press: Control-Space opens the send-group selector, a
    /// printable character appends, Backspace removes the last character,
    /// and Enter hands the buffer out as a send action only when it is not
    /// empty, clearing it.
    pub fn handle_key(&mut self, key: KeyInput) -> (r: Option<InputBarAction>)
        ensures
            ({
                if key.ctrl && !key.shift && key.key == Key::Char(' ') {
                    final(self).input@ == old(self).input@ && (r matches Some(
                        InputBarAction::OpenSendGroup,
                    ))
                } else {
                    match key.key {
                        Key::Char(c) => final(self).input@ == old(self).input@.push(c) && (
                        r is None),
                        Key::Backspace => final(self).input@ == (if old(self).input@.len() > 0 {
                            old(self).input@.drop_last()
                        } else {
                            old(self).input@
                        }) && (r is None),
                        Key::Enter => (if old(self).input@.len() > 0 {
                            final(self).input@.len() == 0 && (r matches Some(
                                InputBarAction::Send(t),
                            ) && t@ == old(self).input@)
                        } else {
                            final(self).input@ == old(self).input@ && (r is None)
                        }),
                        _ => final(self).input@ == old(self).input@ && (r is None),
                    }
                }
            }),
    {
        if key.ctrl && !key.shift && key.key == Key::Char(' ') {
            return Some(InputBarAction::OpenSendGroup);
        }
        match key.key {
            Key::Char(c) => {
                string_push_char(&mut self.input, c);
                None
            },
            Key::Backspace => {
                let _ = string_pop_char(&mut self.input);
                None
            },
            Key::Enter => {
                if self.input.as_str().is_empty() {
                    None
                } else {
                    let text = self.input.clone();
                    self.input = String::new();
                    Some(InputBarAction::Send(text))
                }
            },
            _ => None,
        }
    }
}

} // verus!

//! The system clipboard, reached through the `arboard` crate.
//!
//! The handle is created lazily and kept alive by its owner, because on some
//! platforms the clipboard contents only outlive the process while the handle
//! does.

use vstd::prelude::*;

verus! {

#[verifier::external_type_specification]
#[verifier::external_body]
pub struct ExClipboard(arboard::Clipboard);

/// Relies on arboard::Clipboard::new: opens a handle to the system
/// clipboard, or reports why none is available. Nothing is promised of the
/// outcome; callers state what holds either way.
#[verifier::external_body]
pub(crate) fn clipboard_new() -> Result<arboard::Clipboard, String> {
    arboard::Clipboard::new().map_err(|e| e.to_string())
}

/// Relies on arboard::Clipboard::set_text: places `text` onto the system
/// clipboard, or reports why it could not. Nothing is promised of the
/// outcome; callers state what holds either way.
#[verifier::external_body]
pub(crate) fn clipboard_set_text(cb: &mut arboard::Clipboard, text: String) -> Result<(), String> {
    cb.set_text(text).map_err(|e| e.to_string())
}

} // verus!

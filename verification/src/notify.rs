//! Structured notifications passed between components.

use vstd::prelude::*;

verus! {

/// Severity of a notification.
#[derive(Clone, Copy, Debug, PartialEq, Eq, Structural)]
pub enum NotifyLevel {
    Info,
    Warn,
    Error,
}

/// An out-of-band message for the operator: where it came from, how grave
/// it is, and the text itself.
#[derive(Debug)]
pub struct Notify {
    pub level: NotifyLevel,
    pub source: String,
    pub message: String,
}

impl Notify {
    /// Builds a notification.
    pub fn new(level: NotifyLevel, source: String, message: String) -> (r: Notify)
        ensures
            r.level == level,
            r.source@ == source@,
            r.message@ == message@,
    {
        Notify { level, source, message }
    }
}

} // verus!

//! A terminal serial-port multiplexer core: port configuration, a registry of
//! open ports with bounded writer queues, a logger, and a display buffer with
//! cursor navigation, visual selection, search and yank.
//!
//! The library holds the state machines and data structures; device I/O,
//! terminal drawing and the clock live with the caller, which feeds plain
//! values in and carries effects out.

pub mod clip;
pub mod config;
pub mod display;
pub mod event;
pub mod hub;
pub mod input;
pub mod keys;
pub mod logger;
pub mod notify;
pub mod popup;
pub mod text;
pub mod tomlcfg;
pub mod ui;

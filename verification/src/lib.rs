//! Core engine of a terminal launcher: prefix-triggered "modules" are
//! filtered against the typed line, shown as a scrollable suggestion list,
//! and resolved to a shell command on accept.

pub mod graphics;
pub mod pager;
pub mod dispatch;
pub mod render;
pub mod settings;
pub mod suggest;
pub mod text;

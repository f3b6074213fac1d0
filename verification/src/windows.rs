//! What the PC needs of its own.

pub mod autostart;
pub mod clipboard;
pub mod http;
pub mod inject;
pub mod keymap;
pub mod return_edge;
pub mod tray;

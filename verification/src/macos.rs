//! What the Mac needs of its own.

pub mod capture;
pub mod cursor;
pub mod keymap;

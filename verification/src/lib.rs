//! Picks a terminal background colour from a palette and describes how to
//! launch the terminal emulator with it.

pub mod launch;
pub mod palette;
pub mod select;
pub mod source;
pub mod text;

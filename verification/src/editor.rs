//! The line editor and its completion engine.

pub mod completion;
pub mod line_editor;

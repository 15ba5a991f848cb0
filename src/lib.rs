//! The core of a small modal text editor: lines indexed by grapheme
//! cluster, a document of such lines, a cursor with its viewport, and the
//! mode machine that turns key events into edits.

pub mod grapheme;
pub mod line;
pub mod buffer;
pub mod cursor;
pub mod view;
pub mod editor;
pub mod keyhandler;

//! A Unicode-correct text buffer with a cursor, line-oriented edit operations
//! and a scrolling viewport, for a terminal source editor.

pub mod text;
pub mod width;
pub mod cursor;
pub mod edit_area;
pub mod laws;
pub mod entries;

pub use cursor::Cursor;
pub use edit_area::{EditArea, EditEvent, Notice, Outcome};
pub use entries::{Entry, EntryType, Error, TreeEntry};
pub use text::{BufferError, TextBuffer};

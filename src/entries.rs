//! Plain data that the host's browser and quick-access list carry around.
use vstd::prelude::*;

verus! {

/// An entry of the project's file tree.
#[derive(Clone, Debug, Default)]
pub struct TreeEntry {
    /// Name shown in the tree.
    pub name: String,
    /// Path of the file or directory.
    pub path: String,
    /// The directory's path, for a directory; `None` for a file.
    pub dir: Option<String>,
}

/// What a quick-access entry leads to.
#[derive(Clone, Copy, Debug, PartialEq, Eq)]
pub enum EntryType {
    File,
    Command,
}

/// An entry of the quick-access list.
#[derive(Clone, Debug)]
pub struct Entry {
    /// The file path or the command name.
    pub str: String,
    pub ty: EntryType,
}

impl Entry {
    /// An entry that opens the file at `str`.
    pub fn file(str: String) -> (r: Self)
        ensures
            r.str@ == str@,
            r.ty == EntryType::File,
    {
        Entry { str, ty: EntryType::File }
    }

    /// An entry that runs the command `str`.
    pub fn command(str: String) -> (r: Self)
        ensures
            r.str@ == str@,
            r.ty == EntryType::Command,
    {
        Entry { str, ty: EntryType::Command }
    }
}

/// The error type.
#[derive(Clone, Debug)]
pub enum Error {
    /// The user provided arguments are malformed.
    Arguments(String),
    /// A file could not be found, opened or saved.
    FileOpen(String),
    /// The text could not be handed to the clipboard.
    Clipboard(String),
}

} // verus!

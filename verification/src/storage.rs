//! What the library asks of the file system when it loads or stores a
//! settings file, and what it was told.
use vstd::prelude::*;

verus! {

/// What came of reading and parsing a file.
pub enum LoadEvent<T> {
    /// The file could not be read.
    Unreadable,
    /// The file was read but its text does not parse; the text is kept.
    Unparsable(String),
    /// The file was read and parsed.
    Parsed(T),
}

/// A write that the caller is to perform, in order.
pub enum FileAction<T> {
    /// Write `text` to `path` as it is.
    WriteText { path: String, text: String },
    /// Serialise `value` and write it to `path`.
    Store { path: String, value: T },
}

/// The action is a `Store` of a value seen as `v` at a path seen as `p`.
pub open spec fn is_store<T: View>(a: FileAction<T>, p: Seq<char>, v: T::V) -> bool {
    a matches FileAction::Store { path, value } && path@ == p && value@ == v
}

/// The action is a `WriteText` of text `t` at a path seen as `p`.
pub open spec fn is_write_text<T>(a: FileAction<T>, p: Seq<char>, t: Seq<char>) -> bool {
    a matches FileAction::WriteText { path, text } && path@ == p && text@ == t
}

} // verus!

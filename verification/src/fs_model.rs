//! Plain-data model of what a traversal observes in a directory tree.
//!
//! The walker does no I/O itself: the caller lists the filesystem into
//! these types (recording, for each directory, either its entries or the
//! fact that it could not be read) and hands the snapshot to the walker.

use vstd::prelude::*;

verus! {

/// A directory path as handed to the walker.
///
/// `text` is the textual rendering of the path. `textual` records whether
/// the underlying platform path really is representable as text; when it
/// is not, `text` is only a lossy stand-in, good for diagnostics but not
/// for building file records.
pub struct DirPath {
    pub text: String,
    pub textual: bool,
}

/// One entry observed while listing a directory, with its name and kind.
///
/// `name_textual` plays the same role for the entry's name as
/// [`DirPath::textual`] does for a whole path.
pub struct Entry {
    pub name: String,
    pub name_textual: bool,
    pub kind: EntryKind,
}

/// The kind of a directory entry, as reported by the platform.
pub enum EntryKind {
    /// A subdirectory, together with what listing it produced.
    Dir(DirListing),
    /// A regular file.
    File,
    /// A symbolic link; the walker never follows these.
    Symlink,
    /// Any other kind (device, socket, FIFO, ...).
    Other,
    /// The entry's kind could not be determined.
    Unknown,
}

/// One slot of a directory listing: either a readable entry or the record
/// of a per-entry read failure.
pub enum EntryOutcome {
    Readable(Entry),
    Unreadable,
}

/// What listing one directory produced: its entries in listing order, or
/// a denial (permission denied, not a directory, any I/O failure).
pub enum DirListing {
    Entries(Vec<EntryOutcome>),
    Denied,
}

/// The path of an entry named `name` inside the directory at `dir`.
pub open spec fn join(dir: Seq<char>, name: Seq<char>) -> Seq<char> {
    if dir.len() == 0 {
        name
    } else if dir.last() == '/' {
        dir + name
    } else {
        dir + seq!['/'] + name
    }
}

} // verus!

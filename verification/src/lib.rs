//! A verified directory walker: given a snapshot of a directory tree, it
//! produces one record per regular file, skips symbolic links (reporting
//! each skipped path), and treats unreadable directories and entries as
//! contributing no records — noting, rather than discarding, the path of
//! every directory whose listing was denied.

pub mod fs_model;
pub mod record;
pub mod walker;
pub mod laws;

//! The directory walker.
//!
//! Walking a [`DirListing`] snapshot produces a [`WalkOutcome`]: one
//! [`FindFile`] per regular file reachable by recursive descent, in
//! listing order, together with the path of every symbolic link that was
//! skipped and the path of every directory whose listing was denied. A
//! denied directory, an unreadable entry, an entry of unknown or other
//! kind, and a file whose path is not representable as text all
//! contribute nothing to the records.

use vstd::prelude::*;
use vstd::string::StrSliceExecFns;
use vstd::string::StringExecFns;

use crate::fs_model::DirListing;
use crate::fs_model::DirPath;
use crate::fs_model::Entry;
use crate::fs_model::EntryKind;
use crate::fs_model::EntryOutcome;
use crate::fs_model::join;
use crate::record::FileRec;
use crate::record::FindFile;
use crate::record::spec_from;

verus! {

/// Everything a walk produced: the file records; the path of each
/// symbolic link that was skipped (one per symlink entry, in the order
/// the links were met), so the caller can report them; and the path of
/// each directory whose listing was denied, so that a caller can tell
/// "no files because there were none" from "no files because access
/// failed" without the walk itself raising an error.
pub struct WalkOutcome {
    pub files: Vec<FindFile>,
    pub skipped_symlinks: Vec<String>,
    pub denied_dirs: Vec<String>,
}

/// The mathematical value of a [`WalkOutcome`].
#[verifier::ext_equal]
pub ghost struct WalkModel {
    pub files: Seq<FileRec>,
    pub skipped: Seq<Seq<char>>,
    pub denied: Seq<Seq<char>>,
}

/// The values of a sequence of records.
pub open spec fn files_view(v: Seq<FindFile>) -> Seq<FileRec> {
    v.map_values(|f: FindFile| f@)
}

/// The values of a sequence of strings.
pub open spec fn strs_view(v: Seq<String>) -> Seq<Seq<char>> {
    v.map_values(|s: String| s@)
}

impl View for WalkOutcome {
    type V = WalkModel;

    open spec fn view(&self) -> WalkModel {
        WalkModel {
            files: files_view(self.files@),
            skipped: strs_view(self.skipped_symlinks@),
            denied: strs_view(self.denied_dirs@),
        }
    }
}

impl WalkModel {
    /// A walk that produced nothing.
    pub open spec fn empty() -> WalkModel {
        WalkModel { files: Seq::empty(), skipped: Seq::empty(), denied: Seq::empty() }
    }

    /// Each part of `self`, then the same part of `other`.
    pub open spec fn combine(self, other: WalkModel) -> WalkModel {
        WalkModel {
            files: self.files + other.files,
            skipped: self.skipped + other.skipped,
            denied: self.denied + other.denied,
        }
    }
}

/// What walking the directory at `dir` produces, given its listing.
pub open spec fn listing_walk(dir: Seq<char>, textual: bool, l: DirListing) -> WalkModel
    decreases l, 1int,
{
    match l {
        DirListing::Denied => WalkModel { files: Seq::empty(), skipped: Seq::empty(), denied: seq![dir] },
        DirListing::Entries(es) => entries_walk(dir, textual, es@),
    }
}

/// What the slots `es` of the directory at `dir` contribute, in order.
pub open spec fn entries_walk(dir: Seq<char>, textual: bool, es: Seq<EntryOutcome>) -> WalkModel
    decreases es, 0int,
{
    if es.len() == 0 {
        WalkModel::empty()
    } else {
        entries_walk(dir, textual, es.drop_last()).combine(outcome_walk(dir, textual, es.last()))
    }
}

/// What one listing slot of the directory at `dir` contributes.
pub open spec fn outcome_walk(dir: Seq<char>, textual: bool, o: EntryOutcome) -> WalkModel
    decreases o, 1int,
{
    match o {
        EntryOutcome::Unreadable => WalkModel::empty(),
        EntryOutcome::Readable(e) => entry_walk(dir, textual, e),
    }
}

/// What one readable entry of the directory at `dir` contributes: a
/// subdirectory is walked in turn, a regular file becomes a record if its
/// path is textual, a symbolic link becomes a skipped path, and anything
/// else is passed over.
pub open spec fn entry_walk(dir: Seq<char>, textual: bool, e: Entry) -> WalkModel
    decreases e, 0int,
{
    let child = join(dir, e.name@);
    let child_textual = textual && e.name_textual;
    match e.kind {
        EntryKind::Dir(l) => listing_walk(child, child_textual, l),
        EntryKind::File => match spec_from(child, child_textual) {
            Some(r) => WalkModel { files: seq![r], skipped: Seq::empty(), denied: Seq::empty() },
            None => WalkModel::empty(),
        },
        EntryKind::Symlink => WalkModel {
            files: Seq::empty(),
            skipped: seq![child],
            denied: Seq::empty(),
        },
        EntryKind::Other => WalkModel::empty(),
        EntryKind::Unknown => WalkModel::empty(),
    }
}

proof fn lemma_files_view_add(a: Seq<FindFile>, b: Seq<FindFile>)
    ensures
        files_view(a + b) == files_view(a) + files_view(b),
{
    assert(files_view(a + b) =~= files_view(a) + files_view(b));
}

proof fn lemma_strs_view_add(a: Seq<String>, b: Seq<String>)
    ensures
        strs_view(a + b) == strs_view(a) + strs_view(b),
{
    assert(strs_view(a + b) =~= strs_view(a) + strs_view(b));
}

impl WalkOutcome {
    /// An outcome with nothing in it.
    pub fn new() -> (r: WalkOutcome)
        ensures
            r@ == WalkModel::empty(),
    {
        let r = WalkOutcome {
            files: Vec::new(),
            skipped_symlinks: Vec::new(),
            denied_dirs: Vec::new(),
        };
        proof {
            assert(r@.files =~= WalkModel::empty().files);
            assert(r@.skipped =~= WalkModel::empty().skipped);
            assert(r@.denied =~= WalkModel::empty().denied);
        }
        r
    }

    /// Move everything `other` produced to the end of `self`.
    pub fn absorb(&mut self, other: WalkOutcome)
        ensures
            final(self)@ == old(self)@.combine(other@),
    {
        let WalkOutcome { mut files, mut skipped_symlinks, mut denied_dirs } = other;
        proof {
            lemma_files_view_add(self.files@, files@);
            lemma_strs_view_add(self.skipped_symlinks@, skipped_symlinks@);
            lemma_strs_view_add(self.denied_dirs@, denied_dirs@);
        }
        self.files.append(&mut files);
        self.skipped_symlinks.append(&mut skipped_symlinks);
        self.denied_dirs.append(&mut denied_dirs);
    }
}

/// The path of the entry named `name` (textual iff `name_textual`) inside
/// the directory at `dir`.
pub fn join_path(dir: &DirPath, name: &String, name_textual: bool) -> (r: DirPath)
    ensures
        r.text@ == join(dir.text@, name@),
        r.textual == (dir.textual && name_textual),
{
    let textual = dir.textual && name_textual;
    let dlen = dir.text.as_str().unicode_len();
    if dlen == 0 {
        DirPath { text: name.clone(), textual }
    } else if dir.text.as_str().get_char(dlen - 1) == '/' {
        let text = dir.text.clone().concat(name.as_str());
        DirPath { text, textual }
    } else {
        proof {
            reveal_strlit("/");
            assert("/"@ =~= seq!['/']);
        }
        let text = dir.text.clone().concat("/").concat(name.as_str());
        DirPath { text, textual }
    }
}

/// Walk the directory at `path`, whose listing is `listing`.
pub fn get_dir_files_if_exists(path: &DirPath, listing: &DirListing) -> (r: WalkOutcome)
    ensures
        r@ == listing_walk(path.text@, path.textual, *listing),
    decreases *listing, 1int,
{
    match listing {
        DirListing::Denied => {
            let r = WalkOutcome {
                files: Vec::new(),
                skipped_symlinks: Vec::new(),
                denied_dirs: vec![path.text.clone()],
            };
            proof {
                let m = listing_walk(path.text@, path.textual, *listing);
                assert(r@.files =~= m.files);
                assert(r@.skipped =~= m.skipped);
                assert(r@.denied =~= m.denied);
            }
            r
        },
        DirListing::Entries(entries) => {
            let mut acc = WalkOutcome::new();
            let mut i: usize = 0;
            while i < entries.len()
                invariant
                    i <= entries@.len(),
                    *listing == DirListing::Entries(*entries),
                    acc@ == entries_walk(path.text@, path.textual, entries@.take(i as int)),
                decreases entries@.len() - i,
            {
                proof {
                    assert(decreases_to!(*listing => listing->Entries_0));
                    assert(decreases_to!(listing->Entries_0 => listing->Entries_0@));
                    assert(listing->Entries_0 == *entries);
                    assert(decreases_to!(entries@ => entries@[i as int]));
                }
                let sub = handle_dir_entry_if_exists(path, &entries[i]);
                acc.absorb(sub);
                proof {
                    let es = entries@;
                    let t = es.take(i as int + 1);
                    assert(t.drop_last() =~= es.take(i as int));
                    assert(t.last() == es[i as int]);
                }
                i += 1;
            }
            proof {
                assert(entries@.take(entries@.len() as int) =~= entries@);
            }
            acc
        },
    }
}

/// Handle one listing slot of the directory at `dir`: an unreadable entry
/// contributes nothing.
pub fn handle_dir_entry_if_exists(dir: &DirPath, outcome: &EntryOutcome) -> (r: WalkOutcome)
    ensures
        r@ == outcome_walk(dir.text@, dir.textual, *outcome),
    decreases *outcome, 1int,
{
    match outcome {
        EntryOutcome::Unreadable => WalkOutcome::new(),
        EntryOutcome::Readable(entry) => handle_dir_entry(dir, entry),
    }
}

/// Handle one readable entry of the directory at `dir`.
pub fn handle_dir_entry(dir: &DirPath, entry: &Entry) -> (r: WalkOutcome)
    ensures
        r@ == entry_walk(dir.text@, dir.textual, *entry),
    decreases *entry, 0int,
{
    let child = join_path(dir, &entry.name, entry.name_textual);
    match &entry.kind {
        EntryKind::Dir(l) => get_dir_files_if_exists(&child, l),
        EntryKind::File => {
            match FindFile::from(&child) {
                Some(f) => {
                    let r = WalkOutcome {
                        files: vec![f],
                        skipped_symlinks: Vec::new(),
                        denied_dirs: Vec::new(),
                    };
                    proof {
                        let m = entry_walk(dir.text@, dir.textual, *entry);
                        assert(r@.files =~= m.files);
                        assert(r@.skipped =~= m.skipped);
                        assert(r@.denied =~= m.denied);
                    }
                    r
                },
                None => WalkOutcome::new(),
            }
        },
        EntryKind::Symlink => {
            let r = WalkOutcome {
                files: Vec::new(),
                skipped_symlinks: vec![child.text],
                denied_dirs: Vec::new(),
            };
            proof {
                let m = entry_walk(dir.text@, dir.textual, *entry);
                assert(r@.files =~= m.files);
                assert(r@.skipped =~= m.skipped);
                assert(r@.denied =~= m.denied);
            }
            r
        },
        EntryKind::Other => WalkOutcome::new(),
        EntryKind::Unknown => WalkOutcome::new(),
    }
}

} // verus!

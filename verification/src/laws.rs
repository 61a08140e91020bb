//! Properties of the walker, stated and proved over the walk model.

use vstd::prelude::*;

use crate::fs_model::DirListing;
use crate::fs_model::Entry;
use crate::fs_model::EntryKind;
use crate::fs_model::EntryOutcome;
use crate::fs_model::join;
use crate::record::FileRec;
use crate::record::clean_dir;
use crate::record::lemma_split_join;
use crate::record::valid_name;
use crate::walker::WalkModel;
use crate::walker::entries_walk;
use crate::walker::entry_walk;
use crate::walker::listing_walk;
use crate::walker::outcome_walk;

verus! {

/// A tree that holds nothing but readable regular files and readable
/// subdirectories, all bearing ordinary textual names.
pub open spec fn listing_files_dirs_only(l: DirListing) -> bool
    decreases l, 1int,
{
    match l {
        DirListing::Denied => false,
        DirListing::Entries(es) => entries_files_dirs_only(es@),
    }
}

/// Every slot of `es` is a readable regular file or subdirectory.
pub open spec fn entries_files_dirs_only(es: Seq<EntryOutcome>) -> bool
    decreases es, 0int,
{
    es.len() == 0 || (entries_files_dirs_only(es.drop_last()) && outcome_files_dirs_only(
        es.last(),
    ))
}

/// The slot is a readable regular file or subdirectory.
pub open spec fn outcome_files_dirs_only(o: EntryOutcome) -> bool
    decreases o, 1int,
{
    match o {
        EntryOutcome::Unreadable => false,
        EntryOutcome::Readable(e) => entry_files_dirs_only(e),
    }
}

/// The entry is a regular file, or a subdirectory of the same shape, with
/// an ordinary textual name.
pub open spec fn entry_files_dirs_only(e: Entry) -> bool
    decreases e, 0int,
{
    &&& e.name_textual
    &&& valid_name(e.name@)
    &&& match e.kind {
        EntryKind::Dir(l) => listing_files_dirs_only(l),
        EntryKind::File => true,
        _ => false,
    }
}

/// The records the walk of the directory at `dir` ought to produce: one
/// per regular file, carrying the file's own name and the path of the
/// directory it sits in.
pub open spec fn listing_file_records(dir: Seq<char>, l: DirListing) -> Seq<FileRec>
    decreases l, 1int,
{
    match l {
        DirListing::Denied => Seq::empty(),
        DirListing::Entries(es) => entries_file_records(dir, es@),
    }
}

/// The records the slots `es` of the directory at `dir` ought to produce.
pub open spec fn entries_file_records(dir: Seq<char>, es: Seq<EntryOutcome>) -> Seq<FileRec>
    decreases es, 0int,
{
    if es.len() == 0 {
        Seq::empty()
    } else {
        entries_file_records(dir, es.drop_last()) + outcome_file_records(dir, es.last())
    }
}

/// The records one slot of the directory at `dir` ought to produce.
pub open spec fn outcome_file_records(dir: Seq<char>, o: EntryOutcome) -> Seq<FileRec>
    decreases o, 1int,
{
    match o {
        EntryOutcome::Unreadable => Seq::empty(),
        EntryOutcome::Readable(e) => entry_file_records(dir, e),
    }
}

/// The records one readable entry of the directory at `dir` ought to
/// produce: exactly one for a regular file, those of the subtree for a
/// subdirectory, none otherwise.
pub open spec fn entry_file_records(dir: Seq<char>, e: Entry) -> Seq<FileRec>
    decreases e, 0int,
{
    match e.kind {
        EntryKind::Dir(l) => listing_file_records(join(dir, e.name@), l),
        EntryKind::File => seq![FileRec { name: e.name@, dir_in: dir, size_bytes: 0 }],
        _ => Seq::empty(),
    }
}

/// The paths of the symbolic links in the tree below the directory at
/// `dir`, in the order a walk meets them.
pub open spec fn listing_symlink_paths(dir: Seq<char>, l: DirListing) -> Seq<Seq<char>>
    decreases l, 1int,
{
    match l {
        DirListing::Denied => Seq::empty(),
        DirListing::Entries(es) => entries_symlink_paths(dir, es@),
    }
}

/// The symbolic-link paths of the slots `es` of the directory at `dir`.
pub open spec fn entries_symlink_paths(dir: Seq<char>, es: Seq<EntryOutcome>) -> Seq<Seq<char>>
    decreases es, 0int,
{
    if es.len() == 0 {
        Seq::empty()
    } else {
        entries_symlink_paths(dir, es.drop_last()) + outcome_symlink_paths(dir, es.last())
    }
}

/// The symbolic-link paths of one slot of the directory at `dir`.
pub open spec fn outcome_symlink_paths(dir: Seq<char>, o: EntryOutcome) -> Seq<Seq<char>>
    decreases o, 1int,
{
    match o {
        EntryOutcome::Unreadable => Seq::empty(),
        EntryOutcome::Readable(e) => entry_symlink_paths(dir, e),
    }
}

/// The symbolic-link paths of one readable entry of the directory at
/// `dir`: its own path if it is a link, those of its subtree if it is a
/// subdirectory.
pub open spec fn entry_symlink_paths(dir: Seq<char>, e: Entry) -> Seq<Seq<char>>
    decreases e, 0int,
{
    match e.kind {
        EntryKind::Dir(l) => listing_symlink_paths(join(dir, e.name@), l),
        EntryKind::Symlink => seq![join(dir, e.name@)],
        _ => Seq::empty(),
    }
}

/// The paths of the directories in the tree below the directory at `dir`
/// whose listing was denied, in the order a walk meets them.
pub open spec fn listing_denied_paths(dir: Seq<char>, l: DirListing) -> Seq<Seq<char>>
    decreases l, 1int,
{
    match l {
        DirListing::Denied => seq![dir],
        DirListing::Entries(es) => entries_denied_paths(dir, es@),
    }
}

/// The denied-directory paths of the slots `es` of the directory at `dir`.
pub open spec fn entries_denied_paths(dir: Seq<char>, es: Seq<EntryOutcome>) -> Seq<Seq<char>>
    decreases es, 0int,
{
    if es.len() == 0 {
        Seq::empty()
    } else {
        entries_denied_paths(dir, es.drop_last()) + outcome_denied_paths(dir, es.last())
    }
}

/// The denied-directory paths of one slot of the directory at `dir`.
pub open spec fn outcome_denied_paths(dir: Seq<char>, o: EntryOutcome) -> Seq<Seq<char>>
    decreases o, 1int,
{
    match o {
        EntryOutcome::Unreadable => Seq::empty(),
        EntryOutcome::Readable(e) => entry_denied_paths(dir, e),
    }
}

/// The denied-directory paths of one readable entry of the directory at
/// `dir`: those of its subtree if it is a subdirectory.
pub open spec fn entry_denied_paths(dir: Seq<char>, e: Entry) -> Seq<Seq<char>>
    decreases e, 0int,
{
    match e.kind {
        EntryKind::Dir(l) => listing_denied_paths(join(dir, e.name@), l),
        _ => Seq::empty(),
    }
}

/// On a tree of nothing but readable regular files and subdirectories
/// with textual names, the walk of the directory at `dir` returns exactly
/// one record per regular file in the tree — carrying that file's name
/// and directory — and no record for a directory itself, and it skips
/// nothing.
pub proof fn lemma_one_record_per_file(dir: Seq<char>, l: DirListing)
    requires
        listing_files_dirs_only(l),
        clean_dir(dir),
    ensures
        listing_walk(dir, true, l).files == listing_file_records(dir, l),
        listing_walk(dir, true, l).skipped == Seq::<Seq<char>>::empty(),
        listing_walk(dir, true, l).denied == Seq::<Seq<char>>::empty(),
    decreases l, 1int,
{
    match l {
        DirListing::Denied => {},
        DirListing::Entries(es) => {
            lemma_entries_one_record_per_file(dir, es@);
        },
    }
}

proof fn lemma_entries_one_record_per_file(dir: Seq<char>, es: Seq<EntryOutcome>)
    requires
        entries_files_dirs_only(es),
        clean_dir(dir),
    ensures
        entries_walk(dir, true, es).files == entries_file_records(dir, es),
        entries_walk(dir, true, es).skipped == Seq::<Seq<char>>::empty(),
        entries_walk(dir, true, es).denied == Seq::<Seq<char>>::empty(),
    decreases es, 0int,
{
    if es.len() == 0 {
    } else {
        lemma_entries_one_record_per_file(dir, es.drop_last());
        lemma_outcome_one_record_per_file(dir, es.last());
        assert(entries_walk(dir, true, es).files =~= entries_file_records(dir, es));
        assert(entries_walk(dir, true, es).skipped =~= Seq::<Seq<char>>::empty());
        assert(entries_walk(dir, true, es).denied =~= Seq::<Seq<char>>::empty());
    }
}

proof fn lemma_outcome_one_record_per_file(dir: Seq<char>, o: EntryOutcome)
    requires
        outcome_files_dirs_only(o),
        clean_dir(dir),
    ensures
        outcome_walk(dir, true, o).files == outcome_file_records(dir, o),
        outcome_walk(dir, true, o).skipped == Seq::<Seq<char>>::empty(),
        outcome_walk(dir, true, o).denied == Seq::<Seq<char>>::empty(),
    decreases o, 1int,
{
    match o {
        EntryOutcome::Unreadable => {},
        EntryOutcome::Readable(e) => {
            lemma_entry_one_record_per_file(dir, e);
        },
    }
}

proof fn lemma_entry_one_record_per_file(dir: Seq<char>, e: Entry)
    requires
        entry_files_dirs_only(e),
        clean_dir(dir),
    ensures
        entry_walk(dir, true, e).files == entry_file_records(dir, e),
        entry_walk(dir, true, e).skipped == Seq::<Seq<char>>::empty(),
        entry_walk(dir, true, e).denied == Seq::<Seq<char>>::empty(),
    decreases e, 0int,
{
    let child = join(dir, e.name@);
    match e.kind {
        EntryKind::Dir(l) => {
            assert(child.last() == e.name@.last());
            lemma_one_record_per_file(child, l);
        },
        EntryKind::File => {
            lemma_split_join(dir, e.name@);
        },
        _ => {},
    }
}

/// Every symbolic link in the tree is excluded from the walk's records
/// and reported exactly once, by its path, whatever it points at and
/// whether or not the paths around it are textual: the skipped paths of a
/// walk are precisely the symbolic-link paths of the tree, in order.
pub proof fn lemma_symlinks_reported_once(dir: Seq<char>, textual: bool, l: DirListing)
    ensures
        listing_walk(dir, textual, l).skipped == listing_symlink_paths(dir, l),
    decreases l, 1int,
{
    match l {
        DirListing::Denied => {},
        DirListing::Entries(es) => {
            lemma_entries_symlinks(dir, textual, es@);
        },
    }
}

proof fn lemma_entries_symlinks(dir: Seq<char>, textual: bool, es: Seq<EntryOutcome>)
    ensures
        entries_walk(dir, textual, es).skipped == entries_symlink_paths(dir, es),
    decreases es, 0int,
{
    if es.len() > 0 {
        lemma_entries_symlinks(dir, textual, es.drop_last());
        lemma_outcome_symlinks(dir, textual, es.last());
    }
}

proof fn lemma_outcome_symlinks(dir: Seq<char>, textual: bool, o: EntryOutcome)
    ensures
        outcome_walk(dir, textual, o).skipped == outcome_symlink_paths(dir, o),
    decreases o, 1int,
{
    match o {
        EntryOutcome::Unreadable => {},
        EntryOutcome::Readable(e) => {
            lemma_entry_symlinks(dir, textual, e);
        },
    }
}

proof fn lemma_entry_symlinks(dir: Seq<char>, textual: bool, e: Entry)
    ensures
        entry_walk(dir, textual, e).skipped == entry_symlink_paths(dir, e),
    decreases e, 0int,
{
    match e.kind {
        EntryKind::Dir(l) => {
            lemma_symlinks_reported_once(join(dir, e.name@), textual && e.name_textual, l);
        },
        _ => {},
    }
}

/// A symbolic-link entry itself contributes no record and exactly one
/// skipped path — its own — regardless of what the link targets.
pub proof fn lemma_symlink_entry(dir: Seq<char>, textual: bool, e: Entry)
    requires
        e.kind is Symlink,
    ensures
        entry_walk(dir, textual, e) == (WalkModel {
            files: Seq::empty(),
            skipped: seq![join(dir, e.name@)],
            denied: Seq::empty(),
        }),
{
}

/// A subdirectory that could not be read contributes no record and no
/// skipped path: walking a listing with such a slot returns the same
/// records and the same skipped paths as walking the listing without
/// that slot, so every sibling and ancestor file is returned unaffected,
/// and no failure escapes (the denial itself is only noted among the
/// denied paths).
pub proof fn lemma_denied_dir_contributes_nothing(
    dir: Seq<char>,
    textual: bool,
    es: Seq<EntryOutcome>,
    i: int,
)
    requires
        0 <= i < es.len(),
        es[i] matches EntryOutcome::Readable(e) && e.kind matches EntryKind::Dir(
            DirListing::Denied,
        ),
    ensures
        entries_walk(dir, textual, es).files == entries_walk(dir, textual, es.remove(i)).files,
        entries_walk(dir, textual, es).skipped == entries_walk(
            dir,
            textual,
            es.remove(i),
        ).skipped,
    decreases es.len(),
{
    if i == es.len() - 1 {
        assert(outcome_walk(dir, textual, es.last()).files =~= Seq::<FileRec>::empty());
        assert(outcome_walk(dir, textual, es.last()).skipped =~= Seq::<Seq<char>>::empty());
        assert(es.remove(i) =~= es.drop_last());
        let m = entries_walk(dir, textual, es.drop_last());
        assert(m.combine(outcome_walk(dir, textual, es.last())).files =~= m.files);
        assert(m.combine(outcome_walk(dir, textual, es.last())).skipped =~= m.skipped);
    } else {
        lemma_denied_dir_contributes_nothing(dir, textual, es.drop_last(), i);
        assert(es.remove(i).drop_last() =~= es.drop_last().remove(i));
        assert(es.remove(i).last() == es.last());
    }
}

/// Walking the same snapshot twice gives the same outcome: the records —
/// and so the set of file paths — and the skipped paths are identical.
pub proof fn lemma_walk_idempotent(
    dir: Seq<char>,
    textual: bool,
    l: DirListing,
    r1: WalkModel,
    r2: WalkModel,
)
    requires
        r1 == listing_walk(dir, textual, l),
        r2 == listing_walk(dir, textual, l),
    ensures
        r1 == r2,
        r1.files.to_set() == r2.files.to_set(),
{
}

/// An empty directory yields an empty outcome — no records, nothing
/// skipped — not an error.
pub proof fn lemma_empty_dir(dir: Seq<char>, textual: bool, l: DirListing)
    requires
        l matches DirListing::Entries(es) && es@.len() == 0,
    ensures
        listing_walk(dir, textual, l) == WalkModel::empty(),
{
}

/// No access failure is lost: the denied paths of a walk are precisely
/// the paths of the directories whose listing was denied, in order — so
/// an empty walk with no denied path really found an empty tree, while
/// one with denied paths says exactly where access failed.
pub proof fn lemma_denials_reported(dir: Seq<char>, textual: bool, l: DirListing)
    ensures
        listing_walk(dir, textual, l).denied == listing_denied_paths(dir, l),
    decreases l, 1int,
{
    match l {
        DirListing::Denied => {},
        DirListing::Entries(es) => {
            lemma_entries_denials(dir, textual, es@);
        },
    }
}

proof fn lemma_entries_denials(dir: Seq<char>, textual: bool, es: Seq<EntryOutcome>)
    ensures
        entries_walk(dir, textual, es).denied == entries_denied_paths(dir, es),
    decreases es, 0int,
{
    if es.len() > 0 {
        lemma_entries_denials(dir, textual, es.drop_last());
        lemma_outcome_denials(dir, textual, es.last());
    }
}

proof fn lemma_outcome_denials(dir: Seq<char>, textual: bool, o: EntryOutcome)
    ensures
        outcome_walk(dir, textual, o).denied == outcome_denied_paths(dir, o),
    decreases o, 1int,
{
    match o {
        EntryOutcome::Unreadable => {},
        EntryOutcome::Readable(e) => {
            lemma_entry_denials(dir, textual, e);
        },
    }
}

proof fn lemma_entry_denials(dir: Seq<char>, textual: bool, e: Entry)
    ensures
        entry_walk(dir, textual, e).denied == entry_denied_paths(dir, e),
    decreases e, 0int,
{
    match e.kind {
        EntryKind::Dir(l) => {
            lemma_denials_reported(join(dir, e.name@), textual && e.name_textual, l);
        },
        _ => {},
    }
}

/// A listing slot that holds a symbolic link.
pub open spec fn link_slot(o: EntryOutcome) -> bool {
    o matches EntryOutcome::Readable(e) && e.kind is Symlink
}

/// A listing slot that holds a subdirectory whose listing was denied.
pub open spec fn denied_dir_slot(o: EntryOutcome) -> bool {
    o matches EntryOutcome::Readable(e) && e.kind matches EntryKind::Dir(DirListing::Denied)
}

/// `l2` is `l1` with every symbolic-link entry removed, at every depth,
/// and nothing else changed.
pub open spec fn listing_links_pruned(l1: DirListing, l2: DirListing) -> bool
    decreases l1, l2, 1int,
{
    match l1 {
        DirListing::Denied => l2 is Denied,
        DirListing::Entries(a) => l2 matches DirListing::Entries(b) && entries_links_pruned(
            a@,
            b@,
        ),
    }
}

/// `b` is `a` with its symbolic-link slots removed, at every depth.
pub open spec fn entries_links_pruned(a: Seq<EntryOutcome>, b: Seq<EntryOutcome>) -> bool
    decreases a, b, 0int,
{
    if a.len() == 0 {
        b.len() == 0
    } else if link_slot(a.last()) {
        entries_links_pruned(a.drop_last(), b)
    } else {
        &&& b.len() > 0
        &&& outcome_links_pruned(a.last(), b.last())
        &&& entries_links_pruned(a.drop_last(), b.drop_last())
    }
}

/// `o2` is the kept slot `o1` with the links below it removed.
pub open spec fn outcome_links_pruned(o1: EntryOutcome, o2: EntryOutcome) -> bool
    decreases o1, o2, 1int,
{
    match o1 {
        EntryOutcome::Unreadable => o2 is Unreadable,
        EntryOutcome::Readable(e1) => o2 matches EntryOutcome::Readable(e2)
            && entry_links_pruned(e1, e2),
    }
}

/// `e2` is the kept entry `e1` with the links below it removed: same name,
/// same kind (never a link), subtrees related in turn.
pub open spec fn entry_links_pruned(e1: Entry, e2: Entry) -> bool
    decreases e1, e2, 0int,
{
    &&& e2.name@ == e1.name@
    &&& e2.name_textual == e1.name_textual
    &&& match e1.kind {
        EntryKind::Dir(s1) => e2.kind matches EntryKind::Dir(s2) && listing_links_pruned(s1, s2),
        EntryKind::File => e2.kind is File,
        EntryKind::Symlink => false,
        EntryKind::Other => e2.kind is Other,
        EntryKind::Unknown => e2.kind is Unknown,
    }
}

/// The symbolic links of a tree — at any depth, whatever each targets —
/// contribute nothing to the records: a walk returns exactly the records
/// (and the denied paths) of the same tree with every link removed, and
/// the link-free tree warns of nothing. No record can stem from a link
/// or from anything reachable only through one, since the snapshot never
/// descends a link in the first place.
pub proof fn lemma_links_contribute_no_records(
    dir: Seq<char>,
    textual: bool,
    l1: DirListing,
    l2: DirListing,
)
    requires
        listing_links_pruned(l1, l2),
    ensures
        listing_walk(dir, textual, l1).files == listing_walk(dir, textual, l2).files,
        listing_walk(dir, textual, l1).denied == listing_walk(dir, textual, l2).denied,
        listing_walk(dir, textual, l2).skipped == Seq::<Seq<char>>::empty(),
    decreases l1, l2, 1int,
{
    match l1 {
        DirListing::Denied => {},
        DirListing::Entries(a) => {
            lemma_entries_links_removed(dir, textual, a@, l2->Entries_0@);
        },
    }
}

proof fn lemma_entries_links_removed(
    dir: Seq<char>,
    textual: bool,
    a: Seq<EntryOutcome>,
    b: Seq<EntryOutcome>,
)
    requires
        entries_links_pruned(a, b),
    ensures
        entries_walk(dir, textual, a).files == entries_walk(dir, textual, b).files,
        entries_walk(dir, textual, a).denied == entries_walk(dir, textual, b).denied,
        entries_walk(dir, textual, b).skipped == Seq::<Seq<char>>::empty(),
    decreases a, b, 0int,
{
    if a.len() == 0 {
    } else if link_slot(a.last()) {
        lemma_entries_links_removed(dir, textual, a.drop_last(), b);
        let e = a.last()->Readable_0;
        assert(outcome_walk(dir, textual, a.last()) == entry_walk(dir, textual, e));
        assert(entry_walk(dir, textual, e).files =~= Seq::<FileRec>::empty());
        assert(entry_walk(dir, textual, e).denied =~= Seq::<Seq<char>>::empty());
        assert(entries_walk(dir, textual, a).files =~= entries_walk(dir, textual, b).files);
        assert(entries_walk(dir, textual, a).denied =~= entries_walk(dir, textual, b).denied);
    } else {
        lemma_entries_links_removed(dir, textual, a.drop_last(), b.drop_last());
        lemma_outcome_links_removed(dir, textual, a.last(), b.last());
        assert(entries_walk(dir, textual, a).files =~= entries_walk(dir, textual, b).files);
        assert(entries_walk(dir, textual, a).denied =~= entries_walk(dir, textual, b).denied);
        assert(entries_walk(dir, textual, b).skipped =~= Seq::<Seq<char>>::empty());
    }
}

proof fn lemma_outcome_links_removed(
    dir: Seq<char>,
    textual: bool,
    o1: EntryOutcome,
    o2: EntryOutcome,
)
    requires
        outcome_links_pruned(o1, o2),
    ensures
        outcome_walk(dir, textual, o1).files == outcome_walk(dir, textual, o2).files,
        outcome_walk(dir, textual, o1).denied == outcome_walk(dir, textual, o2).denied,
        outcome_walk(dir, textual, o2).skipped == Seq::<Seq<char>>::empty(),
    decreases o1, o2, 1int,
{
    match o1 {
        EntryOutcome::Unreadable => {},
        EntryOutcome::Readable(e1) => {
            lemma_entry_links_removed(dir, textual, e1, o2->Readable_0);
        },
    }
}

proof fn lemma_entry_links_removed(dir: Seq<char>, textual: bool, e1: Entry, e2: Entry)
    requires
        entry_links_pruned(e1, e2),
    ensures
        entry_walk(dir, textual, e1).files == entry_walk(dir, textual, e2).files,
        entry_walk(dir, textual, e1).denied == entry_walk(dir, textual, e2).denied,
        entry_walk(dir, textual, e2).skipped == Seq::<Seq<char>>::empty(),
    decreases e1, e2, 0int,
{
    match e1.kind {
        EntryKind::Dir(s1) => {
            lemma_links_contribute_no_records(
                join(dir, e1.name@),
                textual && e1.name_textual,
                s1,
                e2.kind->Dir_0,
            );
        },
        _ => {},
    }
}

/// `l2` is `l1` with every denied subdirectory removed, at every depth,
/// and nothing else changed (the roots themselves are readable listings).
pub open spec fn listing_denied_pruned(l1: DirListing, l2: DirListing) -> bool
    decreases l1, l2, 1int,
{
    match l1 {
        DirListing::Denied => false,
        DirListing::Entries(a) => l2 matches DirListing::Entries(b) && entries_denied_pruned(
            a@,
            b@,
        ),
    }
}

/// `b` is `a` with its denied-subdirectory slots removed, at every depth.
pub open spec fn entries_denied_pruned(a: Seq<EntryOutcome>, b: Seq<EntryOutcome>) -> bool
    decreases a, b, 0int,
{
    if a.len() == 0 {
        b.len() == 0
    } else if denied_dir_slot(a.last()) {
        entries_denied_pruned(a.drop_last(), b)
    } else {
        &&& b.len() > 0
        &&& outcome_denied_pruned(a.last(), b.last())
        &&& entries_denied_pruned(a.drop_last(), b.drop_last())
    }
}

/// `o2` is the kept slot `o1` with the denied subdirectories below it
/// removed.
pub open spec fn outcome_denied_pruned(o1: EntryOutcome, o2: EntryOutcome) -> bool
    decreases o1, o2, 1int,
{
    match o1 {
        EntryOutcome::Unreadable => o2 is Unreadable,
        EntryOutcome::Readable(e1) => o2 matches EntryOutcome::Readable(e2)
            && entry_denied_pruned(e1, e2),
    }
}

/// `e2` is the kept entry `e1` with the denied subdirectories below it
/// removed: same name, same kind (never itself denied), subtrees related
/// in turn.
pub open spec fn entry_denied_pruned(e1: Entry, e2: Entry) -> bool
    decreases e1, e2, 0int,
{
    &&& e2.name@ == e1.name@
    &&& e2.name_textual == e1.name_textual
    &&& match e1.kind {
        EntryKind::Dir(s1) => e2.kind matches EntryKind::Dir(s2) && listing_denied_pruned(
            s1,
            s2,
        ),
        EntryKind::File => e2.kind is File,
        EntryKind::Symlink => e2.kind is Symlink,
        EntryKind::Other => e2.kind is Other,
        EntryKind::Unknown => e2.kind is Unknown,
    }
}

/// The denied subdirectories of a tree — at any depth — contribute
/// nothing to the records or the skipped paths: a walk returns exactly
/// the records and skipped paths of the same tree with every denied
/// subdirectory removed, a tree in which nothing is denied, and no
/// failure escapes either walk.
pub proof fn lemma_denied_subtrees_contribute_no_records(
    dir: Seq<char>,
    textual: bool,
    l1: DirListing,
    l2: DirListing,
)
    requires
        listing_denied_pruned(l1, l2),
    ensures
        listing_walk(dir, textual, l1).files == listing_walk(dir, textual, l2).files,
        listing_walk(dir, textual, l1).skipped == listing_walk(dir, textual, l2).skipped,
        listing_walk(dir, textual, l2).denied == Seq::<Seq<char>>::empty(),
    decreases l1, l2, 1int,
{
    match l1 {
        DirListing::Denied => {},
        DirListing::Entries(a) => {
            lemma_entries_denied_removed(dir, textual, a@, l2->Entries_0@);
        },
    }
}

proof fn lemma_entries_denied_removed(
    dir: Seq<char>,
    textual: bool,
    a: Seq<EntryOutcome>,
    b: Seq<EntryOutcome>,
)
    requires
        entries_denied_pruned(a, b),
    ensures
        entries_walk(dir, textual, a).files == entries_walk(dir, textual, b).files,
        entries_walk(dir, textual, a).skipped == entries_walk(dir, textual, b).skipped,
        entries_walk(dir, textual, b).denied == Seq::<Seq<char>>::empty(),
    decreases a, b, 0int,
{
    if a.len() == 0 {
    } else if denied_dir_slot(a.last()) {
        lemma_entries_denied_removed(dir, textual, a.drop_last(), b);
        let e = a.last()->Readable_0;
        let child = join(dir, e.name@);
        assert(outcome_walk(dir, textual, a.last()) == entry_walk(dir, textual, e));
        assert(entry_walk(dir, textual, e) == listing_walk(
            child,
            textual && e.name_textual,
            DirListing::Denied,
        ));
        assert(listing_walk(child, textual && e.name_textual, DirListing::Denied).files
            =~= Seq::<FileRec>::empty());
        assert(entries_walk(dir, textual, a).files =~= entries_walk(dir, textual, b).files);
        assert(entries_walk(dir, textual, a).skipped =~= entries_walk(dir, textual, b).skipped);
    } else {
        lemma_entries_denied_removed(dir, textual, a.drop_last(), b.drop_last());
        lemma_outcome_denied_removed(dir, textual, a.last(), b.last());
        assert(entries_walk(dir, textual, a).files =~= entries_walk(dir, textual, b).files);
        assert(entries_walk(dir, textual, a).skipped =~= entries_walk(dir, textual, b).skipped);
        assert(entries_walk(dir, textual, b).denied =~= Seq::<Seq<char>>::empty());
    }
}

proof fn lemma_outcome_denied_removed(
    dir: Seq<char>,
    textual: bool,
    o1: EntryOutcome,
    o2: EntryOutcome,
)
    requires
        outcome_denied_pruned(o1, o2),
    ensures
        outcome_walk(dir, textual, o1).files == outcome_walk(dir, textual, o2).files,
        outcome_walk(dir, textual, o1).skipped == outcome_walk(dir, textual, o2).skipped,
        outcome_walk(dir, textual, o2).denied == Seq::<Seq<char>>::empty(),
    decreases o1, o2, 1int,
{
    match o1 {
        EntryOutcome::Unreadable => {},
        EntryOutcome::Readable(e1) => {
            lemma_entry_denied_removed(dir, textual, e1, o2->Readable_0);
        },
    }
}

proof fn lemma_entry_denied_removed(dir: Seq<char>, textual: bool, e1: Entry, e2: Entry)
    requires
        entry_denied_pruned(e1, e2),
    ensures
        entry_walk(dir, textual, e1).files == entry_walk(dir, textual, e2).files,
        entry_walk(dir, textual, e1).skipped == entry_walk(dir, textual, e2).skipped,
        entry_walk(dir, textual, e2).denied == Seq::<Seq<char>>::empty(),
    decreases e1, e2, 0int,
{
    match e1.kind {
        EntryKind::Dir(s1) => {
            lemma_denied_subtrees_contribute_no_records(
                join(dir, e1.name@),
                textual && e1.name_textual,
                s1,
                e2.kind->Dir_0,
            );
        },
        _ => {},
    }
}

} // verus!

use rust_find::fs_model::DirListing;
use rust_find::fs_model::DirPath;
use rust_find::fs_model::Entry;
use rust_find::fs_model::EntryKind;
use rust_find::fs_model::EntryOutcome;
use rust_find::walker::WalkOutcome;
use rust_find::walker::get_dir_files_if_exists;
use rust_find::walker::handle_dir_entry;
use rust_find::walker::handle_dir_entry_if_exists;
use rust_find::walker::join_path;

fn root(text: &str) -> DirPath {
    DirPath { text: text.to_string(), textual: true }
}

fn entry(name: &str, kind: EntryKind) -> EntryOutcome {
    EntryOutcome::Readable(Entry { name: name.to_string(), name_textual: true, kind })
}

fn file(name: &str) -> EntryOutcome {
    entry(name, EntryKind::File)
}

fn subdir(name: &str, slots: Vec<EntryOutcome>) -> EntryOutcome {
    entry(name, EntryKind::Dir(DirListing::Entries(slots)))
}

fn link(name: &str) -> EntryOutcome {
    entry(name, EntryKind::Symlink)
}

fn paths(out: &WalkOutcome) -> Vec<String> {
    out.files
        .iter()
        .map(|f| {
            if f.dir_in.is_empty() {
                f.name.clone()
            } else {
                format!("{}/{}", f.dir_in, f.name)
            }
        })
        .collect()
}

#[test]
fn one_record_per_file_in_nested_tree() {
    let listing = DirListing::Entries(vec![
        file("a.txt"),
        subdir("sub", vec![file("b.txt"), subdir("deep", vec![file("c.txt")])]),
        file("d.txt"),
    ]);
    let out = get_dir_files_if_exists(&root("top"), &listing);
    assert_eq!(
        paths(&out),
        vec!["top/a.txt", "top/sub/b.txt", "top/sub/deep/c.txt", "top/d.txt"]
    );
    assert!(out.skipped_symlinks.is_empty());
    assert!(out.files.iter().all(|f| f.size_bytes == 0));
}

#[test]
fn no_record_for_a_directory_itself() {
    let listing = DirListing::Entries(vec![subdir("only", vec![])]);
    let out = get_dir_files_if_exists(&root("top"), &listing);
    assert!(out.files.is_empty());
    assert!(out.skipped_symlinks.is_empty());
}

#[test]
fn symlink_excluded_and_warned_once() {
    let listing = DirListing::Entries(vec![file("a.txt"), link("loop"), file("b.txt")]);
    let out = get_dir_files_if_exists(&root("top"), &listing);
    assert_eq!(paths(&out), vec!["top/a.txt", "top/b.txt"]);
    assert_eq!(out.skipped_symlinks, vec!["top/loop"]);
}

#[test]
fn denied_subdir_leaves_siblings_unaffected() {
    let listing = DirListing::Entries(vec![
        file("a.txt"),
        entry("locked", EntryKind::Dir(DirListing::Denied)),
        subdir("sub", vec![file("ok.txt")]),
    ]);
    let out = get_dir_files_if_exists(&root("top"), &listing);
    assert_eq!(paths(&out), vec!["top/a.txt", "top/sub/ok.txt"]);
    assert!(out.skipped_symlinks.is_empty());
    assert_eq!(out.denied_dirs, vec!["top/locked"]);
}

#[test]
fn denied_root_contributes_zero_files() {
    let out = get_dir_files_if_exists(&root("top"), &DirListing::Denied);
    assert!(out.files.is_empty());
    assert!(out.skipped_symlinks.is_empty());
    assert_eq!(out.denied_dirs, vec!["top"]);
}

#[test]
fn walking_twice_yields_same_paths() {
    let tree = || {
        DirListing::Entries(vec![
            file("a.txt"),
            subdir("sub", vec![file("b.txt"), link("l")]),
        ])
    };
    let first = get_dir_files_if_exists(&root("top"), &tree());
    let second = get_dir_files_if_exists(&root("top"), &tree());
    let mut p1 = paths(&first);
    let mut p2 = paths(&second);
    p1.sort();
    p2.sort();
    assert_eq!(p1, p2);
    assert_eq!(first.skipped_symlinks, second.skipped_symlinks);
}

#[test]
fn empty_directory_yields_empty_outcome() {
    let out = get_dir_files_if_exists(&root("top"), &DirListing::Entries(vec![]));
    assert!(out.files.is_empty());
    assert!(out.skipped_symlinks.is_empty());
    assert!(out.denied_dirs.is_empty());
}

#[test]
fn empty_tree_and_denied_tree_are_told_apart() {
    let empty = get_dir_files_if_exists(&root("top"), &DirListing::Entries(vec![]));
    let denied = get_dir_files_if_exists(&root("top"), &DirListing::Denied);
    assert_eq!(empty.files.len(), denied.files.len());
    assert!(empty.denied_dirs.is_empty());
    assert_eq!(denied.denied_dirs, vec!["top"]);
}

#[test]
fn scenario_root_with_file_subdir_and_link() {
    let listing = DirListing::Entries(vec![
        file("a.txt"),
        subdir("sub", vec![file("b.txt")]),
        link("link"),
    ]);
    let out = get_dir_files_if_exists(&root("root"), &listing);
    assert_eq!(paths(&out), vec!["root/a.txt", "root/sub/b.txt"]);
    assert_eq!(out.skipped_symlinks, vec!["root/link"]);
}

#[test]
fn unknown_entry_kind_is_skipped_not_fatal() {
    let listing = DirListing::Entries(vec![
        file("a.txt"),
        entry("odd", EntryKind::Unknown),
        file("b.txt"),
    ]);
    let out = get_dir_files_if_exists(&root("top"), &listing);
    assert_eq!(paths(&out), vec!["top/a.txt", "top/b.txt"]);
    assert!(out.skipped_symlinks.is_empty());
}

#[test]
fn other_entry_kind_is_skipped() {
    let listing = DirListing::Entries(vec![entry("dev", EntryKind::Other), file("a.txt")]);
    let out = get_dir_files_if_exists(&root("top"), &listing);
    assert_eq!(paths(&out), vec!["top/a.txt"]);
    assert!(out.skipped_symlinks.is_empty());
}

#[test]
fn unreadable_entry_is_skipped() {
    let listing = DirListing::Entries(vec![
        file("a.txt"),
        EntryOutcome::Unreadable,
        file("b.txt"),
    ]);
    let out = get_dir_files_if_exists(&root("top"), &listing);
    assert_eq!(paths(&out), vec!["top/a.txt", "top/b.txt"]);
}

#[test]
fn nontextual_file_name_is_dropped_silently() {
    let listing = DirListing::Entries(vec![
        file("a.txt"),
        EntryOutcome::Readable(Entry {
            name: "b\u{fffd}d".to_string(),
            name_textual: false,
            kind: EntryKind::File,
        }),
    ]);
    let out = get_dir_files_if_exists(&root("top"), &listing);
    assert_eq!(paths(&out), vec!["top/a.txt"]);
    assert!(out.skipped_symlinks.is_empty());
}

#[test]
fn nontextual_dir_drops_files_but_still_warns_about_links() {
    let listing = DirListing::Entries(vec![EntryOutcome::Readable(Entry {
        name: "odd\u{fffd}".to_string(),
        name_textual: false,
        kind: EntryKind::Dir(DirListing::Entries(vec![file("inner.txt"), link("l")])),
    })]);
    let out = get_dir_files_if_exists(&root("top"), &listing);
    assert!(out.files.is_empty());
    assert_eq!(out.skipped_symlinks, vec!["top/odd\u{fffd}/l"]);
}

#[test]
fn nontextual_root_drops_all_records() {
    let listing = DirListing::Entries(vec![file("a.txt")]);
    let p = DirPath { text: "mnt\u{fffd}".to_string(), textual: false };
    let out = get_dir_files_if_exists(&p, &listing);
    assert!(out.files.is_empty());
}

#[test]
fn join_path_inserts_separator_only_when_needed() {
    let a = join_path(&root("a"), &"b".to_string(), true);
    assert_eq!(a.text, "a/b");
    assert!(a.textual);
    let b = join_path(&root("a/"), &"b".to_string(), true);
    assert_eq!(b.text, "a/b");
    let c = join_path(&root(""), &"b".to_string(), true);
    assert_eq!(c.text, "b");
    let d = join_path(&root("a"), &"b".to_string(), false);
    assert!(!d.textual);
}

#[test]
fn handle_dir_entry_builds_one_record_for_a_file() {
    let e = Entry { name: "x.txt".to_string(), name_textual: true, kind: EntryKind::File };
    let out = handle_dir_entry(&root("top"), &e);
    assert_eq!(out.files.len(), 1);
    assert_eq!(out.files[0].name, "x.txt");
    assert_eq!(out.files[0].dir_in, "top");
}

#[test]
fn handle_dir_entry_if_exists_ignores_unreadable() {
    let out = handle_dir_entry_if_exists(&root("top"), &EntryOutcome::Unreadable);
    assert!(out.files.is_empty());
    assert!(out.skipped_symlinks.is_empty());
}

#[test]
fn walk_rooted_at_filesystem_root_keeps_root_in_records() {
    let listing = DirListing::Entries(vec![file("a.txt"), subdir("sub", vec![file("b.txt")])]);
    let out = get_dir_files_if_exists(&root("/"), &listing);
    assert_eq!(out.files.len(), 2);
    assert_eq!(out.files[0].name, "a.txt");
    assert_eq!(out.files[0].dir_in, "/");
    assert_eq!(out.files[1].name, "b.txt");
    assert_eq!(out.files[1].dir_in, "/sub");
}

#[test]
fn removing_every_link_changes_no_records() {
    let with_links = DirListing::Entries(vec![
        file("a.txt"),
        link("l1"),
        subdir("sub", vec![link("l2"), file("b.txt")]),
    ]);
    let without_links = DirListing::Entries(vec![
        file("a.txt"),
        subdir("sub", vec![file("b.txt")]),
    ]);
    let first = get_dir_files_if_exists(&root("top"), &with_links);
    let second = get_dir_files_if_exists(&root("top"), &without_links);
    assert_eq!(paths(&first), paths(&second));
    assert_eq!(first.denied_dirs, second.denied_dirs);
    assert_eq!(first.skipped_symlinks, vec!["top/l1", "top/sub/l2"]);
    assert!(second.skipped_symlinks.is_empty());
}

#[test]
fn removing_every_denied_subdir_changes_no_records_or_warnings() {
    let with_denied = DirListing::Entries(vec![
        file("a.txt"),
        entry("locked", EntryKind::Dir(DirListing::Denied)),
        subdir(
            "sub",
            vec![entry("inner", EntryKind::Dir(DirListing::Denied)), file("b.txt"), link("l")],
        ),
    ]);
    let without_denied = DirListing::Entries(vec![
        file("a.txt"),
        subdir("sub", vec![file("b.txt"), link("l")]),
    ]);
    let first = get_dir_files_if_exists(&root("top"), &with_denied);
    let second = get_dir_files_if_exists(&root("top"), &without_denied);
    assert_eq!(paths(&first), paths(&second));
    assert_eq!(first.skipped_symlinks, second.skipped_symlinks);
    assert_eq!(first.denied_dirs, vec!["top/locked", "top/sub/inner"]);
    assert!(second.denied_dirs.is_empty());
}

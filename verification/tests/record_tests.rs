use rust_find::fs_model::DirPath;
use rust_find::record::FindFile;

fn textual(text: &str) -> DirPath {
    DirPath { text: text.to_string(), textual: true }
}

#[test]
fn from_splits_at_last_separator() {
    let f: FindFile = FindFile::from(&textual("a/b/c.txt")).unwrap();
    assert_eq!(f.name, "c.txt");
    assert_eq!(f.dir_in, "a/b");
    assert_eq!(f.size_bytes, 0);
}

#[test]
fn from_without_separator_is_all_name() {
    let f = FindFile::from(&textual("notes.txt")).unwrap();
    assert_eq!(f.name, "notes.txt");
    assert_eq!(f.dir_in, "");
}

#[test]
fn from_empty_path_is_none() {
    assert!(FindFile::from(&textual("")).is_none());
}

#[test]
fn from_nontextual_path_is_none() {
    let p = DirPath { text: "a/b\u{fffd}.txt".to_string(), textual: false };
    assert!(FindFile::from(&p).is_none());
}

#[test]
fn from_dot_relative_path() {
    let f = FindFile::from(&textual("./a.txt")).unwrap();
    assert_eq!(f.name, "a.txt");
    assert_eq!(f.dir_in, ".");
}

#[test]
fn from_nested_unicode_name() {
    let f = FindFile::from(&textual("docs/\u{fc}ber.txt")).unwrap();
    assert_eq!(f.name, "\u{fc}ber.txt");
    assert_eq!(f.dir_in, "docs");
}

#[test]
fn from_file_directly_under_root_keeps_root_dir() {
    let f = FindFile::from(&textual("/a")).unwrap();
    assert_eq!(f.name, "a");
    assert_eq!(f.dir_in, "/");
}

#[test]
fn from_strips_trailing_separators() {
    let f = FindFile::from(&textual("a/b/")).unwrap();
    assert_eq!(f.name, "b");
    assert_eq!(f.dir_in, "a");
    let g = FindFile::from(&textual("a/b//")).unwrap();
    assert_eq!(g.name, "b");
    assert_eq!(g.dir_in, "a");
}

#[test]
fn from_collapses_separators_at_the_split() {
    let f = FindFile::from(&textual("a//b")).unwrap();
    assert_eq!(f.name, "b");
    assert_eq!(f.dir_in, "a");
    let g = FindFile::from(&textual("//a")).unwrap();
    assert_eq!(g.name, "a");
    assert_eq!(g.dir_in, "/");
}

#[test]
fn from_root_itself_is_named_root() {
    let f = FindFile::from(&textual("/")).unwrap();
    assert_eq!(f.name, "/");
    assert_eq!(f.dir_in, "");
}

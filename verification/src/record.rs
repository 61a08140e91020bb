//! File records and how one is built from a path.
//!
//! A [`FindFile`] is created for a regular file by splitting its path
//! into components: the last component becomes `name`, the leading
//! components become `dir_in`. As in a component split, trailing
//! separators are ignored, repeated separators around the split point
//! collapse, the directory part is `/` when the only separator left
//! before the name is the root's, and a path of nothing but separators
//! is the root itself, named `/`. Construction fails (returns `None`)
//! exactly when the path is empty or has no textual representation; such
//! files are dropped from the walk silently.

use vstd::prelude::*;
use vstd::string::StrSliceExecFns;

use crate::fs_model::DirPath;
use crate::fs_model::join;

verus! {

/// One discovered regular file: its name, the directory it sits in, and
/// its size. The walker does not consult file metadata, so `size_bytes`
/// is left at zero.
#[derive(Debug)]
pub struct FindFile {
    pub name: String,
    pub dir_in: String,
    pub size_bytes: u64,
}

/// The mathematical value of a [`FindFile`].
#[verifier::ext_equal]
pub ghost struct FileRec {
    pub name: Seq<char>,
    pub dir_in: Seq<char>,
    pub size_bytes: u64,
}

impl View for FindFile {
    type V = FileRec;

    open spec fn view(&self) -> FileRec {
        FileRec { name: self.name@, dir_in: self.dir_in@, size_bytes: self.size_bytes }
    }
}

/// `s` with its trailing separators removed.
pub open spec fn strip_slashes(s: Seq<char>) -> Seq<char>
    decreases s.len(),
{
    if s.len() > 0 && s.last() == '/' {
        strip_slashes(s.drop_last())
    } else {
        s
    }
}

/// The index of the last `/` in `s`, if any.
pub open spec fn last_slash(s: Seq<char>) -> Option<int>
    decreases s.len(),
{
    if s.len() == 0 {
        None
    } else if s.last() == '/' {
        Some(s.len() - 1)
    } else {
        last_slash(s.drop_last())
    }
}

/// The directory part of a split path, given everything before the last
/// separator: its own trailing separators are dropped, and when nothing
/// is left the separator was the root's, so the directory is `/`.
pub open spec fn dir_part(p: Seq<char>) -> Seq<char> {
    if strip_slashes(p).len() == 0 {
        seq!['/']
    } else {
        strip_slashes(p)
    }
}

/// What [`FindFile::from`] returns for a path whose text is `text` and
/// whose textual flag is `textual`: nothing for a non-textual or empty
/// path; the root record (name `/`, in no directory) for a path of
/// separators only; otherwise the component split of `text` — trailing
/// separators dropped, the part after the last remaining separator the
/// name, the part before it the directory (a path without separators is
/// all name, in no directory).
pub open spec fn spec_from(text: Seq<char>, textual: bool) -> Option<FileRec> {
    if !textual || text.len() == 0 {
        None
    } else {
        let t = strip_slashes(text);
        if t.len() == 0 {
            Some(FileRec { name: seq!['/'], dir_in: Seq::empty(), size_bytes: 0 })
        } else {
            match last_slash(t) {
                Some(k) => Some(
                    FileRec {
                        name: t.subrange(k + 1, t.len() as int),
                        dir_in: dir_part(t.subrange(0, k)),
                        size_bytes: 0,
                    },
                ),
                None => Some(FileRec { name: t, dir_in: Seq::empty(), size_bytes: 0 }),
            }
        }
    }
}

/// The value of an optional record.
pub open spec fn rec_of(r: Option<FindFile>) -> Option<FileRec> {
    match r {
        Some(f) => Some(f@),
        None => None,
    }
}

/// Stripping trailing separators keeps everything up to the last
/// non-separator character.
proof fn lemma_strip_take(s: Seq<char>, m: int)
    requires
        0 <= m <= s.len(),
        forall|j: int| m <= j < s.len() ==> s[j] == '/',
        m > 0 ==> s[m - 1] != '/',
    ensures
        strip_slashes(s) == s.take(m),
    decreases s.len(),
{
    if s.len() == 0 {
        assert(s.take(m) =~= s);
    } else if s.last() == '/' {
        assert(m < s.len());
        lemma_strip_take(s.drop_last(), m);
        assert(s.drop_last().take(m) =~= s.take(m));
    } else {
        assert(m == s.len());
        assert(s.take(m) =~= s);
    }
}

/// A `/` at `k`, with none after it, is the last slash.
proof fn lemma_last_slash_at(s: Seq<char>, k: int)
    requires
        0 <= k < s.len(),
        s[k] == '/',
        forall|j: int| k < j < s.len() ==> s[j] != '/',
    ensures
        last_slash(s) == Some(k),
    decreases s.len(),
{
    if s.last() == '/' {
        assert(k == s.len() - 1);
    } else {
        assert(s.drop_last()[k] == s[k]);
        lemma_last_slash_at(s.drop_last(), k);
    }
}

/// A sequence without `/` has no last slash.
proof fn lemma_no_slash(s: Seq<char>)
    requires
        forall|j: int| 0 <= j < s.len() ==> s[j] != '/',
    ensures
        last_slash(s) == None::<int>,
    decreases s.len(),
{
    if s.len() > 0 {
        lemma_no_slash(s.drop_last());
    }
}

/// A name that a directory entry can actually carry: nonempty and free of
/// the separator.
pub open spec fn valid_name(n: Seq<char>) -> bool {
    n.len() > 0 && forall|j: int| 0 <= j < n.len() ==> n[j] != '/'
}

/// A directory path the split can undo: empty, the root `/`, or not
/// ending in a separator. Every directory path the walker itself builds
/// below such a root is again of this shape.
pub open spec fn clean_dir(dir: Seq<char>) -> bool {
    dir.len() <= 1 || dir.last() != '/'
}

/// Splitting undoes joining: the record built from the path of an entry
/// named `name` inside the directory at `dir` carries exactly that name
/// and that directory.
pub proof fn lemma_split_join(dir: Seq<char>, name: Seq<char>)
    requires
        valid_name(name),
        clean_dir(dir),
    ensures
        spec_from(join(dir, name), true) == Some(
            FileRec { name: name, dir_in: dir, size_bytes: 0 },
        ),
{
    let s = join(dir, name);
    assert(s.last() == name.last());
    assert(strip_slashes(s) == s);
    if dir.len() == 0 {
        assert(s == name);
        lemma_no_slash(s);
    } else if dir.last() == '/' {
        // `dir` is the root itself.
        assert(dir =~= seq!['/']);
        assert(s == dir + name);
        assert(s[0] == '/');
        assert forall|j: int| 0 < j < s.len() implies s[j] != '/' by {
            assert(s[j] == name[j - 1]);
        }
        lemma_last_slash_at(s, 0);
        assert(s.subrange(1, s.len() as int) =~= name);
        assert(s.subrange(0, 0) =~= Seq::<char>::empty());
        assert(dir_part(s.subrange(0, 0)) =~= dir);
    } else {
        assert(s == dir + seq!['/'] + name);
        let k = dir.len() as int;
        assert(s[k] == '/');
        assert forall|j: int| k < j < s.len() implies s[j] != '/' by {
            assert(s[j] == name[j - k - 1]);
        }
        lemma_last_slash_at(s, k);
        assert(s.subrange(k + 1, s.len() as int) =~= name);
        assert(s.subrange(0, k) =~= dir);
        assert(strip_slashes(dir) == dir);
    }
}

impl FindFile {
    /// Build the record for the regular file at `path`, or `None` when the
    /// path is empty or not representable as text.
    pub fn from(path: &DirPath) -> (r: Option<FindFile>)
        ensures
            rec_of(r) == spec_from(path.text@, path.textual),
    {
        if !path.textual {
            return None;
        }
        let s: &str = path.text.as_str();
        let n: usize = s.unicode_len();
        if n == 0 {
            return None;
        }
        // Drop trailing separators: the split works on s[..m].
        let mut m: usize = n;
        while m > 0 && s.get_char(m - 1) == '/'
            invariant
                m <= n,
                n == s@.len(),
                forall|j: int| m <= j < n ==> s@[j] == '/',
            decreases m,
        {
            m = m - 1;
        }
        proof {
            lemma_strip_take(s@, m as int);
        }
        if m == 0 {
            // Nothing but separators: the root itself.
            proof {
                reveal_strlit("/");
                assert("/"@ =~= seq!['/']);
            }
            return Some(FindFile { name: "/".to_owned(), dir_in: String::new(), size_bytes: 0 });
        }
        let ghost t = s@.take(m as int);
        // Find the last '/' before m: `last == m` means none.
        let mut last: usize = m;
        let mut i: usize = 0;
        while i < m
            invariant
                i <= m <= n,
                n == s@.len(),
                last == m || (last < i && s@[last as int] == '/'),
                forall|k: int| 0 <= k < i && (last == m || last < k) ==> s@[k] != '/',
            decreases m - i,
        {
            if s.get_char(i) == '/' {
                last = i;
            }
            i = i + 1;
        }
        if last == m {
            proof {
                lemma_no_slash(t);
            }
            let name = s.substring_char(0, m).to_owned();
            Some(FindFile { name, dir_in: String::new(), size_bytes: 0 })
        } else {
            proof {
                lemma_last_slash_at(t, last as int);
                assert(s@.subrange(last as int + 1, m as int) =~= t.subrange(
                    last as int + 1,
                    t.len() as int,
                ));
            }
            let name = s.substring_char(last + 1, m).to_owned();
            // Drop the separators that sit just before the split point.
            let mut d: usize = last;
            while d > 0 && s.get_char(d - 1) == '/'
                invariant
                    d <= last < m <= n,
                    n == s@.len(),
                    forall|j: int| d <= j < last ==> s@[j] == '/',
                decreases d,
            {
                d = d - 1;
            }
            proof {
                let p = t.subrange(0, last as int);
                assert(p =~= s@.subrange(0, last as int));
                lemma_strip_take(p, d as int);
                assert(p.take(d as int) =~= s@.subrange(0, d as int));
            }
            if d == 0 {
                // The separator before the name is the root's.
                proof {
                    reveal_strlit("/");
                    assert("/"@ =~= seq!['/']);
                }
                Some(FindFile { name, dir_in: "/".to_owned(), size_bytes: 0 })
            } else {
                let dir_in = s.substring_char(0, d).to_owned();
                Some(FindFile { name, dir_in, size_bytes: 0 })
            }
        }
    }
}

} // verus!

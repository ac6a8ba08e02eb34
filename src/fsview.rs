//! What the filesystem showed for a set of paths, as plain values. The logic
//! of this crate reads the filesystem only through such a view.
use vstd::prelude::*;

verus! {

/// The identity of a file: its device and inode numbers.
#[derive(PartialEq, Eq, Structural, Clone, Copy, Debug)]
pub struct FileId {
    pub dev: u64,
    pub ino: u64,
}

/// One path whose metadata could be read (symbolic links followed).
#[derive(Clone, Debug)]
pub struct FsEntry {
    pub path: String,
    pub id: FileId,
    pub is_dir: bool,
    /// The file's text, where it could be read as UTF-8.
    pub contents: Option<String>,
}

/// The paths whose metadata could be read; a path that no entry names does
/// not exist. Where two entries name one path, the first counts.
#[derive(Clone, Debug)]
pub struct FsView {
    pub entries: Vec<FsEntry>,
}

/// The first entry of `es` for the path `p`.
pub open spec fn find_entry(es: Seq<FsEntry>, p: Seq<char>) -> Option<FsEntry>
    decreases es.len(),
{
    if es.len() == 0 {
        None
    } else if es[0].path@ == p {
        Some(es[0])
    } else {
        find_entry(es.drop_first(), p)
    }
}

impl FsView {
    pub open spec fn lookup(self, p: Seq<char>) -> Option<FsEntry> {
        find_entry(self.entries@, p)
    }

    /// Whether `p` exists.
    pub open spec fn has_path(self, p: Seq<char>) -> bool {
        self.lookup(p) is Some
    }

    /// The identity of `p`, where it exists.
    pub open spec fn id_of(self, p: Seq<char>) -> Option<FileId> {
        match self.lookup(p) {
            Some(e) => Some(e.id),
            None => None,
        }
    }

    /// Whether `p` is a directory.
    pub open spec fn is_dir(self, p: Seq<char>) -> bool {
        match self.lookup(p) {
            Some(e) => e.is_dir,
            None => false,
        }
    }

    /// The text of the file `p`, where it could be read.
    pub open spec fn text_of(self, p: Seq<char>) -> Option<Seq<char>> {
        match self.lookup(p) {
            Some(e) => match e.contents {
                Some(c) => Some(c@),
                None => None,
            },
            None => None,
        }
    }

    /// The index of the entry that counts for `p`.
    pub fn find(&self, p: &String) -> (r: Option<usize>)
        ensures
            match r {
                Some(k) => k < self.entries@.len() && self.lookup(p@) == Some(self.entries@[k as int]),
                None => self.lookup(p@) is None,
            },
    {
        let n = self.entries.len();
        let mut i: usize = 0;
        assert(self.entries@.subrange(0, n as int) =~= self.entries@);
        while i < n
            invariant
                n == self.entries@.len(),
                i <= n,
                self.lookup(p@) == find_entry(self.entries@.subrange(i as int, n as int), p@),
            decreases n - i,
        {
            let ghost rest = self.entries@.subrange(i as int, n as int);
            assert(rest.drop_first() =~= self.entries@.subrange(i + 1, n as int));
            assert(rest[0] == self.entries@[i as int]);
            if self.entries[i].path == *p {
                return Some(i);
            }
            i = i + 1;
        }
        None
    }

    /// Computes `id_of(p)`.
    pub fn id_at(&self, p: &String) -> (r: Option<FileId>)
        ensures
            r == self.id_of(p@),
    {
        match self.find(p) {
            Some(k) => Some(self.entries[k].id),
            None => None,
        }
    }

    /// Computes `is_dir(p)`.
    pub fn dir_at(&self, p: &String) -> (r: bool)
        ensures
            r == self.is_dir(p@),
    {
        match self.find(p) {
            Some(k) => self.entries[k].is_dir,
            None => false,
        }
    }

    /// Computes `text_of(p)`.
    pub fn text_at(&self, p: &String) -> (r: Option<String>)
        ensures
            match r {
                Some(t) => self.text_of(p@) == Some(t@),
                None => self.text_of(p@) is None,
            },
    {
        match self.find(p) {
            Some(k) => match &self.entries[k].contents {
                Some(c) => Some(c.clone()),
                None => None,
            },
            None => None,
        }
    }
}

} // verus!

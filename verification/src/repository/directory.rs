//! A directory as the resolution sees it: which files are there, and what
//! they hold.

use crate::text::{last_named, lemma_last_named, named_map};
use vstd::prelude::*;

verus! {

/// One file of a directory.
#[derive(Debug)]
pub struct FileEntry {
    /// The name by which the file is asked for.
    pub name: String,
    /// Where the file was found.
    pub path: String,
    /// Its text; `None` where the file is there but could not be read as text.
    pub content: Option<String>,
}

/// The mathematical content of a [`FileEntry`].
pub struct FileView {
    pub name: Seq<char>,
    pub path: Seq<char>,
    pub content: Option<Seq<char>>,
}

impl View for FileEntry {
    type V = FileView;

    open spec fn view(&self) -> FileView {
        FileView {
            name: self.name@,
            path: self.path@,
            content: match self.content {
                Some(text) => Some(text@),
                None => None,
            },
        }
    }
}

/// The entries of a list with their names.
pub open spec fn file_pairs(files: Seq<FileEntry>) -> Seq<(Seq<char>, FileView)> {
    Seq::new(files.len(), |i: int| (files[i].name@, files[i]@))
}

/// The files that a list of entries describes, by name. Where a name stands
/// twice, the later entry counts.
pub open spec fn files_map(files: Seq<FileEntry>) -> Map<Seq<char>, FileView> {
    named_map(file_pairs(files))
}

/// A snapshot of the files of one directory.
#[derive(Debug)]
pub struct Directory {
    pub files: Vec<FileEntry>,
}

impl View for Directory {
    type V = Map<Seq<char>, FileView>;

    open spec fn view(&self) -> Map<Seq<char>, FileView> {
        files_map(self.files@)
    }
}

impl Directory {
    /// A directory without files.
    pub fn new() -> (out: Directory)
        ensures
            out@ == Map::<Seq<char>, FileView>::empty(),
    {
        Directory { files: Vec::new() }
    }

    /// Records a file, in place of an earlier one of the same name.
    pub fn add(&mut self, name: String, path: String, content: Option<String>)
        ensures
            final(self)@ == old(self)@.insert(
                name@,
                FileView {
                    name: name@,
                    path: path@,
                    content: match content {
                        Some(text) => Some(text@),
                        None => None,
                    },
                },
            ),
    {
        let ghost before = self.files@;
        self.files.push(FileEntry { name, path, content });
        proof {
            assert(file_pairs(self.files@).drop_last() =~= file_pairs(before));
            assert(self@ =~= old(self)@.insert(
                name@,
                FileView {
                    name: name@,
                    path: path@,
                    content: match content {
                        Some(text) => Some(text@),
                        None => None,
                    },
                },
            ));
        }
    }

    /// The file called `name`, if the directory has one.
    pub fn lookup(&self, name: &str) -> (out: Option<&FileEntry>)
        ensures
            match out {
                Some(file) => self@.contains_key(name@) && self@[name@] == file@,
                None => !self@.contains_key(name@),
            },
    {
        let wanted = name.to_owned();
        let mut at: usize = self.files.len();
        while at > 0
            invariant
                at <= self.files@.len(),
                wanted@ == name@,
                forall|j: int| at <= j < self.files@.len() ==> self.files@[j].name@ != name@,
            decreases at,
        {
            at -= 1;
            if self.files[at].name == wanted {
                proof {
                    lemma_last_named(file_pairs(self.files@), name@, at as int);
                }
                return Some(&self.files[at]);
            }
        }
        proof {
            lemma_last_named(file_pairs(self.files@), name@, -1);
        }
        None
    }
}

} // verus!

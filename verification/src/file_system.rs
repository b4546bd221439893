//! The filesystem as the adapters see it: listing a directory, reading a
//! file, and asking what is at a path. A trait, so that the adapters built
//! on it run against a real disk and against test fakes alike.

use std::path::Path;

use vstd::prelude::*;

use crate::file_tree::EntryKind;

verus! {

/// One entry of a directory listing: its bare name and its kind. A
/// symlink is reported as a file.
#[derive(Debug, Clone, PartialEq, Eq)]
pub struct DirEntry {
    pub name: String,
    pub kind: EntryKind,
}

/// Why a filesystem operation failed, as a message naming the path.
#[derive(Debug, Clone, PartialEq, Eq)]
pub struct FileSystemError(pub String);

impl FileSystemError {
    /// The message.
    pub fn to_string(&self) -> (r: String)
        ensures
            r@ == self.0@,
    {
        self.0.clone()
    }
}

/// The operations on a filesystem the adapters need. Each operation is
/// described by a relation that the implementation defines: which answers
/// it may give for which path. The library states nothing of these
/// relations beyond that every answer is one of them, so what an adapter
/// reports can be tied to the answers its filesystem gave.
pub trait FileSystem {
    /// `r` is an answer this filesystem may give to listing `dir`.
    spec fn lists(&self, dir: &Path, r: Result<Vec<DirEntry>, FileSystemError>) -> bool;

    /// `r` is an answer this filesystem may give to reading `path`.
    spec fn reads(&self, path: &Path, r: Result<String, FileSystemError>) -> bool;

    /// `r` is an answer this filesystem may give to asking whether `path`
    /// is a directory.
    spec fn sees_dir(&self, path: &Path, r: bool) -> bool;

    /// `r` is an answer this filesystem may give to asking whether anything
    /// is at `path`.
    spec fn sees_entry(&self, path: &Path, r: bool) -> bool;

    /// The entries directly in `dir`, in no particular order.
    fn list_dir(&self, dir: &Path) -> (r: Result<Vec<DirEntry>, FileSystemError>)
        ensures
            self.lists(dir, r),
    ;

    /// The whole text of the file at `path`.
    fn read_to_string(&self, path: &Path) -> (r: Result<String, FileSystemError>)
        ensures
            self.reads(path, r),
    ;

    /// Whether `path` is a directory.
    fn is_dir(&self, path: &Path) -> (r: bool)
        ensures
            self.sees_dir(path, r),
    ;

    /// Whether anything is at `path`.
    fn path_exists(&self, path: &Path) -> (r: bool)
        ensures
            self.sees_entry(path, r),
    ;
}

/// A borrowed filesystem answers as the filesystem it borrows.
impl<'a, F: FileSystem> FileSystem for &'a F {
    open spec fn lists(&self, dir: &Path, r: Result<Vec<DirEntry>, FileSystemError>) -> bool {
        (**self).lists(dir, r)
    }

    open spec fn reads(&self, path: &Path, r: Result<String, FileSystemError>) -> bool {
        (**self).reads(path, r)
    }

    open spec fn sees_dir(&self, path: &Path, r: bool) -> bool {
        (**self).sees_dir(path, r)
    }

    open spec fn sees_entry(&self, path: &Path, r: bool) -> bool {
        (**self).sees_entry(path, r)
    }

    fn list_dir(&self, dir: &Path) -> Result<Vec<DirEntry>, FileSystemError> {
        (**self).list_dir(dir)
    }

    fn read_to_string(&self, path: &Path) -> Result<String, FileSystemError> {
        (**self).read_to_string(path)
    }

    fn is_dir(&self, path: &Path) -> bool {
        (**self).is_dir(path)
    }

    fn path_exists(&self, path: &Path) -> bool {
        (**self).path_exists(path)
    }
}

} // verus!

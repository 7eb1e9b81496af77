//! Where a file lies: a directory and a name in it.

use vstd::prelude::*;

verus! {

/// A file, named by the directory that holds it and its name there.
///
/// The directory is carried along and never looked into; every naming
/// rule reads the name alone.
#[derive(Debug, PartialEq, Eq)]
pub struct FilePath {
    pub dir: String,
    pub name: String,
}

/// What a `FilePath` stands for.
pub struct FilePathView {
    pub dir: Seq<char>,
    pub name: Seq<char>,
}

impl View for FilePath {
    type V = FilePathView;

    open spec fn view(&self) -> FilePathView {
        FilePathView { dir: self.dir@, name: self.name@ }
    }
}

impl DeepView for FilePath {
    type V = FilePathView;

    open spec fn deep_view(&self) -> FilePathView {
        self@
    }
}

impl Clone for FilePath {
    fn clone(&self) -> (copy: FilePath)
        ensures
            copy@ == self@,
    {
        FilePath { dir: self.dir.clone(), name: self.name.clone() }
    }
}

impl FilePath {
    /// The file `name` in the directory `dir`.
    pub fn new(dir: &str, name: &str) -> (path: FilePath)
        ensures
            path@ == (FilePathView { dir: dir@, name: name@ }),
    {
        FilePath { dir: dir.to_owned(), name: name.to_owned() }
    }
}

} // verus!

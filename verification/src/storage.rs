//! The durability boundary: where the collection's persisted text lives, and
//! the failures the persistence layer can report. Reading and writing the
//! backing file is the caller's business; the library owns the text format
//! (see `codec`) and the path.

use vstd::prelude::*;

verus! {

/// Names the backing location of one persisted collection.
#[derive(Debug)]
pub struct Storage {
    file_path: String,
}

/// Relies on std's `Path::exists` (`std::path`): whether the path points at
/// an existing entity on disk. Nothing is promised of the answer: the file
/// system decides it.
#[verifier::external_body]
fn path_exists(path: &String) -> bool {
    std::path::Path::new(path).exists()
}

impl Storage {
    /// A store over the given backing path.
    pub fn new(file_path: String) -> (r: Storage)
        ensures
            r@ == file_path@,
    {
        Storage { file_path }
    }

    /// The backing path, for the caller that performs the actual file I/O.
    pub fn path(&self) -> (r: &String)
        ensures
            r@ == self@,
    {
        &self.file_path
    }

    /// Whether the backing file currently exists.
    pub fn file_exists(&self) -> bool {
        path_exists(&self.file_path)
    }
}

impl View for Storage {
    type V = Seq<char>;

    closed spec fn view(&self) -> Seq<char> {
        self.file_path@
    }
}

} // verus!

//! Entries whose data is in a file.

use std::path::PathBuf;
use vstd::prelude::*;

verus! {

/// A file that is to be an entry.
pub struct TokioFileEntry(PathBuf);

impl TokioFileEntry {
    /// Where the file is.
    pub closed spec fn spec_path(&self) -> PathBuf {
        self.0
    }

    /// The entry for the file at this path.
    pub closed spec fn spec_new(path: PathBuf) -> TokioFileEntry {
        TokioFileEntry(path)
    }

    /// Construct a new file entry.
    pub fn new(path: PathBuf) -> (entry: TokioFileEntry)
        ensures
            entry == TokioFileEntry::spec_new(path),
            entry.spec_path() == path,
    {
        TokioFileEntry(path)
    }

    /// Where the file is.
    pub fn path(&self) -> (path: &PathBuf)
        ensures
            *path == self.spec_path(),
    {
        &self.0
    }
}

impl vstd::std_specs::convert::FromSpecImpl<PathBuf> for TokioFileEntry {
    open spec fn obeys_from_spec() -> bool {
        true
    }

    open spec fn from_spec(path: PathBuf) -> TokioFileEntry {
        TokioFileEntry::spec_new(path)
    }
}

impl From<PathBuf> for TokioFileEntry {
    fn from(path: PathBuf) -> (entry: TokioFileEntry)
        ensures
            entry.spec_path() == path,
    {
        TokioFileEntry::new(path)
    }
}

} // verus!

use crate::in_memory_file::bytes_eq;
use crate::in_memory_file::InMemoryFile;
use vstd::prelude::*;

verus! {

/// The tri-state outcome of resolving a path through the cache:
/// the file is resident in memory, it exists only on the filesystem (the
/// variant carries its path), or it cannot be found at all.
#[derive(Debug)]
pub enum CachedFile {
    /// A file that was served from the cache, as an owned snapshot.
    InMemory(InMemoryFile),
    /// A file that is not resident but can be read from the filesystem.
    FileSystem(String),
    /// The file exists neither in the cache nor on the filesystem.
    NotFound,
}

impl PartialEq for CachedFile {
    /// Resident files compare by their byte content, filesystem entries by
    /// their path, and the not-found state only equals itself.
    fn eq(&self, other: &CachedFile) -> bool {
        match (self, other) {
            (CachedFile::InMemory(a), CachedFile::InMemory(b)) => bytes_eq(&a.bytes, &b.bytes),
            (CachedFile::FileSystem(p), CachedFile::FileSystem(q)) => *p == *q,
            (CachedFile::NotFound, CachedFile::NotFound) => true,
            _ => false,
        }
    }
}

impl vstd::std_specs::cmp::PartialEqSpecImpl for CachedFile {
    open spec fn obeys_eq_spec() -> bool {
        true
    }

    open spec fn eq_spec(&self, other: &CachedFile) -> bool {
        match (self, other) {
            (CachedFile::InMemory(a), CachedFile::InMemory(b)) => a.bytes@ == b.bytes@,
            (CachedFile::FileSystem(p), CachedFile::FileSystem(q)) => p@ == q@,
            (CachedFile::NotFound, CachedFile::NotFound) => true,
            _ => false,
        }
    }
}

impl From<InMemoryFile> for CachedFile {
    /// Wraps a resident file as a resolved result.
    fn from(file: InMemoryFile) -> CachedFile {
        CachedFile::InMemory(file)
    }
}

impl vstd::std_specs::convert::FromSpecImpl<InMemoryFile> for CachedFile {
    open spec fn obeys_from_spec() -> bool {
        true
    }

    open spec fn from_spec(file: InMemoryFile) -> CachedFile {
        CachedFile::InMemory(file)
    }
}

} // verus!

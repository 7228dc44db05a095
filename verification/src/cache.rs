use vstd::prelude::*;

verus! {

/// What the cache remembers of a file: when it was last modified, in
/// nanoseconds from the Unix epoch (negative before it), and its size in
/// bytes.
#[derive(Clone, Copy, PartialEq, Eq, Structural, Debug)]
pub struct FileStamp {
    pub modified_nanos: i128,
    pub size: u64,
}

/// Whether a directory walk may skip a file: the cache is in use and holds
/// the same modification time and size for it as the file has now.
pub fn should_skip(no_cache: bool, cached: Option<FileStamp>, current: FileStamp) -> (skip: bool)
    ensures
        skip == (!no_cache && cached == Some(current)),
{
    if no_cache {
        return false;
    }
    match cached {
        Some(c) => c.modified_nanos == current.modified_nanos && c.size == current.size,
        None => false,
    }
}

} // verus!

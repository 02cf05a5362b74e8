//! File system related data types.  The host does the actual reading and
//! writing.

use vstd::prelude::*;

verus! {

/// Which kind of directory entries a listing should keep.
pub enum FileType {
    Directory,
    File,
}

} // verus!

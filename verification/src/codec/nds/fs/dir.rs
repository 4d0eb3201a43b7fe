//! Directories of a DS file system.
use vstd::prelude::*;

verus! {

/// A directory: its id (0xF000 and up), its name and the id of its parent.
pub struct NdsDirectory {
    pub id: u16,
    pub name: String,
    pub parent_dir_id: u16,
}

} // verus!

//! The virtual file system: one interface over the mounted file systems.

use crate::driver::fs::FileSystem;
use vstd::prelude::*;

verus! {

/// A range of memory in use by the virtual file system.
#[derive(Clone, Copy, Debug, PartialEq, Eq)]
pub struct Memory {
    /// The start address of this memory
    pub start: u64,
    /// The end address of this memory
    pub end: u64,
}

/// The state of the virtual file system.
pub struct VirtualFileSystem<F: FileSystem> {
    /// The memory ranges in use.
    pub memories: Vec<Memory>,
    /// The mounted file systems, each with the path it is mounted at.
    pub mount_points: Vec<(Vec<u8>, F)>,
}

} // verus!

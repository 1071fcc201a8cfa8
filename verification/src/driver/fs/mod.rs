//! File system types shared by the file system drivers.

pub mod initramfs;

use vstd::prelude::*;

verus! {

/// Possible errors that can occur when requesting info about a file.
#[derive(Clone, Copy, Debug, PartialEq, Eq)]
pub enum InfoError {
    /// The file doesn't exist
    NonExistent,
}

/// Possible errors that can occur when reading a file.
#[derive(Clone, Copy, Debug, PartialEq, Eq)]
pub enum ReadError {
    /// The file doesn't exist
    NonExistent,
}

/// Possible errors that can occur when writing a file.
#[derive(Clone, Copy, Debug, PartialEq, Eq)]
pub enum WriteError {
    /// The filesystem is read-only
    ReadOnly,
}

/// Possible errors that can occur when setting permissions of a file.
#[derive(Clone, Copy, Debug, PartialEq, Eq)]
pub enum PermissionsError {
    /// The filesystem is read-only
    ReadOnly,
}

/// File permission bits.
#[derive(Clone, Copy, Debug, PartialEq, Eq)]
pub struct Permissions(pub u16);

impl From<u16> for Permissions {
    fn from(raw: u16) -> (r: Self) {
        Permissions(raw)
    }
}

impl vstd::std_specs::convert::FromSpecImpl<u16> for Permissions {
    open spec fn obeys_from_spec() -> bool {
        true
    }

    open spec fn from_spec(raw: u16) -> Permissions {
        Permissions(raw)
    }
}

/// Possible file types.
#[derive(Clone, Copy, Debug, PartialEq, Eq)]
pub enum FileType {
    /// A regular file
    Regular,
    /// A directory
    Directory,
}

/// A user ID (UID).
#[derive(Clone, Copy, Debug, PartialEq, Eq)]
pub struct UserID(pub u32);

/// A group ID (GID).
#[derive(Clone, Copy, Debug, PartialEq, Eq)]
pub struct GroupID(pub u32);

/// Information about a file.
#[derive(Clone, Copy, Debug, PartialEq, Eq)]
pub struct FileInfo {
    /// The size of the file.
    pub size: u64,
    /// The ID of the user this file belongs to.
    pub user_id: UserID,
    /// The ID of the group this file belongs to.
    pub group_id: GroupID,
    /// The permissions bits of this file.
    pub permissions: Permissions,
    /// The type of the file (called `typ` because `type` is a keyword).
    pub typ: FileType,
}

/// A file system driver: loads data from and stores data in a backing store.
pub trait FileSystem {
    /// Returns information about the file with the given path.
    fn info(&self, path: &[u8]) -> Result<FileInfo, InfoError>;

    /// Reads data from the file given by the path into the buffer.
    fn read(&self, path: &[u8], buffer: &mut Vec<u8>) -> Result<(), ReadError>;

    /// Writes data to the file given by the path from the buffer.
    fn write(&self, path: &[u8], buffer: &[u8]) -> Result<(), WriteError>;

    /// Sets the permissions bits of a file.
    fn set_permissions(&self, path: &[u8], permissions: Permissions) -> Result<(), PermissionsError>;
}

} // verus!

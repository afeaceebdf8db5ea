//! What the graph says of an entry.

use vstd::prelude::*;

use crate::vfs_path::VfsName;

verus! {

/// Metadata of one graph-owned entry.
#[derive(Debug, Clone, Copy, PartialEq, Eq)]
pub struct VirtualStat {
    /// Size in bytes.
    pub size: u64,
    /// A regular file.
    pub is_file: bool,
    /// A directory.
    pub is_dir: bool,
    /// A symbolic link.
    pub is_symlink: bool,
    /// Permission bits.
    pub mode: u32,
    /// Last modification, in seconds since the epoch.
    pub mtime: u64,
    /// Last status change, in seconds since the epoch.
    pub ctime: u64,
    /// Number of hard links.
    pub nlink: u64,
    /// Hash of the content, where there is one.
    pub content_hash: Option<[u8; 32]>,
    /// Identity of the graph object, where there is one.
    pub object_id: Option<[u8; 32]>,
}

/// The kind of a directory child.
#[derive(Debug, Clone, Copy, PartialEq, Eq, Structural)]
pub enum FileType {
    File,
    Directory,
    Symlink,
    /// A nested-repository boundary.
    Gitlink,
}

/// One child in a directory listing.
#[derive(Debug, Clone)]
pub struct DirEntry {
    pub name: VfsName,
    pub file_type: FileType,
}

} // verus!

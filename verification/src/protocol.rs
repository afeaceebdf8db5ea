//! What is said to the daemon, and what it answers.

use vstd::prelude::*;

use crate::types::{DirEntry, VirtualStat};
use crate::vfs_path::VfsPath;

verus! {

/// A request to the daemon.
#[derive(Debug)]
pub enum VfsRequest {
    /// What is at this path?
    Stat { path: VfsPath },
    /// These bytes of a file; a length of zero asks for all of it.
    Read { path: VfsPath, offset: u64, len: u64 },
    /// The children of a directory.
    ReadDir { path: VfsPath },
    /// The target of a link.
    ReadLink { path: VfsPath },
    /// Whether an entry grants these permissions.
    Access { path: VfsPath, mode: u32 },
    /// The shim is loaded in this process.
    Announce { pid: u32, token: String },
    /// A surface served a workspace path from raw disk.
    CanaryBypass { token: String, surface: String },
    /// Whether the daemon is there.
    Ping,
}

/// Why the daemon refused a request.
#[derive(Debug, Clone, Copy, PartialEq, Eq, Structural)]
pub enum ErrorCode {
    NotFound,
    PermissionDenied,
    IsDirectory,
    NotDirectory,
    InvalidInput,
    /// A nested repository without a projection.
    UnsupportedBoundary,
    Internal,
}

/// An answer of the daemon.
#[derive(Debug)]
pub enum VfsResponse {
    Stat(VirtualStat),
    /// Bytes of a file, and the size of all of it.
    Content { data: Vec<u8>, total_size: u64 },
    DirEntries(Vec<DirEntry>),
    LinkTarget(Vec<u8>),
    Accessible(bool),
    /// An announcement or a report was taken.
    Announced,
    Pong,
    Error { code: ErrorCode, message: String },
}

} // verus!

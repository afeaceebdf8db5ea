//! Filesystem projection of a graph-owned repository.

pub mod automount;
pub mod bytes;
pub mod client;
pub mod dirents;
pub mod errno;
pub mod fd_calls;
pub mod fd_table;
pub mod file_life;
pub mod graph_walk;
pub mod hashing;
pub mod host_path;
pub mod inodes;
pub mod nfs_fs;
pub mod notify;
pub mod open_call;
pub mod path_calls;
pub mod pathmap;
pub mod projfs;
pub mod protocol;
pub mod readdir;
pub mod registry;
pub mod router;
pub mod server;
pub mod shim;
pub mod socket;
pub mod statcache;
pub mod statfill;
pub mod status;
pub mod surface;
pub mod sys;
pub mod text;
pub mod types;
pub mod vfs_path;

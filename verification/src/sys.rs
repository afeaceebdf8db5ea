//! Numbers of the host ABI (Linux) that the hooks decide by.

use vstd::prelude::*;

verus! {

// open(2) flags.
pub const O_RDONLY: i32 = 0;
pub const O_WRONLY: i32 = 1;
pub const O_RDWR: i32 = 2;
pub const O_ACCMODE: i32 = 3;
pub const O_CREAT: i32 = 0o100;
pub const O_TRUNC: i32 = 0o1000;
pub const O_DIRECTORY: i32 = 0o200000;
pub const O_NOFOLLOW: i32 = 0o400000;
pub const O_CLOEXEC: i32 = 0o2000000;
pub const O_PATH: i32 = 0o10000000;

// *at(2).
pub const AT_FDCWD: i32 = -100;
pub const AT_SYMLINK_NOFOLLOW: i32 = 0x100;
pub const AT_EMPTY_PATH: i32 = 0x1000;

// access(2).
pub const R_OK: i32 = 4;
pub const W_OK: i32 = 2;
pub const X_OK: i32 = 1;

// flock(2).
pub const LOCK_SH: i32 = 1;
pub const LOCK_EX: i32 = 2;
pub const LOCK_NB: i32 = 4;
pub const LOCK_UN: i32 = 8;

// mmap(2).
pub const MAP_SHARED: i32 = 1;

// st_mode.
pub const S_IFMT: u32 = 0o170000;
pub const S_IFDIR: u32 = 0o040000;
pub const S_IFREG: u32 = 0o100000;
pub const S_IFLNK: u32 = 0o120000;

// fcntl(2).
pub const FD_CLOEXEC: i32 = 1;

// lseek(2).
pub const SEEK_SET: i32 = 0;
pub const SEEK_CUR: i32 = 1;
pub const SEEK_END: i32 = 2;

// errno.
pub const ENOENT: i32 = 2;
pub const EIO: i32 = 5;
pub const EBADF: i32 = 9;
pub const EWOULDBLOCK: i32 = 11;
pub const EACCES: i32 = 13;
pub const ENOTDIR: i32 = 20;
pub const EISDIR: i32 = 21;
pub const EINVAL: i32 = 22;
pub const EMFILE: i32 = 24;
pub const ELOOP: i32 = 40;
pub const ENOTSUP: i32 = 95;
pub const EINPROGRESS: i32 = 115;

/// The soft limit that means "no limit".
pub const RLIM_INFINITY: u64 = 0xffff_ffff_ffff_ffff;

} // verus!

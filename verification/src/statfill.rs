//! What the stat family reports of a graph-owned entry.

use vstd::prelude::*;

use crate::sys::{S_IFDIR, S_IFLNK, S_IFREG};
use crate::types::VirtualStat;

verus! {

/// Device number of every projected entry.
pub const SYNTHETIC_DEV: u64 = 0xFF;

/// Preferred block size.
pub const BLKSIZE: u64 = 4096;

/// Whether a fortified request of `requested` bytes fits the caller's buffer.
/// Where it does not, the fortified entry point itself must be called, so that
/// it aborts instead of overflowing.
pub fn fortify_within_bounds(requested: usize, buflen: usize) -> (r: bool)
    ensures
        r == (requested <= buflen),
{
    requested <= buflen
}

/// The 512-byte blocks that `size` bytes take, rounded up.
pub fn blocks_for(size: u64) -> (r: u64)
    ensures
        r == (size + 511) / 512,
{
    if size % 512 == 0 {
        size / 512
    } else {
        size / 512 + 1
    }
}

/// The file-type bits of an entry.
pub open spec fn type_bits(stat: VirtualStat) -> u32 {
    if stat.is_file {
        S_IFREG
    } else if stat.is_dir {
        S_IFDIR
    } else if stat.is_symlink {
        S_IFLNK
    } else {
        0
    }
}

/// The mode word of an entry: file type and permission bits. Shared by every
/// stat-family call, so that they never disagree on the file type.
pub fn vstat_mode_bits(vstat: &VirtualStat) -> (r: u32)
    ensures
        r == type_bits(*vstat) | vstat.mode,
{
    let type_bits: u32 = if vstat.is_file {
        S_IFREG
    } else if vstat.is_dir {
        S_IFDIR
    } else if vstat.is_symlink {
        S_IFLNK
    } else {
        0
    };
    type_bits | vstat.mode
}

/// What is reported of one entry, before it is narrowed to a caller's struct.
#[derive(Debug, Clone, Copy, PartialEq, Eq)]
pub struct StatRecord {
    pub size: u64,
    pub nlink: u64,
    pub mode: u32,
    pub atime: u64,
    pub mtime: u64,
    pub ctime: u64,
    pub blksize: u64,
    pub blocks: u64,
    pub ino: u64,
    pub dev: u64,
}

/// What is reported of an entry with this inode. The access time is the
/// modification time.
pub open spec fn record_of(stat: VirtualStat, ino: u64) -> StatRecord {
    StatRecord {
        size: stat.size,
        nlink: stat.nlink,
        mode: type_bits(stat) | stat.mode,
        atime: stat.mtime,
        mtime: stat.mtime,
        ctime: stat.ctime,
        blksize: BLKSIZE,
        blocks: ((stat.size + 511) / 512) as u64,
        ino,
        dev: SYNTHETIC_DEV,
    }
}

/// What `stat`, `stat64` and `statx` report of an entry with this inode.
pub fn stat_record(vstat: &VirtualStat, ino: u64) -> (r: StatRecord)
    ensures
        r == record_of(*vstat, ino),
{
    StatRecord {
        size: vstat.size,
        nlink: vstat.nlink,
        mode: vstat_mode_bits(vstat),
        atime: vstat.mtime,
        mtime: vstat.mtime,
        ctime: vstat.ctime,
        blksize: BLKSIZE,
        blocks: blocks_for(vstat.size),
        ino,
        dev: SYNTHETIC_DEV,
    }
}

/// The file type can be read back from a mode word whose permission bits are
/// only those, and the word survives the sixteen bits that `statx` has for it.
pub proof fn law_mode_bits_keep_type_and_permissions(stat: VirtualStat)
    requires
        stat.mode <= 0o7777,
    ensures
        (type_bits(stat) | stat.mode) & 0o170000 == type_bits(stat),
        (type_bits(stat) | stat.mode) & 0o7777 == stat.mode,
        (type_bits(stat) | stat.mode) <= 0xffff,
{
    let kind = type_bits(stat);
    let mode = stat.mode;
    assert((kind | mode) & 0o170000 == kind && (kind | mode) & 0o7777 == mode && (kind | mode)
        <= 0xffff) by (bit_vector)
        requires
            mode <= 0o7777,
            kind == 0 || kind == 0o100000 || kind == 0o040000 || kind == 0o120000,
    ;
}

/// What is reported of an entry is what the graph says of it: its length, its
/// links and its times, the last access being the last modification; the type
/// of a regular file, of a directory or of a link; the permission bits; and as
/// many blocks of 512 bytes as the length takes, and no more.
pub proof fn law_a_record_reports_the_entry(stat: VirtualStat, ino: u64)
    requires
        stat.mode <= 0o7777,
    ensures
        ({
            let r = record_of(stat, ino);
            &&& r.size == stat.size && r.nlink == stat.nlink && r.ino == ino
            &&& r.mtime == stat.mtime && r.atime == stat.mtime && r.ctime == stat.ctime
            &&& r.mode & 0o7777 == stat.mode
            &&& stat.is_file ==> r.mode & 0o170000 == 0o100000
            &&& stat.is_dir && !stat.is_file ==> r.mode & 0o170000 == 0o040000
            &&& stat.is_symlink && !stat.is_file && !stat.is_dir ==> r.mode & 0o170000 == 0o120000
            &&& stat.size <= r.blocks * 512 < stat.size + 512
            &&& r.blksize == 4096 && r.dev == 255
        }),
{
    law_mode_bits_keep_type_and_permissions(stat);
}

} // verus!

//! Virtual file descriptor table.
//!
//! Virtual descriptors start above the process's soft descriptor limit (with a
//! floor of 10,000), so that no kernel-allocated descriptor collides with one.
//! On wrap-around, occupied slots are skipped; where every slot is taken,
//! allocation returns `None`.
//!
//! Descriptors made by `dup` share one open-file description: its offset, its
//! directory position and its lock. Descriptions live in the table under
//! numbers that are never used again, so a request that is still in flight
//! when its descriptor closes cannot reach the description of whoever gets the
//! descriptor next.

use vstd::prelude::*;

use std::collections::HashMap;

use crate::bytes::to_vec;
use crate::hashing;
use crate::hashing::hash_bytes;
use crate::sys::{
    FD_CLOEXEC, O_ACCMODE, O_CLOEXEC, O_RDONLY, RLIM_INFINITY, SEEK_CUR, SEEK_END, SEEK_SET,
};
use crate::types::VirtualStat;

verus! {

broadcast use vstd::std_specs::hash::group_hash_axioms;

/// Maximum number of simultaneous virtual descriptors.
pub const MAX_VFDS: usize = 4096;

/// Files up to this size are cached in their handle.
pub const SMALL_FILE_THRESHOLD: usize = 65536;

/// The first virtual descriptor for a soft descriptor limit.
pub open spec fn base_for(soft_limit: Option<u64>) -> int {
    match soft_limit {
        Some(limit) => if limit == RLIM_INFINITY {
            100_000
        } else if limit + 1000 > i32::MAX {
            i32::MAX as int
        } else if limit + 1000 < 10_000 {
            10_000
        } else {
            limit + 1000
        },
        None => 100_000,
    }
}

/// The first virtual descriptor: a thousand above the soft limit of open
/// descriptors, at least 10,000; 100,000 where there is no limit or it cannot
/// be read.
pub fn compute_vfd_base(soft_limit: Option<u64>) -> (r: i32)
    ensures
        r == base_for(soft_limit),
        r >= 10_000,
        soft_limit matches Some(limit) ==> limit != RLIM_INFINITY && limit < i32::MAX ==> r > limit,
{
    match soft_limit {
        Some(limit) => {
            if limit == RLIM_INFINITY {
                100_000
            } else if limit > 0x7fff_ffff - 1000 {
                0x7fff_ffff
            } else if limit < 9_000 {
                10_000
            } else {
                (limit + 1000) as i32
            }
        },
        None => 100_000,
    }
}

/// The first virtual descriptor of a process, once it was computed.
#[derive(Debug, Clone, Copy, PartialEq, Eq, Structural)]
pub struct VfdBaseCell {
    base: Option<i32>,
}

impl View for VfdBaseCell {
    type V = Option<i32>;

    closed spec fn view(&self) -> Option<i32> {
        self.base
    }
}

impl VfdBaseCell {
    /// What holds of a cell at every point: a base leaves room for the
    /// process's own descriptors.
    pub open spec fn well_formed(&self) -> bool {
        self@ matches Some(base) ==> base >= 10_000
    }

    /// Nothing was computed yet.
    pub fn new() -> (r: VfdBaseCell)
        ensures
            r.well_formed(),
            r@ is None,
    {
        VfdBaseCell { base: None }
    }
}

/// The base that a process has, given what it computed before and the limit
/// that it finds now.
pub open spec fn kept_base(kept: Option<i32>, soft_limit: Option<u64>) -> int {
    match kept {
        Some(base) => base as int,
        None => base_for(soft_limit),
    }
}

/// The first virtual descriptor of a process: computed from the soft limit at
/// the first call, and the same at every later one, whatever the limit then is.
pub fn vfd_base(cell: &mut VfdBaseCell, soft_limit: Option<u64>) -> (r: i32)
    requires
        old(cell).well_formed(),
    ensures
        final(cell).well_formed(),
        r == kept_base(old(cell)@, soft_limit),
        r >= 10_000,
        final(cell)@ == Some(r),
{
    match cell.base {
        Some(base) => base,
        None => {
            let base: i32 = compute_vfd_base(soft_limit);
            cell.base = Some(base);
            base
        },
    }
}

/// What a process answers when it is asked once for each of these limits.
pub open spec fn bases(kept: Option<i32>, limits: Seq<Option<u64>>) -> Seq<int>
    decreases limits.len(),
{
    if limits.len() == 0 {
        Seq::empty()
    } else {
        let base = kept_base(kept, limits[0]);
        seq![base] + bases(Some(base as i32), limits.drop_first())
    }
}

/// However the soft limit changes between the calls, every call of a process
/// gives the base that the first one gave, and that is at least 10,000.
pub proof fn law_the_base_never_moves(limits: Seq<Option<u64>>, i: int)
    requires
        0 <= i < limits.len(),
    ensures
        bases(None, limits).len() == limits.len(),
        bases(None, limits)[i] == base_for(limits[0]),
        bases(None, limits)[i] >= 10_000,
{
    let first = base_for(limits[0]);
    let rest = limits.drop_first();
    lemma_bases(first as i32, rest);
    if i > 0 {
        assert(bases(None, limits)[i] == bases(Some(first as i32), rest)[i - 1]);
    }
}

proof fn lemma_bases(kept: i32, limits: Seq<Option<u64>>)
    ensures
        bases(Some(kept), limits).len() == limits.len(),
        forall|i: int|
            0 <= i < limits.len() ==> (#[trigger] bases(Some(kept), limits)[i]) == kept,
    decreases limits.len(),
{
    if limits.len() > 0 {
        lemma_bases(kept, limits.drop_first());
        let all = bases(Some(kept), limits);
        let rest = bases(Some(kept), limits.drop_first());
        assert(all =~= seq![kept as int] + rest);
        assert forall|i: int| 0 <= i < limits.len() implies (#[trigger] all[i]) == kept by {
            if i > 0 {
                assert(all[i] == rest[i - 1]);
            }
        }
    }
}

/// Whether a table with this base has numbers for all its descriptors.
pub fn base_has_room(base: i32) -> (r: bool)
    ensures
        r == (0 <= base && base + MAX_VFDS <= i32::MAX),
{
    0 <= base && base <= 0x7fff_ffff - 4096
}

/// A tracked anonymous mapping made for a virtual file.
#[derive(Debug, Clone, Copy, PartialEq, Eq, Structural)]
pub struct MmapRegion {
    /// Start address of the mapping.
    pub addr: usize,
    /// Length of the mapping.
    pub len: usize,
}

/// A directory entry ready to be packed.
#[derive(Debug)]
pub struct DirEntryRaw {
    /// Exact entry-name bytes.
    pub name: Vec<u8>,
    /// Inode number.
    pub d_ino: u64,
    /// Entry type: regular file (8), directory (4), symlink (10).
    pub d_type: u8,
}

/// A directory entry, over byte sequences.
pub struct RawEntry {
    pub name: Seq<u8>,
    pub d_ino: u64,
    pub d_type: u8,
}

impl View for DirEntryRaw {
    type V = RawEntry;

    open spec fn view(&self) -> RawEntry {
        RawEntry { name: self.name@, d_ino: self.d_ino, d_type: self.d_type }
    }
}

/// The entries that a vector holds.
pub open spec fn raw_entries(entries: Seq<DirEntryRaw>) -> Seq<RawEntry> {
    Seq::new(entries.len(), |i: int| entries[i]@)
}

impl Clone for DirEntryRaw {
    fn clone(&self) -> (r: Self)
        ensures
            r@ == self@,
    {
        DirEntryRaw { name: to_vec(self.name.as_slice()), d_ino: self.d_ino, d_type: self.d_type }
    }
}

/// Mutable state of one open-file description.
#[derive(Debug, Clone, Copy, PartialEq, Eq, Structural)]
pub struct OpenFileDescriptionState {
    /// Current read offset.
    pub offset: u64,
    /// How far through the directory entries reading has come.
    pub dir_offset: usize,
    /// Whether the description owns an advisory lock.
    pub flocked: bool,
    /// Kernel descriptor that holds a byte-exact copy of the file, once one
    /// was needed.
    pub native_backing_fd: Option<i32>,
}

/// Why a virtual descriptor could not be duplicated.
#[derive(Debug, Clone, Copy, PartialEq, Eq, Structural)]
pub enum DuplicateError {
    /// The source is not in the virtual table.
    NotVirtual,
    /// The source is valid but no slot remains.
    TableFull,
}

/// Why a virtual seek failed.
#[derive(Debug, Clone, Copy, PartialEq, Eq, Structural)]
pub enum SeekError {
    /// The whence or the resulting negative offset is invalid.
    Invalid,
    /// The result cannot be represented as a file offset.
    Overflow,
}

/// State of a single virtual descriptor.
#[derive(Debug)]
pub struct VirtualFileHandle {
    /// Absolute host path, as exact bytes.
    pub path: Vec<u8>,
    /// Metadata captured when the descriptor opened. Descriptor identity
    /// survives unlink, rename and replacement, so descriptor-based stat
    /// answers from this snapshot.
    pub opened_stat: Option<VirtualStat>,
    /// Synthetic inode captured at open.
    pub opened_inode: u64,
    /// Link target captured for a link opened as a path.
    pub link_target: Option<Vec<u8>>,
    /// Total file size.
    pub size: u64,
    /// Content of a small file.
    pub cached_content: Option<Vec<u8>>,
    /// Whether this is a directory.
    pub is_directory: bool,
    /// Whether data and directory I/O is permitted.
    pub io_permitted: bool,
    /// Path and metadata operations only.
    pub path_only: bool,
    /// Directory entries, for a directory.
    pub dir_entries: Option<Vec<DirEntryRaw>>,
    /// Open-file status flags.
    pub status_flags: i32,
    /// Per-descriptor flags.
    pub descriptor_flags: i32,
    /// Number of the open-file description that duplicates share.
    pub open_file: u64,
    /// Whether this descriptor number has a matching kernel descriptor.
    pub kernel_backed: bool,
    /// Path of a file opened for writing.
    pub write_path: Option<Vec<u8>>,
}

/// A handle, over byte sequences.
pub struct Handle {
    pub path: Seq<u8>,
    pub opened_stat: Option<VirtualStat>,
    pub opened_inode: u64,
    pub link_target: Option<Seq<u8>>,
    pub size: u64,
    pub cached_content: Option<Seq<u8>>,
    pub is_directory: bool,
    pub io_permitted: bool,
    pub path_only: bool,
    pub dir_entries: Option<Seq<RawEntry>>,
    pub status_flags: i32,
    pub descriptor_flags: i32,
    pub open_file: u64,
    pub kernel_backed: bool,
    pub write_path: Option<Seq<u8>>,
}

/// An optional byte vector, as an optional byte sequence.
pub open spec fn opt_seq(v: Option<Vec<u8>>) -> Option<Seq<u8>> {
    match v {
        Some(b) => Some(b@),
        None => None,
    }
}

impl View for VirtualFileHandle {
    type V = Handle;

    open spec fn view(&self) -> Handle {
        Handle {
            path: self.path@,
            opened_stat: self.opened_stat,
            opened_inode: self.opened_inode,
            link_target: opt_seq(self.link_target),
            size: self.size,
            cached_content: opt_seq(self.cached_content),
            is_directory: self.is_directory,
            io_permitted: self.io_permitted,
            path_only: self.path_only,
            dir_entries: match self.dir_entries {
                Some(e) => Some(raw_entries(e@)),
                None => None,
            },
            status_flags: self.status_flags,
            descriptor_flags: self.descriptor_flags,
            open_file: self.open_file,
            kernel_backed: self.kernel_backed,
            write_path: opt_seq(self.write_path),
        }
    }
}

/// An owned copy.
fn copy_opt(v: &Option<Vec<u8>>) -> (r: Option<Vec<u8>>)
    ensures
        opt_seq(r) == opt_seq(*v),
{
    match v {
        Some(b) => Some(to_vec(b.as_slice())),
        None => None,
    }
}

/// An owned copy.
fn copy_entries(entries: &Vec<DirEntryRaw>) -> (r: Vec<DirEntryRaw>)
    ensures
        raw_entries(r@) == raw_entries(entries@),
{
    let mut out: Vec<DirEntryRaw> = Vec::new();
    let mut i: usize = 0;
    while i < entries.len()
        invariant
            0 <= i <= entries@.len(),
            out@.len() == i,
            forall|j: int| 0 <= j < i ==> (#[trigger] out@[j])@ == entries@[j]@,
        decreases entries@.len() - i,
    {
        out.push(entries[i].clone());
        i = i + 1;
    }
    assert(raw_entries(out@) =~= raw_entries(entries@));
    out
}

impl Clone for VirtualFileHandle {
    fn clone(&self) -> (r: Self)
        ensures
            r@ == self@,
    {
        VirtualFileHandle {
            path: to_vec(self.path.as_slice()),
            opened_stat: self.opened_stat,
            opened_inode: self.opened_inode,
            link_target: copy_opt(&self.link_target),
            size: self.size,
            cached_content: copy_opt(&self.cached_content),
            is_directory: self.is_directory,
            io_permitted: self.io_permitted,
            path_only: self.path_only,
            dir_entries: match &self.dir_entries {
                Some(e) => Some(copy_entries(e)),
                None => None,
            },
            status_flags: self.status_flags,
            descriptor_flags: self.descriptor_flags,
            open_file: self.open_file,
            kernel_backed: self.kernel_backed,
            write_path: copy_opt(&self.write_path),
        }
    }
}

/// Rights and flags captured by a graph-backed open.
#[derive(Debug)]
pub struct OpenedFileOptions {
    /// Whether data I/O is permitted.
    pub io_permitted: bool,
    /// Whether this is a metadata-only descriptor.
    pub path_only: bool,
    /// Link target of a link opened as a path.
    pub link_target: Option<Vec<u8>>,
    /// The open flags.
    pub flags: i32,
}

/// An atomic write in flight: content goes to the temporary, which is renamed
/// onto the target when the descriptor closes.
#[derive(Debug)]
pub struct AtomicWriteEntry {
    /// The final target path.
    pub target_path: Vec<u8>,
    /// The temporary, in the same directory.
    pub temp_path: Vec<u8>,
}

/// A synthetic inode from exact path bytes: total, and the same for the same
/// path.
pub fn synthetic_inode(path: &[u8]) -> (r: u64)
    ensures
        r == hashing::byte_hash(path@),
{
    hash_bytes(path)
}

/// The synthetic inode of a graph object.
pub fn synthetic_object_inode(object_id: &[u8; 32]) -> (r: u64)
    ensures
        r == hashing::byte_hash(object_id@),
{
    hash_bytes(object_id.as_slice())
}

/// The inode of an entry: that of its object where it has one, else that of
/// its path.
pub open spec fn inode_of(path: Seq<u8>, stat: Option<VirtualStat>) -> u64 {
    match stat {
        Some(s) => match s.object_id {
            Some(id) => hashing::byte_hash(id@),
            None => hashing::byte_hash(path),
        },
        None => hashing::byte_hash(path),
    }
}

/// The inode of an entry: that of its object where it has one, else that of
/// its path.
fn opened_inode(path: &[u8], stat: &Option<VirtualStat>) -> (r: u64)
    ensures
        r == inode_of(path@, *stat),
{
    match stat {
        Some(s) => match &s.object_id {
            Some(id) => synthetic_object_inode(id),
            None => synthetic_inode(path),
        },
        None => synthetic_inode(path),
    }
}

// ── The table ───────────────────────────────────────────────────────────

/// An open-file description and who refers to it.
#[derive(Debug, Clone, Copy)]
pub struct OpenFile {
    pub state: OpenFileDescriptionState,
    /// Descriptors of the table that share it.
    pub descriptors: u64,
    /// Requests in flight that hold on to it.
    pub pins: u64,
    /// Whether one of them is a read that will move the offset. Until it has
    /// ended nothing else may read or move that offset.
    pub reading: bool,
}

/// What a table amounts to.
#[verifier::ext_equal]
pub struct Table {
    pub base: int,
    pub next_fd: int,
    pub handles: Map<i32, Handle>,
    pub next_open: int,
    pub open_files: Map<u64, OpenFile>,
    pub released: Seq<i32>,
    pub mmap_regions: Seq<MmapRegion>,
    pub write_fds: Map<i32, Seq<u8>>,
    pub atomic_writes: Map<i32, (Seq<u8>, Seq<u8>)>,
}

/// A virtual file descriptor table.
pub struct FdTable {
    map: HashMap<i32, VirtualFileHandle>,
    base: i32,
    next_fd: i32,
    open_files: HashMap<u64, OpenFile>,
    next_open: u64,
    released: Vec<i32>,
    mmap_regions: Vec<MmapRegion>,
    write_fds: HashMap<i32, Vec<u8>>,
    atomic_writes: HashMap<i32, AtomicWriteEntry>,
}

/// The handles that a map holds.
pub open spec fn handle_views(map: Map<i32, VirtualFileHandle>) -> Map<i32, Handle> {
    map.map_values(|h: VirtualFileHandle| h@)
}

impl View for FdTable {
    type V = Table;

    closed spec fn view(&self) -> Table {
        Table {
            base: self.base as int,
            next_fd: self.next_fd as int,
            handles: handle_views(self.map@),
            next_open: self.next_open as int,
            open_files: self.open_files@,
            released: self.released@,
            mmap_regions: self.mmap_regions@,
            write_fds: self.write_fds@.map_values(|p: Vec<u8>| p@),
            atomic_writes: self.atomic_writes@.map_values(
                |e: AtomicWriteEntry| (e.target_path@, e.temp_path@),
            ),
        }
    }
}

/// The descriptors that share one description.
pub open spec fn sharers(handles: Map<i32, Handle>, id: u64) -> Set<i32> {
    handles.dom().filter(|fd: i32| handles[fd].open_file == id)
}

impl Table {
    /// What holds of every table.
    pub open spec fn well_formed(self) -> bool {
        &&& 0 <= self.base
        &&& self.base + MAX_VFDS <= i32::MAX
        &&& self.base <= self.next_fd < self.base + MAX_VFDS
        &&& self.handles.dom().finite()
        &&& self.handles.len() <= MAX_VFDS
        &&& 0 <= self.next_open <= u64::MAX
        &&& forall|fd: i32| #[trigger]
            self.handles.contains_key(fd) ==> self.open_files.contains_key(
                self.handles[fd].open_file,
            )
        &&& forall|id: u64| #[trigger]
            self.open_files.contains_key(id) ==> {
                &&& id < self.next_open
                &&& self.open_files[id].descriptors == sharers(self.handles, id).len()
                &&& self.open_files[id].descriptors + self.open_files[id].pins > 0
                &&& self.open_files[id].reading ==> self.open_files[id].pins > 0
            }
    }

    /// Whether every slot is taken.
    pub open spec fn full(self) -> bool {
        self.handles.len() >= MAX_VFDS
    }

    /// Whether a file can still be opened: a slot is free, and the numbers for
    /// descriptions have not run out.
    pub open spec fn has_room(self) -> bool {
        !self.full() && self.next_open < u64::MAX
    }

    /// The descriptor that comes next.
    pub open spec fn next_free(self) -> Option<int> {
        free_slot(self.handles.dom(), self.base, self.next_fd, MAX_VFDS as nat)
    }

    /// The state that the descriptor `fd` reads and writes.
    pub open spec fn state_of(self, fd: i32) -> OpenFileDescriptionState {
        self.open_files[self.handles[fd].open_file].state
    }

    /// The table with another state for the description of `fd`.
    pub open spec fn with_state(self, id: u64, state: OpenFileDescriptionState) -> Table {
        Table {
            open_files: self.open_files.insert(id, OpenFile { state, ..self.open_files[id] }),
            ..self
        }
    }
}

/// The slot after `fd`, cyclically.
pub open spec fn slot_after(base: int, fd: int) -> int {
    if fd + 1 >= base + MAX_VFDS {
        base
    } else {
        fd + 1
    }
}

/// The first slot that is free, of `n` slots from `at` on.
pub open spec fn free_slot(taken: Set<i32>, base: int, at: int, n: nat) -> Option<int>
    decreases n,
{
    if n == 0 {
        None
    } else if !taken.contains(at as i32) {
        Some(at)
    } else {
        free_slot(taken, base, slot_after(base, at), (n - 1) as nat)
    }
}

/// The descriptors `lo`, `lo + 1`, up to but not including `hi`.
spec fn fd_range(lo: int, hi: int) -> Set<i32> {
    Set::new(|fd: i32| lo <= fd < hi)
}

proof fn lemma_fd_range(lo: int, hi: int)
    requires
        0 <= lo <= hi <= i32::MAX,
    ensures
        fd_range(lo, hi).finite(),
        fd_range(lo, hi).len() == hi - lo,
    decreases hi - lo,
{
    if lo == hi {
        assert(fd_range(lo, hi) =~= Set::<i32>::empty());
    } else {
        lemma_fd_range(lo, hi - 1);
        assert(fd_range(lo, hi) =~= fd_range(lo, hi - 1).insert((hi - 1) as i32));
    }
}

/// Where no slot is free, all slots visited are taken.
proof fn lemma_no_free_slot(taken: Set<i32>, base: int, at: int, n: nat, fd: int)
    requires
        0 <= base,
        base + MAX_VFDS <= i32::MAX,
        base <= at < base + MAX_VFDS,
        base <= fd < base + MAX_VFDS,
        n <= MAX_VFDS,
        free_slot(taken, base, at, n) is None,
        if at <= fd {
            fd - at < n
        } else {
            fd + MAX_VFDS - at < n
        },
    ensures
        taken.contains(fd as i32),
    decreases n,
{
    if fd != at {
        lemma_no_free_slot(taken, base, slot_after(base, at), (n - 1) as nat, fd);
    }
}

/// What `free_slot` finds.
proof fn lemma_free_slot(taken: Set<i32>, base: int, at: int, n: nat)
    requires
        0 <= base,
        base + MAX_VFDS <= i32::MAX,
        base <= at < base + MAX_VFDS,
    ensures
        free_slot(taken, base, at, n) matches Some(fd) ==> base <= fd < base + MAX_VFDS
            && !taken.contains(fd as i32),
    decreases n,
{
    if n > 0 && taken.contains(at as i32) {
        lemma_free_slot(taken, base, slot_after(base, at), (n - 1) as nat);
    }
}

/// A table with room has a free slot.
proof fn lemma_room(taken: Set<i32>, base: int, at: int)
    requires
        0 <= base,
        base + MAX_VFDS <= i32::MAX,
        base <= at < base + MAX_VFDS,
        taken.finite(),
        taken.len() < MAX_VFDS,
    ensures
        free_slot(taken, base, at, MAX_VFDS as nat) is Some,
{
    if free_slot(taken, base, at, MAX_VFDS as nat) is None {
        let all = fd_range(base, base + MAX_VFDS);
        assert forall|fd: i32| all.contains(fd) implies taken.contains(fd) by {
            lemma_no_free_slot(taken, base, at, MAX_VFDS as nat, fd as int);
        }
        lemma_fd_range(base, base + MAX_VFDS);
        vstd::set_lib::lemma_len_subset(all, taken);
    }
}

/// A table that holds nothing.
pub open spec fn empty_table(base: i32) -> Table {
    Table {
        base: base as int,
        next_fd: base as int,
        handles: Map::empty(),
        next_open: 0,
        open_files: Map::empty(),
        released: Seq::empty(),
        mmap_regions: Seq::empty(),
        write_fds: Map::empty(),
        atomic_writes: Map::empty(),
    }
}

impl FdTable {
    /// What holds of every table.
    pub closed spec fn well_formed(&self) -> bool {
        self@.well_formed()
    }

    /// What the invariant says of the view.
    pub proof fn lemma_well_formed(&self)
        requires
            self.well_formed(),
        ensures
            self@.well_formed(),
    {
    }

    /// A new empty table whose descriptors start at `base`.
    pub fn new(base: i32) -> (r: FdTable)
        requires
            0 <= base,
            base + MAX_VFDS <= i32::MAX,
        ensures
            r.well_formed(),
            r@ == empty_table(base),
            r@ == (Table {
                base: base as int,
                next_fd: base as int,
                handles: Map::empty(),
                next_open: 0,
                open_files: Map::empty(),
                released: Seq::empty(),
                mmap_regions: Seq::empty(),
                write_fds: Map::empty(),
                atomic_writes: Map::empty(),
            }),
    {
        let r = FdTable {
            map: HashMap::new(),
            base,
            next_fd: base,
            open_files: HashMap::new(),
            next_open: 0,
            released: Vec::new(),
            mmap_regions: Vec::new(),
            write_fds: HashMap::new(),
            atomic_writes: HashMap::new(),
        };
        assert(r@.handles =~= Map::empty());
        assert(r@.write_fds =~= Map::empty());
        assert(r@.atomic_writes =~= Map::empty());
        assert(r@.handles.len() == 0);
        r
    }

    /// The first virtual descriptor.
    pub fn base(&self) -> (r: i32)
        ensures
            r == self@.base,
    {
        self.base
    }

    /// Finds a free descriptor number, scanning forward from the last one
    /// given out.
    fn next_vfd(&mut self) -> (r: Option<i32>)
        requires
            old(self).well_formed(),
        ensures
            match r {
                Some(fd) => {
                    &&& !old(self)@.full()
                    &&& old(self)@.next_free() == Some(fd as int)
                    &&& !old(self)@.handles.contains_key(fd)
                    &&& final(self)@ == (Table {
                        next_fd: slot_after(old(self)@.base, fd as int),
                        ..old(self)@
                    })
                },
                None => old(self)@.full() && final(self)@ == old(self)@,
            },
            final(self).well_formed(),
            final(self).map == old(self).map,
            final(self).open_files == old(self).open_files,
            final(self).next_open == old(self).next_open,
            final(self).released == old(self).released,
            final(self).mmap_regions == old(self).mmap_regions,
            final(self).write_fds == old(self).write_fds,
            final(self).atomic_writes == old(self).atomic_writes,
            final(self).base == old(self).base,
    {
        proof {
            assert(self@.handles.dom() =~= self.map@.dom());
        }
        if self.map.len() >= MAX_VFDS {
            return None;
        }
        let ghost taken = self.map@.dom();
        proof {
            lemma_room(taken, self.base as int, self.next_fd as int);
        }
        let mut n: usize = MAX_VFDS;
        loop
            invariant
                self.map == old(self).map,
                self.open_files == old(self).open_files,
                self.next_open == old(self).next_open,
                self.released == old(self).released,
                self.mmap_regions == old(self).mmap_regions,
                self.write_fds == old(self).write_fds,
                self.atomic_writes == old(self).atomic_writes,
                self.base == old(self).base,
                taken == self.map@.dom(),
                old(self)@.handles.dom() == taken,
                old(self).well_formed(),
                !old(self)@.full(),
                0 <= self.base,
                self.base + MAX_VFDS <= i32::MAX,
                self.base <= self.next_fd < self.base + MAX_VFDS,
                n <= MAX_VFDS,
                free_slot(taken, self.base as int, self.next_fd as int, n as nat) is Some,
                free_slot(taken, self.base as int, self.next_fd as int, n as nat) == free_slot(
                    old(self)@.handles.dom(),
                    old(self)@.base,
                    old(self)@.next_fd,
                    MAX_VFDS as nat,
                ),
            decreases n,
        {
            let fd = self.next_fd;
            self.next_fd =
            if fd + 1 >= self.base + MAX_VFDS as i32 {
                self.base
            } else {
                fd + 1
            };
            if !self.map.contains_key(&fd) {
                assert(self@ =~= (Table {
                    next_fd: slot_after(old(self)@.base, fd as int),
                    ..old(self)@
                }));
                return Some(fd);
            }
            n = n - 1;
        }
    }
}

// ── Descriptions and their sharers ──────────────────────────────────────

/// The state of a description that was just opened.
pub open spec fn fresh_state() -> OpenFileDescriptionState {
    OpenFileDescriptionState { offset: 0, dir_offset: 0, flocked: false, native_backing_fd: None }
}

/// One descriptor more shares a description.
pub open spec fn adding(table: Table, fd: i32, handle: Handle) -> Table {
    let open = table.open_files[handle.open_file];
    Table {
        handles: table.handles.insert(fd, handle),
        open_files: table.open_files.insert(
            handle.open_file,
            OpenFile { descriptors: (open.descriptors + 1) as u64, ..open },
        ),
        ..table
    }
}

/// A file is opened at `fd` with a description of its own.
pub open spec fn opening(table: Table, fd: i32, handle: Handle) -> Table {
    let id = table.next_open as u64;
    Table {
        next_fd: slot_after(table.base, fd as int),
        handles: table.handles.insert(fd, Handle { open_file: id, ..handle }),
        next_open: table.next_open + 1,
        open_files: table.open_files.insert(
            id,
            OpenFile { state: fresh_state(), descriptors: 1, pins: 0, reading: false },
        ),
        ..table
    }
}

/// The kernel descriptors to close once `open` is gone.
pub open spec fn backing(open: OpenFile) -> Seq<i32> {
    match open.state.native_backing_fd {
        Some(fd) => seq![fd],
        None => Seq::empty(),
    }
}

/// The descriptor `fd` is closed. Where it was the last to refer to its
/// description, the description is gone.
pub open spec fn closing(table: Table, fd: i32) -> Table {
    let id = table.handles[fd].open_file;
    let open = table.open_files[id];
    let rest = Table { handles: table.handles.remove(fd), ..table };
    if open.descriptors <= 1 && open.pins == 0 {
        Table {
            open_files: table.open_files.remove(id),
            released: table.released + backing(open),
            ..rest
        }
    } else {
        Table {
            open_files: table.open_files.insert(
                id,
                OpenFile { descriptors: (open.descriptors - 1) as u64, ..open },
            ),
            ..rest
        }
    }
}

/// A request in flight lets go of the description `id`. What no request holds
/// on to is not being read.
pub open spec fn releasing(table: Table, id: u64) -> Table {
    let open = table.open_files[id];
    if !table.open_files.contains_key(id) || open.pins == 0 {
        table
    } else if open.descriptors == 0 && open.pins == 1 {
        Table {
            open_files: table.open_files.remove(id),
            released: table.released + backing(open),
            ..table
        }
    } else {
        Table {
            open_files: table.open_files.insert(
                id,
                OpenFile {
                    pins: (open.pins - 1) as u64,
                    reading: open.reading && open.pins > 1,
                    ..open
                },
            ),
            ..table
        }
    }
}

/// `src` is duplicated into the descriptor number `dst`.
pub open spec fn duplicating_into(
    table: Table,
    src: i32,
    dst: i32,
    kernel_backed: bool,
    descriptor_flags: i32,
) -> Table {
    let handle = Handle { kernel_backed, descriptor_flags, ..table.handles[src] };
    if src == dst {
        Table { handles: table.handles.insert(dst, handle), ..table }
    } else if table.handles.contains_key(dst) {
        adding(closing(table, dst), dst, handle)
    } else {
        adding(table, dst, handle)
    }
}

/// What a new entry does to the sharers of a description.
proof fn lemma_sharers_insert(handles: Map<i32, Handle>, fd: i32, handle: Handle, id: u64)
    requires
        handles.dom().finite(),
        !handles.contains_key(fd),
    ensures
        sharers(handles, id).finite(),
        sharers(handles.insert(fd, handle), id).finite(),
        sharers(handles.insert(fd, handle), id).len() == sharers(handles, id).len() + if handle.open_file
            == id {
            1int
        } else {
            0int
        },
{
    let before = sharers(handles, id);
    let after = sharers(handles.insert(fd, handle), id);
    handles.dom().lemma_len_filter(|d: i32| handles[d].open_file == id);
    if handle.open_file == id {
        assert(after =~= before.insert(fd));
    } else {
        assert(after =~= before);
    }
}

/// What the end of an entry does to the sharers of a description.
proof fn lemma_sharers_remove(handles: Map<i32, Handle>, fd: i32, id: u64)
    requires
        handles.dom().finite(),
        handles.contains_key(fd),
    ensures
        sharers(handles, id).finite(),
        sharers(handles.remove(fd), id).len() == sharers(handles, id).len() - if handles[fd].open_file
            == id {
            1int
        } else {
            0int
        },
        handles[fd].open_file == id ==> sharers(handles, id).len() > 0,
{
    let rest = handles.remove(fd);
    lemma_sharers_insert(rest, fd, handles[fd], id);
    assert(rest.insert(fd, handles[fd]) =~= handles);
}

/// Sharers that share nothing else: changing a handle that keeps its
/// description leaves the sharers alone.
proof fn lemma_sharers_same(handles: Map<i32, Handle>, fd: i32, handle: Handle, id: u64)
    requires
        handles.contains_key(fd),
        handle.open_file == handles[fd].open_file,
    ensures
        sharers(handles.insert(fd, handle), id) == sharers(handles, id),
{
    assert(sharers(handles.insert(fd, handle), id) =~= sharers(handles, id));
}

/// No description has more sharers than there are descriptors.
proof fn lemma_sharers_bound(handles: Map<i32, Handle>, id: u64)
    requires
        handles.dom().finite(),
    ensures
        sharers(handles, id).len() <= handles.len(),
        sharers(handles, id).finite(),
{
    handles.dom().lemma_len_filter(|d: i32| handles[d].open_file == id);
}

/// Opening keeps a table well formed.
pub proof fn lemma_opening(table: Table, fd: i32, handle: Handle)
    requires
        table.well_formed(),
        table.has_room(),
        table.next_free() == Some(fd as int),
    ensures
        opening(table, fd, handle).well_formed(),
        !table.handles.contains_key(fd),
{
    lemma_free_slot(table.handles.dom(), table.base, table.next_fd, MAX_VFDS as nat);
    let now = opening(table, fd, handle);
    let id = table.next_open as u64;
    let entry = Handle { open_file: id, ..handle };
    assert forall|other: u64| #[trigger] now.open_files.contains_key(other) implies {
        &&& other < now.next_open
        &&& now.open_files[other].descriptors == sharers(now.handles, other).len()
        &&& now.open_files[other].descriptors + now.open_files[other].pins > 0
        &&& now.open_files[other].reading ==> now.open_files[other].pins > 0
    } by {
        lemma_sharers_insert(table.handles, fd, entry, other);
        if other == id {
            assert(sharers(table.handles, id) =~= Set::<i32>::empty()) by {
                assert forall|d: i32| !sharers(table.handles, id).contains(d) by {
                    if table.handles.contains_key(d) {
                        assert(table.open_files.contains_key(table.handles[d].open_file));
                    }
                }
            }
        } else {
            assert(table.open_files.contains_key(other));
        }
    }
    assert forall|d: i32| #[trigger] now.handles.contains_key(d) implies now.open_files.contains_key(
        now.handles[d].open_file,
    ) by {
        if d != fd {
            assert(table.handles.contains_key(d));
        }
    }
}

/// Closing keeps a table well formed.
pub proof fn lemma_closing(table: Table, fd: i32)
    requires
        table.well_formed(),
        table.handles.contains_key(fd),
    ensures
        closing(table, fd).well_formed(),
        table.open_files.contains_key(table.handles[fd].open_file),
        1 <= table.open_files[table.handles[fd].open_file].descriptors <= MAX_VFDS,
{
    let id = table.handles[fd].open_file;
    let open = table.open_files[id];
    let now = closing(table, fd);
    lemma_sharers_bound(table.handles, id);
    lemma_sharers_remove(table.handles, fd, id);
    assert forall|other: u64| #[trigger] now.open_files.contains_key(other) implies {
        &&& other < now.next_open
        &&& now.open_files[other].descriptors == sharers(now.handles, other).len()
        &&& now.open_files[other].descriptors + now.open_files[other].pins > 0
        &&& now.open_files[other].reading ==> now.open_files[other].pins > 0
    } by {
        lemma_sharers_remove(table.handles, fd, other);
        assert(table.open_files.contains_key(other));
    }
    assert forall|d: i32| #[trigger] now.handles.contains_key(d) implies now.open_files.contains_key(
        now.handles[d].open_file,
    ) by {
        assert(table.handles.contains_key(d));
        if now.handles[d].open_file == id && open.descriptors <= 1 && open.pins == 0 {
            lemma_sharers_remove(table.handles, d, id);
            let rest = table.handles.remove(fd);
            lemma_sharers_remove(rest, d, id);
        }
    }
}

/// Sharing a live description keeps a table well formed.
pub proof fn lemma_adding(table: Table, fd: i32, handle: Handle)
    requires
        table.well_formed(),
        !table.handles.contains_key(fd),
        !table.full(),
        table.open_files.contains_key(handle.open_file),
    ensures
        adding(table, fd, handle).well_formed(),
        table.open_files[handle.open_file].descriptors < MAX_VFDS,
{
    let id = handle.open_file;
    let now = adding(table, fd, handle);
    lemma_sharers_bound(table.handles, id);
    assert forall|other: u64| #[trigger] now.open_files.contains_key(other) implies {
        &&& other < now.next_open
        &&& now.open_files[other].descriptors == sharers(now.handles, other).len()
        &&& now.open_files[other].descriptors + now.open_files[other].pins > 0
        &&& now.open_files[other].reading ==> now.open_files[other].pins > 0
    } by {
        lemma_sharers_insert(table.handles, fd, handle, other);
        assert(table.open_files.contains_key(other));
    }
    assert forall|d: i32| #[trigger] now.handles.contains_key(d) implies now.open_files.contains_key(
        now.handles[d].open_file,
    ) by {
        if d != fd {
            assert(table.handles.contains_key(d));
        }
    }
}

/// Letting go keeps a table well formed.
pub proof fn lemma_releasing(table: Table, id: u64)
    requires
        table.well_formed(),
    ensures
        releasing(table, id).well_formed(),
{
    let now = releasing(table, id);
    assert forall|other: u64| #[trigger] now.open_files.contains_key(other) implies {
        &&& other < now.next_open
        &&& now.open_files[other].descriptors == sharers(now.handles, other).len()
        &&& now.open_files[other].descriptors + now.open_files[other].pins > 0
        &&& now.open_files[other].reading ==> now.open_files[other].pins > 0
    } by {
        assert(table.open_files.contains_key(other));
    }
    assert forall|d: i32| #[trigger] now.handles.contains_key(d) implies now.open_files.contains_key(
        now.handles[d].open_file,
    ) by {
        assert(table.handles.contains_key(d));
        if now.handles[d].open_file == id {
            lemma_sharers_remove(table.handles, d, id);
        }
    }
}

/// The table with the description `id` being read, or not.
pub open spec fn marking(table: Table, id: u64, reading: bool) -> Table {
    Table {
        open_files: table.open_files.insert(id, OpenFile { reading, ..table.open_files[id] }),
        ..table
    }
}

/// A read of the description `id` is in flight: it holds on to the description,
/// and keeps other reads and seeks away from it.
pub open spec fn fetching(table: Table, id: u64) -> Table {
    let open = table.open_files[id];
    Table {
        open_files: table.open_files.insert(
            id,
            OpenFile { pins: (open.pins + 1) as u64, reading: true, ..open },
        ),
        ..table
    }
}

/// The read of the description `id` is over.
pub open spec fn fetch_ended(table: Table, id: u64) -> Table {
    if table.open_files.contains_key(id) {
        releasing(marking(table, id, false), id)
    } else {
        table
    }
}

/// Marking keeps a table well formed, where what is being read is held on to.
proof fn lemma_marking(table: Table, id: u64, reading: bool)
    requires
        table.well_formed(),
        table.open_files.contains_key(id),
        reading ==> table.open_files[id].pins > 0,
    ensures
        marking(table, id, reading).well_formed(),
{
    let now = marking(table, id, reading);
    assert forall|other: u64| #[trigger] now.open_files.contains_key(other) implies {
        &&& other < now.next_open
        &&& now.open_files[other].descriptors == sharers(now.handles, other).len()
        &&& now.open_files[other].descriptors + now.open_files[other].pins > 0
        &&& now.open_files[other].reading ==> now.open_files[other].pins > 0
    } by {
        assert(table.open_files.contains_key(other));
    }
    assert forall|d: i32| #[trigger] now.handles.contains_key(d) implies now.open_files.contains_key(
        now.handles[d].open_file,
    ) by {
        assert(table.handles.contains_key(d));
    }
}

/// Writing through a description keeps a table well formed.
pub proof fn lemma_with_state(table: Table, id: u64, state: OpenFileDescriptionState)
    requires
        table.well_formed(),
        table.open_files.contains_key(id),
    ensures
        table.with_state(id, state).well_formed(),
{
    let now = table.with_state(id, state);
    assert forall|other: u64| #[trigger] now.open_files.contains_key(other) implies {
        &&& other < now.next_open
        &&& now.open_files[other].descriptors == sharers(now.handles, other).len()
        &&& now.open_files[other].descriptors + now.open_files[other].pins > 0
        &&& now.open_files[other].reading ==> now.open_files[other].pins > 0
    } by {
        assert(table.open_files.contains_key(other));
    }
    assert forall|d: i32| #[trigger] now.handles.contains_key(d) implies now.open_files.contains_key(
        now.handles[d].open_file,
    ) by {
        assert(table.handles.contains_key(d));
    }
}

/// Duplicating into a number keeps a table well formed.
pub proof fn lemma_duplicating_into(
    table: Table,
    src: i32,
    dst: i32,
    kernel_backed: bool,
    descriptor_flags: i32,
)
    requires
        table.well_formed(),
        table.handles.contains_key(src),
        table.handles.contains_key(dst) || !table.full(),
    ensures
        duplicating_into(table, src, dst, kernel_backed, descriptor_flags).well_formed(),
{
    let handle = Handle { kernel_backed, descriptor_flags, ..table.handles[src] };
    let id = handle.open_file;
    assert(table.open_files.contains_key(id));
    if src == dst {
        let now = duplicating_into(table, src, dst, kernel_backed, descriptor_flags);
        assert(now.handles.dom() =~= table.handles.dom());
        assert forall|other: u64| #[trigger] now.open_files.contains_key(other) implies {
            &&& other < now.next_open
            &&& now.open_files[other].descriptors == sharers(now.handles, other).len()
            &&& now.open_files[other].descriptors + now.open_files[other].pins > 0
            &&& now.open_files[other].reading ==> now.open_files[other].pins > 0
        } by {
            lemma_sharers_same(table.handles, dst, handle, other);
        }
        assert forall|d: i32| #[trigger] now.handles.contains_key(d) implies now.open_files.contains_key(
            now.handles[d].open_file,
        ) by {
            assert(table.handles.contains_key(d));
        }
    } else if table.handles.contains_key(dst) {
        lemma_closing(table, dst);
        let rest = closing(table, dst);
        assert(rest.handles.contains_key(src));
        lemma_adding(rest, dst, handle);
    } else {
        lemma_adding(table, dst, handle);
    }
}

// ── Operations ──────────────────────────────────────────────────────────

/// The status flags that an open with `flags` leaves.
pub open spec fn status_of(flags: i32) -> i32 {
    flags & !O_CLOEXEC
}

/// The descriptor flags that an open with `flags` leaves.
pub open spec fn descriptor_flags_of(flags: i32) -> i32 {
    if flags & O_CLOEXEC != 0 {
        FD_CLOEXEC
    } else {
        0
    }
}

/// The content that is kept in a handle: that of a small file.
pub open spec fn kept_content(content: Option<Seq<u8>>) -> Option<Seq<u8>> {
    match content {
        Some(c) => if c.len() <= SMALL_FILE_THRESHOLD {
            Some(c)
        } else {
            None
        },
        None => None,
    }
}

/// The handle of a file opened with these rights.
pub open spec fn file_handle(
    path: Seq<u8>,
    size: u64,
    content: Option<Seq<u8>>,
    io_permitted: bool,
    opened_stat: Option<VirtualStat>,
    path_only: bool,
    link_target: Option<Seq<u8>>,
    flags: i32,
) -> Handle {
    Handle {
        path,
        opened_stat,
        opened_inode: inode_of(path, opened_stat),
        link_target,
        size,
        cached_content: kept_content(content),
        is_directory: false,
        io_permitted,
        path_only,
        dir_entries: None,
        status_flags: status_of(flags),
        descriptor_flags: descriptor_flags_of(flags),
        open_file: 0,
        kernel_backed: false,
        write_path: None,
    }
}

/// The handle of a directory opened with these rights.
pub open spec fn dir_handle(
    path: Seq<u8>,
    entries: Seq<RawEntry>,
    io_permitted: bool,
    path_only: bool,
    opened_stat: Option<VirtualStat>,
    flags: i32,
) -> Handle {
    Handle {
        path,
        opened_stat,
        opened_inode: inode_of(path, opened_stat),
        link_target: None,
        size: 0,
        cached_content: None,
        is_directory: true,
        io_permitted,
        path_only,
        dir_entries: Some(entries),
        status_flags: status_of(flags),
        descriptor_flags: descriptor_flags_of(flags),
        open_file: 0,
        kernel_backed: false,
        write_path: None,
    }
}

/// What an allocation returns and leaves: a descriptor exactly where there is
/// room, and it is the next free one.
pub open spec fn allocated(before: Table, after: Table, fd: Option<i32>, handle: Handle) -> bool {
    match fd {
        Some(n) => {
            &&& before.has_room()
            &&& before.next_free() == Some(n as int)
            &&& after == opening(before, n, handle)
        },
        None => !before.has_room() && after == before,
    }
}

/// What a seek arrives at.
pub open spec fn seek_target(
    state: OpenFileDescriptionState,
    size: u64,
    offset: i64,
    whence: i32,
) -> Result<u64, SeekError> {
    if whence == SEEK_SET {
        if offset < 0 {
            Err(SeekError::Invalid)
        } else {
            Ok(offset as u64)
        }
    } else if whence == SEEK_CUR || whence == SEEK_END {
        let from = if whence == SEEK_CUR {
            state.offset
        } else {
            size
        };
        if from > i64::MAX || from + offset > i64::MAX {
            Err(SeekError::Overflow)
        } else if from + offset < 0 {
            Err(SeekError::Invalid)
        } else {
            Ok((from + offset) as u64)
        }
    } else {
        Err(SeekError::Invalid)
    }
}

/// A kernel descriptor is tracked as opened for writing on a path.
pub open spec fn tracking(table: Table, fd: i32, path: Seq<u8>) -> Table {
    Table { write_fds: table.write_fds.insert(fd, path), ..table }
}

/// The tracking of a written descriptor ends; its path is handed back.
pub open spec fn untracking(table: Table, fd: i32) -> (Table, Option<Seq<u8>>) {
    (Table { write_fds: table.write_fds.remove(fd), ..table }, table.write_fds.get(fd))
}

/// An atomic write is tracked.
pub open spec fn tracking_atomic(table: Table, fd: i32, target: Seq<u8>, temp: Seq<u8>) -> Table {
    Table { atomic_writes: table.atomic_writes.insert(fd, (target, temp)), ..table }
}

/// The tracking of an atomic write ends; its target and its temporary are handed
/// back.
pub open spec fn untracking_atomic(table: Table, fd: i32) -> (Table, Option<(Seq<u8>, Seq<u8>)>) {
    (Table { atomic_writes: table.atomic_writes.remove(fd), ..table }, table.atomic_writes.get(fd))
}

/// A mapping is recorded.
pub open spec fn mapping_added(table: Table, addr: usize, len: usize) -> Table {
    Table { mmap_regions: table.mmap_regions.push(MmapRegion { addr, len }), ..table }
}

/// The first mapping at an address is forgotten, and handed back.
pub open spec fn unmapping(
    before: Table,
    after: Table,
    addr: usize,
    handed: Option<MmapRegion>,
) -> bool {
    match handed {
        Some(region) => exists|i: int|
            {
                &&& #[trigger] first_mapping(before.mmap_regions, addr, i)
                &&& region == before.mmap_regions[i]
                &&& after == (Table {
                    mmap_regions: before.mmap_regions.update(
                        i,
                        before.mmap_regions.last(),
                    ).drop_last(),
                    ..before
                })
            },
        None => !mapped(before.mmap_regions, addr) && after == before,
    }
}

/// The offset of a descriptor moves on.
pub open spec fn advancing(table: Table, fd: i32, n: u64) -> (Table, Option<u64>) {
    if table.handles.contains_key(fd) {
        let state = table.state_of(fd);
        let offset = if state.offset + n > u64::MAX {
            u64::MAX
        } else {
            (state.offset + n) as u64
        };
        (
            table.with_state(
                table.handles[fd].open_file,
                OpenFileDescriptionState { offset, ..state },
            ),
            Some(offset),
        )
    } else {
        (table, None)
    }
}

/// A request holds on to the description of a descriptor.
pub open spec fn pinning(table: Table, fd: i32) -> Table {
    let id = table.handles[fd].open_file;
    let open = table.open_files[id];
    Table {
        open_files: table.open_files.insert(id, OpenFile { pins: (open.pins + 1) as u64, ..open }),
        ..table
    }
}

/// The kernel descriptors whose descriptions are gone are handed over.
pub open spec fn handing_over(table: Table) -> (Table, Seq<i32>) {
    (Table { released: Seq::empty(), ..table }, table.released)
}

/// A descriptor has these flags of its own.
pub open spec fn flagged(table: Table, fd: i32, flags: i32) -> Table {
    Table {
        handles: table.handles.insert(fd, Handle { descriptor_flags: flags, ..table.handles[fd] }),
        ..table
    }
}

impl FdTable {
    /// Puts a freshly opened handle into the table.
    fn install(&mut self, handle: VirtualFileHandle) -> (r: Option<i32>)
        requires
            old(self).well_formed(),
        ensures
            final(self).well_formed(),
            allocated(old(self)@, final(self)@, r, handle@),
    {
        if self.next_open == u64::MAX {
            return None;
        }
        match self.next_vfd() {
            None => None,
            Some(fd) => {
                let id = self.next_open;
                let mut entry = handle;
                entry.open_file = id;
                proof {
                    lemma_opening(old(self)@, fd, handle@);
                }
                self.next_open = id + 1;
                self.open_files.insert(
                    id,
                    OpenFile {
                        state: OpenFileDescriptionState {
                            offset: 0,
                            dir_offset: 0,
                            flocked: false,
                            native_backing_fd: None,
                        },
                        descriptors: 1,
                        pins: 0,
                        reading: false,
                    },
                );
                self.map.insert(fd, entry);
                proof {
                    assert(self@.handles =~= opening(old(self)@, fd, handle@).handles);
                    assert(self@ =~= opening(old(self)@, fd, handle@));
                }
                Some(fd)
            },
        }
    }

    /// Allocates a descriptor for a file. `content` is kept only where it is
    /// under the small-file threshold. `None` where the table is full.
    pub fn allocate(&mut self, path: &[u8], size: u64, content: Option<Vec<u8>>) -> (r: Option<i32>)
        requires
            old(self).well_formed(),
        ensures
            final(self).well_formed(),
            allocated(
                old(self)@,
                final(self)@,
                r,
                file_handle(path@, size, opt_seq(content), true, None, false, None, O_RDONLY),
            ),
    {
        self.allocate_with_io(path, size, content, true, None, false, None, O_RDONLY)
    }

    /// Allocates a metadata-only descriptor for a file: access mode 3.
    pub fn allocate_check_only(
        &mut self,
        path: &[u8],
        size: u64,
        content: Option<Vec<u8>>,
    ) -> (r: Option<i32>)
        requires
            old(self).well_formed(),
        ensures
            final(self).well_formed(),
            allocated(
                old(self)@,
                final(self)@,
                r,
                file_handle(path@, size, opt_seq(content), false, None, false, None, O_ACCMODE),
            ),
    {
        self.allocate_with_io(path, size, content, false, None, false, None, O_ACCMODE)
    }

    /// Allocates a descriptor with its open-time identity pinned.
    pub fn allocate_opened(
        &mut self,
        path: &[u8],
        stat: VirtualStat,
        content: Option<Vec<u8>>,
        options: OpenedFileOptions,
    ) -> (r: Option<i32>)
        requires
            old(self).well_formed(),
        ensures
            final(self).well_formed(),
            allocated(
                old(self)@,
                final(self)@,
                r,
                file_handle(
                    path@,
                    stat.size,
                    opt_seq(content),
                    options.io_permitted,
                    Some(stat),
                    options.path_only,
                    opt_seq(options.link_target),
                    options.flags,
                ),
            ),
    {
        self.allocate_with_io(
            path,
            stat.size,
            content,
            options.io_permitted,
            Some(stat),
            options.path_only,
            options.link_target,
            options.flags,
        )
    }

    fn allocate_with_io(
        &mut self,
        path: &[u8],
        size: u64,
        content: Option<Vec<u8>>,
        io_permitted: bool,
        opened_stat: Option<VirtualStat>,
        path_only: bool,
        link_target: Option<Vec<u8>>,
        flags: i32,
    ) -> (r: Option<i32>)
        requires
            old(self).well_formed(),
        ensures
            final(self).well_formed(),
            allocated(
                old(self)@,
                final(self)@,
                r,
                file_handle(
                    path@,
                    size,
                    opt_seq(content),
                    io_permitted,
                    opened_stat,
                    path_only,
                    opt_seq(link_target),
                    flags,
                ),
            ),
    {
        let cached_content = match content {
            Some(c) => {
                if c.len() <= SMALL_FILE_THRESHOLD {
                    Some(c)
                } else {
                    None
                }
            },
            None => None,
        };
        let opened_inode = opened_inode(path, &opened_stat);
        self.install(
            VirtualFileHandle {
                path: to_vec(path),
                opened_stat,
                opened_inode,
                link_target,
                size,
                cached_content,
                is_directory: false,
                io_permitted,
                path_only,
                dir_entries: None,
                status_flags: flags & !O_CLOEXEC,
                descriptor_flags: if flags & O_CLOEXEC != 0 {
                    FD_CLOEXEC
                } else {
                    0
                },
                open_file: 0,
                kernel_backed: false,
                write_path: None,
            },
        )
    }

    /// Allocates a descriptor for a directory, loaded with its entries.
    pub fn allocate_dir(&mut self, path: &[u8], entries: Vec<DirEntryRaw>) -> (r: Option<i32>)
        requires
            old(self).well_formed(),
        ensures
            final(self).well_formed(),
            allocated(
                old(self)@,
                final(self)@,
                r,
                dir_handle(path@, raw_entries(entries@), true, false, None, O_RDONLY),
            ),
    {
        self.allocate_dir_with_io(path, entries, true, false, None, O_RDONLY)
    }

    /// Allocates a metadata-only descriptor for a directory: access mode 3.
    pub fn allocate_dir_check_only(&mut self, path: &[u8], entries: Vec<DirEntryRaw>) -> (r: Option<
        i32,
    >)
        requires
            old(self).well_formed(),
        ensures
            final(self).well_formed(),
            allocated(
                old(self)@,
                final(self)@,
                r,
                dir_handle(path@, raw_entries(entries@), false, false, None, O_ACCMODE),
            ),
    {
        self.allocate_dir_with_io(path, entries, false, false, None, O_ACCMODE)
    }

    /// Allocates a directory descriptor with its open-time metadata.
    pub fn allocate_opened_dir(
        &mut self,
        path: &[u8],
        stat: VirtualStat,
        entries: Vec<DirEntryRaw>,
        io_permitted: bool,
        path_only: bool,
        flags: i32,
    ) -> (r: Option<i32>)
        requires
            old(self).well_formed(),
        ensures
            final(self).well_formed(),
            allocated(
                old(self)@,
                final(self)@,
                r,
                dir_handle(
                    path@,
                    raw_entries(entries@),
                    io_permitted,
                    path_only,
                    Some(stat),
                    flags,
                ),
            ),
    {
        self.allocate_dir_with_io(path, entries, io_permitted, path_only, Some(stat), flags)
    }

    fn allocate_dir_with_io(
        &mut self,
        path: &[u8],
        entries: Vec<DirEntryRaw>,
        io_permitted: bool,
        path_only: bool,
        opened_stat: Option<VirtualStat>,
        flags: i32,
    ) -> (r: Option<i32>)
        requires
            old(self).well_formed(),
        ensures
            final(self).well_formed(),
            allocated(
                old(self)@,
                final(self)@,
                r,
                dir_handle(
                    path@,
                    raw_entries(entries@),
                    io_permitted,
                    path_only,
                    opened_stat,
                    flags,
                ),
            ),
    {
        let opened_inode = opened_inode(path, &opened_stat);
        self.install(
            VirtualFileHandle {
                path: to_vec(path),
                opened_stat,
                opened_inode,
                link_target: None,
                size: 0,
                cached_content: None,
                is_directory: true,
                io_permitted,
                path_only,
                dir_entries: Some(entries),
                status_flags: flags & !O_CLOEXEC,
                descriptor_flags: if flags & O_CLOEXEC != 0 {
                    FD_CLOEXEC
                } else {
                    0
                },
                open_file: 0,
                kernel_backed: false,
                write_path: None,
            },
        )
    }

    /// Looks up a virtual descriptor.
    pub fn get(&self, fd: i32) -> (r: Option<&VirtualFileHandle>)
        ensures
            match r {
                Some(h) => self@.handles.contains_key(fd) && h@ == self@.handles[fd],
                None => !self@.handles.contains_key(fd),
            },
    {
        self.map.get(&fd)
    }

    /// Whether `fd` is a virtual descriptor of this table.
    pub fn is_virtual(&self, fd: i32) -> (r: bool)
        ensures
            r == self@.handles.contains_key(fd),
    {
        self.map.contains_key(&fd)
    }

    /// Sets the per-descriptor flags; `false` where `fd` is not virtual.
    pub fn set_descriptor_flags(&mut self, fd: i32, flags: i32) -> (r: bool)
        requires
            old(self).well_formed(),
        ensures
            final(self).well_formed(),
            r == old(self)@.handles.contains_key(fd),
            r ==> final(self)@ == flagged(old(self)@, fd, flags),
            final(self)@ == if r {
                Table {
                    handles: old(self)@.handles.insert(
                        fd,
                        Handle { descriptor_flags: flags, ..old(self)@.handles[fd] },
                    ),
                    ..old(self)@
                }
            } else {
                old(self)@
            },
    {
        match self.map.remove(&fd) {
            None => {
                assert(self.map@ =~= old(self).map@);
                false
            },
            Some(handle) => {
                let mut changed = handle;
                changed.descriptor_flags = flags;
                self.map.insert(fd, changed);
                proof {
                    let kept = old(self)@.handles[fd].kernel_backed;
                    lemma_duplicating_into(old(self)@, fd, fd, kept, flags);
                    assert(self@ =~= duplicating_into(old(self)@, fd, fd, kept, flags));
                }
                true
            },
        }
    }

    /// The state of the description that a handle refers to, while it lives.
    pub fn open_file(&self, handle: &VirtualFileHandle) -> (r: Option<OpenFileDescriptionState>)
        ensures
            r == if self@.open_files.contains_key(handle.open_file) {
                Some(self@.open_files[handle.open_file].state)
            } else {
                None
            },
    {
        match self.open_files.get(&handle.open_file) {
            Some(open) => Some(open.state),
            None => None,
        }
    }

    /// Replaces the state of a description.
    fn put_state(&mut self, id: u64, state: OpenFileDescriptionState)
        requires
            old(self).well_formed(),
            old(self)@.open_files.contains_key(id),
        ensures
            final(self).well_formed(),
            final(self)@ == old(self)@.with_state(id, state),
    {
        proof {
            lemma_with_state(self@, id, state);
        }
        match self.open_files.get(&id) {
            Some(open) => {
                let changed = OpenFile {
                    state,
                    descriptors: open.descriptors,
                    pins: open.pins,
                    reading: open.reading,
                };
                self.open_files.insert(id, changed);
                assert(self@ =~= old(self)@.with_state(id, state));
            },
            None => {},
        }
    }

    /// Writes the state of the description that a handle refers to; `false`
    /// where that description is gone.
    pub fn set_open_file(
        &mut self,
        handle: &VirtualFileHandle,
        state: OpenFileDescriptionState,
    ) -> (r: bool)
        requires
            old(self).well_formed(),
        ensures
            final(self).well_formed(),
            r == old(self)@.open_files.contains_key(handle.open_file),
            final(self)@ == if r {
                old(self)@.with_state(handle.open_file, state)
            } else {
                old(self)@
            },
    {
        if self.open_files.contains_key(&handle.open_file) {
            self.put_state(handle.open_file, state);
            true
        } else {
            false
        }
    }

    /// The current state of a virtual descriptor's description.
    fn state(&self, fd: i32) -> (r: Option<(u64, u64, OpenFileDescriptionState)>)
        requires
            self.well_formed(),
        ensures
            match r {
                Some((id, size, state)) => {
                    &&& self@.handles.contains_key(fd)
                    &&& id == self@.handles[fd].open_file
                    &&& size == self@.handles[fd].size
                    &&& self@.open_files.contains_key(id)
                    &&& state == self@.state_of(fd)
                },
                None => !self@.handles.contains_key(fd),
            },
    {
        match self.map.get(&fd) {
            None => None,
            Some(handle) => {
                assert(self@.handles.contains_key(fd));
                match self.open_files.get(&handle.open_file) {
                    Some(open) => Some((handle.open_file, handle.size, open.state)),
                    None => None,
                }
            },
        }
    }

    /// The byte offset of a virtual descriptor.
    pub fn offset(&self, fd: i32) -> (r: Option<u64>)
        requires
            self.well_formed(),
        ensures
            r == if self@.handles.contains_key(fd) {
                Some(self@.state_of(fd).offset)
            } else {
                None
            },
    {
        match self.state(fd) {
            Some((_, _, state)) => Some(state.offset),
            None => None,
        }
    }

    /// The directory position of a virtual descriptor.
    pub fn dir_offset(&self, fd: i32) -> (r: Option<usize>)
        requires
            self.well_formed(),
        ensures
            r == if self@.handles.contains_key(fd) {
                Some(self@.state_of(fd).dir_offset)
            } else {
                None
            },
    {
        match self.state(fd) {
            Some((_, _, state)) => Some(state.dir_offset),
            None => None,
        }
    }

    /// The kernel descriptor that the description of `fd` shares, once it has
    /// crossed into the kernel's table.
    pub fn native_backing_fd(&self, fd: i32) -> (r: Option<i32>)
        requires
            self.well_formed(),
        ensures
            r == if self@.handles.contains_key(fd) {
                self@.state_of(fd).native_backing_fd
            } else {
                None
            },
    {
        match self.state(fd) {
            Some((_, _, state)) => state.native_backing_fd,
            None => None,
        }
    }

    /// Sets the directory position that all duplicates of `fd` share.
    pub fn set_dir_offset(&mut self, fd: i32, dir_offset: usize)
        requires
            old(self).well_formed(),
        ensures
            final(self).well_formed(),
            final(self)@ == if old(self)@.handles.contains_key(fd) {
                old(self)@.with_state(
                    old(self)@.handles[fd].open_file,
                    OpenFileDescriptionState { dir_offset, ..old(self)@.state_of(fd) },
                )
            } else {
                old(self)@
            },
    {
        match self.state(fd) {
            Some((id, _, state)) => {
                self.put_state(id, OpenFileDescriptionState { dir_offset, ..state });
            },
            None => {},
        }
    }

    /// Advances the offset of a virtual descriptor and returns the new one.
    pub fn advance_offset(&mut self, fd: i32, bytes_read: u64) -> (r: Option<u64>)
        requires
            old(self).well_formed(),
        ensures
            (final(self)@, r) == advancing(old(self)@, fd, bytes_read),
            final(self).well_formed(),
            match r {
                Some(offset) => {
                    &&& old(self)@.handles.contains_key(fd)
                    &&& offset == if old(self)@.state_of(fd).offset + bytes_read > u64::MAX {
                        u64::MAX as int
                    } else {
                        old(self)@.state_of(fd).offset + bytes_read
                    }
                    &&& final(self)@ == old(self)@.with_state(
                        old(self)@.handles[fd].open_file,
                        OpenFileDescriptionState { offset, ..old(self)@.state_of(fd) },
                    )
                },
                None => !old(self)@.handles.contains_key(fd) && final(self)@ == old(self)@,
            },
    {
        match self.state(fd) {
            Some((id, _, state)) => {
                let offset: u64 = state.offset.saturating_add(bytes_read);
                self.put_state(id, OpenFileDescriptionState { offset, ..state });
                Some(offset)
            },
            None => None,
        }
    }

    /// Moves the offset of a virtual descriptor. On an error it stays where it
    /// was.
    pub fn seek(&mut self, fd: i32, offset: i64, whence: i32) -> (r: Result<u64, SeekError>)
        requires
            old(self).well_formed(),
        ensures
            final(self).well_formed(),
            r == if old(self)@.handles.contains_key(fd) {
                seek_target(
                    old(self)@.state_of(fd),
                    old(self)@.handles[fd].size,
                    offset,
                    whence,
                )
            } else {
                Err(SeekError::Invalid)
            },
            final(self)@ == match r {
                Ok(offset) => old(self)@.with_state(
                    old(self)@.handles[fd].open_file,
                    OpenFileDescriptionState { offset, ..old(self)@.state_of(fd) },
                ),
                Err(_) => old(self)@,
            },
    {
        let (id, size, state) = match self.state(fd) {
            Some(found) => found,
            None => {
                return Err(SeekError::Invalid);
            },
        };
        let target: u64 = if whence == SEEK_SET {
            if offset < 0 {
                return Err(SeekError::Invalid);
            }
            offset as u64
        } else if whence == SEEK_CUR || whence == SEEK_END {
            let from: u64 = if whence == SEEK_CUR {
                state.offset
            } else {
                size
            };
            if from > i64::MAX as u64 {
                return Err(SeekError::Overflow);
            }
            match (from as i64).checked_add(offset) {
                None => {
                    return Err(SeekError::Overflow);
                },
                Some(sum) => {
                    if sum < 0 {
                        return Err(SeekError::Invalid);
                    }
                    sum as u64
                },
            }
        } else {
            return Err(SeekError::Invalid);
        };
        self.put_state(id, OpenFileDescriptionState { offset: target, ..state });
        Ok(target)
    }

    /// Closes a virtual descriptor and returns its handle.
    pub fn close(&mut self, fd: i32) -> (r: Option<VirtualFileHandle>)
        requires
            old(self).well_formed(),
        ensures
            final(self).well_formed(),
            match r {
                Some(h) => {
                    &&& old(self)@.handles.contains_key(fd)
                    &&& h@ == old(self)@.handles[fd]
                    &&& final(self)@ == closing(old(self)@, fd)
                },
                None => !old(self)@.handles.contains_key(fd) && final(self)@ == old(self)@,
            },
    {
        match self.map.remove(&fd) {
            None => {
                assert(self.map@ =~= old(self).map@);
                None
            },
            Some(handle) => {
                proof {
                    lemma_closing(old(self)@, fd);
                    assert(self@.handles =~= old(self)@.handles.remove(fd));
                }
                let id = handle.open_file;
                match self.open_files.get(&id) {
                    Some(open) => {
                        let open = *open;
                        if open.descriptors <= 1 && open.pins == 0 {
                            self.open_files.remove(&id);
                            match open.state.native_backing_fd {
                                Some(native) => {
                                    self.released.push(native);
                                },
                                None => {},
                            }
                        } else {
                            self.open_files.insert(
                                id,
                                OpenFile {
                                    state: open.state,
                                    descriptors: open.descriptors - 1,
                                    pins: open.pins,
                                    reading: open.reading,
                                },
                            );
                        }
                    },
                    None => {},
                }
                assert(self@ =~= closing(old(self)@, fd));
                Some(handle)
            },
        }
    }

    /// Lets one more descriptor share the description of `handle`.
    fn share(&mut self, fd: i32, handle: VirtualFileHandle)
        requires
            old(self).well_formed(),
            !old(self)@.handles.contains_key(fd),
            !old(self)@.full(),
            old(self)@.open_files.contains_key(handle.open_file),
        ensures
            final(self).well_formed(),
            final(self)@ == adding(old(self)@, fd, handle@),
    {
        proof {
            lemma_adding(self@, fd, handle@);
        }
        let id = handle.open_file;
        match self.open_files.get(&id) {
            Some(open) => {
                let changed = OpenFile {
                    state: open.state,
                    descriptors: open.descriptors + 1,
                    pins: open.pins,
                    reading: open.reading,
                };
                self.open_files.insert(id, changed);
            },
            None => {},
        }
        self.map.insert(fd, handle);
        assert(self@.handles =~= old(self)@.handles.insert(fd, handle@));
        assert(self@ =~= adding(old(self)@, fd, handle@));
    }

    /// Duplicates a virtual descriptor into a new one.
    ///
    /// The entries are distinct; the open-file description, with its cursors
    /// and its lock, is shared.
    pub fn duplicate(&mut self, fd: i32) -> (r: Result<i32, DuplicateError>)
        requires
            old(self).well_formed(),
        ensures
            final(self).well_formed(),
            match r {
                Ok(new_fd) => {
                    &&& old(self)@.handles.contains_key(fd)
                    &&& !old(self)@.full()
                    &&& old(self)@.next_free() == Some(new_fd as int)
                    &&& !old(self)@.handles.contains_key(new_fd)
                    &&& final(self)@ == adding(
                        (Table {
                            next_fd: slot_after(old(self)@.base, new_fd as int),
                            ..old(self)@
                        }),
                        new_fd,
                        (Handle {
                            kernel_backed: false,
                            descriptor_flags: 0,
                            ..old(self)@.handles[fd]
                        }),
                    )
                },
                Err(DuplicateError::NotVirtual) => !old(self)@.handles.contains_key(fd)
                    && final(self)@ == old(self)@,
                Err(DuplicateError::TableFull) => old(self)@.handles.contains_key(fd)
                    && old(self)@.full() && final(self)@ == old(self)@,
            },
    {
        let mut handle = match self.map.get(&fd) {
            None => {
                return Err(DuplicateError::NotVirtual);
            },
            Some(h) => h.clone(),
        };
        assert(self@.handles.contains_key(fd));
        handle.kernel_backed = false;
        handle.descriptor_flags = 0;
        match self.next_vfd() {
            None => Err(DuplicateError::TableFull),
            Some(new_fd) => {
                self.share(new_fd, handle);
                Ok(new_fd)
            },
        }
    }

    /// Duplicates a virtual descriptor into a given number, closing what is
    /// there.
    ///
    /// `kernel_backed` says that the caller has installed a matching kernel
    /// duplicate at `dst_fd`.
    pub fn duplicate_into(
        &mut self,
        src_fd: i32,
        dst_fd: i32,
        kernel_backed: bool,
        descriptor_flags: i32,
    ) -> (r: Result<i32, DuplicateError>)
        requires
            old(self).well_formed(),
        ensures
            final(self).well_formed(),
            match r {
                Ok(fd) => {
                    &&& fd == dst_fd
                    &&& old(self)@.handles.contains_key(src_fd)
                    &&& old(self)@.handles.contains_key(dst_fd) || !old(self)@.full()
                    &&& final(self)@ == duplicating_into(
                        old(self)@,
                        src_fd,
                        dst_fd,
                        kernel_backed,
                        descriptor_flags,
                    )
                },
                Err(DuplicateError::NotVirtual) => !old(self)@.handles.contains_key(src_fd)
                    && final(self)@ == old(self)@,
                Err(DuplicateError::TableFull) => {
                    &&& old(self)@.handles.contains_key(src_fd)
                    &&& !old(self)@.handles.contains_key(dst_fd)
                    &&& old(self)@.full()
                    &&& final(self)@ == old(self)@
                },
            },
    {
        let mut handle = match self.map.get(&src_fd) {
            None => {
                return Err(DuplicateError::NotVirtual);
            },
            Some(h) => h.clone(),
        };
        assert(self@.handles.contains_key(src_fd));
        let taken = self.map.contains_key(&dst_fd);
        proof {
            assert(self@.handles.dom() =~= self.map@.dom());
        }
        if !taken && self.map.len() >= MAX_VFDS {
            return Err(DuplicateError::TableFull);
        }
        proof {
            lemma_duplicating_into(self@, src_fd, dst_fd, kernel_backed, descriptor_flags);
        }
        handle.kernel_backed = kernel_backed;
        handle.descriptor_flags = descriptor_flags;
        if src_fd == dst_fd {
            self.map.insert(dst_fd, handle);
            assert(self@ =~= duplicating_into(
                old(self)@,
                src_fd,
                dst_fd,
                kernel_backed,
                descriptor_flags,
            ));
        } else {
            if taken {
                proof {
                    lemma_closing(self@, dst_fd);
                    assert(closing(self@, dst_fd).handles.contains_key(src_fd));
                }
                self.close(dst_fd);
            }
            self.share(dst_fd, handle);
        }
        Ok(dst_fd)
    }

    /// Copies a descriptor entry, so that a request can keep its description
    /// while the table is not locked. `None` where `fd` is not virtual (or
    /// more requests are in flight than can be counted).
    pub fn snapshot(&mut self, fd: i32) -> (r: Option<VirtualFileHandle>)
        requires
            old(self).well_formed(),
        ensures
            final(self).well_formed(),
            match r {
                Some(h) => {
                    let open = old(self)@.open_files[h.open_file];
                    &&& old(self)@.handles.contains_key(fd)
                    &&& h@ == old(self)@.handles[fd]
                    &&& final(self)@ == (Table {
                        open_files: old(self)@.open_files.insert(
                            h.open_file,
                            OpenFile { pins: (open.pins + 1) as u64, ..open },
                        ),
                        ..old(self)@
                    })
                    &&& open.pins < u64::MAX
                    &&& final(self)@ == pinning(old(self)@, fd)
                },
                None => {
                    &&& old(self)@.handles.contains_key(fd) ==> old(
                        self,
                    )@.open_files[old(self)@.handles[fd].open_file].pins == u64::MAX
                    &&& final(self)@ == old(self)@
                },
            },
    {
        let handle = match self.map.get(&fd) {
            None => {
                return None;
            },
            Some(h) => h.clone(),
        };
        assert(self@.handles.contains_key(fd));
        let id = handle.open_file;
        match self.open_files.get(&id) {
            Some(open) => {
                if open.pins == u64::MAX {
                    return None;
                }
                let changed = OpenFile {
                    state: open.state,
                    descriptors: open.descriptors,
                    pins: open.pins + 1,
                    reading: open.reading,
                };
                self.open_files.insert(id, changed);
                proof {
                    let before = old(self)@;
                    let now = self@;
                    assert(now.handles == before.handles);
                    assert forall|other: u64| #[trigger]
                        now.open_files.contains_key(other) implies {
                        &&& other < now.next_open
                        &&& now.open_files[other].descriptors == sharers(
                            now.handles,
                            other,
                        ).len()
                        &&& now.open_files[other].descriptors + now.open_files[other].pins > 0
                        &&& now.open_files[other].reading ==> now.open_files[other].pins > 0
                    } by {
                        assert(before.open_files.contains_key(other));
                    }
                    assert forall|d: i32| #[trigger]
                        now.handles.contains_key(d) implies now.open_files.contains_key(
                        now.handles[d].open_file,
                    ) by {
                        assert(before.handles.contains_key(d));
                    }
                }
                Some(handle)
            },
            None => None,
        }
    }

    /// Lets go of a snapshot.
    pub fn release(&mut self, snapshot: VirtualFileHandle)
        requires
            old(self).well_formed(),
        ensures
            final(self).well_formed(),
            final(self)@ == releasing(old(self)@, snapshot.open_file),
    {
        let id = snapshot.open_file;
        proof {
            lemma_releasing(self@, id);
        }
        match self.open_files.get(&id) {
            Some(open) => {
                let open = *open;
                if open.pins > 0 {
                    if open.descriptors == 0 && open.pins == 1 {
                        self.open_files.remove(&id);
                        match open.state.native_backing_fd {
                            Some(native) => {
                                self.released.push(native);
                            },
                            None => {},
                        }
                    } else {
                        self.open_files.insert(
                            id,
                            OpenFile {
                                state: open.state,
                                descriptors: open.descriptors,
                                pins: open.pins - 1,
                                reading: open.reading && open.pins > 1,
                            },
                        );
                    }
                }
            },
            None => {},
        }
        assert(self@ =~= releasing(old(self)@, id));
    }

    /// Marks a description as being read, or not.
    fn mark(&mut self, id: u64, reading: bool)
        requires
            old(self).well_formed(),
            old(self)@.open_files.contains_key(id),
            reading ==> old(self)@.open_files[id].pins > 0,
        ensures
            final(self).well_formed(),
            final(self)@ == marking(old(self)@, id, reading),
    {
        proof {
            lemma_marking(self@, id, reading);
        }
        match self.open_files.get(&id) {
            Some(open) => {
                let changed = OpenFile {
                    state: open.state,
                    descriptors: open.descriptors,
                    pins: open.pins,
                    reading,
                };
                self.open_files.insert(id, changed);
                assert(self@ =~= marking(old(self)@, id, reading));
            },
            None => {},
        }
    }

    /// Whether a read of the description of a virtual descriptor is in flight.
    pub fn is_reading(&self, fd: i32) -> (r: bool)
        requires
            self.well_formed(),
        ensures
            r == (self@.handles.contains_key(fd)
                && self@.open_files[self@.handles[fd].open_file].reading),
    {
        match self.map.get(&fd) {
            Some(handle) => {
                assert(self@.handles.contains_key(fd));
                assert(self@.handles[fd] == handle@);
                match self.open_files.get(&handle.open_file) {
                    Some(open) => open.reading,
                    None => false,
                }
            },
            None => false,
        }
    }

    /// Begins a read of a virtual descriptor that needs a request: like
    /// `snapshot`, and no other read or seek may start until `end_fetch`.
    pub fn begin_fetch(&mut self, fd: i32) -> (r: Option<VirtualFileHandle>)
        requires
            old(self).well_formed(),
        ensures
            final(self).well_formed(),
            match r {
                Some(h) => {
                    &&& old(self)@.handles.contains_key(fd)
                    &&& h@ == old(self)@.handles[fd]
                    &&& old(self)@.open_files[h.open_file].pins < u64::MAX
                    &&& final(self)@ == fetching(old(self)@, h.open_file)
                },
                None => {
                    &&& old(self)@.handles.contains_key(fd) ==> old(
                        self,
                    )@.open_files[old(self)@.handles[fd].open_file].pins == u64::MAX
                    &&& final(self)@ == old(self)@
                },
            },
    {
        match self.snapshot(fd) {
            Some(snapshot) => {
                assert(self@.handles[fd] == snapshot@);
                assert(self@.open_files.contains_key(snapshot.open_file));
                self.mark(snapshot.open_file, true);
                assert(self@ =~= fetching(old(self)@, snapshot.open_file));
                Some(snapshot)
            },
            None => None,
        }
    }

    /// Ends a read that `begin_fetch` began.
    pub fn end_fetch(&mut self, snapshot: VirtualFileHandle)
        requires
            old(self).well_formed(),
        ensures
            final(self).well_formed(),
            final(self)@ == fetch_ended(old(self)@, snapshot.open_file),
    {
        if self.open_files.contains_key(&snapshot.open_file) {
            self.mark(snapshot.open_file, false);
            self.release(snapshot);
        }
    }

    /// Takes the kernel descriptors whose descriptions are gone: they are to
    /// be closed.
    pub fn take_released(&mut self) -> (r: Vec<i32>)
        requires
            old(self).well_formed(),
        ensures
            final(self).well_formed(),
            (final(self)@, r@) == handing_over(old(self)@),
            r@ == old(self)@.released,
            final(self)@ == (Table { released: Seq::empty(), ..old(self)@ }),
    {
        let mut out: Vec<i32> = Vec::new();
        std::mem::swap(&mut self.released, &mut out);
        out
    }

    /// Records or clears an advisory lock on a virtual descriptor.
    pub fn set_flock(&mut self, fd: i32, locked: bool)
        requires
            old(self).well_formed(),
        ensures
            final(self).well_formed(),
            final(self)@ == if old(self)@.handles.contains_key(fd) {
                old(self)@.with_state(
                    old(self)@.handles[fd].open_file,
                    OpenFileDescriptionState { flocked: locked, ..old(self)@.state_of(fd) },
                )
            } else {
                old(self)@
            },
    {
        match self.state(fd) {
            Some((id, _, state)) => {
                self.put_state(id, OpenFileDescriptionState { flocked: locked, ..state });
            },
            None => {},
        }
    }

    /// Whether a virtual descriptor has an advisory lock.
    pub fn has_flock(&self, fd: i32) -> (r: bool)
        requires
            self.well_formed(),
        ensures
            r == (self@.handles.contains_key(fd) && self@.state_of(fd).flocked),
    {
        match self.state(fd) {
            Some((_, _, state)) => state.flocked,
            None => false,
        }
    }

    /// Tracks a kernel descriptor as opened for writing on a workspace path.
    pub fn track_write(&mut self, fd: i32, path: Vec<u8>)
        requires
            old(self).well_formed(),
        ensures
            final(self)@ == tracking(old(self)@, fd, path@),
            final(self).well_formed(),
            final(self)@ == (Table {
                write_fds: old(self)@.write_fds.insert(fd, path@),
                ..old(self)@
            }),
    {
        self.write_fds.insert(fd, path);
        assert(self@.write_fds =~= old(self)@.write_fds.insert(fd, path@));
    }

    /// Ends the tracking of a written descriptor and returns its path.
    pub fn close_write(&mut self, fd: i32) -> (r: Option<Vec<u8>>)
        requires
            old(self).well_formed(),
        ensures
            (final(self)@, opt_seq(r)) == untracking(old(self)@, fd),
            final(self).well_formed(),
            opt_seq(r) == old(self)@.write_fds.get(fd),
            final(self)@ == (Table { write_fds: old(self)@.write_fds.remove(fd), ..old(self)@ }),
    {
        let r = self.write_fds.remove(&fd);
        assert(self@.write_fds =~= old(self)@.write_fds.remove(fd));
        r
    }

    /// Whether a kernel descriptor is tracked as written.
    pub fn is_write_tracked(&self, fd: i32) -> (r: bool)
        ensures
            r == self@.write_fds.contains_key(fd),
    {
        self.write_fds.contains_key(&fd)
    }

    /// Tracks an atomic write: the kernel descriptor writes the temporary.
    pub fn track_atomic_write(&mut self, fd: i32, target_path: Vec<u8>, temp_path: Vec<u8>)
        requires
            old(self).well_formed(),
        ensures
            final(self)@ == tracking_atomic(old(self)@, fd, target_path@, temp_path@),
            final(self).well_formed(),
            final(self)@ == (Table {
                atomic_writes: old(self)@.atomic_writes.insert(
                    fd,
                    (target_path@, temp_path@),
                ),
                ..old(self)@
            }),
    {
        self.atomic_writes.insert(fd, AtomicWriteEntry { target_path, temp_path });
        assert(self@.atomic_writes =~= old(self)@.atomic_writes.insert(
            fd,
            (target_path@, temp_path@),
        ));
    }

    /// Ends the tracking of an atomic write and returns it.
    pub fn close_atomic_write(&mut self, fd: i32) -> (r: Option<AtomicWriteEntry>)
        requires
            old(self).well_formed(),
        ensures
            (
                final(self)@,
                match r {
                    Some(e) => Some((e.target_path@, e.temp_path@)),
                    None => None,
                },
            ) == untracking_atomic(old(self)@, fd),
            final(self).well_formed(),
            match r {
                Some(e) => old(self)@.atomic_writes.get(fd) == Some((e.target_path@, e.temp_path@)),
                None => old(self)@.atomic_writes.get(fd) is None,
            },
            final(self)@ == (Table {
                atomic_writes: old(self)@.atomic_writes.remove(fd),
                ..old(self)@
            }),
    {
        let r = self.atomic_writes.remove(&fd);
        assert(self@.atomic_writes =~= old(self)@.atomic_writes.remove(fd));
        r
    }

    /// Whether a kernel descriptor is tracked as an atomic write.
    pub fn is_atomic_write(&self, fd: i32) -> (r: bool)
        ensures
            r == self@.atomic_writes.contains_key(fd),
    {
        self.atomic_writes.contains_key(&fd)
    }

    /// Records an anonymous mapping made for a virtual file.
    pub fn track_mmap(&mut self, addr: usize, len: usize)
        requires
            old(self).well_formed(),
        ensures
            final(self)@ == mapping_added(old(self)@, addr, len),
            final(self).well_formed(),
            final(self)@ == (Table {
                mmap_regions: old(self)@.mmap_regions.push(MmapRegion { addr, len }),
                ..old(self)@
            }),
    {
        self.mmap_regions.push(MmapRegion { addr, len });
    }

    /// The position of the first mapping at `addr`.
    fn find_mmap(&self, addr: usize) -> (r: Option<usize>)
        ensures
            match r {
                Some(i) => first_mapping(self@.mmap_regions, addr, i as int),
                None => !mapped(self@.mmap_regions, addr),
            },
    {
        let mut i: usize = 0;
        while i < self.mmap_regions.len()
            invariant
                0 <= i <= self.mmap_regions@.len(),
                forall|j: int| 0 <= j < i ==> (#[trigger] self.mmap_regions@[j]).addr != addr,
            decreases self.mmap_regions@.len() - i,
        {
            if self.mmap_regions[i].addr == addr {
                return Some(i);
            }
            i = i + 1;
        }
        None
    }

    /// Ends the tracking of the mapping at `addr` and returns it.
    pub fn untrack_mmap(&mut self, addr: usize) -> (r: Option<MmapRegion>)
        requires
            old(self).well_formed(),
        ensures
            unmapping(old(self)@, final(self)@, addr, r),
            final(self).well_formed(),
            match r {
                Some(region) => exists|i: int|
                    {
                        &&& #[trigger] first_mapping(old(self)@.mmap_regions, addr, i)
                        &&& region == old(self)@.mmap_regions[i]
                        &&& final(self)@ == (Table {
                            mmap_regions: old(self)@.mmap_regions.update(
                                i,
                                old(self)@.mmap_regions.last(),
                            ).drop_last(),
                            ..old(self)@
                        })
                    },
                None => !mapped(old(self)@.mmap_regions, addr) && final(self)@ == old(self)@,
            },
    {
        match self.find_mmap(addr) {
            Some(i) => {
                let region = self.mmap_regions.swap_remove(i);
                assert(first_mapping(old(self)@.mmap_regions, addr, i as int));
                Some(region)
            },
            None => None,
        }
    }

    /// Whether a mapping at `addr` is tracked.
    pub fn is_virtual_mmap(&self, addr: usize) -> (r: bool)
        ensures
            r == mapped(self@.mmap_regions, addr),
    {
        self.find_mmap(addr).is_some()
    }

    /// Number of open virtual descriptors.
    pub fn len(&self) -> (r: usize)
        ensures
            r == self@.handles.len(),
    {
        assert(self@.handles.dom() =~= self.map@.dom());
        self.map.len()
    }

    /// Number of tracked mappings.
    pub fn mmap_count(&self) -> (r: usize)
        ensures
            r == self@.mmap_regions.len(),
    {
        self.mmap_regions.len()
    }
}

/// Whether a mapping at `addr` is tracked.
pub open spec fn mapped(regions: Seq<MmapRegion>, addr: usize) -> bool {
    exists|i: int| 0 <= i < regions.len() && (#[trigger] regions[i]).addr == addr
}

/// Whether the first mapping at `addr` is the one at `i`.
pub open spec fn first_mapping(regions: Seq<MmapRegion>, addr: usize, i: int) -> bool {
    &&& 0 <= i < regions.len()
    &&& regions[i].addr == addr
    &&& forall|j: int| 0 <= j < i ==> (#[trigger] regions[j]).addr != addr
}

// ── Laws ────────────────────────────────────────────────────────────────

/// Descriptors that share a description see one state: what is written through
/// one is read through the other, and nothing else changes.
pub proof fn law_duplicates_share_one_state(
    table: Table,
    one: i32,
    other: i32,
    third: i32,
    state: OpenFileDescriptionState,
)
    requires
        table.handles[one].open_file == table.handles[other].open_file,
    ensures
        table.with_state(table.handles[one].open_file, state).state_of(one) == state,
        table.with_state(table.handles[one].open_file, state).state_of(other) == state,
        table.handles[third].open_file != table.handles[one].open_file ==> table.with_state(
            table.handles[one].open_file,
            state,
        ).state_of(third) == table.state_of(third),
{
}

/// A duplicate has the state of its source, and is told apart from it only by
/// its number and its own flags.
pub proof fn law_a_duplicate_is_its_source(
    table: Table,
    src: i32,
    dst: i32,
    kernel_backed: bool,
    descriptor_flags: i32,
)
    requires
        table.well_formed(),
        table.handles.contains_key(src),
        table.handles.contains_key(dst) || !table.full(),
    ensures
        ({
            let now = duplicating_into(table, src, dst, kernel_backed, descriptor_flags);
            &&& now.handles.contains_key(src)
            &&& now.handles[dst] == (Handle {
                kernel_backed,
                descriptor_flags,
                ..table.handles[src]
            })
            &&& now.state_of(dst) == table.state_of(src)
            &&& src != dst ==> now.handles[src] == table.handles[src] && now.state_of(src)
                == table.state_of(src)
        }),
{
    if src != dst && table.handles.contains_key(dst) {
        lemma_closing(table, dst);
        law_closing_one_alias_keeps_the_rest(table, dst, src);
    }
}

/// Closing one descriptor leaves every other with its handle and its state,
/// the lock included, also where both shared a description.
pub proof fn law_closing_one_alias_keeps_the_rest(table: Table, closed: i32, kept: i32)
    requires
        table.well_formed(),
        table.handles.contains_key(closed),
        table.handles.contains_key(kept),
        closed != kept,
    ensures
        closing(table, closed).handles.contains_key(kept),
        closing(table, closed).handles[kept] == table.handles[kept],
        closing(table, closed).open_files.contains_key(table.handles[kept].open_file),
        closing(table, closed).state_of(kept) == table.state_of(kept),
{
    lemma_closing(table, closed);
    assert(closing(table, closed).handles.contains_key(kept));
}

/// A description that is known never becomes that of a file opened later, so a
/// request still in flight cannot move the cursor of a reused descriptor.
pub proof fn law_a_late_write_reaches_no_newer_file(
    table: Table,
    id: u64,
    fd: i32,
    handle: Handle,
    late: OpenFileDescriptionState,
)
    requires
        table.well_formed(),
        table.has_room(),
        table.next_free() == Some(fd as int),
        id < table.next_open,
    ensures
        opening(table, fd, handle).handles[fd].open_file != id,
        opening(table, fd, handle).state_of(fd) == fresh_state(),
        opening(table, fd, handle).with_state(id, late).state_of(fd) == fresh_state(),
{
}

/// Every descriptor that is given out lies in the window above the base, and
/// was free.
pub proof fn law_virtual_descriptors_lie_above_the_base(table: Table)
    requires
        table.well_formed(),
        !table.full(),
    ensures
        table.next_free() matches Some(fd) && table.base <= fd < table.base + MAX_VFDS
            && !table.handles.contains_key(fd as i32),
{
    lemma_room(table.handles.dom(), table.base, table.next_fd);
    lemma_free_slot(table.handles.dom(), table.base, table.next_fd, MAX_VFDS as nat);
}

/// Closing a fresh duplicate undoes the duplication.
pub proof fn law_closing_undoes_duplication(table: Table, fd: i32, handle: Handle)
    requires
        table.well_formed(),
        !table.handles.contains_key(fd),
        !table.full(),
        table.open_files.contains_key(handle.open_file),
    ensures
        closing(adding(table, fd, handle), fd) == table,
{
    lemma_adding(table, fd, handle);
    let open = table.open_files[handle.open_file];
    let now = closing(adding(table, fd, handle), fd);
    assert(now.handles =~= table.handles);
    assert(open.descriptors + open.pins > 0);
    assert(now.open_files =~= table.open_files);
    assert(now =~= table);
}

/// Closing a file that was just opened gives every slot back as it was; only
/// the scan position has moved on.
pub proof fn law_closing_undoes_opening(table: Table, fd: i32, handle: Handle)
    requires
        table.well_formed(),
        table.has_room(),
        table.next_free() == Some(fd as int),
    ensures
        closing(opening(table, fd, handle), fd).handles == table.handles,
        closing(opening(table, fd, handle), fd).open_files == table.open_files,
        closing(opening(table, fd, handle), fd).released == table.released,
{
    lemma_opening(table, fd, handle);
    let now = closing(opening(table, fd, handle), fd);
    assert(now.handles =~= table.handles);
    assert(!table.open_files.contains_key(table.next_open as u64));
    assert(now.open_files =~= table.open_files);
    assert(now.released =~= table.released);
}

/// A seek arrives where it says: at the offset from the start, from where the
/// description stands or from the end of the file, as long as that is no
/// negative offset and fits a signed one; any other whence is invalid.
pub proof fn law_a_seek_arrives_where_it_says(
    state: OpenFileDescriptionState,
    size: u64,
    offset: i64,
    whence: i32,
)
    requires
        state.offset <= i64::MAX,
        size <= i64::MAX,
    ensures
        ({
            let from: int = if whence == 1 {
                state.offset as int
            } else if whence == 2 {
                size as int
            } else {
                0
            };
            match seek_target(state, size, offset, whence) {
                Ok(target) => 0 <= whence <= 2 && target == from + offset,
                Err(e) => {
                    ||| !(0 <= whence <= 2) && e == SeekError::Invalid
                    ||| 0 <= whence <= 2 && from + offset < 0 && e == SeekError::Invalid
                    ||| 0 <= whence <= 2 && from + offset > i64::MAX && e == SeekError::Overflow
                },
            }
        }),
{
}

/// The kernel descriptor behind a description is handed back when the last
/// descriptor that shares it is closed and no request holds on to it, and not
/// before; a request that lets go of a description without descriptors hands it
/// back then. Nothing else is ever handed back.
pub proof fn law_backing_is_released_with_its_last_holder(table: Table, fd: i32, id: u64)
    requires
        table.well_formed(),
        table.handles.contains_key(fd),
    ensures
        ({
            let open = table.open_files[table.handles[fd].open_file];
            let after = closing(table, fd);
            &&& after.released == if sharers(table.handles, table.handles[fd].open_file).len() == 1
                && open.pins == 0 && open.state.native_backing_fd is Some {
                table.released.push(open.state.native_backing_fd->0)
            } else {
                table.released
            }
            &&& after.open_files.contains_key(table.handles[fd].open_file) <==> (sharers(
                table.handles,
                table.handles[fd].open_file,
            ).len() > 1 || open.pins > 0)
        }),
        table.open_files.contains_key(id) && table.open_files[id].pins > 0 ==> {
            let open = table.open_files[id];
            let after = releasing(table, id);
            &&& after.handles == table.handles
            &&& after.released == if sharers(table.handles, id).len() == 0 && open.pins == 1
                && open.state.native_backing_fd is Some {
                table.released.push(open.state.native_backing_fd->0)
            } else {
                table.released
            }
            &&& after.open_files.contains_key(id) <==> (sharers(table.handles, id).len() > 0
                || open.pins > 1)
            &&& after.open_files.contains_key(id) ==> after.open_files[id].pins == open.pins - 1
                && after.open_files[id].state == open.state
        },
{
    lemma_closing(table, fd);
    let open = table.open_files[table.handles[fd].open_file];
    if open.state.native_backing_fd is Some {
        assert(table.released + seq![open.state.native_backing_fd->0] =~= table.released.push(
            open.state.native_backing_fd->0,
        ));
    } else {
        assert(table.released + Seq::<i32>::empty() =~= table.released);
    }
    let other = table.open_files[id];
    if other.state.native_backing_fd is Some {
        assert(table.released + seq![other.state.native_backing_fd->0] =~= table.released.push(
            other.state.native_backing_fd->0,
        ));
    }
}

/// Virtual descriptors start a thousand above the soft limit, but never below
/// 10,000; at 100,000 where there is no limit or it is not known.
pub proof fn law_the_base_leaves_room_for_the_process(limit: u64)
    ensures
        base_for(None) == 100_000,
        base_for(Some(u64::MAX)) == 100_000,
        limit < 9_000 ==> base_for(Some(limit)) == 10_000,
        9_000 <= limit <= i32::MAX - 1000 ==> base_for(Some(limit)) == limit + 1000,
        base_for(Some(limit)) >= 10_000,
{
}

/// Descriptors are given out in turn: the next one is the first free slot from
/// the scan position on, with every slot passed over taken, and the scan goes on
/// behind it, from the base again at the end of the window.
pub proof fn law_descriptors_are_given_out_in_turn(table: Table, handle: Handle, passed: int)
    requires
        table.well_formed(),
        table.has_room(),
    ensures
        table.next_free() is Some,
        ({
            let fd = table.next_free()->0;
            let after = opening(table, fd as i32, handle);
            &&& table.next_fd <= passed < fd ==> table.handles.contains_key(passed as i32)
            &&& fd < table.next_fd && (table.base <= passed < fd || table.next_fd <= passed
                < table.base + 4096) ==> table.handles.contains_key(passed as i32)
            &&& after.next_fd == if fd == table.base + 4095 {
                table.base
            } else {
                fd + 1
            }
        }),
{
    law_virtual_descriptors_lie_above_the_base(table);
    lemma_passed_over(table.handles.dom(), table.base, table.next_fd, MAX_VFDS as nat, passed);
}

proof fn lemma_passed_over(taken: Set<i32>, base: int, at: int, n: nat, passed: int)
    requires
        0 <= base,
        base + MAX_VFDS <= i32::MAX,
        base <= at < base + MAX_VFDS,
        n <= MAX_VFDS,
        free_slot(taken, base, at, n) is Some,
    ensures
        ({
            let fd = free_slot(taken, base, at, n)->0;
            &&& base <= fd < base + MAX_VFDS
            &&& fd >= at ==> fd - at < n
            &&& fd < at ==> fd + MAX_VFDS - at < n
            &&& at <= passed < fd ==> taken.contains(passed as i32)
            &&& fd < at && (base <= passed < fd || at <= passed < base + MAX_VFDS)
                ==> taken.contains(passed as i32)
        }),
    decreases n,
{
    if taken.contains(at as i32) {
        lemma_passed_over(taken, base, slot_after(base, at), (n - 1) as nat, passed);
    }
}

/// The inode of an entry is that of its object: one object has one inode under
/// every path. An entry without an object has the inode of its path.
pub proof fn law_an_object_has_one_inode(
    path: Seq<u8>,
    other: Seq<u8>,
    stat: VirtualStat,
    moved: VirtualStat,
)
    ensures
        stat.object_id is Some && moved.object_id == stat.object_id ==> inode_of(path, Some(stat))
            == inode_of(other, Some(moved)) && inode_of(path, Some(stat)) == hashing::byte_hash(
            stat.object_id->0@,
        ),
        stat.object_id is None ==> inode_of(path, Some(stat)) == hashing::byte_hash(path),
        inode_of(path, None) == hashing::byte_hash(path),
{
}

/// A new table holds nothing, and gives its descriptors out from the base on.
pub proof fn law_a_new_table_is_empty(base: i32, handle: Handle)
    requires
        0 <= base,
        base + MAX_VFDS <= i32::MAX,
    ensures
        empty_table(base).well_formed(),
        empty_table(base).handles.len() == 0,
        empty_table(base).next_free() == Some(base as int),
        empty_table(base).released.len() == 0 && empty_table(base).mmap_regions.len() == 0,
        empty_table(base).write_fds.dom().len() == 0,
        empty_table(base).atomic_writes.dom().len() == 0,
{
}

/// The path that is tracked for a kernel descriptor is handed back for that
/// descriptor, once; others keep theirs. So is an atomic write, with its target
/// and its temporary each in its place.
pub proof fn law_a_tracked_write_is_handed_back_once(
    table: Table,
    fd: i32,
    path: Seq<u8>,
    temp: Seq<u8>,
    other: i32,
)
    requires
        other != fd,
    ensures
        ({
            let tracked_path = tracking(table, fd, path);
            let (after, handed) = untracking(tracked_path, fd);
            &&& handed == Some(path)
            &&& untracking(after, fd).1 is None
            &&& after.write_fds.get(other) == table.write_fds.get(other)
            &&& after.handles == table.handles && after.atomic_writes == table.atomic_writes
        }),
        ({
            let tracked_pair = tracking_atomic(table, fd, path, temp);
            let (after, handed) = untracking_atomic(tracked_pair, fd);
            &&& handed == Some((path, temp))
            &&& untracking_atomic(after, fd).1 is None
            &&& after.atomic_writes.get(other) == table.atomic_writes.get(other)
            &&& after.handles == table.handles && after.write_fds == table.write_fds
        }),
{
}

/// A mapping that was recorded is handed back by its address, with its length,
/// and is then forgotten; what was recorded for other addresses stays.
pub proof fn law_a_mapping_is_handed_back_by_its_address(
    table: Table,
    addr: usize,
    len: usize,
    after: Table,
    handed: Option<MmapRegion>,
)
    requires
        !mapped(table.mmap_regions, addr),
        unmapping(mapping_added(table, addr, len), after, addr, handed),
    ensures
        handed == Some(MmapRegion { addr, len }),
        after.mmap_regions == table.mmap_regions,
        !mapped(after.mmap_regions, addr),
        after.handles == table.handles,
{
    let regions = table.mmap_regions;
    let all = regions.push(MmapRegion { addr, len });
    assert(all[regions.len() as int].addr == addr);
    assert(mapped(all, addr));
    let i = choose|i: int|
        {
            &&& #[trigger] first_mapping(all, addr, i)
            &&& handed == Some(all[i])
            &&& after.mmap_regions == all.update(i, all.last()).drop_last()
            &&& after.handles == table.handles
        };
    if i < regions.len() {
        assert(regions[i].addr == addr);
    }
    assert(i == regions.len());
    assert(all.update(i, all.last()).drop_last() =~= regions);
}

/// An advance moves the shared offset on by what was read, and stops at the
/// greatest number; it moves nothing else, and nothing for a descriptor that is
/// not in the table.
pub proof fn law_an_advance_moves_the_offset_on(table: Table, fd: i32, n: u64, other: i32)
    requires
        table.handles.contains_key(fd),
        table.handles.contains_key(other),
        table.open_files.contains_key(table.handles[fd].open_file),
    ensures
        ({
            let (after, now) = advancing(table, fd, n);
            &&& table.state_of(fd).offset + n <= u64::MAX ==> now == Some(
                (table.state_of(fd).offset + n) as u64,
            )
            &&& table.state_of(fd).offset + n > u64::MAX ==> now == Some(u64::MAX)
            &&& now == Some(after.state_of(fd).offset)
            &&& after.state_of(fd).dir_offset == table.state_of(fd).dir_offset
            &&& after.state_of(fd).flocked == table.state_of(fd).flocked
            &&& after.handles == table.handles
            &&& table.handles[other].open_file != table.handles[fd].open_file ==> after.state_of(
                other,
            ) == table.state_of(other)
        }),
        forall|absent: i32|
            !table.handles.contains_key(absent) ==> #[trigger] advancing(table, absent, n) == (
                table,
                None::<u64>,
            ),
{
}

/// Letting go of a snapshot undoes taking it.
pub proof fn law_letting_go_undoes_a_snapshot(table: Table, fd: i32)
    requires
        table.well_formed(),
        table.handles.contains_key(fd),
        table.open_files[table.handles[fd].open_file].pins < u64::MAX,
    ensures
        releasing(pinning(table, fd), table.handles[fd].open_file) == table,
{
    let id = table.handles[fd].open_file;
    lemma_closing(table, fd);
    let open = table.open_files[id];
    assert(releasing(pinning(table, fd), id).open_files =~= table.open_files);
}

/// The flags of a descriptor are its own: setting them changes that descriptor
/// alone, and nothing of its open file.
pub proof fn law_descriptor_flags_are_its_own(table: Table, fd: i32, flags: i32, other: i32)
    requires
        table.handles.contains_key(fd),
        other != fd,
    ensures
        flagged(table, fd, flags).handles[fd].descriptor_flags == flags,
        flagged(table, fd, flags).handles[fd].status_flags == table.handles[fd].status_flags,
        flagged(table, fd, flags).handles[fd].open_file == table.handles[fd].open_file,
        flagged(table, fd, flags).handles[other] == table.handles[other],
        flagged(table, fd, flags).open_files == table.open_files,
{
}

/// Kernel descriptors whose descriptions are gone are handed over once.
pub proof fn law_released_descriptors_are_handed_over_once(table: Table)
    ensures
        handing_over(table).1 == table.released,
        handing_over(handing_over(table).0).1.len() == 0,
        handing_over(table).0.handles == table.handles,
        handing_over(table).0.open_files == table.open_files,
{
}

} // verus!

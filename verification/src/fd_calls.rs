//! Calls on virtual descriptors: reading, seeking, duplicating, locking,
//! listing, mapping and closing.
//!
//! Each call decides on the table and says what else is to be done. A
//! descriptor that is not in the table belongs to the kernel.

use vstd::prelude::*;

use crate::bytes::{sub_vec, to_vec};
use crate::dirents;
use crate::dirents::{pack_getdents64, pack_getdirentries, Layout};
use crate::fd_table;
use crate::fd_table::{
    AtomicWriteEntry, FdTable, OpenFileDescriptionState, VirtualFileHandle, SMALL_FILE_THRESHOLD,
};
use crate::open_call;
use crate::statcache;
use crate::statfill::{stat_record, StatRecord};
use crate::statfill;
use crate::sys::{EBADF, EINVAL, EIO, FD_CLOEXEC, LOCK_NB, LOCK_UN, MAP_SHARED, O_CLOEXEC};
use crate::types::VirtualStat;
use crate::vfs_path;
use crate::vfs_path::{workspace_graph_key, VfsPath};

verus! {

// ── read and pread ──────────────────────────────────────────────────────

/// A range that has to be fetched from the graph.
#[derive(Debug)]
pub struct RangeRequest {
    /// The file.
    pub path: Vec<u8>,
    /// Where the range begins.
    pub offset: u64,
    /// How many bytes are wanted.
    pub len: usize,
    /// The size of the whole file.
    pub size: u64,
}

/// How a read proceeds.
#[derive(Debug)]
pub enum ReadPlan {
    /// The kernel answers.
    Passthrough,
    /// It fails with this errno.
    Fail(i32),
    /// These are the bytes.
    Bytes(Vec<u8>),
    /// This range has to be fetched.
    Fetch(RangeRequest),
}

/// How a read proceeds, over byte sequences.
pub enum Plan {
    Passthrough,
    Fail(i32),
    Bytes(Seq<u8>),
    Fetch { path: Seq<u8>, offset: u64, len: int, size: u64 },
}

impl View for ReadPlan {
    type V = Plan;

    open spec fn view(&self) -> Plan {
        match self {
            ReadPlan::Passthrough => Plan::Passthrough,
            ReadPlan::Fail(e) => Plan::Fail(*e),
            ReadPlan::Bytes(b) => Plan::Bytes(b@),
            ReadPlan::Fetch(q) => Plan::Fetch {
                path: q.path@,
                offset: q.offset,
                len: q.len as int,
                size: q.size,
            },
        }
    }
}

/// The smaller of two numbers.
pub open spec fn least(a: int, b: int) -> int {
    if a <= b {
        a
    } else {
        b
    }
}

/// How reading `count` bytes at `offset` through a handle proceeds: nothing at
/// or past the end, cached bytes where they reach, else a fetch that never goes
/// past the end.
pub open spec fn reading_at(handle: fd_table::Handle, offset: u64, count: int) -> Plan {
    let wanted = least(count, handle.size - offset);
    if !handle.io_permitted {
        Plan::Fail(EBADF)
    } else if offset >= handle.size || count == 0 {
        Plan::Bytes(Seq::empty())
    } else {
        match handle.cached_content {
            Some(content) => if offset < content.len() {
                Plan::Bytes(
                    content.subrange(
                        offset as int,
                        least(offset + wanted, content.len() as int),
                    ),
                )
            } else {
                Plan::Fetch { path: handle.path, offset, len: wanted, size: handle.size }
            },
            None => Plan::Fetch { path: handle.path, offset, len: wanted, size: handle.size },
        }
    }
}

/// Plans a read of `count` bytes at `offset`.
fn plan_read(handle: &VirtualFileHandle, offset: u64, count: usize) -> (r: ReadPlan)
    ensures
        r@ == reading_at(handle@, offset, count as int),
{
    if !handle.io_permitted {
        return ReadPlan::Fail(EBADF);
    }
    if offset >= handle.size || count == 0 {
        let none: Vec<u8> = Vec::new();
        assert(none@ =~= Seq::<u8>::empty());
        return ReadPlan::Bytes(none);
    }
    let left: u64 = handle.size - offset;
    let wanted: usize = if count as u64 <= left {
        count
    } else {
        left as usize
    };
    match &handle.cached_content {
        Some(content) => {
            if offset < content.len() as u64 {
                let start: usize = offset as usize;
                let end: usize = if wanted <= content.len() - start {
                    start + wanted
                } else {
                    content.len()
                };
                return ReadPlan::Bytes(sub_vec(content.as_slice(), start, end));
            }
        },
        None => {},
    }
    ReadPlan::Fetch(
        RangeRequest {
            path: to_vec(handle.path.as_slice()),
            offset,
            len: wanted,
            size: handle.size,
        },
    )
}

/// How a `read` starts.
pub enum ReadStart {
    /// It is decided.
    Done(ReadPlan),
    /// A read of the same open file is in flight: nothing was done, and the
    /// call is to be made again once that read is over.
    Busy,
    /// The range is to be fetched; the snapshot keeps the description that the
    /// read will advance.
    Fetch { request: RangeRequest, snapshot: VirtualFileHandle },
}

/// How a `read` starts, over byte sequences.
pub enum Started {
    Done(Plan),
    Busy,
    Fetch { path: Seq<u8>, offset: u64, len: int, size: u64 },
}

impl View for ReadStart {
    type V = Started;

    open spec fn view(&self) -> Started {
        match self {
            ReadStart::Done(plan) => Started::Done(plan@),
            ReadStart::Busy => Started::Busy,
            ReadStart::Fetch { request, .. } => Started::Fetch {
                path: request.path@,
                offset: request.offset,
                len: request.len as int,
                size: request.size,
            },
        }
    }
}

/// Whether a descriptor has to wait for a read of its open file.
pub open spec fn waits(table: fd_table::Table, fd: i32) -> bool {
    table.handles[fd].io_permitted && table.open_files[table.handles[fd].open_file].reading
}

/// The table after a `read` of `count` bytes was started, and how it starts.
pub open spec fn starting_read(table: fd_table::Table, fd: i32, count: int) -> (
    fd_table::Table,
    Started,
) {
    if !table.handles.contains_key(fd) {
        (table, Started::Done(Plan::Passthrough))
    } else if waits(table, fd) {
        (table, Started::Busy)
    } else {
        let handle = table.handles[fd];
        let state = table.state_of(fd);
        match reading_at(handle, state.offset, count) {
            Plan::Bytes(bytes) => (
                table.with_state(
                    handle.open_file,
                    OpenFileDescriptionState {
                        offset: least(state.offset + bytes.len(), u64::MAX as int) as u64,
                        ..state
                    },
                ),
                Started::Done(Plan::Bytes(bytes)),
            ),
            Plan::Fetch { path, offset, len, size } => if table.open_files[handle.open_file].pins
                < u64::MAX {
                (
                    fd_table::fetching(table, handle.open_file),
                    Started::Fetch { path, offset, len, size },
                )
            } else {
                (table, Started::Done(Plan::Fail(EIO)))
            },
            plan => (table, Started::Done(plan)),
        }
    }
}

/// A `read` of `count` bytes.
///
/// Bytes that are at hand advance the shared offset at once. A fetch advances
/// it when it completes, through the description that was read, whatever has
/// become of the descriptor number; until then no other read or seek through
/// any duplicate starts.
pub fn begin_read(table: &mut FdTable, fd: i32, count: usize) -> (r: ReadStart)
    requires
        old(table).well_formed(),
    ensures
        final(table).well_formed(),
        (final(table)@, r@) == starting_read(old(table)@, fd, count as int),
        r matches ReadStart::Fetch { snapshot, .. } ==> snapshot@ == old(table)@.handles[fd],
{
    let offset: u64 = match table.offset(fd) {
        Some(offset) => offset,
        None => {
            return ReadStart::Done(ReadPlan::Passthrough);
        },
    };
    let busy = table.is_reading(fd);
    let plan = match table.get(fd) {
        Some(handle) => {
            if busy && handle.io_permitted {
                return ReadStart::Busy;
            }
            plan_read(handle, offset, count)
        },
        None => {
            return ReadStart::Done(ReadPlan::Passthrough);
        },
    };
    match plan {
        ReadPlan::Bytes(bytes) => {
            table.advance_offset(fd, bytes.len() as u64);
            ReadStart::Done(ReadPlan::Bytes(bytes))
        },
        ReadPlan::Fetch(request) => match table.begin_fetch(fd) {
            Some(snapshot) => ReadStart::Fetch { request, snapshot },
            None => ReadStart::Done(ReadPlan::Fail(EIO)),
        },
        other => ReadStart::Done(other),
    }
}

/// The bytes of a fetched range: no more than were asked for, or an I/O error.
pub open spec fn fetched(len: int, data: Option<Seq<u8>>) -> Result<Seq<u8>, i32> {
    match data {
        Some(d) => Ok(d.subrange(0, least(len, d.len() as int))),
        None => Err(EIO),
    }
}

/// A result over bytes.
pub open spec fn bytes_result(r: Result<Vec<u8>, i32>) -> Result<Seq<u8>, i32> {
    match r {
        Ok(b) => Ok(b@),
        Err(e) => Err(e),
    }
}

/// The bytes of a fetched range.
pub fn finish_pread(len: usize, data: Option<Vec<u8>>) -> (r: Result<Vec<u8>, i32>)
    ensures
        bytes_result(r) == fetched(len as int, fd_table::opt_seq(data)),
{
    match data {
        None => Err(EIO),
        Some(d) => {
            let n: usize = if len <= d.len() {
                len
            } else {
                d.len()
            };
            Ok(sub_vec(d.as_slice(), 0, n))
        },
    }
}

/// The table after a fetch ended: the description that was read has moved on by
/// what came, and is let go.
pub open spec fn read_completed(table: fd_table::Table, id: u64, n: int) -> fd_table::Table {
    if table.open_files.contains_key(id) {
        let state = table.open_files[id].state;
        fd_table::fetch_ended(
            table.with_state(
                id,
                OpenFileDescriptionState {
                    offset: least(state.offset + n, u64::MAX as int) as u64,
                    ..state
                },
            ),
            id,
        )
    } else {
        table
    }
}

/// Completes a `read` with the fetched range.
pub fn finish_read(
    table: &mut FdTable,
    snapshot: VirtualFileHandle,
    len: usize,
    data: Option<Vec<u8>>,
) -> (r: Result<Vec<u8>, i32>)
    requires
        old(table).well_formed(),
    ensures
        final(table).well_formed(),
        bytes_result(r) == fetched(len as int, fd_table::opt_seq(data)),
        final(table)@ == match r {
            Ok(bytes) => read_completed(
                old(table)@,
                snapshot.open_file,
                bytes@.len() as int,
            ),
            Err(_) => fd_table::fetch_ended(old(table)@, snapshot.open_file),
        },
{
    let result = finish_pread(len, data);
    match &result {
        Ok(bytes) => {
            match table.open_file(&snapshot) {
                Some(state) => {
                    let offset: u64 = state.offset.saturating_add(bytes.len() as u64);
                    table.set_open_file(
                        &snapshot,
                        OpenFileDescriptionState { offset, ..state },
                    );
                },
                None => {},
            }
        },
        Err(_) => {},
    }
    table.end_fetch(snapshot);
    result
}

/// The offset that a signed one stands for: a negative one lies past every end.
pub open spec fn unsigned_offset(offset: i64) -> u64 {
    if offset < 0 {
        (offset + 0x1_0000_0000_0000_0000) as u64
    } else {
        offset as u64
    }
}

/// How a `pread` of `count` bytes proceeds.
pub open spec fn reading_somewhere(table: fd_table::Table, fd: i32, count: int, offset: i64) -> Plan {
    if table.handles.contains_key(fd) {
        reading_at(table.handles[fd], unsigned_offset(offset), count)
    } else {
        Plan::Passthrough
    }
}

/// A `pread` of `count` bytes, which moves no offset.
pub fn begin_pread(table: &FdTable, fd: i32, count: usize, offset: i64) -> (r: ReadPlan)
    ensures
        r@ == reading_somewhere(table@, fd, count as int, offset),
        r@ == if table@.handles.contains_key(fd) {
            reading_at(table@.handles[fd], unsigned_offset(offset), count as int)
        } else {
            Plan::Passthrough
        },
{
    let at: u64 = if offset < 0 {
        let above: i64 = offset - i64::MIN;
        above as u64 + 0x8000_0000_0000_0000
    } else {
        offset as u64
    };
    match table.get(fd) {
        Some(handle) => plan_read(handle, at, count),
        None => ReadPlan::Passthrough,
    }
}

// ── lseek, dup, flock ───────────────────────────────────────────────────

/// How a descriptor call ends.
#[derive(Debug, Clone, Copy, PartialEq, Eq, Structural)]
pub enum FdOutcome {
    /// The kernel answers.
    Passthrough,
    /// It returns this.
    Return(i64),
    /// It fails with this errno.
    Fail(i32),
    /// A read of the same open file is in flight: nothing was done, and the
    /// call is to be made again once that read is over.
    Busy,
}

/// The table after an `lseek`, and how it ends.
pub open spec fn seeking(table: fd_table::Table, fd: i32, offset: i64, whence: i32) -> (
    fd_table::Table,
    FdOutcome,
) {
    if fd < table.base {
        (table, FdOutcome::Passthrough)
    } else if !table.handles.contains_key(fd) {
        (table, FdOutcome::Fail(EINVAL))
    } else if !table.handles[fd].io_permitted {
        (table, FdOutcome::Fail(EBADF))
    } else if waits(table, fd) {
        (table, FdOutcome::Busy)
    } else {
        let state = table.state_of(fd);
        match fd_table::seek_target(state, table.handles[fd].size, offset, whence) {
            Ok(target) => (
                table.with_state(
                    table.handles[fd].open_file,
                    OpenFileDescriptionState { offset: target, ..state },
                ),
                FdOutcome::Return(target as i64),
            ),
            Err(_) => (table, FdOutcome::Fail(EINVAL)),
        }
    }
}

/// An `lseek`. A descriptor below the virtual ones is the kernel's.
pub fn lseek(table: &mut FdTable, fd: i32, offset: i64, whence: i32) -> (r: FdOutcome)
    requires
        old(table).well_formed(),
    ensures
        final(table).well_formed(),
        (final(table)@, r) == seeking(old(table)@, fd, offset, whence),
        r matches FdOutcome::Return(at) ==> at == final(table)@.state_of(fd).offset,
{
    if fd < table.base() {
        return FdOutcome::Passthrough;
    }
    let busy = table.is_reading(fd);
    match table.get(fd) {
        Some(handle) => {
            if !handle.io_permitted {
                return FdOutcome::Fail(EBADF);
            }
            if busy {
                return FdOutcome::Busy;
            }
        },
        None => {},
    }
    match table.seek(fd, offset, whence) {
        Ok(target) => FdOutcome::Return(target as i64),
        Err(_) => FdOutcome::Fail(EINVAL),
    }
}

/// The table after a `dup`, and how it ends.
pub open spec fn duplicating(table: fd_table::Table, fd: i32) -> (fd_table::Table, FdOutcome) {
    if table.handles.contains_key(fd) && !table.full() {
        let new_fd = table.next_free()->0 as i32;
        (
            fd_table::adding(
                fd_table::Table {
                    next_fd: fd_table::slot_after(table.base, new_fd as int),
                    ..table
                },
                new_fd,
                fd_table::Handle {
                    kernel_backed: false,
                    descriptor_flags: 0,
                    ..table.handles[fd]
                },
            ),
            FdOutcome::Return(new_fd as i64),
        )
    } else {
        (table, FdOutcome::Passthrough)
    }
}

/// A `dup`.
pub fn dup(table: &mut FdTable, fd: i32) -> (r: FdOutcome)
    requires
        old(table).well_formed(),
    ensures
        (final(table)@, r) == duplicating(old(table)@, fd),
        final(table).well_formed(),
        if old(table)@.handles.contains_key(fd) && !old(table)@.full() {
            let new_fd = old(table)@.next_free()->0 as i32;
            &&& r == FdOutcome::Return(new_fd as i64)
            &&& final(table)@ == fd_table::adding(
                (fd_table::Table {
                    next_fd: fd_table::slot_after(old(table)@.base, new_fd as int),
                    ..old(table)@
                }),
                new_fd,
                (fd_table::Handle {
                    kernel_backed: false,
                    descriptor_flags: 0,
                    ..old(table)@.handles[fd]
                }),
            )
        } else {
            r == FdOutcome::Passthrough && final(table)@ == old(table)@
        },
{
    match table.duplicate(fd) {
        Ok(new_fd) => FdOutcome::Return(new_fd as i64),
        Err(_) => FdOutcome::Passthrough,
    }
}

/// What a duplication into a virtual number does.
pub open spec fn duplicated(
    before: fd_table::Table,
    after: fd_table::Table,
    r: FdOutcome,
    oldfd: i32,
    newfd: i32,
    descriptor_flags: i32,
) -> bool {
    if newfd >= before.base && before.handles.contains_key(oldfd) && (before.handles.contains_key(
        newfd,
    ) || !before.full()) {
        &&& r == FdOutcome::Return(newfd as i64)
        &&& after == fd_table::duplicating_into(before, oldfd, newfd, false, descriptor_flags)
    } else {
        r == FdOutcome::Passthrough && after == before
    }
}

/// The table after a duplication into a virtual number, and how it ends.
pub open spec fn duplicating_onto(
    table: fd_table::Table,
    oldfd: i32,
    newfd: i32,
    descriptor_flags: i32,
) -> (fd_table::Table, FdOutcome) {
    if newfd >= table.base && table.handles.contains_key(oldfd) && (table.handles.contains_key(
        newfd,
    ) || !table.full()) {
        (
            fd_table::duplicating_into(table, oldfd, newfd, false, descriptor_flags),
            FdOutcome::Return(newfd as i64),
        )
    } else {
        (table, FdOutcome::Passthrough)
    }
}

/// The table after a `dup2`, and how it ends.
pub open spec fn duplicating_two(table: fd_table::Table, oldfd: i32, newfd: i32) -> (
    fd_table::Table,
    FdOutcome,
) {
    if oldfd < table.base {
        (table, FdOutcome::Passthrough)
    } else if oldfd == newfd {
        (table, FdOutcome::Return(newfd as i64))
    } else {
        duplicating_onto(table, oldfd, newfd, 0)
    }
}

/// The table after a `dup3`, and how it ends.
pub open spec fn duplicating_three(table: fd_table::Table, oldfd: i32, newfd: i32, flags: i32) -> (
    fd_table::Table,
    FdOutcome,
) {
    if oldfd < table.base {
        (table, FdOutcome::Passthrough)
    } else if oldfd == newfd || flags & !O_CLOEXEC != 0 {
        (table, FdOutcome::Fail(EINVAL))
    } else {
        duplicating_onto(table, oldfd, newfd, fd_table::descriptor_flags_of(flags))
    }
}

/// Duplicates into a virtual number; a number of the kernel's is the kernel's.
fn dup_into(table: &mut FdTable, oldfd: i32, newfd: i32, descriptor_flags: i32) -> (r: FdOutcome)
    requires
        old(table).well_formed(),
    ensures
        final(table).well_formed(),
        duplicated(old(table)@, final(table)@, r, oldfd, newfd, descriptor_flags),
        (final(table)@, r) == duplicating_onto(old(table)@, oldfd, newfd, descriptor_flags),
{
    if newfd < table.base() {
        return FdOutcome::Passthrough;
    }
    match table.duplicate_into(oldfd, newfd, false, descriptor_flags) {
        Ok(fd) => FdOutcome::Return(fd as i64),
        Err(_) => FdOutcome::Passthrough,
    }
}

/// A `dup2`. What the kernel numbers, the kernel duplicates.
pub fn dup2(table: &mut FdTable, oldfd: i32, newfd: i32) -> (r: FdOutcome)
    requires
        old(table).well_formed(),
    ensures
        (final(table)@, r) == duplicating_two(old(table)@, oldfd, newfd),
        final(table).well_formed(),
        if oldfd < old(table)@.base {
            r == FdOutcome::Passthrough && final(table)@ == old(table)@
        } else if oldfd == newfd {
            r == FdOutcome::Return(newfd as i64) && final(table)@ == old(table)@
        } else {
            duplicated(old(table)@, final(table)@, r, oldfd, newfd, 0)
        },
{
    if oldfd < table.base() {
        return FdOutcome::Passthrough;
    }
    if oldfd == newfd {
        return FdOutcome::Return(newfd as i64);
    }
    dup_into(table, oldfd, newfd, 0)
}

/// A `dup3`. What the kernel numbers, the kernel duplicates; of a virtual
/// descriptor only the close-on-exec flag is known.
pub fn dup3(table: &mut FdTable, oldfd: i32, newfd: i32, flags: i32) -> (r: FdOutcome)
    requires
        old(table).well_formed(),
    ensures
        (final(table)@, r) == duplicating_three(old(table)@, oldfd, newfd, flags),
        final(table).well_formed(),
        if oldfd < old(table)@.base {
            r == FdOutcome::Passthrough && final(table)@ == old(table)@
        } else if oldfd == newfd || flags & !O_CLOEXEC != 0 {
            r == FdOutcome::Fail(EINVAL) && final(table)@ == old(table)@
        } else {
            duplicated(
                old(table)@,
                final(table)@,
                r,
                oldfd,
                newfd,
                fd_table::descriptor_flags_of(flags),
            )
        },
{
    if oldfd < table.base() {
        return FdOutcome::Passthrough;
    }
    if oldfd == newfd || flags & !O_CLOEXEC != 0 {
        return FdOutcome::Fail(EINVAL);
    }
    let descriptor_flags: i32 = if flags & O_CLOEXEC != 0 {
        FD_CLOEXEC
    } else {
        0
    };
    dup_into(table, oldfd, newfd, descriptor_flags)
}

/// The table after a `flock`, and how it ends.
pub open spec fn locking(table: fd_table::Table, fd: i32, operation: i32) -> (
    fd_table::Table,
    FdOutcome,
) {
    if table.handles.contains_key(fd) {
        (
            table.with_state(
                table.handles[fd].open_file,
                OpenFileDescriptionState {
                    flocked: operation & !LOCK_NB != LOCK_UN,
                    ..table.state_of(fd)
                },
            ),
            FdOutcome::Return(0),
        )
    } else {
        (table, FdOutcome::Passthrough)
    }
}

/// A `flock`: an unlock clears the description's lock, anything else sets it.
pub fn flock(table: &mut FdTable, fd: i32, operation: i32) -> (r: FdOutcome)
    requires
        old(table).well_formed(),
    ensures
        (final(table)@, r) == locking(old(table)@, fd, operation),
        final(table).well_formed(),
        if old(table)@.handles.contains_key(fd) {
            &&& r == FdOutcome::Return(0)
            &&& final(table)@ == old(table)@.with_state(
                old(table)@.handles[fd].open_file,
                OpenFileDescriptionState {
                    flocked: operation & !LOCK_NB != LOCK_UN,
                    ..old(table)@.state_of(fd)
                },
            )
        } else {
            r == FdOutcome::Passthrough && final(table)@ == old(table)@
        },
{
    if !table.is_virtual(fd) {
        return FdOutcome::Passthrough;
    }
    let locked: bool = operation & !LOCK_NB != LOCK_UN;
    table.set_flock(fd, locked);
    FdOutcome::Return(0)
}

// ── Directory records ───────────────────────────────────────────────────

/// How a listing call ends.
#[derive(Debug)]
pub enum ListOutcome {
    /// The kernel answers.
    Passthrough,
    /// It fails with this errno.
    Fail(i32),
    /// These are the records; the position is now this.
    Records { bytes: Vec<u8>, position: usize },
}

/// How a listing call ends, over byte sequences.
pub enum Listed {
    Passthrough,
    Fail(i32),
    Records { bytes: Seq<u8>, position: int },
}

impl View for ListOutcome {
    type V = Listed;

    open spec fn view(&self) -> Listed {
        match self {
            ListOutcome::Passthrough => Listed::Passthrough,
            ListOutcome::Fail(errno) => Listed::Fail(*errno),
            ListOutcome::Records { bytes, position } => Listed::Records {
                bytes: bytes@,
                position: *position as int,
            },
        }
    }
}

/// What a listing call does to the table, and how it ends.
pub open spec fn lists(
    before: fd_table::Table,
    after: fd_table::Table,
    layout: Layout,
    fd: i32,
    buf_size: int,
    outcome: Listed,
) -> bool {
    if !before.handles.contains_key(fd) || !before.handles[fd].is_directory {
        outcome == Listed::Passthrough && after == before
    } else if !before.handles[fd].io_permitted {
        outcome == Listed::Fail(EBADF) && after == before
    } else {
        let state = before.state_of(fd);
        &&& outcome matches Listed::Records { bytes, position }
        &&& match before.handles[fd].dir_entries {
            Some(entries) => {
                &&& dirents::packs(
                    layout,
                    buf_size,
                    entries,
                    state.dir_offset as int,
                    bytes,
                    position,
                )
                &&& after == before.with_state(
                    before.handles[fd].open_file,
                    OpenFileDescriptionState { dir_offset: position as usize, ..state },
                )
                &&& position <= usize::MAX
            },
            None => bytes.len() == 0 && position == state.dir_offset && after == before,
        }
    }
}

/// Reads directory records of the given layout into `buf_size` bytes.
pub fn read_directory(table: &mut FdTable, layout: Layout, fd: i32, buf_size: usize) -> (r:
    ListOutcome)
    requires
        old(table).well_formed(),
    ensures
        lists(old(table)@, final(table)@, layout, fd, buf_size as int, r@),
        final(table).well_formed(),
        if !old(table)@.handles.contains_key(fd) || !old(table)@.handles[fd].is_directory {
            r is Passthrough && final(table)@ == old(table)@
        } else if !old(table)@.handles[fd].io_permitted {
            r == ListOutcome::Fail(EBADF) && final(table)@ == old(table)@
        } else {
            let state = old(table)@.state_of(fd);
            &&& r matches ListOutcome::Records { bytes, position }
            &&& match old(table)@.handles[fd].dir_entries {
                Some(entries) => {
                    &&& dirents::packs(
                        layout,
                        buf_size as int,
                        entries,
                        state.dir_offset as int,
                        bytes@,
                        position as int,
                    )
                    &&& final(table)@ == old(table)@.with_state(
                        old(table)@.handles[fd].open_file,
                        OpenFileDescriptionState { dir_offset: position, ..state },
                    )
                },
                None => bytes@.len() == 0 && position == state.dir_offset && final(table)@ == old(
                    table,
                )@,
            }
        },
{
    let offset: usize = match table.dir_offset(fd) {
        Some(offset) => offset,
        None => {
            return ListOutcome::Passthrough;
        },
    };
    let (bytes, position) = match table.get(fd) {
        Some(handle) => {
            if !handle.is_directory {
                return ListOutcome::Passthrough;
            }
            if !handle.io_permitted {
                return ListOutcome::Fail(EBADF);
            }
            match &handle.dir_entries {
                Some(entries) => match layout {
                    Layout::Getdents64 => pack_getdents64(buf_size, entries, offset),
                    Layout::Getdirentries => pack_getdirentries(buf_size, entries, offset),
                },
                None => {
                    return ListOutcome::Records { bytes: Vec::new(), position: offset };
                },
            }
        },
        None => {
            return ListOutcome::Passthrough;
        },
    };
    table.set_dir_offset(fd, position);
    ListOutcome::Records { bytes, position }
}

// ── fstat ───────────────────────────────────────────────────────────────

/// How an `fstat` proceeds.
#[derive(Debug)]
pub enum FstatPlan {
    /// The kernel answers.
    Passthrough,
    /// This is the answer.
    Answer(StatRecord),
    /// The graph has to be asked about this path, whose inode is given.
    Ask { path: Vec<u8>, inode: u64 },
}

/// How an `fstat` proceeds, over byte sequences.
pub enum Report {
    Passthrough,
    Answer(StatRecord),
    Ask { path: Seq<u8>, inode: u64 },
}

impl View for FstatPlan {
    type V = Report;

    open spec fn view(&self) -> Report {
        match self {
            FstatPlan::Passthrough => Report::Passthrough,
            FstatPlan::Answer(record) => Report::Answer(*record),
            FstatPlan::Ask { path, inode } => Report::Ask { path: path@, inode: *inode },
        }
    }
}

/// How an `fstat` of a descriptor proceeds.
pub open spec fn reporting(table: fd_table::Table, fd: i32) -> Report {
    if !table.handles.contains_key(fd) {
        Report::Passthrough
    } else {
        let handle = table.handles[fd];
        match handle.opened_stat {
            Some(stat) => Report::Answer(statfill::record_of(stat, handle.opened_inode)),
            None => Report::Ask { path: handle.path, inode: handle.opened_inode },
        }
    }
}

/// How an `fstat` that asked the graph ends.
pub open spec fn reported(inode: u64, answer: Option<VirtualStat>) -> Result<StatRecord, i32> {
    match answer {
        Some(stat) => Ok(statfill::record_of(stat, inode)),
        None => Err(EBADF),
    }
}

/// An `fstat` answers from what was captured at open: the descriptor keeps its
/// identity when the path is unlinked, renamed or replaced. Only a descriptor
/// without a capture asks the graph.
pub fn begin_fstat(table: &FdTable, fd: i32) -> (r: FstatPlan)
    ensures
        r@ == reporting(table@, fd),
        if !table@.handles.contains_key(fd) {
            r is Passthrough
        } else {
            let handle = table@.handles[fd];
            match handle.opened_stat {
                Some(stat) => r == FstatPlan::Answer(
                    statfill::record_of(stat, handle.opened_inode),
                ),
                None => r matches FstatPlan::Ask { path, inode } && path@ == handle.path && inode
                    == handle.opened_inode,
            }
        },
{
    match table.get(fd) {
        None => FstatPlan::Passthrough,
        Some(handle) => match &handle.opened_stat {
            Some(stat) => FstatPlan::Answer(stat_record(stat, handle.opened_inode)),
            None => FstatPlan::Ask {
                path: to_vec(handle.path.as_slice()),
                inode: handle.opened_inode,
            },
        },
    }
}

/// Completes an `fstat` that asked the graph: a file that is gone makes the
/// descriptor bad.
pub fn finish_fstat(inode: u64, answer: Option<VirtualStat>) -> (r: Result<StatRecord, i32>)
    ensures
        r == reported(inode, answer),
        match answer {
            Some(stat) => r == Ok::<StatRecord, i32>(statfill::record_of(stat, inode)),
            None => r == Err::<StatRecord, i32>(EBADF),
        },
{
    match answer {
        Some(stat) => Ok(stat_record(&stat, inode)),
        None => Err(EBADF),
    }
}

// ── mmap ────────────────────────────────────────────────────────────────

/// How an `mmap` proceeds.
#[derive(Debug)]
pub enum MmapPlan {
    /// The kernel answers.
    Passthrough,
    /// It fails with this errno.
    Fail(i32),
    /// This is the content of the file.
    Content(Vec<u8>),
    /// The content of this path has to be fetched.
    Fetch(Vec<u8>),
}

/// How an `mmap` proceeds, over byte sequences.
pub enum Mapping {
    Passthrough,
    Fail(i32),
    Content(Seq<u8>),
    Fetch(Seq<u8>),
}

impl View for MmapPlan {
    type V = Mapping;

    open spec fn view(&self) -> Mapping {
        match self {
            MmapPlan::Passthrough => Mapping::Passthrough,
            MmapPlan::Fail(errno) => Mapping::Fail(*errno),
            MmapPlan::Content(content) => Mapping::Content(content@),
            MmapPlan::Fetch(path) => Mapping::Fetch(path@),
        }
    }
}

/// How an `mmap` of a descriptor proceeds.
pub open spec fn mapping(table: fd_table::Table, fd: i32, flags: i32) -> Mapping {
    if fd < table.base {
        Mapping::Passthrough
    } else if flags & MAP_SHARED != 0 {
        Mapping::Fail(EINVAL)
    } else if !table.handles.contains_key(fd) || table.handles[fd].is_directory {
        Mapping::Passthrough
    } else if !table.handles[fd].io_permitted {
        Mapping::Fail(EBADF)
    } else {
        match table.handles[fd].cached_content {
            Some(content) => Mapping::Content(content),
            None => Mapping::Fetch(table.handles[fd].path),
        }
    }
}

/// How long a mapping of `len` bytes is.
pub open spec fn mapped_len(content_len: int, len: int) -> Result<int, i32> {
    if len != 0 {
        Ok(len)
    } else if content_len != 0 {
        Ok(content_len)
    } else {
        Err(EINVAL)
    }
}

/// The bytes that a mapping of `len` bytes at `offset` begins with.
pub open spec fn mapped_bytes(content: Seq<u8>, offset: int, len: int) -> Seq<u8> {
    if offset < content.len() {
        content.subrange(offset, offset + least(content.len() - offset, len))
    } else {
        Seq::empty()
    }
}

/// An `mmap` of a descriptor. What the kernel numbers, and memory without a
/// descriptor, the kernel maps. A shared mapping of another is refused: writes
/// would have to reach content that is immutable.
pub fn begin_mmap(table: &FdTable, fd: i32, flags: i32) -> (r: MmapPlan)
    ensures
        r@ == mapping(table@, fd, flags),
        if fd < table@.base {
            r is Passthrough
        } else if flags & MAP_SHARED != 0 {
            r == MmapPlan::Fail(EINVAL)
        } else if !table@.handles.contains_key(fd) || table@.handles[fd].is_directory {
            r is Passthrough
        } else if !table@.handles[fd].io_permitted {
            r == MmapPlan::Fail(EBADF)
        } else {
            match table@.handles[fd].cached_content {
                Some(content) => r matches MmapPlan::Content(c) && c@ == content,
                None => r matches MmapPlan::Fetch(p) && p@ == table@.handles[fd].path,
            }
        },
{
    if fd < table.base() {
        return MmapPlan::Passthrough;
    }
    if (flags & MAP_SHARED) != 0 {
        return MmapPlan::Fail(EINVAL);
    }
    match table.get(fd) {
        None => MmapPlan::Passthrough,
        Some(handle) => {
            if handle.is_directory {
                return MmapPlan::Passthrough;
            }
            if !handle.io_permitted {
                return MmapPlan::Fail(EBADF);
            }
            match &handle.cached_content {
                Some(content) => MmapPlan::Content(to_vec(content.as_slice())),
                None => MmapPlan::Fetch(to_vec(handle.path.as_slice())),
            }
        },
    }
}

/// How long a mapping is: as asked, or the whole content. Nothing cannot be
/// mapped.
pub fn mapping_len(content_len: usize, len: usize) -> (r: Result<usize, i32>)
    ensures
        (match r {
            Ok(n) => Ok::<int, i32>(n as int),
            Err(e) => Err(e),
        }) == mapped_len(content_len as int, len as int),
        r == if len != 0 {
            Ok::<usize, i32>(len)
        } else if content_len != 0 {
            Ok(content_len)
        } else {
            Err(EINVAL)
        },
{
    let map_len: usize = if len == 0 {
        content_len
    } else {
        len
    };
    if map_len == 0 {
        Err(EINVAL)
    } else {
        Ok(map_len)
    }
}

/// Goes on with an `mmap` once the content is there, or could not be fetched:
/// the content, and how long the mapping is.
pub fn finish_mmap(content: Option<Vec<u8>>, len: usize) -> (r: Result<(Vec<u8>, usize), i32>)
    ensures
        match (content, r) {
            (None, _) => r == Err::<(Vec<u8>, usize), i32>(EIO),
            (Some(c), Ok((kept, n))) => kept == c && mapped_len(c@.len() as int, len as int) == Ok::<
                int,
                i32,
            >(n as int),
            (Some(c), Err(e)) => mapped_len(c@.len() as int, len as int) == Err::<int, i32>(e),
        },
        match content {
            None => r == Err::<(Vec<u8>, usize), i32>(EIO),
            Some(c) => if len == 0 && c@.len() == 0 {
                r == Err::<(Vec<u8>, usize), i32>(EINVAL)
            } else {
                r == Ok::<(Vec<u8>, usize), i32>(
                    (
                        c,
                        if len == 0 {
                            c.len()
                        } else {
                            len
                        },
                    ),
                )
            },
        },
{
    match content {
        None => Err(EIO),
        Some(content) => match mapping_len(content.len(), len) {
            Ok(map_len) => Ok((content, map_len)),
            Err(errno) => Err(errno),
        },
    }
}

/// The bytes that a mapping of `map_len` bytes at `offset` begins with; the
/// rest of it is zero.
pub fn mapping_content(content: &[u8], offset: usize, map_len: usize) -> (r: Vec<u8>)
    ensures
        r@ == mapped_bytes(content@, offset as int, map_len as int),
        r@ == if offset < content@.len() {
            content@.subrange(
                offset as int,
                offset + least(content@.len() - offset, map_len as int),
            )
        } else {
            Seq::empty()
        },
{
    if offset < content.len() {
        let left: usize = content.len() - offset;
        let n: usize = if left <= map_len {
            left
        } else {
            map_len
        };
        sub_vec(content, offset, offset + n)
    } else {
        let none: Vec<u8> = Vec::new();
        assert(none@ =~= Seq::<u8>::empty());
        none
    }
}

// ── close ───────────────────────────────────────────────────────────────

/// What a kernel descriptor that is being closed was used for.
#[derive(Debug)]
pub struct PendingClose {
    /// The atomic write that ends with it.
    pub atomic: Option<AtomicWriteEntry>,
    /// The path that was written.
    pub write_path: Option<Vec<u8>>,
}

/// How a `close` starts.
#[derive(Debug)]
pub enum CloseStart {
    /// A virtual descriptor is gone; the call returns zero.
    Closed,
    /// The kernel descriptor is to be closed.
    CloseReal(PendingClose),
}

/// The target and the temporary of an atomic write.
pub open spec fn atomic_paths(entry: Option<AtomicWriteEntry>) -> Option<(Seq<u8>, Seq<u8>)> {
    match entry {
        Some(e) => Some((e.target_path@, e.temp_path@)),
        None => None,
    }
}

/// How a `close` starts, over byte sequences: the atomic write that ends with a
/// kernel descriptor, as its target and its temporary, and the path that was
/// written through it.
pub enum Closing {
    Closed,
    Real { atomic: Option<(Seq<u8>, Seq<u8>)>, written: Option<Seq<u8>> },
}

impl View for CloseStart {
    type V = Closing;

    open spec fn view(&self) -> Closing {
        match self {
            CloseStart::Closed => Closing::Closed,
            CloseStart::CloseReal(pending) => Closing::Real {
                atomic: atomic_paths(pending.atomic),
                written: fd_table::opt_seq(pending.write_path),
            },
        }
    }
}

/// The table after a `close` was started, and how it starts.
pub open spec fn starting_close(table: fd_table::Table, fd: i32) -> (fd_table::Table, Closing) {
    if fd >= table.base && table.handles.contains_key(fd) {
        (fd_table::closing(table, fd), Closing::Closed)
    } else {
        (
            fd_table::Table {
                atomic_writes: table.atomic_writes.remove(fd),
                write_fds: table.write_fds.remove(fd),
                ..table
            },
            Closing::Real {
                atomic: table.atomic_writes.get(fd),
                written: table.write_fds.get(fd),
            },
        )
    }
}

/// A `close`.
pub fn begin_close(table: &mut FdTable, fd: i32) -> (r: CloseStart)
    requires
        old(table).well_formed(),
    ensures
        final(table).well_formed(),
        (final(table)@, r@) == starting_close(old(table)@, fd),
        if fd >= old(table)@.base && old(table)@.handles.contains_key(fd) {
            r is Closed && final(table)@ == fd_table::closing(old(table)@, fd)
        } else {
            &&& r matches CloseStart::CloseReal(pending)
            &&& atomic_paths(pending.atomic) == old(table)@.atomic_writes.get(fd)
            &&& fd_table::opt_seq(pending.write_path) == old(table)@.write_fds.get(fd)
            &&& final(table)@ == (fd_table::Table {
                atomic_writes: old(table)@.atomic_writes.remove(fd),
                write_fds: old(table)@.write_fds.remove(fd),
                ..old(table)@
            })
        },
{
    if fd >= table.base() {
        match table.close(fd) {
            Some(_) => {
                return CloseStart::Closed;
            },
            None => {},
        }
    }
    let atomic = table.close_atomic_write(fd);
    let write_path = table.close_write(fd);
    CloseStart::CloseReal(PendingClose { atomic, write_path })
}

/// Whether the bytes of a finished write are where they belong.
pub open spec fn lands(close_ret: i32, rename_ok: bool) -> bool {
    close_ret == 0 && rename_ok
}

/// Whether a finished write is announced to the graph: only when its bytes have
/// landed. A close that failed may not have flushed, and a rename that failed
/// left the target alone.
pub fn atomic_write_should_notify(close_ret: i32, rename_ok: bool) -> (r: bool)
    ensures
        r == lands(close_ret, rename_ok),
        r == (close_ret == 0 && rename_ok),
{
    close_ret == 0 && rename_ok
}

/// What a close needs next.
#[derive(Debug)]
pub enum CloseStep {
    /// Return this.
    Return(i32),
    /// Announce the write of this key, and return zero.
    Announce(VfsPath),
    /// Rename the temporary onto the target.
    Rename { temp: Vec<u8>, target: Vec<u8> },
    /// Fail with this errno.
    Fail(i32),
}

/// What a close needs next, over byte sequences.
pub enum CloseAction {
    Return(i32),
    Announce(Seq<u8>),
    Rename { temp: Seq<u8>, target: Seq<u8> },
    Fail(i32),
}

impl View for CloseStep {
    type V = CloseAction;

    open spec fn view(&self) -> CloseAction {
        match self {
            CloseStep::Return(ret) => CloseAction::Return(*ret),
            CloseStep::Announce(key) => CloseAction::Announce(key@),
            CloseStep::Rename { temp, target } => CloseAction::Rename {
                temp: temp@,
                target: target@,
            },
            CloseStep::Fail(errno) => CloseAction::Fail(*errno),
        }
    }
}

/// What is due once the bytes of a write are where they belong.
pub open spec fn landing(written: Option<Seq<u8>>, root: Option<Seq<u8>>) -> CloseAction {
    match announced(written, root) {
        Some(key) => CloseAction::Announce(key),
        None => CloseAction::Return(0),
    }
}

/// What is due once the kernel descriptor was closed with `ret`.
pub open spec fn closed_really(
    atomic: Option<(Seq<u8>, Seq<u8>)>,
    written: Option<Seq<u8>>,
    ret: i32,
    root: Option<Seq<u8>>,
) -> CloseAction {
    if ret != 0 {
        CloseAction::Return(ret)
    } else {
        match atomic {
            Some((target, temp)) => CloseAction::Rename { temp, target },
            None => landing(written, root),
        }
    }
}

/// What is due once the temporary was renamed, or was not.
pub open spec fn renamed_onto(
    written: Option<Seq<u8>>,
    rename_ok: bool,
    root: Option<Seq<u8>>,
) -> CloseAction {
    if rename_ok {
        landing(written, root)
    } else {
        CloseAction::Fail(EIO)
    }
}

/// The graph key of a written path. A path that no longer maps is not announced
/// under a guessed identity.
pub open spec fn announced(path: Option<Seq<u8>>, root: Option<Seq<u8>>) -> Option<Seq<u8>> {
    match (path, root) {
        (Some(p), Some(r)) => match vfs_path::graph_key(p, r) {
            Ok(key) => Some(key),
            Err(_) => None,
        },
        _ => None,
    }
}

/// The graph key under which a landed write is announced.
pub fn notify_write_path(write_path: &Option<Vec<u8>>, root: Option<&[u8]>) -> (r: Option<VfsPath>)
    ensures
        match r {
            Some(key) => announced(
                fd_table::opt_seq(*write_path),
                crate::host_path::opt_slice(root),
            ) == Some(key@),
            None => announced(
                fd_table::opt_seq(*write_path),
                crate::host_path::opt_slice(root),
            ) is None,
        },
{
    match (write_path, root) {
        (Some(path), Some(root)) => match workspace_graph_key(path.as_slice(), root) {
            Ok(key) => Some(key),
            Err(_) => None,
        },
        _ => None,
    }
}

/// What is due once a write has landed: the announcement, where there is one.
pub open spec fn landed(step: CloseStep, path: Option<Seq<u8>>, root: Option<Seq<u8>>) -> bool {
    match announced(path, root) {
        Some(key) => step matches CloseStep::Announce(k) && k@ == key,
        None => step == CloseStep::Return(0),
    }
}

/// The step that is due once a write has landed.
fn announce(write_path: &Option<Vec<u8>>, root: Option<&[u8]>) -> (r: CloseStep)
    ensures
        landed(r, fd_table::opt_seq(*write_path), crate::host_path::opt_slice(root)),
        r@ == landing(fd_table::opt_seq(*write_path), crate::host_path::opt_slice(root)),
{
    match notify_write_path(write_path, root) {
        Some(key) => CloseStep::Announce(key),
        None => CloseStep::Return(0),
    }
}

/// Goes on once the kernel descriptor was closed with `ret`.
pub fn after_real_close(pending: &PendingClose, ret: i32, root: Option<&[u8]>) -> (r: CloseStep)
    ensures
        r@ == closed_really(
            atomic_paths(pending.atomic),
            fd_table::opt_seq(pending.write_path),
            ret,
            crate::host_path::opt_slice(root),
        ),
        if ret != 0 {
            r == CloseStep::Return(ret)
        } else {
            match atomic_paths(pending.atomic) {
                Some((target_path, temp_path)) => r matches CloseStep::Rename { temp, target }
                    && temp@ == temp_path && target@ == target_path,
                None => landed(
                    r,
                    fd_table::opt_seq(pending.write_path),
                    crate::host_path::opt_slice(root),
                ),
            }
        },
{
    if ret != 0 {
        return CloseStep::Return(ret);
    }
    match &pending.atomic {
        Some(entry) => CloseStep::Rename {
            temp: to_vec(entry.temp_path.as_slice()),
            target: to_vec(entry.target_path.as_slice()),
        },
        None => {
            if atomic_write_should_notify(ret, true) {
                announce(&pending.write_path, root)
            } else {
                CloseStep::Return(ret)
            }
        },
    }
}

/// Goes on once the temporary was renamed onto the target, or was not: then the
/// target is unchanged, and the failure is reported rather than a write that
/// never happened.
pub fn after_rename(pending: &PendingClose, rename_ok: bool, root: Option<&[u8]>) -> (r: CloseStep)
    ensures
        r@ == renamed_onto(
            fd_table::opt_seq(pending.write_path),
            rename_ok,
            crate::host_path::opt_slice(root),
        ),
        if rename_ok {
            landed(
                r,
                fd_table::opt_seq(pending.write_path),
                crate::host_path::opt_slice(root),
            )
        } else {
            r == CloseStep::Fail(EIO)
        },
{
    if atomic_write_should_notify(0, rename_ok) {
        announce(&pending.write_path, root)
    } else {
        CloseStep::Fail(EIO)
    }
}

// ── Laws ────────────────────────────────────────────────────────────────

/// What reads of these lengths give one after the other, from `offset` on, as
/// far as they are answered from what is at hand.
pub open spec fn pieces(handle: fd_table::Handle, offset: int, counts: Seq<nat>) -> Seq<u8>
    decreases counts.len(),
{
    if counts.len() == 0 {
        Seq::empty()
    } else {
        match reading_at(handle, offset as u64, counts[0] as int) {
            Plan::Bytes(bytes) => bytes + pieces(
                handle,
                offset + bytes.len(),
                counts.drop_first(),
            ),
            _ => Seq::empty(),
        }
    }
}

/// How many bytes are asked for in all.
pub open spec fn total(counts: Seq<nat>) -> nat
    decreases counts.len(),
{
    if counts.len() == 0 {
        0
    } else {
        counts[0] + total(counts.drop_first())
    }
}

/// Reads of a file whose content is at hand give that content, in pieces of
/// whatever length, and nothing behind its end.
pub proof fn law_reads_give_back_the_content(
    handle: fd_table::Handle,
    content: Seq<u8>,
    offset: int,
    counts: Seq<nat>,
)
    requires
        handle.io_permitted,
        handle.cached_content == Some(content),
        handle.size == content.len(),
        0 <= offset <= content.len(),
    ensures
        pieces(handle, offset, counts) == content.subrange(
            offset,
            least(offset + total(counts), content.len() as int),
        ),
    decreases counts.len(),
{
    if counts.len() > 0 {
        let bytes = match reading_at(handle, offset as u64, counts[0] as int) {
            Plan::Bytes(bytes) => bytes,
            _ => Seq::empty(),
        };
        let mid = least(offset + counts[0], content.len() as int);
        assert(bytes =~= content.subrange(offset, mid));
        law_reads_give_back_the_content(handle, content, mid, counts.drop_first());
        let end = least(offset + total(counts), content.len() as int);
        assert(content.subrange(offset, mid) + content.subrange(mid, end) =~= content.subrange(
            offset,
            end,
        ));
    } else {
        assert(content.subrange(offset, offset) =~= Seq::<u8>::empty());
    }
}

/// An open that fetched the whole of a small file gives a descriptor from which
/// exactly that content is read.
pub proof fn law_an_opened_file_reads_back_its_content(
    call: open_call::Opening,
    table: fd_table::Table,
    memory: statcache::Memory,
    path: Seq<u8>,
    stat: VirtualStat,
    content: Seq<u8>,
    counts: Seq<nat>,
)
    requires
        table.well_formed(),
        table.has_room(),
        call.stage == (open_call::Stage::Reading { path, stat }),
        open_call::permits_io(call.flags),
        stat.size == content.len(),
        content.len() <= SMALL_FILE_THRESHOLD,
    ensures
        ({
            let after = open_call::next(
                call,
                table,
                memory,
                open_call::Event::Content(Ok(content)),
            );
            &&& after.action matches open_call::Action::Return(fd)
            &&& after.table.handles.contains_key(fd as i32)
            &&& pieces(after.table.handles[fd as i32], 0, counts) == content.subrange(
                0,
                least(total(counts) as int, content.len() as int),
            )
        }),
{
    let fd = table.next_free()->0;
    let after = open_call::next(call, table, memory, open_call::Event::Content(Ok(content)));
    law_reads_give_back_the_content(after.table.handles[fd as i32], content, 0, counts);
}

/// A range that has to be fetched is not empty, lies within the file, and is as
/// long as was asked for where the file goes on that far.
pub proof fn law_a_fetch_stays_within_the_file(
    handle: fd_table::Handle,
    from: u64,
    count: nat,
)
    ensures
        reading_at(handle, from, count as int) matches Plan::Fetch { path, offset, len, size } ==> {
            &&& path == handle.path
            &&& size == handle.size
            &&& offset == from
            &&& 0 < len <= count
            &&& offset + len <= size
            &&& len < count ==> offset + len == size
        },
{
}

/// While a read of an open file is in flight, no other read and no seek starts
/// on it, through whichever duplicate: those are told to wait, and change
/// nothing.
pub proof fn law_reads_of_one_open_file_are_serialized(
    table: fd_table::Table,
    fd: i32,
    count: int,
    other: i32,
    more: int,
    offset: i64,
    whence: i32,
)
    requires
        starting_read(table, fd, count).1 is Fetch,
        table.handles.contains_key(other),
        table.handles[other].open_file == table.handles[fd].open_file,
        table.handles[other].io_permitted,
    ensures
        ({
            let after = starting_read(table, fd, count).0;
            &&& starting_read(after, other, more) == (after, Started::Busy)
            &&& other >= table.base ==> seeking(after, other, offset, whence) == (
                after,
                FdOutcome::Busy,
            )
        }),
{
}

/// A call that bears on open files.
pub enum FileCall {
    Read { fd: i32, count: int },
    Seek { fd: i32, offset: i64, whence: i32 },
    /// A read of the description `id` ended, with as many bytes or without.
    Complete { id: u64, bytes: Option<nat> },
    Duplicate { fd: i32, into: i32, descriptor_flags: i32 },
    Close { fd: i32 },
}

/// The table after a call; a call on a descriptor that is not there does
/// nothing.
pub open spec fn called(table: fd_table::Table, call: FileCall) -> fd_table::Table {
    match call {
        FileCall::Read { fd, count } => starting_read(table, fd, count).0,
        FileCall::Seek { fd, offset, whence } => seeking(table, fd, offset, whence).0,
        FileCall::Complete { id, bytes: Some(n) } => read_completed(table, id, n as int),
        FileCall::Complete { id, bytes: None } => fd_table::fetch_ended(table, id),
        FileCall::Duplicate { fd, into, descriptor_flags } => if table.handles.contains_key(fd) {
            fd_table::duplicating_into(table, fd, into, false, descriptor_flags)
        } else {
            table
        },
        FileCall::Close { fd } => if table.handles.contains_key(fd) {
            fd_table::closing(table, fd)
        } else {
            table
        },
    }
}

/// The table after these calls.
pub open spec fn called_all(table: fd_table::Table, calls: Seq<FileCall>) -> fd_table::Table
    decreases calls.len(),
{
    if calls.len() == 0 {
        table
    } else {
        called(called_all(table, calls.drop_last()), calls.last())
    }
}

/// Whether none of these calls ends the read of the description `id`.
pub open spec fn leaves_in_flight(calls: Seq<FileCall>, id: u64) -> bool {
    forall|i: int|
        0 <= i < calls.len() ==> !((#[trigger] calls[i]) matches FileCall::Complete { id: ended, .. }
            && ended == id)
}

/// Whatever is called while a read is in flight, its open file stays where the
/// range begins that the read asked for; so the read moves the shared offset
/// once, by what it got, from there.
pub proof fn law_a_read_moves_the_offset_from_where_it_began(
    table: fd_table::Table,
    fd: i32,
    count: int,
    calls: Seq<FileCall>,
    n: nat,
)
    requires
        table.well_formed(),
        starting_read(table, fd, count).1 is Fetch,
        leaves_in_flight(calls, table.handles[fd].open_file),
    ensures
        ({
            let id = table.handles[fd].open_file;
            let asked = starting_read(table, fd, count).1->offset;
            let before = called_all(starting_read(table, fd, count).0, calls);
            let after = read_completed(before, id, n as int);
            &&& before.open_files.contains_key(id)
            &&& before.open_files[id].reading
            &&& before.open_files[id].state.offset == asked
            &&& after.open_files.contains_key(id) ==> !after.open_files[id].reading
                && after.open_files[id].state.offset == least(asked + n, u64::MAX as int)
        }),
{
    let id = table.handles[fd].open_file;
    let begun = starting_read(table, fd, count).0;
    assert(table.open_files.contains_key(id));
    lemma_in_flight(begun, calls, id);
}

proof fn lemma_in_flight(table: fd_table::Table, calls: Seq<FileCall>, id: u64)
    requires
        table.open_files.contains_key(id),
        table.open_files[id].reading,
        table.open_files[id].pins > 0,
        leaves_in_flight(calls, id),
    ensures
        ({
            let after = called_all(table, calls);
            &&& after.open_files.contains_key(id)
            &&& after.open_files[id].reading
            &&& after.open_files[id].pins == table.open_files[id].pins
            &&& after.open_files[id].state == table.open_files[id].state
        }),
    decreases calls.len(),
{
    if calls.len() > 0 {
        let front = calls.drop_last();
        assert forall|i: int| 0 <= i < front.len() implies !((
        #[trigger] front[i]) matches FileCall::Complete { id: ended, .. } && ended == id) by {
            assert(front[i] == calls[i]);
        }
        lemma_in_flight(table, front, id);
        let before = called_all(table, front);
        assert(calls[calls.len() - 1] == calls.last());
        match calls.last() {
            FileCall::Read { fd, count } => {},
            FileCall::Seek { fd, offset, whence } => {},
            FileCall::Complete { id: ended, bytes } => {},
            FileCall::Duplicate { fd, into, descriptor_flags } => {},
            FileCall::Close { fd } => {},
        }
    }
}

/// Two reads through one descriptor follow each other: what they give together
/// is the content from where the description stood, as long as both asked for,
/// and the description then stands behind it. The content itself, the other
/// descriptors and the other descriptions are left alone.
pub proof fn law_reads_in_turn_follow_each_other(
    table: fd_table::Table,
    fd: i32,
    content: Seq<u8>,
    first: nat,
    second: nat,
)
    requires
        table.handles.contains_key(fd),
        table.handles[fd].io_permitted,
        table.handles[fd].cached_content == Some(content),
        table.handles[fd].size == content.len(),
        table.state_of(fd).offset <= content.len(),
        !table.open_files[table.handles[fd].open_file].reading,
    ensures
        ({
            let from = table.state_of(fd).offset;
            let (middle, one) = starting_read(table, fd, first as int);
            let (after, two) = starting_read(middle, fd, second as int);
            &&& one is Done && one->Done_0 is Bytes
            &&& two is Done && two->Done_0 is Bytes
            &&& one->Done_0->Bytes_0.len() == least(first as int, content.len() - from)
            &&& one->Done_0->Bytes_0 + two->Done_0->Bytes_0 == content.subrange(
                from as int,
                least(from + first + second, content.len() as int),
            )
            &&& after.state_of(fd).offset == least(from + first + second, content.len() as int)
            &&& after.handles == table.handles
            &&& forall|id: u64|
                id != table.handles[fd].open_file ==> #[trigger] after.open_files.get(id)
                    == table.open_files.get(id)
        }),
{
    let from = table.state_of(fd).offset;
    let (middle, one) = starting_read(table, fd, first as int);
    let (after, two) = starting_read(middle, fd, second as int);
    assert(one->Done_0->Bytes_0 =~= content.subrange(
        from as int,
        least(from + first, content.len() as int),
    ));
    assert(one->Done_0->Bytes_0 + two->Done_0->Bytes_0 =~= content.subrange(
        from as int,
        least(from + first + second, content.len() as int),
    ));
}

/// A read that goes where a seek went begins there, and a `pread` at the same
/// place gives the same without moving anything.
pub proof fn law_a_read_begins_where_a_seek_went(
    table: fd_table::Table,
    fd: i32,
    content: Seq<u8>,
    offset: i64,
    count: nat,
)
    requires
        fd >= table.base,
        table.handles.contains_key(fd),
        table.handles[fd].io_permitted,
        table.handles[fd].cached_content == Some(content),
        table.handles[fd].size == content.len(),
        !table.open_files[table.handles[fd].open_file].reading,
        0 <= offset <= content.len(),
    ensures
        ({
            let (sought, outcome) = seeking(table, fd, offset, 0);
            let read = starting_read(sought, fd, count as int).1;
            &&& outcome == FdOutcome::Return(offset)
            &&& read == Started::Done(
                Plan::Bytes(
                    content.subrange(
                        offset as int,
                        least(offset + count, content.len() as int),
                    ),
                ),
            )
            &&& reading_somewhere(table, fd, count as int, offset) == Plan::Bytes(
                content.subrange(offset as int, least(offset + count, content.len() as int)),
            )
        }),
{
    let wanted = content.subrange(offset as int, least(offset + count, content.len() as int));
    if count == 0 || offset == content.len() {
        assert(wanted =~= Seq::<u8>::empty());
    }
}

/// What is fetched for a read is handed out as far as it was asked for, and
/// nothing else; without an answer the read is an I/O error.
pub proof fn law_a_fetch_hands_out_what_came(len: int, data: Seq<u8>)
    requires
        0 <= len,
    ensures
        fetched(len, Some(data)) is Ok,
        fetched(len, Some(data))->Ok_0.is_prefix_of(data),
        data.len() <= len ==> fetched(len, Some(data))->Ok_0 == data,
        data.len() > len ==> fetched(len, Some(data))->Ok_0.len() == len,
        fetched(len, None) == Err::<Seq<u8>, i32>(5),
{
    if data.len() <= len {
        assert(data.subrange(0, data.len() as int) =~= data);
    }
}

/// A duplicate is the same open file under another number: it has the content,
/// the listing and the captured metadata of its source, reads what its source
/// would read, and stands where its source stands after either was read. Only
/// the flags of the descriptor are its own, and a plain duplicate starts without
/// any.
pub proof fn law_a_duplicate_reads_what_its_source_reads(
    table: fd_table::Table,
    fd: i32,
    into: i32,
    flags: i32,
    count: int,
)
    requires
        table.well_formed(),
        table.handles.contains_key(fd),
        !table.full(),
        fd >= table.base,
        into >= table.base,
        into != fd,
        flags == 0 || flags == 0o2000000,
    ensures
        ({
            let (plain, outcome) = duplicating(table, fd);
            let new = outcome->Return_0 as i32;
            &&& outcome == FdOutcome::Return(table.next_free()->0 as i64)
            &&& new != fd
            &&& aliases(table, plain, fd, new, 0)
            &&& starting_read(plain, new, count).1 == starting_read(table, fd, count).1
            &&& starting_read(plain, fd, count).0.state_of(new) == starting_read(
                table,
                fd,
                count,
            ).0.state_of(fd)
        }),
        duplicating_two(table, fd, into).1 == FdOutcome::Return(into as i64),
        aliases(table, duplicating_two(table, fd, into).0, fd, into, 0),
        duplicating_three(table, fd, into, flags).1 == FdOutcome::Return(into as i64),
        aliases(
            table,
            duplicating_three(table, fd, into, flags).0,
            fd,
            into,
            if flags == 0 {
                0
            } else {
                1
            },
        ),
        duplicating_two(table, fd, fd) == (table, FdOutcome::Return(fd as i64)),
        duplicating_three(table, fd, fd, flags) == (table, FdOutcome::Fail(22)),
{
    fd_table::law_virtual_descriptors_lie_above_the_base(table);
    fd_table::law_a_duplicate_is_its_source(table, fd, into, false, 0);
    fd_table::law_a_duplicate_is_its_source(table, fd, into, false, 1);
    assert(0i32 & !0o2000000i32 == 0 && 0o2000000i32 & !0o2000000i32 == 0 && 0i32 & 0o2000000i32
        == 0 && 0o2000000i32 & 0o2000000i32 != 0) by (bit_vector);
}

/// Whether `new` is `fd` under another number, with these flags of its own.
pub open spec fn aliases(
    before: fd_table::Table,
    after: fd_table::Table,
    fd: i32,
    new: i32,
    flags: i32,
) -> bool {
    let source = before.handles[fd];
    let alias = after.handles[new];
    &&& after.handles.contains_key(new)
    &&& after.handles[fd] == source
    &&& alias.open_file == source.open_file
    &&& alias.path == source.path
    &&& alias.size == source.size
    &&& alias.cached_content == source.cached_content
    &&& alias.dir_entries == source.dir_entries
    &&& alias.is_directory == source.is_directory
    &&& alias.io_permitted == source.io_permitted
    &&& alias.opened_stat == source.opened_stat
    &&& alias.opened_inode == source.opened_inode
    &&& alias.status_flags == source.status_flags
    &&& alias.descriptor_flags == flags
    &&& after.state_of(new) == before.state_of(fd)
    &&& after.state_of(fd) == before.state_of(fd)
}

/// What the kernel numbers, the kernel duplicates; and what is not in the table
/// is not duplicated by it.
pub proof fn law_the_kernel_duplicates_its_own(
    table: fd_table::Table,
    oldfd: i32,
    newfd: i32,
    flags: i32,
)
    ensures
        oldfd < table.base ==> duplicating_two(table, oldfd, newfd) == (
            table,
            FdOutcome::Passthrough,
        ) && duplicating_three(table, oldfd, newfd, flags) == (table, FdOutcome::Passthrough),
        !table.handles.contains_key(oldfd) ==> duplicating(table, oldfd) == (
            table,
            FdOutcome::Passthrough,
        ),
        oldfd >= table.base && newfd < table.base && oldfd != newfd ==> duplicating_two(
            table,
            oldfd,
            newfd,
        ) == (table, FdOutcome::Passthrough),
{
}

/// A lock belongs to the open file: it is set through any descriptor by a shared
/// or an exclusive lock, waited for or not, cleared by an unlock through any
/// other, and moves neither the offset nor the position in a listing.
pub proof fn law_a_lock_belongs_to_the_open_file(table: fd_table::Table, fd: i32, other: i32)
    requires
        table.handles.contains_key(fd),
        table.handles.contains_key(other),
        table.handles[fd].open_file == table.handles[other].open_file,
    ensures
        forall|operation: i32|
            operation == 1 || operation == 2 || operation == 5 || operation == 6 ==> {
                let (after, outcome) = #[trigger] locking(table, fd, operation);
                &&& outcome == FdOutcome::Return(0)
                &&& after.state_of(other).flocked
                &&& after.state_of(other).offset == table.state_of(other).offset
                &&& after.state_of(other).dir_offset == table.state_of(other).dir_offset
            },
        forall|operation: i32|
            operation == 8 || operation == 12 ==> {
                let (after, outcome) = #[trigger] locking(table, fd, operation);
                &&& outcome == FdOutcome::Return(0)
                &&& !after.state_of(other).flocked
                &&& after.state_of(other).offset == table.state_of(other).offset
            },
{
    assert(1i32 & !4i32 != 8 && 2i32 & !4i32 != 8 && 5i32 & !4i32 != 8 && 6i32 & !4i32 != 8 && 8i32
        & !4i32 == 8 && 12i32 & !4i32 == 8) by (bit_vector);
}

/// An `fstat` of a descriptor reports the file that was opened: the captured
/// metadata under the captured inode. A descriptor without a capture asks the
/// graph about its path, keeps its inode, and is bad where the file is gone.
pub proof fn law_an_fstat_reports_the_opened_file(
    table: fd_table::Table,
    fd: i32,
    stat: VirtualStat,
)
    requires
        table.handles.contains_key(fd),
    ensures
        ({
            let handle = table.handles[fd];
            &&& handle.opened_stat == Some(stat) ==> {
                &&& reporting(table, fd) is Answer
                &&& reporting(table, fd)->Answer_0 == statfill::record_of(
                    stat,
                    handle.opened_inode,
                )
                &&& reporting(table, fd)->Answer_0.ino == handle.opened_inode
                &&& reporting(table, fd)->Answer_0.size == stat.size
            }
            &&& handle.opened_stat is None ==> reporting(table, fd) == (Report::Ask {
                path: handle.path,
                inode: handle.opened_inode,
            })
            &&& reported(handle.opened_inode, Some(stat)) == Ok::<StatRecord, i32>(
                statfill::record_of(stat, handle.opened_inode),
            )
            &&& reported(handle.opened_inode, None) == Err::<StatRecord, i32>(9)
        }),
{
}

/// A private mapping of a file shows the file: the byte at every place is the
/// byte of the content that lies as far behind the offset, for as long as the
/// content and the mapping go on. A mapping of no stated length is that of the
/// whole content; nothing cannot be mapped. A shared mapping is refused, and
/// memory that belongs to no file of the table is the kernel's.
pub proof fn law_a_mapping_shows_the_file(
    table: fd_table::Table,
    fd: i32,
    flags: i32,
    content: Seq<u8>,
    offset: nat,
    len: nat,
    i: int,
)
    ensures
        fd < table.base ==> mapping(table, fd, flags) is Passthrough,
        fd >= table.base && flags & 1 != 0 ==> mapping(table, fd, flags) == Mapping::Fail(22),
        fd >= table.base && flags & 1 == 0 && table.handles.contains_key(fd)
            && !table.handles[fd].is_directory && table.handles[fd].io_permitted ==> {
            &&& table.handles[fd].cached_content == Some(content) ==> mapping(table, fd, flags)
                == Mapping::Content(content)
            &&& table.handles[fd].cached_content is None ==> mapping(table, fd, flags)
                == Mapping::Fetch(table.handles[fd].path)
        },
        mapped_bytes(content, offset as int, len as int).len() == if offset >= content.len() {
            0
        } else if offset + len <= content.len() {
            len
        } else {
            (content.len() - offset) as nat
        },
        0 <= i < mapped_bytes(content, offset as int, len as int).len() ==> mapped_bytes(
            content,
            offset as int,
            len as int,
        )[i] == content[offset + i],
        len > 0 ==> mapped_len(content.len() as int, len as int) == Ok::<int, i32>(len as int),
        content.len() > 0 ==> mapped_len(content.len() as int, 0) == Ok::<int, i32>(
            content.len() as int,
        ),
        mapped_len(0, 0) == Err::<int, i32>(22),
{
}

/// A directory is listed once, however small the buffers: two calls through
/// descriptors of one open directory give the entries from where it stood,
/// each under its own name, without a gap and without repeating one, and the
/// directory then stands behind them.
pub proof fn law_a_directory_is_listed_once(
    table: fd_table::Table,
    middle: fd_table::Table,
    after: fd_table::Table,
    layout: Layout,
    fd: i32,
    other: i32,
    entries: Seq<fd_table::RawEntry>,
    first_size: int,
    first: Listed,
    second_size: int,
    second: Listed,
)
    requires
        lists(table, middle, layout, fd, first_size, first),
        lists(middle, after, layout, other, second_size, second),
        table.handles.contains_key(fd),
        table.handles.contains_key(other),
        table.handles[fd].open_file == table.handles[other].open_file,
        table.handles[fd].is_directory && table.handles[other].is_directory,
        table.handles[fd].io_permitted && table.handles[other].io_permitted,
        table.handles[fd].dir_entries == Some(entries),
        table.handles[other].dir_entries == Some(entries),
        table.state_of(fd).dir_offset <= entries.len() < u64::MAX,
        forall|i: int|
            0 <= i < entries.len() ==> !(#[trigger] entries[i]).name.contains(0)
                && entries[i].name.len() < 65000,
    ensures
        first is Records && second is Records,
        after.handles == table.handles,
        after.state_of(fd).offset == table.state_of(fd).offset,
        table.state_of(fd).dir_offset <= after.state_of(fd).dir_offset <= entries.len(),
        dirents::read_back(layout, first->bytes) + dirents::read_back(layout, second->bytes)
            == entries.subrange(
            table.state_of(fd).dir_offset as int,
            after.state_of(fd).dir_offset as int,
        ),
        second->position == after.state_of(fd).dir_offset,
{
    let from = table.state_of(fd).dir_offset as int;
    let at = middle.state_of(fd).dir_offset as int;
    let end = after.state_of(fd).dir_offset as int;
    dirents::law_a_packed_buffer_lists_the_entries(
        layout,
        first_size,
        entries,
        from,
        first->bytes,
        at,
    );
    dirents::law_a_packed_buffer_lists_the_entries(
        layout,
        second_size,
        entries,
        at,
        second->bytes,
        end,
    );
    assert(entries.subrange(from, at) + entries.subrange(at, end) =~= entries.subrange(from, end));
}

/// What is no directory of the table is listed by the kernel, and a directory
/// that permits no I/O is not listed.
pub proof fn law_only_open_directories_are_listed(
    table: fd_table::Table,
    after: fd_table::Table,
    layout: Layout,
    fd: i32,
    buf_size: int,
    outcome: Listed,
)
    requires
        lists(table, after, layout, fd, buf_size, outcome),
    ensures
        outcome is Passthrough <==> !table.handles.contains_key(fd)
            || !table.handles[fd].is_directory,
        outcome is Fail <==> table.handles.contains_key(fd) && table.handles[fd].is_directory
            && !table.handles[fd].io_permitted,
        outcome matches Listed::Fail(errno) ==> errno == 9,
        outcome !is Records ==> after == table,
{
}

/// A write has landed exactly where its close went well and so did the rename
/// that the close called for; nothing is announced in any other case.
pub proof fn law_only_a_landed_write_is_announced(
    target: Seq<u8>,
    temp: Seq<u8>,
    written: Option<Seq<u8>>,
    root: Option<Seq<u8>>,
    ret: i32,
    rename_ok: bool,
)
    ensures
        lands(ret, rename_ok) <==> closed_really(Some((target, temp)), written, ret, root) is Rename
            && renamed_onto(written, rename_ok, root) !is Fail,
        closed_really(Some((target, temp)), written, ret, root) !is Announce,
        renamed_onto(written, rename_ok, root) is Announce ==> rename_ok && written is Some
            && root is Some,
        ret != 0 ==> closed_really(None, written, ret, root) == CloseAction::Return(ret),
        closed_really(None, None, 0, root) == CloseAction::Return(0),
{
}

/// A close of a descriptor of the table takes that descriptor off and nothing
/// else: the others keep their handles, and what is tracked for kernel
/// descriptors stays. What the table does not hold is the kernel's to close.
pub proof fn law_a_close_takes_one_descriptor_off(table: fd_table::Table, fd: i32, other: i32)
    requires
        table.well_formed(),
        fd >= table.base,
        table.handles.contains_key(fd),
        other != fd,
    ensures
        ({
            let (after, start) = starting_close(table, fd);
            &&& start is Closed
            &&& !after.handles.contains_key(fd)
            &&& after.handles.get(other) == table.handles.get(other)
            &&& after.write_fds == table.write_fds && after.atomic_writes == table.atomic_writes
            &&& starting_close(after, fd).1 is Real
        }),
        !table.handles.contains_key(other) ==> starting_close(table, other).1 is Real
            && starting_close(table, other).0.handles == table.handles,
{
}

} // verus!

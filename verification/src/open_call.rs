//! Opening a path: `open` and `openat`.
//!
//! A write is let through to a real file only after that file was seeded from
//! graph truth, in a temporary that replaces the target when the descriptor
//! closes. A read is served by a virtual descriptor. Neither ever falls back
//! to raw disk on a graph failure.
//!
//! Two opens ask for no content at all: access mode three, which checks the
//! right to read and write and gives neither, and `O_PATH`, which names an
//! entry. Both are served by a virtual descriptor that permits no I/O.
//!
//! The call proceeds one step at a time: whoever drives it performs the action
//! and hands back what came of it.

use vstd::prelude::*;

use crate::bytes::{contains_byte, to_vec};
use crate::client::ClientCallFailure;
use crate::errno;
use crate::errno::{graph_failure_errno_in_mode, graph_miss_errno_in_mode, graph_path_errno};
use crate::fd_table;
use crate::fd_table::{
    synthetic_inode, DirEntryRaw, FdTable, OpenedFileOptions, SMALL_FILE_THRESHOLD,
};
use crate::graph_walk;
use crate::graph_walk::{GraphAnswer, GraphPathError, GraphProgress, GraphQuestion, GraphWalk, StatProbe};
use crate::hashing;
use crate::host_path;
use crate::host_path::{host_path_error_errno, is_workspace_path, HostPathResolution};
use crate::pathmap;
use crate::pathmap::atomic_temp_path;
use crate::statcache;
use crate::statcache::StatCache;
use crate::sys::{
    EACCES, EINVAL, EIO, ELOOP, ENOTDIR, O_ACCMODE, O_CREAT, O_DIRECTORY, O_NOFOLLOW, O_PATH,
    O_RDWR, O_TRUNC, O_WRONLY,
};
use crate::types::{DirEntry, FileType, VirtualStat};
use crate::vfs_path;
use crate::vfs_path::workspace_graph_key;

verus! {

/// Whether open flags ask for a path alone; of the other flags only those about
/// directories, links and close-on-exec then count.
pub open spec fn names_path(flags: i32) -> bool {
    flags & O_PATH != 0
}

/// Whether open flags ask for a right to the content. Access mode three and a
/// path alone do not.
pub open spec fn permits_io(flags: i32) -> bool {
    !names_path(flags) && flags & O_ACCMODE != O_ACCMODE
}

/// Whether open flags ask for writing, creating or truncating. Access mode
/// three alone does not: what it checks, it does not grant. Together with
/// creation or truncation the file is opened by the kernel, whose descriptor
/// grants no I/O in that mode either.
pub open spec fn writes(flags: i32) -> bool {
    &&& !names_path(flags)
    &&& flags & O_ACCMODE == O_WRONLY || flags & O_ACCMODE == O_RDWR || flags & (O_CREAT
        | O_TRUNC) != 0
}

/// Whether open flags ask for writing, creating or truncating.
pub fn is_write_flags(flags: i32) -> (r: bool)
    ensures
        r == writes(flags),
{
    flags & O_PATH == 0 && (flags & O_ACCMODE == O_WRONLY || flags & O_ACCMODE == O_RDWR || flags
        & (O_CREAT | O_TRUNC) != 0)
}

/// Whether open flags ask for a right to the content.
fn io_permitted(flags: i32) -> (r: bool)
    ensures
        r == permits_io(flags),
{
    flags & O_PATH == 0 && flags & O_ACCMODE != O_ACCMODE
}

// ── Directory listings ──────────────────────────────────────────────────

/// A listed child, over byte sequences.
pub struct Child {
    pub name: Seq<u8>,
    pub file_type: FileType,
}

/// The children that a listing holds.
pub open spec fn children(entries: Seq<DirEntry>) -> Seq<Child> {
    Seq::new(
        entries.len(),
        |i: int| Child { name: entries[i].name@, file_type: entries[i].file_type },
    )
}

/// The record type of a child. A gitlink is shown as a directory: it is a real
/// boundary that a listing must show.
pub open spec fn child_type(file_type: FileType) -> u8 {
    match file_type {
        FileType::File => 8,
        FileType::Directory => 4,
        FileType::Symlink => 10,
        FileType::Gitlink => 4,
    }
}

/// The directory entries of a listing.
pub open spec fn child_entries(children: Seq<Child>) -> Seq<fd_table::RawEntry> {
    Seq::new(
        children.len(),
        |i: int|
            fd_table::RawEntry {
                name: children[i].name,
                d_ino: hashing::byte_hash(children[i].name),
                d_type: child_type(children[i].file_type),
            },
    )
}

/// The directory entries of a listing: exact names, an inode from the name, and
/// the record type.
pub fn raw_dir_entries(entries: &Vec<DirEntry>) -> (r: Vec<DirEntryRaw>)
    ensures
        fd_table::raw_entries(r@) == child_entries(children(entries@)),
{
    let mut out: Vec<DirEntryRaw> = Vec::new();
    let mut i: usize = 0;
    while i < entries.len()
        invariant
            0 <= i <= entries@.len(),
            out@.len() == i,
            forall|j: int|
                0 <= j < i ==> (#[trigger] out@[j])@ == child_entries(children(entries@))[j],
        decreases entries@.len() - i,
    {
        let d_type: u8 = match entries[i].file_type {
            FileType::File => 8,
            FileType::Directory => 4,
            FileType::Symlink => 10,
            FileType::Gitlink => 4,
        };
        let name = to_vec(entries[i].name.as_bytes());
        let d_ino = synthetic_inode(name.as_slice());
        out.push(DirEntryRaw { name, d_ino, d_type });
        i = i + 1;
    }
    assert(fd_table::raw_entries(out@) =~= child_entries(children(entries@)));
    out
}

// ── The call ────────────────────────────────────────────────────────────

/// What an open needs done.
#[derive(Debug)]
pub enum OpenAction {
    /// Remove stale temporaries of this path, and read its content from the
    /// graph.
    Materialize(Vec<u8>),
    /// Create the directories above `target`, and write `content` to `temp`.
    Seed { target: Vec<u8>, temp: Vec<u8>, content: Vec<u8> },
    /// Open this temporary in the caller's place, with the caller's flags.
    OpenTemp(Vec<u8>),
    /// Make the caller's own call.
    OpenCaller,
    /// Put this question to the graph.
    Ask(GraphQuestion),
    /// Read the content of this path from the graph.
    ReadFile(Vec<u8>),
    /// List this directory in the graph.
    ReadDir(Vec<u8>),
    /// Return this.
    Return(i32),
    /// Fail with this errno.
    Fail(i32),
}

/// What came of an action.
pub enum OpenEvent {
    /// Of `Materialize` or `ReadFile`.
    Content(Result<Vec<u8>, ClientCallFailure>),
    /// Of `Seed`: done, or the errno.
    Seeded(Result<(), i32>),
    /// Of `OpenTemp` or `OpenCaller`: what the real call returned.
    Opened(i32),
    /// Of `Ask`, with how the daemon call went.
    Graph { answer: GraphAnswer, failure: ClientCallFailure },
    /// Of `ReadDir`.
    Listing(Result<Vec<DirEntry>, ClientCallFailure>),
}

/// An action, over byte sequences.
pub enum Action {
    Materialize(Seq<u8>),
    Seed { target: Seq<u8>, temp: Seq<u8>, content: Seq<u8> },
    OpenTemp(Seq<u8>),
    OpenCaller,
    Ask(graph_walk::Question),
    ReadFile(Seq<u8>),
    ReadDir(Seq<u8>),
    Return(int),
    Fail(i32),
}

/// An event, over byte sequences.
pub enum Event {
    Content(Result<Seq<u8>, ClientCallFailure>),
    Seeded(Result<(), i32>),
    Opened(i32),
    Graph { answer: graph_walk::Answer, failure: ClientCallFailure },
    Listing(Result<Seq<Child>, ClientCallFailure>),
}

impl View for OpenAction {
    type V = Action;

    open spec fn view(&self) -> Action {
        match self {
            OpenAction::Materialize(p) => Action::Materialize(p@),
            OpenAction::Seed { target, temp, content } => Action::Seed {
                target: target@,
                temp: temp@,
                content: content@,
            },
            OpenAction::OpenTemp(p) => Action::OpenTemp(p@),
            OpenAction::OpenCaller => Action::OpenCaller,
            OpenAction::Ask(q) => Action::Ask(q@),
            OpenAction::ReadFile(p) => Action::ReadFile(p@),
            OpenAction::ReadDir(p) => Action::ReadDir(p@),
            OpenAction::Return(fd) => Action::Return(*fd as int),
            OpenAction::Fail(errno) => Action::Fail(*errno),
        }
    }
}

impl View for OpenEvent {
    type V = Event;

    open spec fn view(&self) -> Event {
        match self {
            OpenEvent::Content(Ok(c)) => Event::Content(Ok(c@)),
            OpenEvent::Content(Err(f)) => Event::Content(Err(*f)),
            OpenEvent::Seeded(r) => Event::Seeded(*r),
            OpenEvent::Opened(fd) => Event::Opened(*fd),
            OpenEvent::Graph { answer, failure } => Event::Graph {
                answer: answer@,
                failure: *failure,
            },
            OpenEvent::Listing(Ok(l)) => Event::Listing(Ok(children(l@))),
            OpenEvent::Listing(Err(f)) => Event::Listing(Err(*f)),
        }
    }
}

/// Where an open stands.
pub enum Stage {
    /// The content of the target was asked for.
    Materializing,
    /// The temporary is being written.
    Seeding(Seq<u8>),
    /// The temporary is being opened.
    OpeningTemp(Seq<u8>),
    /// A new file is being created.
    Creating,
    /// The path itself was asked about, links not followed.
    Inspecting,
    /// The target of a link that is opened as a path was asked for.
    Linking(VirtualStat),
    /// The path is being resolved.
    Following(graph_walk::Walk),
    /// A directory is being listed.
    Listing { path: Seq<u8>, stat: VirtualStat },
    /// The content of a small file was asked for.
    Reading { path: Seq<u8>, stat: VirtualStat },
    /// Nothing is outstanding.
    Finished,
}

/// An open under way.
pub struct Opening {
    pub path: Seq<u8>,
    pub flags: i32,
    pub strict: bool,
    pub pid: i32,
    pub stage: Stage,
}

/// Whether an event is what the stage waits for.
pub open spec fn awaited(stage: Stage, event: Event) -> bool {
    match stage {
        Stage::Materializing => event is Content,
        Stage::Seeding(_) => event is Seeded,
        Stage::OpeningTemp(_) => event is Opened,
        Stage::Creating => event is Opened,
        Stage::Inspecting => event is Graph && event->answer is Stat,
        Stage::Linking(_) => event is Graph && event->answer is Link,
        Stage::Following(walk) => event is Graph && graph_walk::well_formed(walk)
            && graph_walk::answers(walk, event->answer),
        Stage::Listing { .. } => event is Listing,
        Stage::Reading { .. } => event is Content,
        Stage::Finished => false,
    }
}

/// The table and the descriptor after `handle` was opened: the next free
/// descriptor, where there is room.
pub open spec fn allocating(table: fd_table::Table, handle: fd_table::Handle) -> (
    fd_table::Table,
    Option<int>,
) {
    if table.has_room() {
        (
            fd_table::opening(table, table.next_free()->0 as i32, handle),
            Some(table.next_free()->0),
        )
    } else {
        (table, None)
    }
}

/// What an open has come to: where it stands, the table, what is remembered,
/// and what is to be done.
pub struct After {
    pub call: Opening,
    pub table: fd_table::Table,
    pub memory: statcache::Memory,
    pub action: Action,
}

/// Going on at `stage` with `action`.
pub open spec fn onward(
    call: Opening,
    table: fd_table::Table,
    memory: statcache::Memory,
    stage: Stage,
    action: Action,
) -> After {
    After { call: Opening { stage, ..call }, table, memory, action }
}

/// Ending with `action`.
pub open spec fn finished(
    call: Opening,
    table: fd_table::Table,
    memory: statcache::Memory,
    action: Action,
) -> After {
    onward(call, table, memory, Stage::Finished, action)
}

/// The handle of a file that is not opened for writing, or of a link that is
/// opened as a path.
pub open spec fn read_handle(
    call: Opening,
    path: Seq<u8>,
    stat: VirtualStat,
    content: Option<Seq<u8>>,
    link_target: Option<Seq<u8>>,
) -> fd_table::Handle {
    fd_table::file_handle(
        path,
        stat.size,
        content,
        permits_io(call.flags),
        Some(stat),
        names_path(call.flags),
        link_target,
        call.flags,
    )
}

/// Serving a file: the descriptor, or an I/O error where no slot is left.
pub open spec fn serving_file(
    call: Opening,
    table: fd_table::Table,
    memory: statcache::Memory,
    path: Seq<u8>,
    stat: VirtualStat,
    content: Option<Seq<u8>>,
    link_target: Option<Seq<u8>>,
) -> After {
    let (after, fd) = allocating(table, read_handle(call, path, stat, content, link_target));
    finished(
        call,
        after,
        memory,
        match fd {
            Some(n) => Action::Return(n),
            None => Action::Fail(EIO),
        },
    )
}

/// Serving a directory: the descriptor, or the failure where no slot is left.
pub open spec fn serving_directory(
    call: Opening,
    table: fd_table::Table,
    memory: statcache::Memory,
    path: Seq<u8>,
    stat: VirtualStat,
    listed: Seq<Child>,
) -> After {
    let (after, fd) = allocating(
        table,
        fd_table::dir_handle(
            path,
            child_entries(listed),
            permits_io(call.flags),
            names_path(call.flags),
            Some(stat),
            call.flags,
        ),
    );
    finished(
        call,
        after,
        memory,
        match fd {
            Some(n) => Action::Return(n),
            None => Action::Fail(errno::failure_errno(ClientCallFailure::NoFailure, call.strict)),
        },
    )
}

/// Going on once the path has resolved to an entry. What permits no I/O is
/// served without its content.
pub open spec fn found(
    call: Opening,
    table: fd_table::Table,
    memory: statcache::Memory,
    path: Seq<u8>,
    stat: VirtualStat,
) -> After {
    if stat.is_dir {
        if permits_io(call.flags) {
            onward(call, table, memory, Stage::Listing { path, stat }, Action::ReadDir(path))
        } else {
            serving_directory(call, table, memory, path, stat, Seq::empty())
        }
    } else if call.flags & O_DIRECTORY != 0 {
        finished(call, table, memory, Action::Fail(ENOTDIR))
    } else if !stat.is_file {
        finished(call, table, memory, Action::Fail(EINVAL))
    } else if permits_io(call.flags) && stat.size <= SMALL_FILE_THRESHOLD {
        onward(call, table, memory, Stage::Reading { path, stat }, Action::ReadFile(path))
    } else {
        serving_file(call, table, memory, path, stat, None, None)
    }
}

/// The open, the table, the memory and what is to be done, after `event`.
pub open spec fn next(
    call: Opening,
    table: fd_table::Table,
    memory: statcache::Memory,
    event: Event,
) -> After {
    match (call.stage, event) {
        (Stage::Materializing, Event::Content(Ok(content))) => {
            let temp = pathmap::temp_path_of(call.path, call.pid as int);
            onward(
                call,
                table,
                memory,
                Stage::Seeding(temp),
                Action::Seed { target: call.path, temp, content },
            )
        },
        (Stage::Materializing, Event::Content(Err(failure))) => if failure
            != ClientCallFailure::NotFound {
            finished(
                call,
                table,
                memory,
                Action::Fail(errno::failure_errno(failure, call.strict)),
            )
        } else if call.flags & O_CREAT == 0 {
            finished(call, table, memory, Action::Fail(errno::miss_errno(call.strict)))
        } else {
            onward(call, table, memory, Stage::Creating, Action::OpenCaller)
        },
        (Stage::Seeding(_), Event::Seeded(Err(code))) => finished(
            call,
            table,
            memory,
            Action::Fail(code),
        ),
        (Stage::Seeding(temp), Event::Seeded(Ok(_))) => if temp.contains(0) {
            finished(call, table, memory, Action::Fail(EINVAL))
        } else {
            onward(call, table, memory, Stage::OpeningTemp(temp), Action::OpenTemp(temp))
        },
        (Stage::OpeningTemp(temp), Event::Opened(fd)) => finished(
            call,
            if fd >= 0 {
                fd_table::Table {
                    write_fds: table.write_fds.insert(fd, call.path),
                    atomic_writes: table.atomic_writes.insert(fd, (call.path, temp)),
                    ..table
                }
            } else {
                table
            },
            memory,
            Action::Return(fd as int),
        ),
        (Stage::Creating, Event::Opened(fd)) => finished(
            call,
            if fd >= 0 {
                fd_table::Table { write_fds: table.write_fds.insert(fd, call.path), ..table }
            } else {
                table
            },
            memory,
            Action::Return(fd as int),
        ),
        (
            Stage::Inspecting,
            Event::Graph {
                answer: graph_walk::Answer::Stat(StatProbe::Present { stat, .. }),
                ..
            },
        ) => if !stat.is_symlink {
            found(call, table, memory, call.path, stat)
        } else if !names_path(call.flags) {
            finished(call, table, memory, Action::Fail(ELOOP))
        } else if call.flags & O_DIRECTORY != 0 {
            finished(call, table, memory, Action::Fail(ENOTDIR))
        } else {
            onward(
                call,
                table,
                memory,
                Stage::Linking(stat),
                Action::Ask(graph_walk::Question::ReadLink(call.path)),
            )
        },
        (
            Stage::Linking(stat),
            Event::Graph { answer: graph_walk::Answer::Link(Some(target)), .. },
        ) => serving_file(call, table, memory, call.path, stat, None, Some(target)),
        (Stage::Linking(_), Event::Graph { failure, .. }) => finished(
            call,
            table,
            memory,
            Action::Fail(errno::path_errno(GraphPathError::Authority, failure, call.strict)),
        ),
        (Stage::Inspecting, Event::Graph { failure, .. }) => finished(
            call,
            table,
            memory,
            Action::Fail(errno::path_errno(GraphPathError::Authority, failure, call.strict)),
        ),
        (Stage::Following(walk), Event::Graph { answer, failure }) => {
            let (on, after, progress) = graph_walk::next(walk, memory, answer);
            match progress {
                graph_walk::Progress::Ask(question) => onward(
                    call,
                    table,
                    after,
                    Stage::Following(on),
                    Action::Ask(question),
                ),
                graph_walk::Progress::Done(Ok((path, stat))) => found(
                    call,
                    table,
                    after,
                    path,
                    stat,
                ),
                graph_walk::Progress::Done(Err(error)) => finished(
                    call,
                    table,
                    after,
                    Action::Fail(errno::path_errno(error, failure, call.strict)),
                ),
            }
        },
        (Stage::Listing { path, stat }, Event::Listing(Ok(listed))) => serving_directory(
            call,
            table,
            memory,
            path,
            stat,
            listed,
        ),
        (Stage::Listing { .. }, Event::Listing(Err(failure))) => finished(
            call,
            table,
            memory,
            Action::Fail(errno::failure_errno(failure, call.strict)),
        ),
        (Stage::Reading { path, stat }, Event::Content(Ok(content))) => serving_file(
            call,
            table,
            memory,
            path,
            stat,
            Some(content),
            None,
        ),
        (Stage::Reading { .. }, Event::Content(Err(failure))) => finished(
            call,
            table,
            memory,
            Action::Fail(errno::path_errno(GraphPathError::Authority, failure, call.strict)),
        ),
        _ => finished(call, table, memory, Action::Fail(EIO)),
    }
}

/// How an open starts, over byte sequences.
pub enum Start {
    Passthrough,
    Fail(i32),
    Call(Opening, Action),
}

/// How the open of a path argument starts.
pub open spec fn beginning(
    resolution: host_path::Resolution,
    root: Option<Seq<u8>>,
    flags: i32,
    strict: bool,
    pid: i32,
) -> Start {
    match resolution {
        host_path::Resolution::Passthrough => Start::Passthrough,
        host_path::Resolution::Refused => Start::Fail(EIO),
        host_path::Resolution::InvalidDescriptor => Start::Fail(crate::sys::EBADF),
        host_path::Resolution::Resolved(path) => if !host_path::owned(path, root) {
            Start::Passthrough
        } else if writes(flags) {
            Start::Call(
                Opening { path, flags, strict, pid, stage: Stage::Materializing },
                Action::Materialize(path),
            )
        } else if flags & O_NOFOLLOW != 0 {
            Start::Call(
                Opening { path, flags, strict, pid, stage: Stage::Inspecting },
                Action::Ask(graph_walk::Question::Stat(path)),
            )
        } else {
            match vfs_path::graph_key(path, root->0) {
                Err(_) => Start::Fail(EACCES),
                Ok(key) => {
                    let walk = graph_walk::starting(root->0, key);
                    Start::Call(
                        Opening { path, flags, strict, pid, stage: Stage::Following(walk) },
                        Action::Ask(graph_walk::question(walk)),
                    )
                },
            }
        },
    }
}

#[derive(Debug)]
enum CallStage {
    Materializing,
    Seeding(Vec<u8>),
    OpeningTemp(Vec<u8>),
    Creating,
    Inspecting,
    Linking(VirtualStat),
    Following(GraphWalk),
    Listing { path: Vec<u8>, stat: VirtualStat },
    Reading { path: Vec<u8>, stat: VirtualStat },
    Finished,
}

impl CallStage {
    spec fn view(&self) -> Stage {
        match self {
            CallStage::Materializing => Stage::Materializing,
            CallStage::Seeding(t) => Stage::Seeding(t@),
            CallStage::OpeningTemp(t) => Stage::OpeningTemp(t@),
            CallStage::Creating => Stage::Creating,
            CallStage::Inspecting => Stage::Inspecting,
            CallStage::Linking(stat) => Stage::Linking(*stat),
            CallStage::Following(w) => Stage::Following(w@),
            CallStage::Listing { path, stat } => Stage::Listing { path: path@, stat: *stat },
            CallStage::Reading { path, stat } => Stage::Reading { path: path@, stat: *stat },
            CallStage::Finished => Stage::Finished,
        }
    }
}

/// An open under way.
#[derive(Debug)]
pub struct OpenCall {
    path: Vec<u8>,
    flags: i32,
    strict: bool,
    pid: i32,
    stage: CallStage,
}

impl View for OpenCall {
    type V = Opening;

    closed spec fn view(&self) -> Opening {
        Opening {
            path: self.path@,
            flags: self.flags,
            strict: self.strict,
            pid: self.pid,
            stage: self.stage.view(),
        }
    }
}

/// How the open of a path argument starts.
#[derive(Debug)]
pub enum OpenStart {
    /// The caller's own call answers.
    Passthrough,
    /// It fails with this errno.
    Fail(i32),
    /// It proceeds with this action.
    Call(OpenCall, OpenAction),
}

/// Starts the open of a path argument.
pub fn begin_open(
    resolution: HostPathResolution,
    root: Option<&[u8]>,
    flags: i32,
    strict: bool,
    pid: i32,
) -> (r: OpenStart)
    ensures
        match beginning(resolution@, host_path::opt_slice(root), flags, strict, pid) {
            Start::Passthrough => r is Passthrough,
            Start::Fail(code) => r == OpenStart::Fail(code),
            Start::Call(call, action) => r matches OpenStart::Call(c, a) && c@ == call && a@
                == action,
        },
        r matches OpenStart::Call(c, _) ==> ready(c@),
{
    let code = host_path_error_errno(&resolution);
    let path = match resolution {
        HostPathResolution::Resolved(path) => path,
        HostPathResolution::Passthrough => {
            return OpenStart::Passthrough;
        },
        _ => match code {
            Some(code) => {
                return OpenStart::Fail(code);
            },
            None => {
                return OpenStart::Passthrough;
            },
        },
    };
    let root = match root {
        Some(root) => root,
        None => {
            return OpenStart::Passthrough;
        },
    };
    if !is_workspace_path(path.as_slice(), Some(root)) {
        return OpenStart::Passthrough;
    }
    if is_write_flags(flags) {
        let target = to_vec(path.as_slice());
        return OpenStart::Call(
            OpenCall { path, flags, strict, pid, stage: CallStage::Materializing },
            OpenAction::Materialize(target),
        );
    }
    if flags & O_NOFOLLOW != 0 {
        let host = to_vec(path.as_slice());
        return OpenStart::Call(
            OpenCall { path, flags, strict, pid, stage: CallStage::Inspecting },
            OpenAction::Ask(GraphQuestion::Stat(host)),
        );
    }
    match workspace_graph_key(path.as_slice(), root) {
        Err(_) => OpenStart::Fail(EACCES),
        Ok(key) => {
            let (walk, question) = GraphWalk::start(root, &key);
            OpenStart::Call(
                OpenCall { path, flags, strict, pid, stage: CallStage::Following(walk) },
                OpenAction::Ask(question),
            )
        },
    }
}

/// What holds of an open at every point.
pub open spec fn ready(call: Opening) -> bool {
    call.stage matches Stage::Following(walk) ==> graph_walk::well_formed(walk)
}

impl OpenCall {
    /// Takes what came of the last action.
    pub fn advance(&mut self, table: &mut FdTable, cache: &mut StatCache, event: OpenEvent) -> (r:
        OpenAction)
        requires
            old(table).well_formed(),
            old(cache).well_formed(),
            awaited(old(self)@.stage, event@),
        ensures
            final(table).well_formed(),
            final(cache).well_formed(),
            ready(final(self)@),
            (After {
                call: final(self)@,
                table: final(table)@,
                memory: final(cache)@,
                action: r@,
            }) == next(old(self)@, old(table)@, old(cache)@, event@),
    {
        let mut stage = CallStage::Finished;
        std::mem::swap(&mut self.stage, &mut stage);
        let ghost here = self@;
        assert(old(self)@ == (Opening { stage: stage.view(), ..here }));
        match (stage, event) {
            (CallStage::Materializing, OpenEvent::Content(read)) => {
                assert(event@ == OpenEvent::Content(read)@);
                self.materialized(read)
            },
            (CallStage::Seeding(temp), OpenEvent::Seeded(seeded)) => match seeded {
                Err(code) => OpenAction::Fail(code),
                Ok(_) => {
                    if contains_byte(temp.as_slice(), 0) {
                        OpenAction::Fail(EINVAL)
                    } else {
                        let open = to_vec(temp.as_slice());
                        self.stage = CallStage::OpeningTemp(temp);
                        OpenAction::OpenTemp(open)
                    }
                },
            },
            (CallStage::OpeningTemp(temp), OpenEvent::Opened(fd)) => {
                if fd >= 0 {
                    table.track_write(fd, to_vec(self.path.as_slice()));
                    table.track_atomic_write(fd, to_vec(self.path.as_slice()), temp);
                }
                OpenAction::Return(fd)
            },
            (CallStage::Creating, OpenEvent::Opened(fd)) => {
                if fd >= 0 {
                    table.track_write(fd, to_vec(self.path.as_slice()));
                }
                OpenAction::Return(fd)
            },
            (CallStage::Inspecting, OpenEvent::Graph { answer, failure }) => match answer {
                GraphAnswer::Stat(StatProbe::Present { stat, .. }) => {
                    if !stat.is_symlink {
                        let path = to_vec(self.path.as_slice());
                        assert(found(here, table@, cache@, path@, stat) == found(
                            old(self)@,
                            table@,
                            cache@,
                            path@,
                            stat,
                        ));
                        self.found(table, path, stat)
                    } else if self.flags & O_PATH == 0 {
                        OpenAction::Fail(ELOOP)
                    } else if self.flags & O_DIRECTORY != 0 {
                        OpenAction::Fail(ENOTDIR)
                    } else {
                        let link = to_vec(self.path.as_slice());
                        self.stage = CallStage::Linking(stat);
                        OpenAction::Ask(GraphQuestion::ReadLink(link))
                    }
                },
                _ => OpenAction::Fail(
                    graph_path_errno(GraphPathError::Authority, failure, self.strict),
                ),
            },
            (CallStage::Linking(stat), OpenEvent::Graph { answer, failure }) => match answer {
                GraphAnswer::Link(Some(target)) => {
                    let path = to_vec(self.path.as_slice());
                    assert(serving_file(here, table@, cache@, path@, stat, None, Some(target@))
                        == serving_file(
                        old(self)@,
                        table@,
                        cache@,
                        path@,
                        stat,
                        None,
                        Some(target@),
                    ));
                    self.serve(table, path, stat, None, Some(target))
                },
                _ => OpenAction::Fail(
                    graph_path_errno(GraphPathError::Authority, failure, self.strict),
                ),
            },
            (CallStage::Following(walk), OpenEvent::Graph { answer, failure }) => {
                let mut walk = walk;
                match walk.advance(cache, answer) {
                    GraphProgress::Ask(question) => {
                        self.stage = CallStage::Following(walk);
                        OpenAction::Ask(question)
                    },
                    GraphProgress::Done(Ok((path, stat))) => {
                        assert(found(here, table@, cache@, path@, stat) == found(
                            old(self)@,
                            table@,
                            cache@,
                            path@,
                            stat,
                        ));
                        self.found(table, path, stat)
                    },
                    GraphProgress::Done(Err(error)) => OpenAction::Fail(
                        graph_path_errno(error, failure, self.strict),
                    ),
                }
            },
            (CallStage::Listing { path, stat }, OpenEvent::Listing(listed)) => {
                assert(event@ == OpenEvent::Listing(listed)@);
                self.listed(table, path, stat, listed)
            },
            (CallStage::Reading { path, stat }, OpenEvent::Content(read)) => match read {
                Ok(content) => {
                    assert(serving_file(here, table@, cache@, path@, stat, Some(content@), None)
                        == serving_file(
                        old(self)@,
                        table@,
                        cache@,
                        path@,
                        stat,
                        Some(content@),
                        None,
                    ));
                    self.serve(table, path, stat, Some(content), None)
                },
                Err(failure) => OpenAction::Fail(
                    graph_path_errno(GraphPathError::Authority, failure, self.strict),
                ),
            },
            _ => OpenAction::Fail(EIO),
        }
    }

    /// Graph truth wins: where the graph has content, that seeds the file, over
    /// any stale copy on disk. Only an exact miss lets a new file be created,
    /// and only where creation was asked for.
    fn materialized(&mut self, read: Result<Vec<u8>, ClientCallFailure>) -> (r: OpenAction)
        requires
            old(self)@.stage is Finished,
        ensures
            ready(final(self)@),
            forall|t: fd_table::Table, m: statcache::Memory| #[trigger]
                next(
                    (Opening {
                        path: old(self)@.path,
                        flags: old(self)@.flags,
                        strict: old(self)@.strict,
                        pid: old(self)@.pid,
                        stage: Stage::Materializing,
                    }),
                    t,
                    m,
                    OpenEvent::Content(read)@,
                ) == (After { call: final(self)@, table: t, memory: m, action: r@ }),
    {
        match read {
            Ok(content) => {
                let temp = atomic_temp_path(self.path.as_slice(), self.pid);
                self.stage = CallStage::Seeding(to_vec(temp.as_slice()));
                OpenAction::Seed { target: to_vec(self.path.as_slice()), temp, content }
            },
            Err(failure) => {
                if failure != ClientCallFailure::NotFound {
                    OpenAction::Fail(graph_failure_errno_in_mode(failure, self.strict))
                } else if self.flags & O_CREAT == 0 {
                    OpenAction::Fail(graph_miss_errno_in_mode(self.strict))
                } else {
                    self.stage = CallStage::Creating;
                    OpenAction::OpenCaller
                }
            },
        }
    }

    /// Goes on with an entry that was found. Only a small file is fetched
    /// whole; a larger one is served by ranged reads.
    fn found(&mut self, table: &mut FdTable, path: Vec<u8>, stat: VirtualStat) -> (r: OpenAction)
        requires
            old(self)@.stage is Finished,
            old(table).well_formed(),
        ensures
            final(table).well_formed(),
            ready(final(self)@),
            forall|m: statcache::Memory| #[trigger]
                found(old(self)@, old(table)@, m, path@, stat) == (After {
                    call: final(self)@,
                    table: final(table)@,
                    memory: m,
                    action: r@,
                }),
    {
        let io: bool = io_permitted(self.flags);
        if stat.is_dir {
            if io {
                let dir = to_vec(path.as_slice());
                self.stage = CallStage::Listing { path, stat };
                OpenAction::ReadDir(dir)
            } else {
                let none: Vec<DirEntry> = Vec::new();
                assert(children(none@) =~= Seq::<Child>::empty());
                self.serve_directory(table, path, stat, &none)
            }
        } else if self.flags & O_DIRECTORY != 0 {
            OpenAction::Fail(ENOTDIR)
        } else if !stat.is_file {
            OpenAction::Fail(EINVAL)
        } else if io && stat.size <= SMALL_FILE_THRESHOLD as u64 {
            let file = to_vec(path.as_slice());
            self.stage = CallStage::Reading { path, stat };
            OpenAction::ReadFile(file)
        } else {
            self.serve(table, path, stat, None, None)
        }
    }

    /// Gives out a descriptor for a file, or for a link opened as a path.
    fn serve(
        &mut self,
        table: &mut FdTable,
        path: Vec<u8>,
        stat: VirtualStat,
        content: Option<Vec<u8>>,
        link_target: Option<Vec<u8>>,
    ) -> (r: OpenAction)
        requires
            old(self)@.stage is Finished,
            old(table).well_formed(),
        ensures
            final(table).well_formed(),
            *final(self) == *old(self),
            forall|m: statcache::Memory| #[trigger]
                serving_file(
                    old(self)@,
                    old(table)@,
                    m,
                    path@,
                    stat,
                    fd_table::opt_seq(content),
                    fd_table::opt_seq(link_target),
                ) == (After { call: final(self)@, table: final(table)@, memory: m, action: r@ }),
    {
        let options = OpenedFileOptions {
            io_permitted: io_permitted(self.flags),
            path_only: self.flags & O_PATH != 0,
            link_target,
            flags: self.flags,
        };
        match table.allocate_opened(path.as_slice(), stat, content, options) {
            Some(fd) => OpenAction::Return(fd),
            None => OpenAction::Fail(EIO),
        }
    }

    /// Gives out a descriptor for a directory.
    fn serve_directory(
        &mut self,
        table: &mut FdTable,
        path: Vec<u8>,
        stat: VirtualStat,
        entries: &Vec<DirEntry>,
    ) -> (r: OpenAction)
        requires
            old(self)@.stage is Finished,
            old(table).well_formed(),
        ensures
            final(table).well_formed(),
            *final(self) == *old(self),
            forall|m: statcache::Memory| #[trigger]
                serving_directory(
                    old(self)@,
                    old(table)@,
                    m,
                    path@,
                    stat,
                    children(entries@),
                ) == (After { call: final(self)@, table: final(table)@, memory: m, action: r@ }),
    {
        let raw = raw_dir_entries(entries);
        match table.allocate_opened_dir(
            path.as_slice(),
            stat,
            raw,
            io_permitted(self.flags),
            self.flags & O_PATH != 0,
            self.flags,
        ) {
            Some(fd) => OpenAction::Return(fd),
            None => OpenAction::Fail(
                graph_failure_errno_in_mode(ClientCallFailure::NoFailure, self.strict),
            ),
        }
    }

    /// Gives out a descriptor for a directory that was listed.
    fn listed(
        &mut self,
        table: &mut FdTable,
        path: Vec<u8>,
        stat: VirtualStat,
        listed: Result<Vec<DirEntry>, ClientCallFailure>,
    ) -> (r: OpenAction)
        requires
            old(self)@.stage is Finished,
            old(table).well_formed(),
        ensures
            final(table).well_formed(),
            *final(self) == *old(self),
            forall|m: statcache::Memory| #[trigger]
                next(
                    (Opening {
                        path: old(self)@.path,
                        flags: old(self)@.flags,
                        strict: old(self)@.strict,
                        pid: old(self)@.pid,
                        stage: Stage::Listing { path: path@, stat },
                    }),
                    old(table)@,
                    m,
                    OpenEvent::Listing(listed)@,
                ) == (After { call: final(self)@, table: final(table)@, memory: m, action: r@ }),
    {
        match listed {
            Ok(entries) => {
                proof {
                    let here = old(self)@;
                    let shown = children(entries@);
                    assert forall|m: statcache::Memory| #[trigger]
                        next(
                            (Opening {
                                path: here.path,
                                flags: here.flags,
                                strict: here.strict,
                                pid: here.pid,
                                stage: Stage::Listing { path: path@, stat },
                            }),
                            old(table)@,
                            m,
                            OpenEvent::Listing(listed)@,
                        ) == serving_directory(here, old(table)@, m, path@, stat, shown) by {}
                }
                self.serve_directory(table, path, stat, &entries)
            },
            Err(failure) => OpenAction::Fail(graph_failure_errno_in_mode(failure, self.strict)),
        }
    }
}

// ── Laws ────────────────────────────────────────────────────────────────

/// Whether a stage serves a read.
pub open spec fn reading(stage: Stage) -> bool {
    stage is Inspecting || stage is Linking || stage is Following || stage is Listing
        || stage is Reading
}

/// A read of a graph-owned path is never handed to the kernel, at its start or
/// later: it is answered from the graph, or it fails.
pub proof fn law_a_workspace_read_never_reaches_raw_disk(
    path: Seq<u8>,
    root: Option<Seq<u8>>,
    flags: i32,
    strict: bool,
    pid: i32,
    call: Opening,
    table: fd_table::Table,
    memory: statcache::Memory,
    event: Event,
)
    requires
        host_path::owned(path, root),
        !writes(flags),
        reading(call.stage),
    ensures
        match beginning(host_path::Resolution::Resolved(path), root, flags, strict, pid) {
            Start::Passthrough => false,
            Start::Fail(_) => true,
            Start::Call(begun, action) => reading(begun.stage) && action is Ask,
        },
        ({
            let after = next(call, table, memory, event);
            &&& reading(after.call.stage) || after.call.stage is Finished
            &&& after.action !is OpenCaller && after.action !is OpenTemp && after.action !is Seed
                && after.action !is Materialize
            &&& after.table.write_fds == table.write_fds
            &&& after.table.atomic_writes == table.atomic_writes
        }),
{
}

/// An open that asks for no right to the content gives a descriptor that permits
/// no I/O, marked as a path where only the path was asked for, and fetches no
/// content for it. A link that is opened as a path keeps its target.
pub proof fn law_an_open_without_rights_permits_no_io(
    path: Seq<u8>,
    root: Option<Seq<u8>>,
    strict: bool,
    pid: i32,
    call: Opening,
    table: fd_table::Table,
    memory: statcache::Memory,
    event: Event,
    fd: i32,
)
    requires
        !permits_io(call.flags),
        !writes(call.flags),
        host_path::owned(path, root),
        reading(call.stage),
        table.well_formed(),
    ensures
        match beginning(host_path::Resolution::Resolved(path), root, call.flags, strict, pid) {
            Start::Passthrough => false,
            Start::Fail(_) => true,
            Start::Call(begun, action) => (begun.stage is Inspecting || begun.stage is Following)
                && action is Ask,
        },
        ({
            let after = next(call, table, memory, event);
            &&& after.action !is ReadFile && after.action !is ReadDir
            &&& after.table.handles.contains_key(fd) && after.table.handles[fd]
                != table.handles[fd] ==> {
                let handle = after.table.handles[fd];
                &&& after.action == Action::Return(fd as int)
                &&& !handle.io_permitted
                &&& handle.path_only == names_path(call.flags)
                &&& call.stage is Linking <==> handle.link_target is Some
            }
        }),
        call.stage is Linking && event is Graph && event->answer is Link && table.has_room() ==> {
            let after = next(call, table, memory, event);
            event->answer->Link_0 matches Some(target) ==> {
                let given = table.next_free()->0 as i32;
                after.table.handles[given].link_target == Some(target)
            }
        },
{
    if table.has_room() {
        fd_table::law_virtual_descriptors_lie_above_the_base(table);
    }
}

/// A path outside the workspace is left to the kernel, whatever is asked for.
pub proof fn law_other_paths_are_passed_through(
    path: Seq<u8>,
    root: Option<Seq<u8>>,
    flags: i32,
    strict: bool,
    pid: i32,
)
    requires
        root is None || !pathmap::within_root(path, root->0),
    ensures
        beginning(host_path::Resolution::Resolved(path), root, flags, strict, pid) is Passthrough,
{
}

/// A write reaches the caller's own path only where the graph definitively has
/// no entry and creation was asked for; every other graph failure fails it.
pub proof fn law_only_a_creation_reaches_the_target_directly(
    call: Opening,
    table: fd_table::Table,
    memory: statcache::Memory,
    event: Event,
)
    ensures
        next(call, table, memory, event).action is OpenCaller <==> {
            &&& call.stage is Materializing
            &&& event == Event::Content(Err(ClientCallFailure::NotFound))
            &&& call.flags & O_CREAT != 0
        },
{
}

/// Content that the graph has seeds the temporary, never the target.
pub proof fn law_graph_content_seeds_the_temporary(
    call: Opening,
    table: fd_table::Table,
    memory: statcache::Memory,
    content: Seq<u8>,
)
    requires
        call.stage is Materializing,
    ensures
        next(call, table, memory, Event::Content(Ok(content))).action == (Action::Seed {
            target: call.path,
            temp: pathmap::temp_path_of(call.path, call.pid as int),
            content,
        }),
{
}

/// A large file is opened without fetching any of it.
pub proof fn law_large_files_are_not_prefetched(
    call: Opening,
    table: fd_table::Table,
    memory: statcache::Memory,
    path: Seq<u8>,
    stat: VirtualStat,
)
    requires
        stat.is_file && !stat.is_dir,
        stat.size > SMALL_FILE_THRESHOLD,
        call.flags & O_DIRECTORY == 0,
        table.has_room(),
    ensures
        ({
            let after = found(call, table, memory, path, stat);
            let fd = table.next_free()->0;
            &&& after.action == Action::Return(fd)
            &&& after.table.handles[fd as i32].size == stat.size
            &&& after.table.handles[fd as i32].cached_content is None
        }),
{
}

/// Flags ask for writing by a write access mode, by creation or by truncation,
/// unless they ask for a path alone; they ask for the content by any access mode
/// but the third, unless they ask for a path alone.
pub proof fn law_flags_say_what_is_asked_for(flags: i32)
    ensures
        names_path(flags) <==> flags & 0o10000000 != 0,
        writes(flags) <==> flags & 0o10000000 == 0 && (flags & 3 == 1 || flags & 3 == 2 || flags
            & 0o100 != 0 || flags & 0o1000 != 0),
        permits_io(flags) <==> flags & 0o10000000 == 0 && flags & 3 != 3,
{
    assert(flags & (0o100i32 | 0o1000i32) != 0 <==> flags & 0o100i32 != 0 || flags & 0o1000i32
        != 0) by (bit_vector);
}

/// A path that could not be placed fails the open with the number of its
/// failure: an ambiguous one is an I/O error, a bad descriptor is bad, and a
/// workspace path that has no key is denied where it would be resolved.
pub proof fn law_an_unusable_path_fails_the_open(
    path: Seq<u8>,
    root: Seq<u8>,
    flags: i32,
    strict: bool,
    pid: i32,
)
    ensures
        beginning(host_path::Resolution::Refused, Some(root), flags, strict, pid) == Start::Fail(5),
        beginning(host_path::Resolution::InvalidDescriptor, Some(root), flags, strict, pid)
            == Start::Fail(9),
        beginning(host_path::Resolution::Passthrough, Some(root), flags, strict, pid)
            == Start::Passthrough,
        host_path::owned(path, Some(root)) && !writes(flags) && flags & O_NOFOLLOW == 0
            && vfs_path::graph_key(path, root) is Err ==> beginning(
            host_path::Resolution::Resolved(path),
            Some(root),
            flags,
            strict,
            pid,
        ) == Start::Fail(13),
{
}

/// An open for writing that fails on the way fails with what failed: with the
/// number that seeding the temporary failed with, or with what the kernel
/// returned for opening. Nothing is tracked then.
pub proof fn law_a_failed_write_open_tracks_nothing(
    call: Opening,
    table: fd_table::Table,
    memory: statcache::Memory,
    temp: Seq<u8>,
    code: i32,
    fd: i32,
)
    requires
        fd < 0,
    ensures
        call.stage == Stage::Seeding(temp) ==> {
            let after = next(call, table, memory, Event::Seeded(Err(code)));
            after.action == Action::Fail(code) && after.table == table
        },
        call.stage == Stage::Seeding(temp) && temp.contains(0) ==> {
            let after = next(call, table, memory, Event::Seeded(Ok(())));
            after.action == Action::Fail(22) && after.table == table
        },
        call.stage == Stage::OpeningTemp(temp) || call.stage is Creating ==> {
            let after = next(call, table, memory, Event::Opened(fd));
            after.action == Action::Return(fd as int) && after.table == table
        },
{
}

} // verus!

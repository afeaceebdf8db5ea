//! Calls on a path that read nothing but metadata: the stat family, the access
//! family and the readlink family.
//!
//! A path in the workspace is answered by graph truth or not at all. The graph
//! is asked one question at a time: a call says what to ask, and goes on with
//! the answer.

use vstd::prelude::*;

use crate::bytes::{sub_vec, to_vec};
use crate::client::ClientCallFailure;
use crate::errno;
use crate::errno::{graph_failure_errno_in_mode, graph_mode_allows, graph_path_errno};
use crate::fd_table;
use crate::fd_table::{synthetic_inode, FdTable};
use crate::graph_walk;
use crate::graph_walk::{GraphAnswer, GraphProgress, GraphQuestion, GraphWalk, StatProbe};
use crate::hashing;
use crate::host_path;
use crate::host_path::{host_path_error_errno, is_workspace_path, HostPathResolution};
use crate::statcache;
use crate::statcache::StatCache;
use crate::statfill;
use crate::statfill::{fortify_within_bounds, stat_record, StatRecord};
use crate::sys::{AT_EMPTY_PATH, AT_SYMLINK_NOFOLLOW, EACCES, EBADF, EIO, O_CREAT};
use crate::vfs_path;
use crate::vfs_path::workspace_graph_key;

verus! {

/// What is asked of a path.
#[derive(Debug, Clone, Copy, PartialEq, Eq, Structural)]
pub enum PathRequest {
    /// Its metadata, a link at its end followed or not.
    Stat { follow: bool },
    /// Whether these permissions are granted.
    Access(i32),
    /// Where the link leads.
    ReadLink,
}

/// The request that `fstatat` or `statx` makes with these flags.
pub open spec fn requested_by(flags: i32) -> PathRequest {
    PathRequest::Stat { follow: flags & AT_SYMLINK_NOFOLLOW == 0 }
}

/// The request that `fstatat` or `statx` makes with these flags.
pub fn stat_request(flags: i32) -> (r: PathRequest)
    ensures
        r == requested_by(flags),
        r == (PathRequest::Stat { follow: flags & AT_SYMLINK_NOFOLLOW == 0 }),
{
    PathRequest::Stat { follow: flags & AT_SYMLINK_NOFOLLOW == 0 }
}

/// What a call needs next.
#[derive(Debug)]
pub enum PathAction {
    /// The answer to this question.
    Ask(GraphQuestion),
    /// Report this and succeed.
    Report(StatRecord),
    /// Succeed: the permissions are granted.
    Grant,
    /// Hand out this link target.
    Target(Vec<u8>),
    /// Fail with this errno.
    Fail(i32),
}

/// What a call needs next, over byte sequences.
pub enum Action {
    Ask(graph_walk::Question),
    Report(StatRecord),
    Grant,
    Target(Seq<u8>),
    Fail(i32),
}

impl View for PathAction {
    type V = Action;

    open spec fn view(&self) -> Action {
        match self {
            PathAction::Ask(q) => Action::Ask(q@),
            PathAction::Report(r) => Action::Report(*r),
            PathAction::Grant => Action::Grant,
            PathAction::Target(t) => Action::Target(t@),
            PathAction::Fail(code) => Action::Fail(*code),
        }
    }
}

/// Where a call stands.
pub enum Stage {
    /// The path itself was asked about.
    Entry,
    /// The path is being resolved.
    Following(graph_walk::Walk),
    /// The link at the path was asked for.
    Link,
    /// Nothing is outstanding.
    Finished,
}

/// A call under way.
pub struct Calling {
    pub path: Seq<u8>,
    pub request: PathRequest,
    pub strict: bool,
    pub stage: Stage,
}

/// How a call starts, over byte sequences.
pub enum Start {
    Passthrough,
    Fail(i32),
    Call(Calling, graph_walk::Question),
}

/// How a call on a path argument starts.
pub open spec fn beginning(
    request: PathRequest,
    resolution: host_path::Resolution,
    root: Option<Seq<u8>>,
    strict: bool,
) -> Start {
    match resolution {
        host_path::Resolution::Passthrough => Start::Passthrough,
        host_path::Resolution::Refused => Start::Fail(EIO),
        host_path::Resolution::InvalidDescriptor => Start::Fail(EBADF),
        host_path::Resolution::Resolved(path) => if !host_path::owned(path, root) {
            Start::Passthrough
        } else if request is ReadLink {
            Start::Call(
                Calling { path, request, strict, stage: Stage::Link },
                graph_walk::Question::ReadLink(path),
            )
        } else if request == (PathRequest::Stat { follow: false }) {
            Start::Call(
                Calling { path, request, strict, stage: Stage::Entry },
                graph_walk::Question::Stat(path),
            )
        } else {
            match vfs_path::graph_key(path, root->0) {
                Err(_) => Start::Fail(EACCES),
                Ok(key) => {
                    let walk = graph_walk::starting(root->0, key);
                    Start::Call(
                        Calling { path, request, strict, stage: Stage::Following(walk) },
                        graph_walk::question(walk),
                    )
                },
            }
        },
    }
}

/// Whether an answer is what the stage waits for.
pub open spec fn awaited(stage: Stage, answer: graph_walk::Answer) -> bool {
    match stage {
        Stage::Entry => answer is Stat,
        Stage::Following(walk) => graph_walk::well_formed(walk) && graph_walk::answers(
            walk,
            answer,
        ),
        Stage::Link => answer is Link,
        Stage::Finished => false,
    }
}

/// What is done about an entry that was found.
pub open spec fn settled(
    request: PathRequest,
    path: Seq<u8>,
    stat: crate::types::VirtualStat,
) -> Action {
    match request {
        PathRequest::Access(mode) => if errno::mode_allows(stat.mode, mode) {
            Action::Grant
        } else {
            Action::Fail(EACCES)
        },
        _ => Action::Report(statfill::record_of(stat, hashing::byte_hash(path))),
    }
}

/// The call, the memory and what is to be done, after an answer; `failure` is
/// how the daemon call went.
pub open spec fn next(
    call: Calling,
    memory: statcache::Memory,
    answer: graph_walk::Answer,
    failure: ClientCallFailure,
) -> (Calling, statcache::Memory, Action) {
    let done = Calling {
        path: call.path,
        request: call.request,
        strict: call.strict,
        stage: Stage::Finished,
    };
    match (call.stage, answer) {
        (Stage::Entry, graph_walk::Answer::Stat(StatProbe::Present { stat, .. })) => (
            done,
            memory,
            settled(call.request, call.path, stat),
        ),
        (Stage::Following(walk), _) => {
            let (walk, memory, progress) = graph_walk::next(walk, memory, answer);
            match progress {
                graph_walk::Progress::Ask(question) => (
                    Calling {
                        path: call.path,
                        request: call.request,
                        strict: call.strict,
                        stage: Stage::Following(walk),
                    },
                    memory,
                    Action::Ask(question),
                ),
                graph_walk::Progress::Done(Ok((path, stat))) => (
                    done,
                    memory,
                    settled(call.request, path, stat),
                ),
                graph_walk::Progress::Done(Err(error)) => (
                    done,
                    memory,
                    Action::Fail(errno::path_errno(error, failure, call.strict)),
                ),
            }
        },
        (Stage::Link, graph_walk::Answer::Link(Some(target))) => (
            done,
            memory,
            Action::Target(target),
        ),
        _ => (done, memory, Action::Fail(errno::failure_errno(failure, call.strict))),
    }
}

#[derive(Debug)]
enum CallStage {
    Entry,
    Following(GraphWalk),
    Link,
    Finished,
}

impl CallStage {
    spec fn view(&self) -> Stage {
        match self {
            CallStage::Entry => Stage::Entry,
            CallStage::Following(w) => Stage::Following(w@),
            CallStage::Link => Stage::Link,
            CallStage::Finished => Stage::Finished,
        }
    }
}

/// A call under way.
#[derive(Debug)]
pub struct PathCall {
    path: Vec<u8>,
    request: PathRequest,
    strict: bool,
    stage: CallStage,
}

impl View for PathCall {
    type V = Calling;

    closed spec fn view(&self) -> Calling {
        Calling {
            path: self.path@,
            request: self.request,
            strict: self.strict,
            stage: self.stage.view(),
        }
    }
}

/// How a call on a path argument starts.
#[derive(Debug)]
pub enum PathStart {
    /// The caller's own call answers.
    Passthrough,
    /// It fails with this errno.
    Fail(i32),
    /// It proceeds with this question.
    Call(PathCall, GraphQuestion),
}

/// What holds of a call at every point.
pub open spec fn ready(call: Calling) -> bool {
    call.stage matches Stage::Following(walk) ==> graph_walk::well_formed(walk)
}

/// Starts a call on a path argument.
pub fn begin_path_call(
    request: PathRequest,
    resolution: HostPathResolution,
    root: Option<&[u8]>,
    strict: bool,
) -> (r: PathStart)
    ensures
        match beginning(request, resolution@, host_path::opt_slice(root), strict) {
            Start::Passthrough => r is Passthrough,
            Start::Fail(code) => r == PathStart::Fail(code),
            Start::Call(call, question) => r matches PathStart::Call(c, q) && c@ == call && q@
                == question,
        },
        r matches PathStart::Call(c, _) ==> ready(c@),
{
    let code = host_path_error_errno(&resolution);
    let path = match resolution {
        HostPathResolution::Resolved(path) => path,
        _ => match code {
            Some(code) => {
                return PathStart::Fail(code);
            },
            None => {
                return PathStart::Passthrough;
            },
        },
    };
    let root = match root {
        Some(root) => root,
        None => {
            return PathStart::Passthrough;
        },
    };
    if !is_workspace_path(path.as_slice(), Some(root)) {
        return PathStart::Passthrough;
    }
    match request {
        PathRequest::ReadLink => {
            let host = to_vec(path.as_slice());
            PathStart::Call(
                PathCall { path, request, strict, stage: CallStage::Link },
                GraphQuestion::ReadLink(host),
            )
        },
        PathRequest::Stat { follow: false } => {
            let host = to_vec(path.as_slice());
            PathStart::Call(
                PathCall { path, request, strict, stage: CallStage::Entry },
                GraphQuestion::Stat(host),
            )
        },
        _ => match workspace_graph_key(path.as_slice(), root) {
            Err(_) => PathStart::Fail(EACCES),
            Ok(key) => {
                let (walk, question) = GraphWalk::start(root, &key);
                PathStart::Call(
                    PathCall { path, request, strict, stage: CallStage::Following(walk) },
                    question,
                )
            },
        },
    }
}

/// Does what is due about an entry that was found.
fn settle(request: PathRequest, path: &[u8], stat: &crate::types::VirtualStat) -> (r: PathAction)
    ensures
        r@ == settled(request, path@, *stat),
{
    match request {
        PathRequest::Access(mode) => {
            if graph_mode_allows(stat, mode) {
                PathAction::Grant
            } else {
                PathAction::Fail(EACCES)
            }
        },
        _ => PathAction::Report(stat_record(stat, synthetic_inode(path))),
    }
}

impl PathCall {
    /// Takes the answer to the last question, and how the daemon call went.
    pub fn advance(
        &mut self,
        cache: &mut StatCache,
        answer: GraphAnswer,
        failure: ClientCallFailure,
    ) -> (r: PathAction)
        requires
            old(cache).well_formed(),
            awaited(old(self)@.stage, answer@),
        ensures
            final(cache).well_formed(),
            ready(final(self)@),
            (final(self)@, final(cache)@, r@) == next(old(self)@, old(cache)@, answer@, failure),
    {
        let mut stage = CallStage::Finished;
        std::mem::swap(&mut self.stage, &mut stage);
        match stage {
            CallStage::Entry => match answer {
                GraphAnswer::Stat(StatProbe::Present { stat, .. }) => settle(
                    self.request,
                    self.path.as_slice(),
                    &stat,
                ),
                _ => PathAction::Fail(graph_failure_errno_in_mode(failure, self.strict)),
            },
            CallStage::Following(walk) => {
                let mut walk = walk;
                match walk.advance(cache, answer) {
                    GraphProgress::Ask(question) => {
                        self.stage = CallStage::Following(walk);
                        PathAction::Ask(question)
                    },
                    GraphProgress::Done(Ok((path, stat))) => settle(
                        self.request,
                        path.as_slice(),
                        &stat,
                    ),
                    GraphProgress::Done(Err(error)) => PathAction::Fail(
                        graph_path_errno(error, failure, self.strict),
                    ),
                }
            },
            CallStage::Link => match answer {
                GraphAnswer::Link(Some(target)) => PathAction::Target(target),
                _ => PathAction::Fail(graph_failure_errno_in_mode(failure, self.strict)),
            },
            CallStage::Finished => PathAction::Fail(
                graph_failure_errno_in_mode(failure, self.strict),
            ),
        }
    }
}

/// The part of a link target that a buffer of `bufsiz` bytes takes.
pub open spec fn link_part(target: Seq<u8>, bufsiz: int) -> Seq<u8> {
    if target.len() <= bufsiz {
        target
    } else {
        target.subrange(0, bufsiz)
    }
}

/// The part of a link target that a buffer of `bufsiz` bytes takes.
pub fn link_bytes(target: &[u8], bufsiz: usize) -> (r: Vec<u8>)
    ensures
        r@ == link_part(target@, bufsiz as int),
        r@ == if target@.len() <= bufsiz {
            target@
        } else {
            target@.subrange(0, bufsiz as int)
        },
{
    if target.len() <= bufsiz {
        to_vec(target)
    } else {
        sub_vec(target, 0, bufsiz)
    }
}

// ── statx ───────────────────────────────────────────────────────────────

/// What a `statx` is about.
#[derive(Debug)]
pub enum StatxTarget {
    /// Its path argument.
    Argument,
    /// A kernel descriptor: the kernel answers.
    Kernel,
    /// A virtual descriptor, of which this was captured at open.
    Captured(StatRecord),
    /// A virtual descriptor without a capture: this path.
    Path(Vec<u8>),
}

/// What a `statx` is about, over byte sequences.
pub enum Subject {
    Argument,
    Kernel,
    Captured(StatRecord),
    Path(Seq<u8>),
}

impl View for StatxTarget {
    type V = Subject;

    open spec fn view(&self) -> Subject {
        match self {
            StatxTarget::Argument => Subject::Argument,
            StatxTarget::Kernel => Subject::Kernel,
            StatxTarget::Captured(record) => Subject::Captured(*record),
            StatxTarget::Path(path) => Subject::Path(path@),
        }
    }
}

/// What a `statx` is about; `named` says that its path argument is not empty.
pub open spec fn subject(
    named: bool,
    flags: i32,
    dirfd: i32,
    base: i32,
    table: Option<fd_table::Table>,
) -> Subject {
    if flags & AT_EMPTY_PATH == 0 || named {
        Subject::Argument
    } else if dirfd < base || table is None || !table->0.handles.contains_key(dirfd) {
        Subject::Kernel
    } else {
        let handle = table->0.handles[dirfd];
        match handle.opened_stat {
            Some(stat) => Subject::Captured(statfill::record_of(stat, handle.opened_inode)),
            None => Subject::Path(handle.path),
        }
    }
}

/// Finds what a `statx` is about. With `AT_EMPTY_PATH` and no path it is the
/// descriptor itself.
pub fn statx_target(
    path: Option<&[u8]>,
    flags: i32,
    dirfd: i32,
    vfd_base: i32,
    table: Option<&FdTable>,
) -> (r: StatxTarget)
    ensures
        r@ == subject(
            path is Some && path->0@.len() > 0,
            flags,
            dirfd,
            vfd_base,
            match table {
                Some(t) => Some(t@),
                None => None,
            },
        ),
        if flags & AT_EMPTY_PATH == 0 || path is Some && path->0@.len() > 0 {
            r is Argument
        } else if dirfd < vfd_base || table is None || !table->0@.handles.contains_key(dirfd) {
            r is Kernel
        } else {
            let handle = table->0@.handles[dirfd];
            match handle.opened_stat {
                Some(stat) => r == StatxTarget::Captured(
                    statfill::record_of(stat, handle.opened_inode),
                ),
                None => r matches StatxTarget::Path(p) && p@ == handle.path,
            }
        },
{
    let empty: bool = match path {
        Some(path) => path.len() == 0,
        None => true,
    };
    if !empty || flags & AT_EMPTY_PATH == 0 {
        return StatxTarget::Argument;
    }
    if dirfd < vfd_base {
        return StatxTarget::Kernel;
    }
    match table {
        None => StatxTarget::Kernel,
        Some(table) => match table.get(dirfd) {
            None => StatxTarget::Kernel,
            Some(handle) => match &handle.opened_stat {
                Some(stat) => StatxTarget::Captured(stat_record(stat, handle.opened_inode)),
                None => StatxTarget::Path(to_vec(handle.path.as_slice())),
            },
        },
    }
}

/// Whether a raw system call is a `statx` to be served.
pub open spec fn statx_served(number: i64, statx_number: i64, disabled: bool) -> bool {
    number == statx_number && !disabled
}

/// Whether a fortified open goes to the entry point itself.
pub open spec fn open_delegated(flags: i32) -> bool {
    flags & O_CREAT != 0
}

/// Whether a fortified read goes to the entry point itself.
pub open spec fn read_delegated(
    disabled: bool,
    fd: i32,
    base: i32,
    nbytes: usize,
    buflen: usize,
) -> bool {
    disabled || fd < base || nbytes > buflen
}

/// Whether a fortified readlink goes to the entry point itself.
pub open spec fn readlink_delegated(disabled: bool, len: usize, buflen: usize) -> bool {
    disabled || len > buflen
}

/// Whether a raw system call is a `statx` to be served: every other number is
/// forwarded untouched.
pub fn syscall_is_statx(number: i64, statx_number: i64, disabled: bool) -> (r: bool)
    ensures
        r == statx_served(number, statx_number, disabled),
        r == (number == statx_number && !disabled),
{
    number == statx_number && !disabled
}

// ── Fortified entry points ──────────────────────────────────────────────

/// Whether a fortified open goes to the entry point itself: it aborts where a
/// mode would be needed and none was given.
pub fn fortified_open_delegates(flags: i32) -> (r: bool)
    ensures
        r == open_delegated(flags),
        r == (flags & O_CREAT != 0),
{
    flags & O_CREAT != 0
}

/// Whether a fortified read goes to the entry point itself: a descriptor of the
/// kernel's, or a request that overflows the caller's buffer.
pub fn fortified_read_delegates(
    disabled: bool,
    fd: i32,
    vfd_base: i32,
    nbytes: usize,
    buflen: usize,
) -> (r: bool)
    ensures
        r == read_delegated(disabled, fd, vfd_base, nbytes, buflen),
        r == (disabled || fd < vfd_base || nbytes > buflen),
{
    disabled || fd < vfd_base || !fortify_within_bounds(nbytes, buflen)
}

/// Whether a fortified readlink goes to the entry point itself.
pub fn fortified_readlink_delegates(disabled: bool, len: usize, buflen: usize) -> (r: bool)
    ensures
        r == readlink_delegated(disabled, len, buflen),
        r == (disabled || len > buflen),
{
    disabled || !fortify_within_bounds(len, buflen)
}

// ── Laws ────────────────────────────────────────────────────────────────

/// A call on a path of the workspace is never left to the kernel: it starts with
/// an errno or a question to the graph.
pub proof fn law_a_workspace_path_is_never_passed_through(
    request: PathRequest,
    path: Seq<u8>,
    root: Seq<u8>,
    strict: bool,
)
    requires
        host_path::owned(path, Some(root)),
    ensures
        !(beginning(request, host_path::Resolution::Resolved(path), Some(root), strict)
            is Passthrough),
{
}

/// A call succeeds only on what the graph says is there: metadata and access on
/// an entry that it holds, and a link's target as it answered it.
pub proof fn law_only_the_graph_grants(
    call: Calling,
    memory: statcache::Memory,
    answer: graph_walk::Answer,
    failure: ClientCallFailure,
)
    ensures
        next(call, memory, answer, failure).2 is Report || next(
            call,
            memory,
            answer,
            failure,
        ).2 is Grant ==> answer is Stat && answer->Stat_0 is Present,
        next(call, memory, answer, failure).2 matches Action::Target(target) ==> answer
            == graph_walk::Answer::Link(Some(target)),
{
}

/// A path outside the workspace is left to the kernel, whatever is asked of it.
pub proof fn law_other_paths_are_passed_through(
    request: PathRequest,
    path: Seq<u8>,
    root: Option<Seq<u8>>,
    strict: bool,
)
    requires
        root is None || !crate::pathmap::within_root(path, root->0),
    ensures
        beginning(request, host_path::Resolution::Resolved(path), root, strict) is Passthrough,
{
}

/// A path that is not asked to be followed is asked about as it stands, and
/// reported under its own inode.
pub proof fn law_an_unfollowed_path_is_reported_as_it_stands(
    call: Calling,
    memory: statcache::Memory,
    stat: crate::types::VirtualStat,
    generation: u64,
    failure: ClientCallFailure,
)
    requires
        call.stage is Entry,
        call.request is Stat,
    ensures
        next(
            call,
            memory,
            graph_walk::Answer::Stat(StatProbe::Present { stat, generation }),
            failure,
        ).2 == Action::Report(statfill::record_of(stat, hashing::byte_hash(call.path))),
{
}

/// What a call has come to.
pub struct Reached {
    pub call: Calling,
    pub memory: statcache::Memory,
    pub action: Action,
}

/// What a call comes to against an unchanging graph, after at most `rounds`
/// answers; `failure` is how a daemon call that found nothing went.
pub open spec fn run_call(
    graph: graph_walk::Graph,
    failure: ClientCallFailure,
    at: Reached,
    rounds: nat,
) -> Option<Action>
    decreases rounds,
{
    match at.action {
        Action::Ask(question) => if rounds == 0 {
            None
        } else {
            let (call, memory, action) = next(
                at.call,
                at.memory,
                graph_walk::reply(graph, question),
                failure,
            );
            run_call(graph, failure, Reached { call, memory, action }, (rounds - 1) as nat)
        },
        action => Some(action),
    }
}

/// A call as it starts.
pub open spec fn begun(
    request: PathRequest,
    root: Seq<u8>,
    path: Seq<u8>,
    strict: bool,
    memory: statcache::Memory,
) -> Reached {
    let start = beginning(request, host_path::Resolution::Resolved(path), Some(root), strict);
    Reached { call: start->Call_0, memory, action: Action::Ask(start->Call_1) }
}

/// While a call resolves its path, it does what the walk does.
proof fn lemma_call_walks(
    graph: graph_walk::Graph,
    failure: ClientCallFailure,
    at: Reached,
    rounds: nat,
)
    requires
        at.call.stage is Following,
        at.action == Action::Ask(graph_walk::question(at.call.stage->Following_0)),
        graph_walk::run(graph, at.call.stage->Following_0, at.memory, rounds) is Some,
    ensures
        run_call(graph, failure, at, rounds) == Some(
            match graph_walk::run(graph, at.call.stage->Following_0, at.memory, rounds)->0 {
                Ok((place, stat)) => settled(at.call.request, place, stat),
                Err(error) => Action::Fail(errno::path_errno(error, failure, at.call.strict)),
            },
        ),
    decreases rounds,
{
    let walk = at.call.stage->Following_0;
    let answer = graph_walk::reply(graph, graph_walk::question(walk));
    graph_walk::law_a_walk_asks_the_question_it_stands_at(walk, at.memory, answer);
    let (on, memory, progress) = graph_walk::next(walk, at.memory, answer);
    let (call, after, action) = next(at.call, at.memory, answer, failure);
    if progress is Ask {
        lemma_call_walks(
            graph,
            failure,
            Reached { call, memory: after, action },
            (rounds - 1) as nat,
        );
    } else {
        assert(run_call(graph, failure, Reached { call, memory: after, action }, (rounds - 1) as nat)
            == Some(action));
    }
}

/// A stat that follows links, and an access check, are about what the path
/// resolves to. Where the walk of the path ends at `place`, the stat reports the
/// length, the links, the times and the blocks of the entry there under the
/// inode of `place`, and access is granted or denied by the bits of that entry.
/// Where the path does not resolve, the call fails with the number of that
/// failure.
pub proof fn law_a_call_is_about_what_its_path_resolves_to(
    graph: graph_walk::Graph,
    failure: ClientCallFailure,
    root: Seq<u8>,
    key: Seq<u8>,
    path: Seq<u8>,
    mode: i32,
    strict: bool,
    memory: statcache::Memory,
    rounds: nat,
)
    requires
        host_path::owned(path, Some(root)),
        vfs_path::graph_key(path, root) == Ok::<Seq<u8>, vfs_path::WorkspacePathError>(key),
        graph_walk::run(graph, graph_walk::starting(root, key), memory, rounds) is Some,
    ensures
        ({
            let outcome = graph_walk::run(
                graph,
                graph_walk::starting(root, key),
                memory,
                rounds,
            )->0;
            let stat_request = PathRequest::Stat { follow: true };
            let reported = run_call(
                graph,
                failure,
                begun(stat_request, root, path, strict, memory),
                rounds,
            );
            let checked = run_call(
                graph,
                failure,
                begun(PathRequest::Access(mode), root, path, strict, memory),
                rounds,
            );
            &&& reported is Some && checked is Some
            &&& match outcome {
                Ok((place, stat)) => {
                    &&& reported->0 is Report
                    &&& reported->0->Report_0.ino == hashing::byte_hash(place)
                    &&& reported->0->Report_0.size == stat.size
                    &&& reported->0->Report_0.nlink == stat.nlink
                    &&& reported->0->Report_0.mtime == stat.mtime
                    &&& reported->0->Report_0.ctime == stat.ctime
                    &&& reported->0->Report_0 == statfill::record_of(stat, hashing::byte_hash(place))
                    &&& checked->0 == if errno::mode_allows(stat.mode, mode) {
                        Action::Grant
                    } else {
                        Action::Fail(13)
                    }
                },
                Err(error) => {
                    &&& reported->0 == Action::Fail(errno::path_errno(error, failure, strict))
                    &&& checked->0 == reported->0
                },
            }
        }),
{
    lemma_call_walks(
        graph,
        failure,
        begun(PathRequest::Stat { follow: true }, root, path, strict, memory),
        rounds,
    );
    lemma_call_walks(
        graph,
        failure,
        begun(PathRequest::Access(mode), root, path, strict, memory),
        rounds,
    );
}

/// A stat that does not follow links, and a readlink, ask the graph about the
/// path itself, once: the stat reports the entry there under the inode of the
/// path, the readlink hands out the bytes of the link as they are. Where the
/// graph holds no such thing, either fails with the number of that failure.
pub proof fn law_an_unfollowed_call_is_about_the_path_itself(
    graph: graph_walk::Graph,
    failure: ClientCallFailure,
    root: Seq<u8>,
    path: Seq<u8>,
    strict: bool,
    memory: statcache::Memory,
)
    requires
        host_path::owned(path, Some(root)),
    ensures
        ({
            let stat_request = PathRequest::Stat { follow: false };
            let reported = run_call(
                graph,
                failure,
                begun(stat_request, root, path, strict, memory),
                1,
            );
            let linked = run_call(
                graph,
                failure,
                begun(PathRequest::ReadLink, root, path, strict, memory),
                1,
            );
            &&& reported == Some(
                match (graph.stat)(path) {
                    StatProbe::Present { stat, .. } => Action::Report(
                        statfill::record_of(stat, hashing::byte_hash(path)),
                    ),
                    _ => Action::Fail(errno::failure_errno(failure, strict)),
                },
            )
            &&& linked == Some(
                match (graph.link)(path) {
                    Some(target) => Action::Target(target),
                    None => Action::Fail(errno::failure_errno(failure, strict)),
                },
            )
        }),
{
    let one = begun(PathRequest::Stat { follow: false }, root, path, strict, memory);
    let (call, after, action) = next(
        one.call,
        one.memory,
        graph_walk::reply(graph, one.action->Ask_0),
        failure,
    );
    assert(run_call(graph, failure, Reached { call, memory: after, action }, 0) == Some(action));
    let two = begun(PathRequest::ReadLink, root, path, strict, memory);
    let (call, after, action) = next(
        two.call,
        two.memory,
        graph_walk::reply(graph, two.action->Ask_0),
        failure,
    );
    assert(run_call(graph, failure, Reached { call, memory: after, action }, 0) == Some(action));
}

/// A readlink hands out the start of the target, as much as the buffer takes.
pub proof fn law_a_short_buffer_gets_the_start_of_the_target(target: Seq<u8>, bufsiz: nat)
    ensures
        link_part(target, bufsiz as int).is_prefix_of(target),
        link_part(target, bufsiz as int).len() == if target.len() <= bufsiz {
            target.len()
        } else {
            bufsiz
        },
{
}

/// A `statx` of a virtual descriptor itself is what an `fstat` of it would be:
/// the captured metadata under the captured inode, or the path of the descriptor
/// where nothing was captured. With a path, or without leave to take an empty
/// one, it is about its path argument; and a descriptor of the kernel's is the
/// kernel's.
pub proof fn law_a_statx_of_a_descriptor_is_about_what_was_opened(
    named: bool,
    flags: i32,
    dirfd: i32,
    base: i32,
    table: fd_table::Table,
)
    ensures
        named || flags & 0x1000 == 0 ==> subject(named, flags, dirfd, base, Some(table))
            is Argument,
        !named && flags & 0x1000 != 0 ==> {
            &&& dirfd < base || !table.handles.contains_key(dirfd) ==> subject(
                named,
                flags,
                dirfd,
                base,
                Some(table),
            ) is Kernel
            &&& subject(named, flags, dirfd, base, None) is Kernel
            &&& dirfd >= base && table.handles.contains_key(dirfd) ==> match subject(
                named,
                flags,
                dirfd,
                base,
                Some(table),
            ) {
                Subject::Captured(record) => table.handles[dirfd].opened_stat matches Some(stat)
                    && record == statfill::record_of(stat, table.handles[dirfd].opened_inode),
                Subject::Path(path) => table.handles[dirfd].opened_stat is None && path
                    == table.handles[dirfd].path,
                _ => false,
            }
        },
{
}

/// A path that could not be placed fails the call with the number of its
/// failure: an ambiguous one is an I/O error, a bad descriptor is bad, and a
/// workspace path that has no key is denied where it would be resolved.
pub proof fn law_an_unusable_path_fails_the_call(
    request: PathRequest,
    path: Seq<u8>,
    root: Seq<u8>,
    mode: i32,
    strict: bool,
)
    ensures
        beginning(request, host_path::Resolution::Refused, Some(root), strict) == Start::Fail(5),
        beginning(request, host_path::Resolution::InvalidDescriptor, Some(root), strict)
            == Start::Fail(9),
        beginning(request, host_path::Resolution::Passthrough, Some(root), strict)
            == Start::Passthrough,
        host_path::owned(path, Some(root)) && vfs_path::graph_key(path, root) is Err ==> beginning(
            PathRequest::Access(mode),
            host_path::Resolution::Resolved(path),
            Some(root),
            strict,
        ) == Start::Fail(13) && beginning(
            PathRequest::Stat { follow: true },
            host_path::Resolution::Resolved(path),
            Some(root),
            strict,
        ) == Start::Fail(13),
{
}

/// A stat follows a link at the end of the path unless the flags say not to.
pub proof fn law_a_stat_follows_unless_told_not_to(flags: i32)
    ensures
        flags & 0x100 == 0 ==> requested_by(flags) == (PathRequest::Stat { follow: true }),
        flags & 0x100 != 0 ==> requested_by(flags) == (PathRequest::Stat { follow: false }),
{
}

/// A fortified call goes to its own entry point exactly where that point would
/// abort or the call is not ours: where the request is longer than the buffer,
/// where a mode is needed that was not given, where the descriptor is the
/// kernel's, or where everything is passed through.
pub proof fn law_a_fortified_call_keeps_its_own_check(
    disabled: bool,
    fd: i32,
    base: i32,
    nbytes: usize,
    buflen: usize,
    flags: i32,
)
    ensures
        nbytes > buflen ==> read_delegated(disabled, fd, base, nbytes, buflen)
            && readlink_delegated(disabled, nbytes, buflen),
        fd < base ==> read_delegated(disabled, fd, base, nbytes, buflen),
        disabled ==> read_delegated(disabled, fd, base, nbytes, buflen) && readlink_delegated(
            disabled,
            nbytes,
            buflen,
        ),
        !disabled && fd >= base && nbytes <= buflen ==> !read_delegated(
            disabled,
            fd,
            base,
            nbytes,
            buflen,
        ),
        !disabled && nbytes <= buflen ==> !readlink_delegated(disabled, nbytes, buflen),
        open_delegated(flags) <==> flags & 0o100 != 0,
{
}

/// Of the raw system calls only a `statx` is served, and only while the shim is
/// on.
pub proof fn law_only_a_statx_is_served(number: i64, statx: i64)
    ensures
        statx_served(statx, statx, false),
        !statx_served(number, statx, true),
        number != statx ==> !statx_served(number, statx, false),
{
}

} // verus!

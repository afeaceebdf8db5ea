//! Whole lives of workspace files: opened, read, listed, written and closed.
//!
//! Each law here runs the steps of a call one after the other, or one call
//! after another, and says what comes out at the end.

use vstd::prelude::*;

use crate::bytes;
use crate::bytes::SLASH;
use crate::client::ClientCallFailure;
use crate::errno;
use crate::fd_calls;
use crate::fd_table;
use crate::graph_walk;
use crate::graph_walk::StatProbe;
use crate::hashing;
use crate::host_path;
use crate::open_call;
use crate::pathmap;
use crate::statcache;
use crate::sys::{O_CREAT, O_DIRECTORY, O_NOFOLLOW};
use crate::types::{FileType, VirtualStat};
use crate::vfs_path;

verus! {

// ── Writing ─────────────────────────────────────────────────────────────

/// Whether `path` is the host path of `key` in a workspace at `root`.
pub open spec fn workspace_file(root: Seq<u8>, key: Seq<u8>, path: Seq<u8>) -> bool {
    &&& root.len() > 0
    &&& root.last() != SLASH
    &&& vfs_path::is_key(key)
    &&& key.len() > 0
    &&& path == root + seq![SLASH] + key
    &&& !bytes::occurs(path, bytes::ascii(".kin_tmp_"@))
}

proof fn lemma_workspace_file(root: Seq<u8>, key: Seq<u8>, path: Seq<u8>)
    requires
        workspace_file(root, key, path),
    ensures
        host_path::owned(path, Some(root)),
        vfs_path::graph_key(path, root) == Ok::<Seq<u8>, vfs_path::WorkspacePathError>(key),
        pathmap::joined_at(root, key) == path,
{
    pathmap::lemma_split_fields(key, SLASH);
    let first = vfs_path::key_components(key)[0];
    assert(pathmap::is_name(first));
    pathmap::lemma_join_split(key);
    pathmap::lemma_join_first(vfs_path::key_components(key));
    vfs_path::law_key_round_trips_through_the_host(root, key);
    pathmap::law_a_sibling_lies_outside(root, SLASH, key);
}

/// A write to a file that the graph holds lands on that file. The temporary is
/// seeded with the content of the graph, what is opened is the temporary, and
/// when the descriptor is closed the temporary is renamed onto the file that was
/// opened, whose own key is then announced. A close or a rename that failed
/// announces nothing.
pub proof fn law_a_write_lands_on_the_file_that_was_opened(
    root: Seq<u8>,
    key: Seq<u8>,
    path: Seq<u8>,
    flags: i32,
    strict: bool,
    pid: i32,
    table: fd_table::Table,
    memory: statcache::Memory,
    content: Seq<u8>,
    fd: i32,
    ret: i32,
)
    requires
        workspace_file(root, key, path),
        !path.contains(0),
        open_call::writes(flags),
        0 <= fd < table.base,
        ret != 0,
    ensures
        ({
            let begun = open_call::beginning(
                host_path::Resolution::Resolved(path),
                Some(root),
                flags,
                strict,
                pid,
            );
            let asked = open_call::next(
                begun->Call_0,
                table,
                memory,
                open_call::Event::Content(Ok(content)),
            );
            let temp = asked.action->temp;
            let seeded = open_call::next(
                asked.call,
                asked.table,
                asked.memory,
                open_call::Event::Seeded(Ok(())),
            );
            let opened = open_call::next(
                seeded.call,
                seeded.table,
                seeded.memory,
                open_call::Event::Opened(fd),
            );
            let (after, closing) = fd_calls::starting_close(opened.table, fd);
            let atomic = closing->atomic;
            let written = closing->written;
            &&& begun is Call
            &&& begun->Call_1 == open_call::Action::Materialize(path)
            &&& asked.action == (open_call::Action::Seed { target: path, temp, content })
            &&& path.is_prefix_of(temp) && temp != path
            &&& seeded.action == open_call::Action::OpenTemp(temp)
            &&& opened.action == open_call::Action::Return(fd as int)
            &&& closing is Real
            &&& fd_calls::closed_really(atomic, written, 0, Some(root)) == (
            fd_calls::CloseAction::Rename { temp, target: path })
            &&& fd_calls::renamed_onto(written, true, Some(root))
                == fd_calls::CloseAction::Announce(key)
            &&& fd_calls::closed_really(atomic, written, ret, Some(root))
                == fd_calls::CloseAction::Return(ret)
            &&& fd_calls::renamed_onto(written, false, Some(root)) == fd_calls::CloseAction::Fail(5)
            &&& !after.write_fds.contains_key(fd) && !after.atomic_writes.contains_key(fd)
            &&& forall|other: i32|
                other != fd ==> #[trigger] after.atomic_writes.get(other)
                    == table.atomic_writes.get(other)
            &&& forall|other: i32|
                other != fd ==> #[trigger] after.write_fds.get(other) == table.write_fds.get(other)
            &&& after.handles == table.handles && after.open_files == table.open_files
        }),
{
    lemma_workspace_file(root, key, path);
    let temp = pathmap::temp_path_of(path, pid as int);
    crate::text::lemma_signed_decimal(pid as int);
    reveal_strlit(".kin_tmp_");
    let suffix = pathmap::temp_marker() + crate::text::signed_decimal(pid as int);
    assert(temp =~= path + suffix);
    assert(path =~= temp.subrange(0, path.len() as int));
    assert(!temp.contains(0)) by {
        if temp.contains(0) {
            let i = choose|i: int| 0 <= i < temp.len() && temp[i] == 0;
            if i < path.len() {
                assert(path[i] == 0);
            } else if i < path.len() + 9 {
                assert(pathmap::temp_marker()[i - path.len()] == 0);
            } else {
                assert(crate::text::signed_decimal(pid as int)[i - path.len() - 9] == 0);
            }
        }
    }
}

/// A file that the graph does not hold is created at its own path, where the
/// caller asked for that, and announced under its own key when it was closed;
/// nothing is renamed. Where the caller did not ask for it, the file is missing,
/// and every other failure of the graph fails the open.
pub proof fn law_only_a_requested_file_is_created(
    root: Seq<u8>,
    key: Seq<u8>,
    path: Seq<u8>,
    flags: i32,
    strict: bool,
    pid: i32,
    table: fd_table::Table,
    memory: statcache::Memory,
    failure: ClientCallFailure,
    fd: i32,
)
    requires
        workspace_file(root, key, path),
        open_call::writes(flags),
        0 <= fd < table.base,
        !table.atomic_writes.contains_key(fd),
    ensures
        ({
            let begun = open_call::beginning(
                host_path::Resolution::Resolved(path),
                Some(root),
                flags,
                strict,
                pid,
            );
            let asked = open_call::next(
                begun->Call_0,
                table,
                memory,
                open_call::Event::Content(Err(failure)),
            );
            let opened = open_call::next(
                asked.call,
                asked.table,
                asked.memory,
                open_call::Event::Opened(fd),
            );
            let (after, closing) = fd_calls::starting_close(opened.table, fd);
            &&& begun is Call
            &&& asked.action is OpenCaller <==> failure == ClientCallFailure::NotFound && flags
                & O_CREAT != 0
            &&& asked.action !is OpenCaller ==> asked.action is Fail && asked.table == table
            &&& failure == ClientCallFailure::NotFound && flags & O_CREAT == 0 ==> asked.action
                == open_call::Action::Fail(
                if strict {
                    5
                } else {
                    2
                },
            )
            &&& asked.action is OpenCaller ==> {
                &&& opened.action == open_call::Action::Return(fd as int)
                &&& closing is Real
                &&& fd_calls::closed_really(closing->atomic, closing->written, 0, Some(root))
                    == fd_calls::CloseAction::Announce(key)
            }
        }),
{
    lemma_workspace_file(root, key, path);
}

// ── Reading ─────────────────────────────────────────────────────────────

/// What an unchanging daemon answers.
pub struct World {
    pub graph: graph_walk::Graph,
    pub content: spec_fn(Seq<u8>) -> Result<Seq<u8>, ClientCallFailure>,
    pub listing: spec_fn(Seq<u8>) -> Result<Seq<open_call::Child>, ClientCallFailure>,
    pub failure: ClientCallFailure,
}

/// What comes of an action of an open that serves a read.
pub open spec fn answer(world: World, action: open_call::Action) -> open_call::Event {
    match action {
        open_call::Action::Ask(question) => open_call::Event::Graph {
            answer: graph_walk::reply(world.graph, question),
            failure: world.failure,
        },
        open_call::Action::ReadDir(path) => open_call::Event::Listing((world.listing)(path)),
        open_call::Action::ReadFile(path) => open_call::Event::Content((world.content)(path)),
        _ => open_call::Event::Opened(-1i32),
    }
}

/// What an open has come to when it needs nothing more of the daemon, after at
/// most `rounds` answers.
pub open spec fn run_open(
    world: World,
    at: open_call::After,
    rounds: nat,
) -> Option<open_call::After>
    decreases rounds,
{
    if at.action is Return || at.action is Fail {
        Some(at)
    } else if rounds == 0 {
        None
    } else {
        run_open(
            world,
            open_call::next(at.call, at.table, at.memory, answer(world, at.action)),
            (rounds - 1) as nat,
        )
    }
}

/// An open as it starts.
pub open spec fn begun(
    root: Seq<u8>,
    path: Seq<u8>,
    flags: i32,
    strict: bool,
    pid: i32,
    table: fd_table::Table,
    memory: statcache::Memory,
) -> open_call::After {
    let start = open_call::beginning(
        host_path::Resolution::Resolved(path),
        Some(root),
        flags,
        strict,
        pid,
    );
    open_call::After { call: start->Call_0, table, memory, action: start->Call_1 }
}

/// While an open resolves its path, it does what the walk does.
proof fn lemma_open_walks(world: World, at: open_call::After, rounds: nat) -> (r: (
    nat,
    statcache::Memory,
))
    requires
        at.call.stage is Following,
        at.action == open_call::Action::Ask(graph_walk::question(at.call.stage->Following_0)),
        graph_walk::run(world.graph, at.call.stage->Following_0, at.memory, rounds) is Some,
    ensures
        ({
            let (more, m) = r;
            let outcome = graph_walk::run(
                world.graph,
                at.call.stage->Following_0,
                at.memory,
                rounds,
            )->0;
            match outcome {
                Ok((q, stat)) => forall|extra: nat|
                    run_open(world, at, more + extra) == #[trigger] run_open(
                        world,
                        open_call::found(at.call, at.table, m, q, stat),
                        extra,
                    ),
                Err(error) => run_open(world, at, more) is Some && run_open(
                    world,
                    at,
                    more,
                )->0.action == open_call::Action::Fail(
                    errno::path_errno(error, world.failure, at.call.strict),
                ) && run_open(world, at, more)->0.table == at.table,
            }
        }),
    decreases rounds,
{
    let walk = at.call.stage->Following_0;
    let step = graph_walk::next(
        walk,
        at.memory,
        graph_walk::reply(world.graph, graph_walk::question(walk)),
    );
    graph_walk::law_a_walk_asks_the_question_it_stands_at(
        walk,
        at.memory,
        graph_walk::reply(world.graph, graph_walk::question(walk)),
    );
    let after = open_call::next(at.call, at.table, at.memory, answer(world, at.action));
    match step.2 {
        graph_walk::Progress::Done(Ok((q, stat))) => {
            let m = step.1;
            assert(after == open_call::found(at.call, at.table, m, q, stat));
            assert forall|extra: nat|
                run_open(world, at, 1 + extra) == #[trigger] run_open(
                    world,
                    open_call::found(at.call, at.table, m, q, stat),
                    extra,
                ) by {
                assert((1 + extra - 1) as nat == extra);
            }
            (1, m)
        },
        graph_walk::Progress::Done(Err(error)) => {
            assert(run_open(world, after, 0) == Some(after));
            assert(run_open(world, at, 1) == run_open(world, after, 0));
            (1, step.1)
        },
        graph_walk::Progress::Ask(question) => {
            let fewer = (rounds - 1) as nat;
            let (more, m) = lemma_open_walks(world, after, fewer);
            match graph_walk::run(world.graph, step.0, step.1, fewer)->0 {
                Ok((q, stat)) => {
                    assert(open_call::found(after.call, after.table, m, q, stat)
                        == open_call::found(at.call, at.table, m, q, stat));
                    assert forall|extra: nat|
                        run_open(world, at, more + 1 + extra) == #[trigger] run_open(
                            world,
                            open_call::found(at.call, at.table, m, q, stat),
                            extra,
                        ) by {
                        assert((more + 1 + extra - 1) as nat == more + extra);
                    }
                },
                Err(error) => {
                    assert(run_open(world, at, more + 1) == run_open(world, after, more));
                },
            }
            (more + 1, m)
        },
    }
}

/// An open for reading opens what its path resolves to. Where the walk of the
/// path ends at `place`, a small file is read from `place`, a directory is
/// listed at `place`, and a large file is served from there without being
/// fetched; the new descriptor is the next free one, at the start of `place`,
/// with what the graph said of it. Where the path does not resolve, the open
/// fails with the number of that failure and the table stays as it was.
pub proof fn law_an_open_reads_what_its_path_resolves_to(
    world: World,
    root: Seq<u8>,
    key: Seq<u8>,
    path: Seq<u8>,
    flags: i32,
    strict: bool,
    pid: i32,
    table: fd_table::Table,
    memory: statcache::Memory,
    rounds: nat,
) -> (more: nat)
    requires
        workspace_file(root, key, path),
        !open_call::writes(flags),
        open_call::permits_io(flags),
        flags & O_NOFOLLOW == 0,
        table.well_formed(),
        table.has_room(),
        graph_walk::run(world.graph, graph_walk::starting(root, key), memory, rounds) is Some,
    ensures
        ({
            let outcome = graph_walk::run(
                world.graph,
                graph_walk::starting(root, key),
                memory,
                rounds,
            )->0;
            let end = run_open(world, begun(root, path, flags, strict, pid, table, memory), more);
            let fd = table.next_free()->0;
            let handle = end->0.table.handles[fd as i32];
            &&& end is Some
            &&& match outcome {
                Err(error) => {
                    &&& end->0.action == open_call::Action::Fail(
                        errno::path_errno(error, world.failure, strict),
                    )
                    &&& end->0.table == table
                },
                Ok((place, stat)) => if stat.is_dir {
                    match (world.listing)(place) {
                        Ok(children) => {
                            &&& end->0.action == open_call::Action::Return(fd)
                            &&& opened_at(end->0.table, table, fd, handle, place, stat, flags)
                            &&& handle.is_directory
                            &&& handle.dir_entries is Some
                            &&& handle.dir_entries->0.len() == children.len()
                            &&& forall|i: int|
                                0 <= i < children.len() ==> shows(
                                    #[trigger] handle.dir_entries->0[i],
                                    children[i],
                                )
                        },
                        Err(failure) => end->0.action == open_call::Action::Fail(
                            errno::failure_errno(failure, strict),
                        ) && end->0.table == table,
                    }
                } else if flags & O_DIRECTORY != 0 {
                    end->0.action == open_call::Action::Fail(20) && end->0.table == table
                } else if !stat.is_file {
                    end->0.action == open_call::Action::Fail(22) && end->0.table == table
                } else if stat.size <= 65536 {
                    match (world.content)(place) {
                        Ok(content) => {
                            &&& end->0.action == open_call::Action::Return(fd)
                            &&& opened_at(end->0.table, table, fd, handle, place, stat, flags)
                            &&& !handle.is_directory
                            &&& handle.size == stat.size
                            &&& content.len() <= 65536 ==> handle.cached_content == Some(content)
                        },
                        Err(failure) => end->0.action == open_call::Action::Fail(
                            errno::failure_errno(failure, strict),
                        ) && end->0.table == table,
                    }
                } else {
                    &&& end->0.action == open_call::Action::Return(fd)
                    &&& opened_at(end->0.table, table, fd, handle, place, stat, flags)
                    &&& !handle.is_directory
                    &&& handle.size == stat.size
                    &&& handle.cached_content is None
                },
            }
        }),
{
    lemma_workspace_file(root, key, path);
    let at = begun(root, path, flags, strict, pid, table, memory);
    let walk = graph_walk::starting(root, key);
    assert(at.call.stage == open_call::Stage::Following(walk));
    fd_table::law_virtual_descriptors_lie_above_the_base(table);
    let (steps, m) = lemma_open_walks(world, at, rounds);
    match graph_walk::run(world.graph, walk, memory, rounds)->0 {
        Err(error) => steps,
        Ok((place, stat)) => {
            let found = open_call::found(at.call, at.table, m, place, stat);
            assert(run_open(world, at, steps + 1) == run_open(world, found, 1));
            if !(found.action is Return || found.action is Fail) {
                let last = open_call::next(
                    found.call,
                    found.table,
                    found.memory,
                    answer(world, found.action),
                );
                assert(run_open(world, last, 0) == Some(last));
                assert(run_open(world, found, 1) == run_open(world, last, 0));
            }
            steps + 1
        },
    }
}

/// Whether a descriptor is new and stands at the start of the entry at `place`.
pub open spec fn opened_at(
    after: fd_table::Table,
    before: fd_table::Table,
    fd: int,
    handle: fd_table::Handle,
    place: Seq<u8>,
    stat: VirtualStat,
    flags: i32,
) -> bool {
    &&& !before.handles.contains_key(fd as i32)
    &&& after.handles == before.handles.insert(fd as i32, handle)
    &&& !before.open_files.contains_key(handle.open_file)
    &&& after.state_of(fd as i32).offset == 0
    &&& after.state_of(fd as i32).dir_offset == 0
    &&& !after.state_of(fd as i32).flocked
    &&& after.write_fds == before.write_fds
    &&& after.atomic_writes == before.atomic_writes
    &&& handle.path == place
    &&& handle.opened_stat == Some(stat)
    &&& handle.io_permitted
    &&& !handle.path_only
    &&& !handle.kernel_backed
    &&& handle.status_flags == flags & !0o2000000i32
    &&& handle.descriptor_flags == if flags & 0o2000000i32 != 0 {
        1i32
    } else {
        0
    }
    &&& stat.object_id is None ==> handle.opened_inode == hashing::byte_hash(place)
}

/// Whether a directory entry shows a child: its own name, the number of that
/// name, and the record type of what it is.
pub open spec fn shows(entry: fd_table::RawEntry, child: open_call::Child) -> bool {
    &&& entry.name == child.name
    &&& entry.d_ino == hashing::byte_hash(child.name)
    &&& entry.d_type == match child.file_type {
        FileType::File => 8u8,
        FileType::Directory => 4,
        FileType::Symlink => 10,
        FileType::Gitlink => 4,
    }
}

/// A directory shows every child that was listed, once and in order, under the
/// child's own name and with its own type; so children with different names are
/// shown as different entries.
pub proof fn law_a_listing_shows_every_child(children: Seq<open_call::Child>)
    ensures
        open_call::child_entries(children).len() == children.len(),
        forall|i: int|
            0 <= i < children.len() ==> shows(
                #[trigger] open_call::child_entries(children)[i],
                children[i],
            ),
        forall|i: int, j: int|
            #![trigger open_call::child_entries(children)[i], open_call::child_entries(children)[j]]
            0 <= i < children.len() && 0 <= j < children.len() && children[i].name
                != children[j].name ==> open_call::child_entries(children)[i].name
                != open_call::child_entries(children)[j].name,
{
}

/// An open for reading that follows no link opens the entry at its own path, and
/// fails with the number of a loop where that is a link.
pub proof fn law_an_open_without_following_opens_its_own_path(
    world: World,
    root: Seq<u8>,
    key: Seq<u8>,
    path: Seq<u8>,
    flags: i32,
    strict: bool,
    pid: i32,
    table: fd_table::Table,
    memory: statcache::Memory,
    stat: VirtualStat,
    generation: u64,
)
    requires
        workspace_file(root, key, path),
        !open_call::writes(flags),
        open_call::permits_io(flags),
        flags & O_NOFOLLOW != 0,
        table.well_formed(),
        table.has_room(),
        (world.graph.stat)(path) == (StatProbe::Present { stat, generation }),
    ensures
        ({
            let end = run_open(world, begun(root, path, flags, strict, pid, table, memory), 2);
            let fd = table.next_free()->0;
            let handle = end->0.table.handles[fd as i32];
            &&& end is Some
            &&& stat.is_symlink ==> end->0.action == open_call::Action::Fail(40)
            &&& !stat.is_symlink && !stat.is_dir && stat.is_file && flags & O_DIRECTORY == 0 ==> {
                (world.content)(path) matches Ok(content) ==> {
                    &&& end->0.action == open_call::Action::Return(fd)
                    &&& opened_at(end->0.table, table, fd, handle, path, stat, flags)
                    &&& handle.size == stat.size
                    &&& stat.size <= 65536 && content.len() <= 65536 ==> handle.cached_content
                        == Some(content)
                }
            }
        }),
{
    lemma_workspace_file(root, key, path);
    fd_table::law_virtual_descriptors_lie_above_the_base(table);
    let at = begun(root, path, flags, strict, pid, table, memory);
    let one = open_call::next(at.call, at.table, at.memory, answer(world, at.action));
    let two = open_call::next(one.call, one.table, one.memory, answer(world, one.action));
    assert(run_open(world, at, 2) == run_open(world, one, 1));
    if one.action is Return || one.action is Fail {
    } else {
        assert(run_open(world, two, 0) == Some(two));
        assert(run_open(world, one, 1) == run_open(world, two, 0));
    }
}

/// An open that asks for no right to the content gives a descriptor of what the
/// path resolves to as soon as it resolved: neither the content nor the listing
/// is fetched, and no I/O is permitted through it.
pub proof fn law_an_open_for_a_path_fetches_nothing(
    world: World,
    root: Seq<u8>,
    key: Seq<u8>,
    path: Seq<u8>,
    flags: i32,
    strict: bool,
    pid: i32,
    table: fd_table::Table,
    memory: statcache::Memory,
    rounds: nat,
) -> (more: nat)
    requires
        workspace_file(root, key, path),
        !open_call::writes(flags),
        !open_call::permits_io(flags),
        flags & O_NOFOLLOW == 0,
        table.well_formed(),
        table.has_room(),
        graph_walk::run(world.graph, graph_walk::starting(root, key), memory, rounds) is Some,
    ensures
        ({
            let outcome = graph_walk::run(
                world.graph,
                graph_walk::starting(root, key),
                memory,
                rounds,
            )->0;
            let end = run_open(world, begun(root, path, flags, strict, pid, table, memory), more);
            let fd = table.next_free()->0;
            let handle = end->0.table.handles[fd as i32];
            &&& end is Some
            &&& match outcome {
                Err(error) => end->0.action == open_call::Action::Fail(
                    errno::path_errno(error, world.failure, strict),
                ) && end->0.table == table,
                Ok((place, stat)) => if !stat.is_dir && flags & O_DIRECTORY != 0 {
                    end->0.action == open_call::Action::Fail(20) && end->0.table == table
                } else if !stat.is_dir && !stat.is_file {
                    end->0.action == open_call::Action::Fail(22) && end->0.table == table
                } else {
                    &&& end->0.action == open_call::Action::Return(fd)
                    &&& end->0.table.handles == table.handles.insert(fd as i32, handle)
                    &&& handle.path == place
                    &&& handle.opened_stat == Some(stat)
                    &&& handle.is_directory == stat.is_dir
                    &&& !handle.io_permitted
                    &&& handle.path_only == (flags & 0o10000000 != 0)
                    &&& handle.cached_content is None
                    &&& stat.is_dir ==> handle.dir_entries is Some
                        && handle.dir_entries->0.len() == 0
                },
            }
        }),
{
    lemma_workspace_file(root, key, path);
    let at = begun(root, path, flags, strict, pid, table, memory);
    let walk = graph_walk::starting(root, key);
    assert(at.call.stage == open_call::Stage::Following(walk));
    fd_table::law_virtual_descriptors_lie_above_the_base(table);
    let (steps, m) = lemma_open_walks(world, at, rounds);
    match graph_walk::run(world.graph, walk, memory, rounds)->0 {
        Err(error) => steps,
        Ok((place, stat)) => {
            let found = open_call::found(at.call, at.table, m, place, stat);
            assert(run_open(world, at, steps + 0) == run_open(world, found, 0));
            steps
        },
    }
}

/// A link that is opened as a path is opened itself: the descriptor is that of
/// the link's own path, and keeps where the link leads.
pub proof fn law_a_link_opened_as_a_path_keeps_its_target(
    world: World,
    root: Seq<u8>,
    key: Seq<u8>,
    path: Seq<u8>,
    flags: i32,
    strict: bool,
    pid: i32,
    table: fd_table::Table,
    memory: statcache::Memory,
    stat: VirtualStat,
    generation: u64,
)
    requires
        workspace_file(root, key, path),
        !open_call::writes(flags),
        flags & 0o10000000 != 0,
        flags & O_NOFOLLOW != 0,
        flags & O_DIRECTORY == 0,
        table.well_formed(),
        table.has_room(),
        stat.is_symlink,
        (world.graph.stat)(path) == (StatProbe::Present { stat, generation }),
    ensures
        ({
            let end = run_open(world, begun(root, path, flags, strict, pid, table, memory), 2);
            let fd = table.next_free()->0;
            let handle = end->0.table.handles[fd as i32];
            &&& end is Some
            &&& (world.graph.link)(path) matches Some(target) ==> {
                &&& end->0.action == open_call::Action::Return(fd)
                &&& handle.path == path
                &&& handle.link_target == Some(target)
                &&& handle.opened_stat == Some(stat)
                &&& handle.path_only && !handle.io_permitted
            }
            &&& (world.graph.link)(path) is None ==> end->0.action == open_call::Action::Fail(
                errno::failure_errno(world.failure, strict),
            ) && end->0.table == table
        }),
{
    lemma_workspace_file(root, key, path);
    fd_table::law_virtual_descriptors_lie_above_the_base(table);
    let at = begun(root, path, flags, strict, pid, table, memory);
    let one = open_call::next(at.call, at.table, at.memory, answer(world, at.action));
    let two = open_call::next(one.call, one.table, one.memory, answer(world, one.action));
    assert(run_open(world, at, 2) == run_open(world, one, 1));
    assert(run_open(world, two, 0) == Some(two));
    assert(run_open(world, one, 1) == run_open(world, two, 0));
}

/// Where no slot is left an open fails, and the table stays as it was.
pub proof fn law_a_full_table_opens_nothing(
    call: open_call::Opening,
    table: fd_table::Table,
    memory: statcache::Memory,
    place: Seq<u8>,
    stat: VirtualStat,
    content: Seq<u8>,
    children: Seq<open_call::Child>,
)
    requires
        !table.has_room(),
    ensures
        call.stage == (open_call::Stage::Reading { path: place, stat }) ==> {
            let after = open_call::next(
                call,
                table,
                memory,
                open_call::Event::Content(Ok(content)),
            );
            after.action == open_call::Action::Fail(5) && after.table == table
        },
        call.stage == (open_call::Stage::Listing { path: place, stat }) ==> {
            let after = open_call::next(
                call,
                table,
                memory,
                open_call::Event::Listing(Ok(children)),
            );
            after.action == open_call::Action::Fail(
                if call.strict {
                    5
                } else {
                    2
                },
            ) && after.table == table
        },
{
}

/// What was opened is what is reported, read and listed afterwards: an `fstat`
/// of the descriptor reports the metadata that the graph gave, reads give the
/// content from its start, and the listing begins with the first child.
pub proof fn law_a_descriptor_is_of_what_was_opened(
    table: fd_table::Table,
    before: fd_table::Table,
    fd: int,
    place: Seq<u8>,
    stat: VirtualStat,
    flags: i32,
    content: Seq<u8>,
    count: nat,
)
    requires
        table.handles.contains_key(fd as i32),
        opened_at(table, before, fd, table.handles[fd as i32], place, stat, flags),
        !table.open_files[table.handles[fd as i32].open_file].reading,
        table.handles[fd as i32].cached_content == Some(content),
        table.handles[fd as i32].size == content.len(),
    ensures
        fd_calls::reporting(table, fd as i32) is Answer,
        fd_calls::reporting(table, fd as i32)->Answer_0.size == stat.size,
        fd_calls::reporting(table, fd as i32)->Answer_0.mtime == stat.mtime,
        stat.object_id is None ==> fd_calls::reporting(table, fd as i32)->Answer_0.ino
            == hashing::byte_hash(place),
        fd_calls::starting_read(table, fd as i32, count as int).1 == fd_calls::Started::Done(
            fd_calls::Plan::Bytes(
                content.subrange(0, fd_calls::least(count as int, content.len() as int)),
            ),
        ),
{
    let part = content.subrange(0, fd_calls::least(count as int, content.len() as int));
    if count == 0 || content.len() == 0 {
        assert(part =~= Seq::<u8>::empty());
    }
}

} // verus!

use kin_vfs::client::ClientCallFailure;
use kin_vfs::dirents::{pack_getdents64, pack_getdirentries, Layout};
use kin_vfs::fd_calls;
use kin_vfs::fd_calls::{
    after_real_close, after_rename, atomic_write_should_notify, begin_close, begin_fstat,
    begin_mmap, begin_pread, begin_read, finish_fstat, finish_mmap, finish_pread, finish_read, mapping_content,
    mapping_len, notify_write_path, read_directory, CloseStart, CloseStep, FdOutcome, FstatPlan,
    ListOutcome, MmapPlan, RangeRequest, ReadPlan, ReadStart,
};
use kin_vfs::fd_table::{
    compute_vfd_base, synthetic_inode, DirEntryRaw, FdTable, OpenedFileOptions, VirtualFileHandle,
    MAX_VFDS, SMALL_FILE_THRESHOLD,
};
use kin_vfs::graph_walk::{GraphAnswer, GraphQuestion, StatProbe};
use kin_vfs::host_path::HostPathResolution;
use kin_vfs::open_call::{
    begin_open, is_write_flags, raw_dir_entries, OpenAction, OpenCall, OpenEvent, OpenStart,
};
use kin_vfs::path_calls::{
    begin_path_call, fortified_open_delegates, fortified_read_delegates,
    fortified_readlink_delegates, link_bytes, stat_request, statx_target, syscall_is_statx,
    PathAction, PathCall, PathRequest, PathStart, StatxTarget,
};
use kin_vfs::statcache::StatCache;
use kin_vfs::statfill::stat_record;
use kin_vfs::types::{DirEntry, FileType, VirtualStat};
use kin_vfs::vfs_path::VfsName;

const ROOT: Option<&[u8]> = Some(b"/ws");

fn new_table() -> FdTable {
    FdTable::new(compute_vfd_base(Some(1024)))
}

fn regular_file(size: u64, content_hash: [u8; 32], executable: bool, mtime: u64) -> VirtualStat {
    VirtualStat {
        size,
        is_file: true,
        is_dir: false,
        is_symlink: false,
        mode: if executable { 0o755 } else { 0o644 },
        mtime,
        ctime: mtime,
        nlink: 1,
        content_hash: Some(content_hash),
        object_id: None,
    }
}

fn directory(mtime: u64) -> VirtualStat {
    VirtualStat {
        is_file: false,
        is_dir: true,
        mode: 0o755,
        nlink: 2,
        content_hash: None,
        ..regular_file(0, [0; 32], false, mtime)
    }
}

fn link() -> VirtualStat {
    VirtualStat { is_file: false, is_symlink: true, ..regular_file(3, [0; 32], false, 1) }
}

fn resolved(path: &[u8]) -> HostPathResolution {
    HostPathResolution::Resolved(path.to_vec())
}

fn present(stat: VirtualStat) -> GraphAnswer {
    GraphAnswer::Stat(StatProbe::Present { stat, generation: 4 })
}

fn test_entries() -> Vec<DirEntryRaw> {
    vec![
        DirEntryRaw {
            name: b"hello.rs".to_vec(),
            d_ino: 0x1234,
            d_type: 8, // DT_REG
        },
        DirEntryRaw {
            name: b"subdir".to_vec(),
            d_ino: 0x5678,
            d_type: 4, // DT_DIR
        },
        DirEntryRaw {
            name: b"link".to_vec(),
            d_ino: 0x9abc,
            d_type: 10, // DT_LNK
        },
    ]
}

fn u64_at(bytes: &[u8], at: usize) -> u64 {
    let mut word = [0u8; 8];
    word.copy_from_slice(&bytes[at..at + 8]);
    u64::from_ne_bytes(word)
}

fn u16_at(bytes: &[u8], at: usize) -> u16 {
    u16::from_ne_bytes([bytes[at], bytes[at + 1]])
}

fn name_at(bytes: &[u8], at: usize) -> String {
    let end = bytes[at..].iter().position(|b| *b == 0).unwrap();
    String::from_utf8(bytes[at..at + end].to_vec()).unwrap()
}

// ── getdents64 packing (Linux) ──────────────────────────────────────

#[test]
fn pack_getdents64_basic() {
    let entries = test_entries();
    let (bytes, offset) = pack_getdents64(4096, &entries, 0);

    assert!(bytes.len() > 0);
    assert_eq!(offset, 3); // all 3 entries consumed

    // Verify first entry structure.
    assert_eq!(u64_at(&bytes, 0), 0x1234);
    assert_eq!(u64_at(&bytes, 8), 1); // first entry, offset to next = 1
    let d_reclen = u16_at(&bytes, 16);
    assert!(d_reclen > 0);
    assert_eq!(d_reclen as usize % 8, 0); // 8-byte aligned
    assert_eq!(bytes[18], 8); // DT_REG
    assert_eq!(name_at(&bytes, 19), "hello.rs");

    // The records follow one another, with zeroes between name and next record.
    assert_eq!(d_reclen, 32);
    assert_eq!(&bytes[27..32], &[0; 5]);
    assert_eq!(u64_at(&bytes, 32), 0x5678);
    assert_eq!(bytes.len(), 32 + 32 + 24);
}

#[test]
fn pack_getdents64_small_buffer_partial() {
    let entries = test_entries();
    // A buffer that can only fit one entry:
    // 19 header + "hello.rs" (8) + null + pad = 28 -> 32 aligned
    let (bytes, offset) = pack_getdents64(32, &entries, 0);

    assert!(bytes.len() > 0);
    assert_eq!(offset, 1); // only first entry fits
}

#[test]
fn pack_getdents64_empty_entries() {
    let entries: Vec<DirEntryRaw> = vec![];
    let (bytes, offset) = pack_getdents64(4096, &entries, 0);

    assert_eq!(bytes.len(), 0);
    assert_eq!(offset, 0);
}

#[test]
fn pack_getdents64_offset_resumes() {
    let entries = test_entries();
    let (bytes, offset) = pack_getdents64(4096, &entries, 1); // skip first entry

    assert!(bytes.len() > 0);
    assert_eq!(offset, 3); // consumed remaining 2 entries

    // First entry in buffer should be "subdir".
    assert_eq!(u64_at(&bytes, 0), 0x5678);
    assert_eq!(bytes[18], 4); // DT_DIR
    assert_eq!(name_at(&bytes, 19), "subdir");
}

#[test]
fn packing_in_two_reads_gives_what_one_read_gives() {
    let entries = test_entries();
    for layout_pack in [pack_getdents64, pack_getdirentries] {
        let (whole, _) = layout_pack(4096, &entries, 0);
        let (first, middle) = layout_pack(64, &entries, 0);
        let (second, end) = layout_pack(4096, &entries, middle);
        assert_eq!(middle, 2);
        assert_eq!(end, 3);
        assert_eq!([first, second].concat(), whole);
    }
}

// ── getdirentries packing (macOS) ───────────────────────────────────

#[test]
fn pack_getdirentries_basic() {
    let entries = test_entries();
    let (bytes, offset) = pack_getdirentries(4096, &entries, 0);

    assert!(bytes.len() > 0);
    assert_eq!(offset, 3); // all 3 entries consumed

    // Verify first entry structure.
    assert_eq!(u64_at(&bytes, 0), 0x1234);
    assert_eq!(u64_at(&bytes, 8), 1);
    let d_reclen = u16_at(&bytes, 16);
    assert!(d_reclen > 0);
    assert_eq!(d_reclen as usize % 4, 0); // 4-byte aligned
    assert_eq!(u16_at(&bytes, 18), 8); // "hello.rs".len()
    assert_eq!(bytes[20], 8); // DT_REG
    assert_eq!(name_at(&bytes, 21), "hello.rs");
}

#[test]
fn pack_getdirentries_small_buffer_partial() {
    let entries = test_entries();
    // Header is 21 + "hello.rs"(8) + null(1) = 30 -> aligned to 32
    let (bytes, offset) = pack_getdirentries(32, &entries, 0);

    assert!(bytes.len() > 0);
    assert_eq!(offset, 1); // only first entry fits
}

#[test]
fn pack_getdirentries_empty_entries() {
    let entries: Vec<DirEntryRaw> = vec![];
    let (bytes, offset) = pack_getdirentries(4096, &entries, 0);

    assert_eq!(bytes.len(), 0);
    assert_eq!(offset, 0);
}

#[test]
fn pack_getdirentries_offset_resumes() {
    let entries = test_entries();
    let (bytes, offset) = pack_getdirentries(4096, &entries, 1); // skip first entry

    assert!(bytes.len() > 0);
    assert_eq!(offset, 3); // consumed remaining 2 entries

    // First entry in buffer should be "subdir".
    assert_eq!(u64_at(&bytes, 0), 0x5678);
    assert_eq!(bytes[20], 4); // DT_DIR
    assert_eq!(name_at(&bytes, 21), "subdir");
}

// ── Mapping ─────────────────────────────────────────────────────────

#[test]
fn mmap_private_write_does_not_leak_between_mappings() {
    let content = b"semantic truth";
    let map_len = mapping_len(content.len(), 0).unwrap();
    assert_eq!(map_len, content.len());

    let mut first = mapping_content(content, 0, map_len);
    assert_eq!(first, content);

    first[0] = b'X';
    assert_eq!(first[0], b'X');
    assert_eq!(content[0], b's');

    let second = mapping_content(content, 0, map_len);
    assert_eq!(second, content);
}

#[test]
fn a_mapping_holds_the_range_it_was_asked_for() {
    assert_eq!(mapping_content(b"0123456789", 4, 3), b"456");
    assert_eq!(mapping_content(b"0123456789", 8, 100), b"89");
    assert!(mapping_content(b"0123456789", 10, 4).is_empty());
    assert_eq!(mapping_len(10, 3), Ok(3));
    assert_eq!(mapping_len(0, 0), Err(libc::EINVAL));
    assert_eq!(finish_mmap(None, 4), Err(libc::EIO));
    assert_eq!(finish_mmap(Some(Vec::new()), 0), Err(libc::EINVAL));
    assert_eq!(finish_mmap(Some(b"abc".to_vec()), 0), Ok((b"abc".to_vec(), 3)));
    assert_eq!(finish_mmap(Some(b"abc".to_vec()), 8), Ok((b"abc".to_vec(), 8)));
}

#[test]
fn only_private_mappings_of_permitted_files_are_served() {
    let mut table = new_table();
    let cached = table.allocate(b"/ws/a", 3, Some(b"abc".to_vec())).unwrap();
    let large = table.allocate(b"/ws/b", 1 << 20, None).unwrap();
    let check = table.allocate_check_only(b"/ws/c", 3, None).unwrap();
    let dir = table.allocate_dir(b"/ws/d", Vec::new()).unwrap();
    let plan = |fd, flags| begin_mmap(&table, fd, flags);
    assert!(matches!(plan(cached, libc::MAP_PRIVATE), MmapPlan::Content(c) if c == b"abc"));
    assert!(matches!(plan(large, libc::MAP_PRIVATE), MmapPlan::Fetch(p) if p == b"/ws/b"));
    assert!(matches!(plan(check, libc::MAP_PRIVATE), MmapPlan::Fail(libc::EBADF)));
    assert!(matches!(plan(dir, libc::MAP_PRIVATE), MmapPlan::Passthrough));
    assert!(matches!(plan(5, libc::MAP_PRIVATE), MmapPlan::Passthrough));
    assert!(matches!(plan(cached, libc::MAP_SHARED), MmapPlan::Fail(libc::EINVAL)));
    // What the kernel numbers is the kernel's to map, shared or not.
    assert!(matches!(plan(5, libc::MAP_SHARED), MmapPlan::Passthrough));
    assert!(matches!(plan(-1, libc::MAP_SHARED), MmapPlan::Passthrough));
}

// ── Close-after-write notification ───────────────────────────
//
// A write may be announced to the graph ONLY when the bytes actually landed:
// a failed close (data may not have flushed) or a failed atomic rename
// (target untouched) must never produce a success notification, or a
// close-after-write error becomes a phantom "graph converged" signal.

#[test]
fn atomic_write_notifies_only_on_clean_close_and_rename() {
    // Clean close + successful rename → notify.
    assert!(atomic_write_should_notify(0, true));
    // Successful close but failed rename → do NOT notify (target untouched).
    assert!(!atomic_write_should_notify(0, false));
    // Failed close → do NOT notify regardless of rename outcome.
    assert!(!atomic_write_should_notify(-1, true));
    assert!(!atomic_write_should_notify(-1, false));
}

#[test]
fn plain_write_notifies_only_on_clean_close() {
    // Plain (non-atomic) writes pass rename_ok = true, so only the close
    // decides.
    assert!(atomic_write_should_notify(0, true));
    assert!(!atomic_write_should_notify(-1, true));
}

#[test]
fn a_clean_close_renames_and_only_then_announces() {
    let mut table = new_table();
    table.track_write(7, b"/ws/src/a.rs".to_vec());
    table.track_atomic_write(7, b"/ws/src/a.rs".to_vec(), b"/ws/src/a.rs.kin_tmp_1".to_vec());
    let pending = match begin_close(&mut table, 7) {
        CloseStart::CloseReal(pending) => pending,
        CloseStart::Closed => panic!("a kernel descriptor has to be closed for real"),
    };
    assert!(!table.is_atomic_write(7));
    assert!(matches!(after_real_close(&pending, -1, ROOT), CloseStep::Return(-1)));
    assert!(matches!(
        after_real_close(&pending, 0, ROOT),
        CloseStep::Rename { temp, target }
            if temp == b"/ws/src/a.rs.kin_tmp_1" && target == b"/ws/src/a.rs"
    ));
    assert!(matches!(after_rename(&pending, false, ROOT), CloseStep::Fail(libc::EIO)));
    assert!(matches!(
        after_rename(&pending, true, ROOT),
        CloseStep::Announce(key) if key.as_bytes() == b"src/a.rs"
    ));
}

#[test]
fn closing_a_virtual_descriptor_is_settled_in_the_table() {
    let mut table = new_table();
    let fd = table.allocate(b"/ws/a", 3, None).unwrap();
    assert!(matches!(begin_close(&mut table, fd), CloseStart::Closed));
    assert!(!table.is_virtual(fd));
    assert!(matches!(begin_close(&mut table, fd), CloseStart::CloseReal(_)));
}

#[test]
fn only_workspace_writes_are_announced() {
    let path = |path: &[u8]| Some(path.to_vec());
    assert_eq!(notify_write_path(&path(b"/ws/a"), ROOT).unwrap().as_bytes(), b"a");
    assert!(notify_write_path(&path(b"/etc/a"), ROOT).is_none());
    assert!(notify_write_path(&None, ROOT).is_none());
    assert!(notify_write_path(&path(b"/ws/a"), None).is_none());
}

// ── Opening ─────────────────────────────────────────────────────────

fn started(flags: i32, strict: bool) -> (OpenCall, OpenAction) {
    match begin_open(resolved(b"/ws/src/a.rs"), ROOT, flags, strict, 4242) {
        OpenStart::Call(call, action) => (call, action),
        other => panic!("a workspace open has to ask the graph, got {other:?}"),
    }
}

fn answered(stat: VirtualStat) -> OpenEvent {
    OpenEvent::Graph { answer: present(stat), failure: ClientCallFailure::NoFailure }
}

#[test]
fn large_file_open_defers_to_range_reads_without_prefetch() {
    let big = (SMALL_FILE_THRESHOLD as u64) + 1;
    let vstat = regular_file(big, [0u8; 32], false, 1);
    let (mut table, mut cache) = (new_table(), StatCache::new(8));
    let (mut call, _) = started(libc::O_RDONLY, false);
    // The large branch must NOT attempt a fetch: it trusts the stat size and
    // caches nothing, leaving reads to the range path.
    let fd = match call.advance(&mut table, &mut cache, answered(vstat)) {
        OpenAction::Return(fd) => fd,
        other => panic!("large-file open must use exact stat metadata, got {other:?}"),
    };
    let handle = table.get(fd).unwrap();
    assert_eq!(handle.size, big, "large file must report its stat size");
    assert!(
        handle.cached_content.is_none(),
        "large file must not be prefetched/cached at open"
    );
}

#[test]
fn a_small_file_is_fetched_and_pinned_at_open() {
    let (mut table, mut cache) = (new_table(), StatCache::new(8));
    let (mut call, action) = started(libc::O_RDONLY, false);
    assert!(matches!(
        action,
        OpenAction::Ask(GraphQuestion::Stat(path)) if path == b"/ws/src/a.rs"
    ));
    let stat = regular_file(5, [1; 32], false, 9);
    assert!(matches!(
        call.advance(&mut table, &mut cache, answered(stat)),
        OpenAction::ReadFile(path) if path == b"/ws/src/a.rs"
    ));
    let fd = match call.advance(&mut table, &mut cache, OpenEvent::Content(Ok(b"hello".to_vec()))) {
        OpenAction::Return(fd) => fd,
        other => panic!("{other:?}"),
    };
    let handle = table.get(fd).unwrap();
    assert_eq!(handle.cached_content.as_deref(), Some(b"hello".as_slice()));
    assert_eq!(handle.opened_stat, Some(stat));
    assert_eq!(handle.opened_inode, synthetic_inode(b"/ws/src/a.rs"));
}

#[test]
fn a_directory_is_listed_at_open() {
    let (mut table, mut cache) = (new_table(), StatCache::new(8));
    let (mut call, _) = started(libc::O_RDONLY | libc::O_DIRECTORY, false);
    assert!(matches!(
        call.advance(&mut table, &mut cache, answered(directory(1))),
        OpenAction::ReadDir(_)
    ));
    let listing = vec![DirEntry {
        name: VfsName::from_bytes(b"x-\xff").unwrap(),
        file_type: FileType::File,
    }];
    let event = OpenEvent::Listing(Ok(listing));
    let fd = match call.advance(&mut table, &mut cache, event) {
        OpenAction::Return(fd) => fd,
        other => panic!("{other:?}"),
    };
    let handle = table.get(fd).unwrap();
    assert!(handle.is_directory);
    let entries = handle.dir_entries.as_ref().unwrap();
    assert_eq!(entries.last().unwrap().name, b"x-\xff");
    assert_eq!(entries.last().unwrap().d_type, libc::DT_REG);
}

#[test]
fn entry_kinds_become_directory_entry_types() {
    let kinds = [
        (FileType::File, libc::DT_REG),
        (FileType::Directory, libc::DT_DIR),
        (FileType::Symlink, libc::DT_LNK),
        (FileType::Gitlink, libc::DT_DIR),
    ];
    for (file_type, d_type) in kinds {
        let raw = raw_dir_entries(&vec![DirEntry {
            name: VfsName::from_bytes(b"n").unwrap(),
            file_type,
        }]);
        assert_eq!(raw.len(), 1);
        assert_eq!(raw[0].d_type, d_type);
        assert_eq!(raw[0].d_ino, synthetic_inode(b"n"));
    }
}

#[test]
fn open_failures_carry_the_errno_of_their_cause() {
    let run = |flags, strict, event: OpenEvent| {
        let (mut table, mut cache) = (new_table(), StatCache::new(8));
        let (mut call, _) = started(flags, strict);
        match call.advance(&mut table, &mut cache, event) {
            OpenAction::Fail(errno) => errno,
            other => panic!("{other:?}"),
        }
    };
    let absent = |failure| OpenEvent::Graph {
        answer: GraphAnswer::Stat(StatProbe::Unavailable),
        failure,
    };
    assert_eq!(run(libc::O_RDONLY, false, absent(ClientCallFailure::Unreachable)), libc::EIO);
    assert_eq!(
        run(libc::O_RDONLY, false, absent(ClientCallFailure::PermissionDenied)),
        libc::EACCES
    );
    let file = || answered(regular_file(1, [0; 32], false, 1));
    assert_eq!(run(libc::O_RDONLY | libc::O_DIRECTORY, false, file()), libc::ENOTDIR);
    assert_eq!(run(libc::O_RDONLY | libc::O_NOFOLLOW, false, answered(link())), libc::ELOOP);
    let missing = || OpenEvent::Content(Err(ClientCallFailure::NotFound));
    assert_eq!(run(libc::O_WRONLY, false, missing()), libc::ENOENT);
    assert_eq!(run(libc::O_WRONLY, true, missing()), libc::EIO);
    let denied = || OpenEvent::Content(Err(ClientCallFailure::PermissionDenied));
    assert_eq!(run(libc::O_WRONLY | libc::O_CREAT, false, denied()), libc::EACCES);
}

#[test]
fn a_write_is_seeded_from_the_graph_and_tracked() {
    let (mut table, mut cache) = (new_table(), StatCache::new(8));
    let (mut call, action) = started(libc::O_RDWR, false);
    assert!(matches!(action, OpenAction::Materialize(path) if path == b"/ws/src/a.rs"));
    let event = OpenEvent::Content(Ok(b"graph truth".to_vec()));
    assert!(matches!(
        call.advance(&mut table, &mut cache, event),
        OpenAction::Seed { target, temp, content }
            if target == b"/ws/src/a.rs"
                && temp == b"/ws/src/a.rs.kin_tmp_4242"
                && content == b"graph truth"
    ));
    assert!(matches!(
        call.advance(&mut table, &mut cache, OpenEvent::Seeded(Ok(()))),
        OpenAction::OpenTemp(temp) if temp == b"/ws/src/a.rs.kin_tmp_4242"
    ));
    assert!(matches!(
        call.advance(&mut table, &mut cache, OpenEvent::Opened(9)),
        OpenAction::Return(9)
    ));
    assert!(table.is_write_tracked(9));
    assert!(table.is_atomic_write(9));
}

#[test]
fn a_new_file_is_created_at_its_place_and_tracked() {
    let (mut table, mut cache) = (new_table(), StatCache::new(8));
    let (mut call, _) = started(libc::O_WRONLY | libc::O_CREAT, true);
    assert!(matches!(
        call.advance(
            &mut table,
            &mut cache,
            OpenEvent::Content(Err(ClientCallFailure::NotFound))
        ),
        OpenAction::OpenCaller
    ));
    assert!(matches!(
        call.advance(&mut table, &mut cache, OpenEvent::Opened(9)),
        OpenAction::Return(9)
    ));
    assert!(table.is_write_tracked(9));
    assert!(!table.is_atomic_write(9));
}

#[test]
fn a_failed_seed_or_open_leaves_nothing_behind() {
    let (mut table, mut cache) = (new_table(), StatCache::new(8));
    let (mut call, _) = started(libc::O_RDWR, false);
    call.advance(&mut table, &mut cache, OpenEvent::Content(Ok(Vec::new())));
    assert!(matches!(
        call.advance(&mut table, &mut cache, OpenEvent::Seeded(Err(libc::ENOSPC))),
        OpenAction::Fail(libc::ENOSPC)
    ));
    let (mut call, _) = started(libc::O_RDWR, false);
    call.advance(&mut table, &mut cache, OpenEvent::Content(Ok(Vec::new())));
    call.advance(&mut table, &mut cache, OpenEvent::Seeded(Ok(())));
    assert!(matches!(
        call.advance(&mut table, &mut cache, OpenEvent::Opened(-1)),
        OpenAction::Return(-1)
    ));
    assert!(!table.is_write_tracked(-1));
}

#[test]
fn a_full_table_fails_the_open() {
    let (mut table, mut cache) = (new_table(), StatCache::new(8));
    for _ in 0..MAX_VFDS {
        table.allocate(b"/ws/f", 0, None).unwrap();
    }
    let (mut call, _) = started(libc::O_RDONLY, false);
    let big = regular_file(1 << 20, [0; 32], false, 1);
    assert!(matches!(
        call.advance(&mut table, &mut cache, answered(big)),
        OpenAction::Fail(libc::EIO)
    ));
}

#[test]
fn opens_outside_the_workspace_belong_to_the_kernel() {
    let start = |resolution| begin_open(resolution, ROOT, libc::O_RDONLY, false, 1);
    assert!(matches!(start(resolved(b"/etc/hosts")), OpenStart::Passthrough));
    assert!(matches!(start(resolved(b"/ws/a.kin_tmp_7")), OpenStart::Passthrough));
    assert!(matches!(start(HostPathResolution::Passthrough), OpenStart::Passthrough));
    assert!(matches!(start(HostPathResolution::Refused), OpenStart::Fail(libc::EIO)));
    assert!(matches!(
        start(HostPathResolution::InvalidDescriptor),
        OpenStart::Fail(libc::EBADF)
    ));
    assert!(matches!(start(resolved(b"/ws/../etc")), OpenStart::Fail(libc::EACCES)));
}

#[test]
fn writing_flags_are_told_from_reading_ones() {
    assert!(!is_write_flags(libc::O_RDONLY));
    assert!(!is_write_flags(libc::O_RDONLY | libc::O_CLOEXEC));
    assert!(is_write_flags(libc::O_WRONLY));
    assert!(is_write_flags(libc::O_RDWR));
    assert!(is_write_flags(libc::O_RDONLY | libc::O_CREAT));
    assert!(is_write_flags(libc::O_RDONLY | libc::O_TRUNC));
    assert!(!is_write_flags(libc::O_ACCMODE));
    assert!(is_write_flags(libc::O_ACCMODE | libc::O_CREAT));
    assert!(is_write_flags(libc::O_ACCMODE | libc::O_TRUNC));
    assert!(!is_write_flags(libc::O_PATH | libc::O_RDWR | libc::O_CREAT | libc::O_TRUNC));
}

/// Opens an entry with flags that ask for no content, in one answer.
fn opened_without_rights(flags: i32, stat: VirtualStat) -> (FdTable, i32) {
    let (mut table, mut cache) = (new_table(), StatCache::new(8));
    let (mut call, action) = started(flags, false);
    assert!(matches!(action, OpenAction::Ask(GraphQuestion::Stat(_))));
    match call.advance(&mut table, &mut cache, answered(stat)) {
        OpenAction::Return(fd) => (table, fd),
        other => panic!("no content is fetched for a descriptor without rights, got {other:?}"),
    }
}

#[test]
fn access_mode_three_and_a_path_alone_give_no_right_to_the_content() {
    for (flags, path_only) in [
        (libc::O_ACCMODE, false),
        (libc::O_ACCMODE | libc::O_NOFOLLOW, false),
        (libc::O_PATH, true),
        (libc::O_PATH | libc::O_NOFOLLOW, true),
        (libc::O_PATH | libc::O_RDWR, true),
    ] {
        let stat = regular_file(5, [1; 32], false, 9);
        let (mut table, fd) = opened_without_rights(flags, stat);
        let handle = table.get(fd).unwrap();
        assert!(!handle.io_permitted && !handle.is_directory);
        assert_eq!(handle.path_only, path_only);
        assert_eq!(handle.status_flags, flags);
        assert_eq!((handle.size, handle.opened_stat), (5, Some(stat)));
        assert!(handle.cached_content.is_none() && handle.link_target.is_none());
        assert!(matches!(
            begin_read(&mut table, fd, 4),
            ReadStart::Done(ReadPlan::Fail(libc::EBADF))
        ));
        assert!(matches!(begin_pread(&table, fd, 4, 0), ReadPlan::Fail(libc::EBADF)));
        assert!(matches!(
            begin_mmap(&table, fd, libc::MAP_PRIVATE),
            MmapPlan::Fail(libc::EBADF)
        ));
        assert_eq!(
            fd_calls::lseek(&mut table, fd, 0, libc::SEEK_SET),
            FdOutcome::Fail(libc::EBADF)
        );

        let (table, fd) = opened_without_rights(flags | libc::O_DIRECTORY, directory(1));
        let handle = table.get(fd).unwrap();
        assert!(handle.is_directory && !handle.io_permitted);
        assert_eq!(handle.path_only, path_only);
    }
}

#[test]
fn a_link_opened_as_a_path_keeps_its_target() {
    let link = VirtualStat { is_file: false, is_symlink: true, ..regular_file(6, [0; 32], false, 1) };
    let begin = |flags| {
        let (mut table, mut cache) = (new_table(), StatCache::new(8));
        let (mut call, _) = started(flags, false);
        let action = call.advance(&mut table, &mut cache, answered(link));
        (table, cache, call, action)
    };
    let flags = libc::O_PATH | libc::O_NOFOLLOW;
    for (target, failure) in [
        (Some(b"target".to_vec()), ClientCallFailure::NoFailure),
        (None, ClientCallFailure::PermissionDenied),
    ] {
        let (mut table, mut cache, mut call, action) = begin(flags);
        assert!(matches!(
            action,
            OpenAction::Ask(GraphQuestion::ReadLink(path)) if path == b"/ws/src/a.rs"
        ));
        let event = OpenEvent::Graph { answer: GraphAnswer::Link(target.clone()), failure };
        match call.advance(&mut table, &mut cache, event) {
            OpenAction::Return(fd) => {
                let handle = table.get(fd).unwrap();
                assert_eq!(handle.link_target, target);
                assert!(handle.path_only && !handle.io_permitted);
                assert_eq!(handle.opened_stat, Some(link));
            }
            OpenAction::Fail(errno) => {
                assert!(target.is_none());
                assert_eq!(errno, libc::EACCES);
            }
            other => panic!("{other:?}"),
        }
    }
    assert!(matches!(begin(libc::O_NOFOLLOW).3, OpenAction::Fail(libc::ELOOP)));
    assert!(matches!(begin(libc::O_NOFOLLOW | libc::O_ACCMODE).3, OpenAction::Fail(libc::ELOOP)));
    assert!(matches!(begin(flags | libc::O_DIRECTORY).3, OpenAction::Fail(libc::ENOTDIR)));
}

// ── Reading ─────────────────────────────────────────────────────────

#[test]
fn cached_content_is_read_in_pieces() {
    let mut table = new_table();
    let fd = table.allocate(b"/ws/a", 5, Some(b"hello".to_vec())).unwrap();
    let mut read = |count| match begin_read(&mut table, fd, count) {
        ReadStart::Done(ReadPlan::Bytes(bytes)) => bytes,
        _ => panic!("cached content needs no fetch"),
    };
    assert_eq!(read(2), b"he");
    assert_eq!(read(0), b"");
    assert_eq!(read(100), b"llo");
    assert_eq!(read(100), b"");
}

/// Starts a read that has to be fetched.
fn fetch(table: &mut FdTable, fd: i32, count: usize) -> (RangeRequest, VirtualFileHandle) {
    match begin_read(table, fd, count) {
        ReadStart::Fetch { request, snapshot } => (request, snapshot),
        ReadStart::Busy => panic!("a read is in flight"),
        ReadStart::Done(plan) => panic!("{plan:?}"),
    }
}

#[test]
fn a_read_in_flight_keeps_others_away_from_the_offset() {
    let mut table = new_table();
    let fd = table.allocate(b"/ws/big", 100_000, None).unwrap();
    let alias = table.duplicate(fd).unwrap();
    let apart = table.allocate(b"/ws/big", 100_000, None).unwrap();
    let (request, snapshot) = fetch(&mut table, fd, 10);
    assert_eq!(request.offset, 0);
    for waiting in [fd, alias] {
        assert!(table.is_reading(waiting));
        assert!(matches!(begin_read(&mut table, waiting, 10), ReadStart::Busy));
        assert_eq!(fd_calls::lseek(&mut table, waiting, 5, libc::SEEK_SET), FdOutcome::Busy);
        assert_eq!(table.offset(waiting), Some(0));
    }
    // Another open of the same file, and a read at a place of its own, go on.
    assert_eq!(fd_calls::lseek(&mut table, apart, 7, libc::SEEK_SET), FdOutcome::Return(7));
    assert!(matches!(begin_pread(&table, alias, 4, 50), ReadPlan::Fetch(r) if r.offset == 50));
    finish_read(&mut table, snapshot, request.len, Some(vec![1; 10])).unwrap();
    assert_eq!((table.offset(fd), table.offset(apart)), (Some(10), Some(7)));

    // The next read asks for what follows, and a failed one lets others on too.
    let (request, snapshot) = fetch(&mut table, alias, 10);
    assert_eq!(request.offset, 10);
    table.close(alias).unwrap();
    assert!(matches!(begin_read(&mut table, fd, 10), ReadStart::Busy));
    assert_eq!(finish_read(&mut table, snapshot, request.len, None), Err(libc::EIO));
    assert!(!table.is_reading(fd));
    assert_eq!(fd_calls::lseek(&mut table, fd, 0, libc::SEEK_CUR), FdOutcome::Return(10));
}

#[test]
fn a_range_is_fetched_and_advances_the_description() {
    let mut table = new_table();
    let fd = table.allocate(b"/ws/big", 100_000, None).unwrap();
    let alias = table.duplicate(fd).unwrap();
    table.advance_offset(fd, 99_990).unwrap();
    let (request, snapshot) = fetch(&mut table, alias, 64);
    assert_eq!(request.path, b"/ws/big");
    assert_eq!((request.offset, request.len, request.size), (99_990, 10, 100_000));
    let read = finish_read(&mut table, snapshot, request.len, Some(b"0123456789".to_vec()));
    assert_eq!(read.unwrap(), b"0123456789");
    assert_eq!(table.offset(fd), Some(100_000));
}

#[test]
fn a_failed_fetch_moves_nothing_and_a_short_one_what_came() {
    let mut table = new_table();
    let fd = table.allocate(b"/ws/big", 100_000, None).unwrap();
    for (data, outcome, offset) in [
        (None, Err(libc::EIO), 0),
        (Some(b"short".to_vec()), Ok(b"short".to_vec()), 5),
        (Some(vec![7; 70]), Ok(vec![7; 64]), 69),
    ] {
        let (request, snapshot) = fetch(&mut table, fd, 64);
        assert_eq!(finish_read(&mut table, snapshot, request.len, data), outcome);
        assert_eq!(table.offset(fd), Some(offset));
    }
    assert_eq!(finish_pread(4, Some(b"four!".to_vec())).unwrap(), b"four");
    assert_eq!(finish_pread(4, Some(b"fou".to_vec())).unwrap(), b"fou");
    assert_eq!(finish_pread(4, None).unwrap_err(), libc::EIO);
}

#[test]
fn a_late_read_moves_no_newer_file() {
    let mut table = new_table();
    let fd = table.allocate(b"/ws/old", 100_000, None).unwrap();
    let (request, snapshot) = fetch(&mut table, fd, 64);
    table.close(fd).unwrap();
    let newer = table.allocate(b"/ws/new", 100_000, None).unwrap();
    finish_read(&mut table, snapshot, request.len, Some(vec![0; 64])).unwrap();
    assert_eq!(table.offset(newer), Some(0));
}

#[test]
fn pread_leaves_the_offset_alone() {
    let mut table = new_table();
    let fd = table.allocate(b"/ws/a", 5, Some(b"hello".to_vec())).unwrap();
    assert!(matches!(
        begin_pread(&table, fd, 3, 1),
        ReadPlan::Bytes(bytes) if bytes == b"ell"
    ));
    assert!(matches!(begin_pread(&table, fd, 3, 9), ReadPlan::Bytes(bytes) if bytes.is_empty()));
    assert_eq!(table.offset(fd), Some(0));
    let check = table.allocate_check_only(b"/ws/c", 5, None).unwrap();
    assert!(matches!(begin_pread(&table, check, 3, 0), ReadPlan::Fail(libc::EBADF)));
    assert!(matches!(begin_pread(&table, 4, 3, 0), ReadPlan::Passthrough));
}

// ── Seeking, duplicating, locking ───────────────────────────────────

#[test]
fn seeks_answer_with_the_offset_or_an_errno() {
    let mut table = new_table();
    let fd = table.allocate(b"/ws/a", 10, None).unwrap();
    assert_eq!(fd_calls::lseek(&mut table, fd, -3, libc::SEEK_END), FdOutcome::Return(7));
    assert_eq!(fd_calls::lseek(&mut table, fd, -8, libc::SEEK_CUR), FdOutcome::Fail(libc::EINVAL));
    assert_eq!(table.offset(fd), Some(7));
    assert_eq!(fd_calls::lseek(&mut table, 3, 0, libc::SEEK_SET), FdOutcome::Passthrough);
    assert_eq!(
        fd_calls::lseek(&mut table, fd + 1, 0, libc::SEEK_SET),
        FdOutcome::Fail(libc::EINVAL)
    );
    let check = table.allocate_check_only(b"/ws/c", 10, None).unwrap();
    assert_eq!(fd_calls::lseek(&mut table, check, 0, libc::SEEK_SET), FdOutcome::Fail(libc::EBADF));
}

#[test]
fn duplicates_get_a_virtual_number_or_the_one_asked_for() {
    let mut table = new_table();
    let fd = table.allocate(b"/ws/a", 10, None).unwrap();
    let other = table.allocate(b"/ws/b", 10, None).unwrap();
    let dup = match fd_calls::dup(&mut table, fd) {
        FdOutcome::Return(dup) => dup as i32,
        outcome => panic!("{outcome:?}"),
    };
    assert!(table.is_virtual(dup) && dup != fd);
    assert_eq!(
        fd_calls::dup2(&mut table, fd, other),
        FdOutcome::Return(other as i64)
    );
    assert_eq!(table.get(other).unwrap().path, b"/ws/a");
    assert_eq!(
        fd_calls::dup3(&mut table, fd, other, libc::O_CLOEXEC),
        FdOutcome::Return(other as i64)
    );
    assert_eq!(table.get(other).unwrap().descriptor_flags, libc::FD_CLOEXEC);
    assert_eq!(fd_calls::dup(&mut table, 3), FdOutcome::Passthrough);
    assert_eq!(fd_calls::dup2(&mut table, 3, other), FdOutcome::Passthrough);
    assert_eq!(fd_calls::dup2(&mut table, fd, 3), FdOutcome::Passthrough);
    // Whether a descriptor of the kernel is open, the kernel knows.
    assert_eq!(fd_calls::dup2(&mut table, 3, 3), FdOutcome::Passthrough);
    assert_eq!(fd_calls::dup3(&mut table, 3, 3, 0), FdOutcome::Passthrough);
    assert_eq!(fd_calls::dup3(&mut table, 3, other, -1), FdOutcome::Passthrough);
    assert_eq!(fd_calls::dup2(&mut table, fd, fd), FdOutcome::Return(fd as i64));
    assert_eq!(fd_calls::dup3(&mut table, fd, fd, 0), FdOutcome::Fail(libc::EINVAL));
}

#[test]
fn locks_on_graph_files_are_remembered_and_always_granted() {
    let mut table = new_table();
    let fd = table.allocate(b"/ws/a", 10, None).unwrap();
    assert_eq!(
        fd_calls::flock(&mut table, fd, libc::LOCK_EX | libc::LOCK_NB),
        FdOutcome::Return(0)
    );
    assert!(table.has_flock(fd));
    assert_eq!(fd_calls::flock(&mut table, fd, libc::LOCK_UN), FdOutcome::Return(0));
    assert!(!table.has_flock(fd));
    assert_eq!(fd_calls::flock(&mut table, 3, libc::LOCK_SH), FdOutcome::Passthrough);
}

// ── Listing and metadata of descriptors ─────────────────────────────

#[test]
fn listing_goes_on_where_the_last_read_stopped() {
    let mut table = new_table();
    let fd = table.allocate_dir(b"/ws/d", test_entries()).unwrap();
    let mut listed = Vec::new();
    let mut positions = Vec::new();
    loop {
        match read_directory(&mut table, Layout::Getdents64, fd, 40) {
            ListOutcome::Records { bytes, position } => {
                positions.push(position);
                if bytes.is_empty() {
                    break;
                }
                listed.push(name_at(&bytes, 19));
            }
            other => panic!("{other:?}"),
        }
    }
    assert_eq!(listed, ["hello.rs", "subdir", "link"]);
    assert_eq!(positions, [1, 2, 3, 3]);
}

#[test]
fn listing_needs_room_a_directory_and_the_right_to_read() {
    let mut table = new_table();
    let fd = table.allocate_dir(b"/ws/d", test_entries()).unwrap();
    let file = table.allocate(b"/ws/f", 1, None).unwrap();
    let check = table.allocate_dir_check_only(b"/ws/c", test_entries()).unwrap();
    let mut list = |fd, size| read_directory(&mut table, Layout::Getdents64, fd, size);
    assert!(matches!(list(fd, 8), ListOutcome::Records { bytes, .. } if bytes.is_empty()));
    assert!(matches!(list(file, 64), ListOutcome::Passthrough));
    assert!(matches!(list(check, 64), ListOutcome::Fail(libc::EBADF)));
    assert!(matches!(list(3, 64), ListOutcome::Passthrough));
}

#[test]
fn a_descriptor_reports_what_was_captured_at_open() {
    let mut table = new_table();
    let stat = regular_file(12, [7; 32], false, 41);
    let options = OpenedFileOptions {
        io_permitted: true,
        path_only: false,
        link_target: None,
        flags: 0,
    };
    let fd = table.allocate_opened(b"/ws/a", stat, None, options).unwrap();
    let inode = table.get(fd).unwrap().opened_inode;
    assert!(matches!(
        begin_fstat(&table, fd),
        FstatPlan::Answer(record) if record == stat_record(&stat, inode)
    ));
    let bare = table.allocate(b"/ws/b", 3, None).unwrap();
    assert!(matches!(
        begin_fstat(&table, bare),
        FstatPlan::Ask { path, inode } if path == b"/ws/b" && inode == synthetic_inode(b"/ws/b")
    ));
    assert_eq!(finish_fstat(5, Some(stat)), Ok(stat_record(&stat, 5)));
    assert_eq!(finish_fstat(5, None), Err(libc::EBADF));
    assert!(matches!(begin_fstat(&table, 3), FstatPlan::Passthrough));
}

// ── Calls on paths ──────────────────────────────────────────────────

fn asked(request: PathRequest, strict: bool) -> PathCall {
    match begin_path_call(request, resolved(b"/ws/src/a.rs"), ROOT, strict) {
        PathStart::Call(call, _) => call,
        other => panic!("a workspace path has to be asked about, got {other:?}"),
    }
}

fn reply(request: PathRequest, strict: bool, answer: GraphAnswer, failure: ClientCallFailure) -> PathAction {
    asked(request, strict).advance(&mut StatCache::new(4), answer, failure)
}

#[test]
fn stat_reports_the_entry_and_lstat_the_link() {
    let file = regular_file(9, [0; 32], true, 3);
    let none = ClientCallFailure::NoFailure;
    let inode = synthetic_inode(b"/ws/src/a.rs");
    assert!(matches!(
        reply(PathRequest::Stat { follow: true }, false, present(file), none),
        PathAction::Report(record) if record == stat_record(&file, inode)
    ));
    assert!(matches!(
        reply(PathRequest::Stat { follow: false }, false, present(link()), none),
        PathAction::Report(record) if record == stat_record(&link(), inode)
    ));
    assert!(matches!(
        reply(PathRequest::Stat { follow: true }, false, present(link()), none),
        PathAction::Ask(GraphQuestion::Stat(path)) if path == b"/ws/src"
    ));
    assert_eq!(stat_request(libc::AT_SYMLINK_NOFOLLOW), PathRequest::Stat { follow: false });
    assert_eq!(stat_request(0), PathRequest::Stat { follow: true });
}

#[test]
fn access_and_readlink_answer_from_the_graph() {
    let none = ClientCallFailure::NoFailure;
    let file = present(regular_file(9, [0; 32], false, 3));
    assert!(matches!(
        reply(PathRequest::Access(libc::R_OK), false, file, none),
        PathAction::Grant
    ));
    let file = present(regular_file(9, [0; 32], false, 3));
    assert!(matches!(
        reply(PathRequest::Access(libc::X_OK), false, file, none),
        PathAction::Fail(libc::EACCES)
    ));
    let target = GraphAnswer::Link(Some(b"../lib".to_vec()));
    assert!(matches!(
        reply(PathRequest::ReadLink, false, target, none),
        PathAction::Target(target) if target == b"../lib"
    ));
    assert!(matches!(
        reply(
            PathRequest::ReadLink,
            true,
            GraphAnswer::Link(None),
            ClientCallFailure::NotFound
        ),
        PathAction::Fail(libc::EIO)
    ));
    assert_eq!(link_bytes(b"../library", 6), b"../lib");
    assert_eq!(link_bytes(b"a", 6), b"a");
}

#[test]
fn paths_outside_the_workspace_are_the_kernels() {
    let start = |resolution| begin_path_call(PathRequest::ReadLink, resolution, ROOT, false);
    assert!(matches!(start(resolved(b"/etc/hosts")), PathStart::Passthrough));
    assert!(matches!(start(HostPathResolution::Refused), PathStart::Fail(libc::EIO)));
    assert!(matches!(
        begin_path_call(PathRequest::ReadLink, resolved(b"/ws/a"), None, false),
        PathStart::Passthrough
    ));
    assert!(matches!(
        begin_path_call(
            PathRequest::Stat { follow: true },
            resolved(b"/ws/../etc"),
            ROOT,
            false
        ),
        PathStart::Fail(libc::EACCES)
    ));
}

#[test]
fn statx_on_an_empty_path_is_about_the_descriptor() {
    let mut table = new_table();
    let base = table.base();
    let stat = regular_file(12, [7; 32], false, 41);
    let options = OpenedFileOptions {
        io_permitted: true,
        path_only: false,
        link_target: None,
        flags: 0,
    };
    let fd = table.allocate_opened(b"/ws/a", stat, None, options).unwrap();
    let bare = table.allocate(b"/ws/b", 3, None).unwrap();
    let inode = table.get(fd).unwrap().opened_inode;
    let target = |path: Option<&[u8]>, flags, fd| statx_target(path, flags, fd, base, Some(&table));
    assert!(matches!(
        target(Some(b""), libc::AT_EMPTY_PATH, fd),
        StatxTarget::Captured(record) if record == stat_record(&stat, inode)
    ));
    assert!(matches!(
        target(None, libc::AT_EMPTY_PATH, bare),
        StatxTarget::Path(path) if path == b"/ws/b"
    ));
    assert!(matches!(target(Some(b""), libc::AT_EMPTY_PATH, 3), StatxTarget::Kernel));
    assert!(matches!(target(Some(b"a"), libc::AT_EMPTY_PATH, fd), StatxTarget::Argument));
    assert!(matches!(target(Some(b""), 0, fd), StatxTarget::Argument));
}

#[test]
fn raw_and_fortified_entry_points_delegate_what_they_do_not_serve() {
    assert!(syscall_is_statx(332, 332, false));
    assert!(!syscall_is_statx(332, 332, true));
    assert!(!syscall_is_statx(1, 332, false));
    assert!(fortified_open_delegates(libc::O_CREAT));
    assert!(!fortified_open_delegates(libc::O_RDONLY));
    assert!(fortified_read_delegates(false, 10_000, 10_000, 9, 8));
    assert!(!fortified_read_delegates(false, 10_000, 10_000, 8, 8));
    assert!(fortified_read_delegates(false, 3, 10_000, 8, 8));
    assert!(fortified_read_delegates(true, 10_000, 10_000, 8, 8));
    assert!(fortified_readlink_delegates(false, 9, 8));
    assert!(!fortified_readlink_delegates(false, 8, 8));
}

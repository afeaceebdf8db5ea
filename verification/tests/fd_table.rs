use kin_vfs::fd_table::{
    base_has_room, compute_vfd_base, synthetic_inode, synthetic_object_inode, vfd_base,
    DirEntryRaw, DuplicateError, FdTable, OpenFileDescriptionState, OpenedFileOptions, SeekError,
    VfdBaseCell, MAX_VFDS,
};
use kin_vfs::types::VirtualStat;

fn base() -> i32 {
    vfd_base(&mut VfdBaseCell::new(), Some(1024))
}

fn new_table() -> FdTable {
    FdTable::new(base())
}

fn regular_file(size: u64, content_hash: [u8; 32], executable: bool, mtime: u64) -> VirtualStat {
    VirtualStat {
        size,
        is_file: true,
        is_dir: false,
        is_symlink: false,
        mode: if executable { 0o755 } else { 0o644 },
        mtime,
        ctime: mtime,
        nlink: 1,
        content_hash: Some(content_hash),
        object_id: None,
    }
}

#[test]
fn allocate_and_get() {
    let mut table = new_table();
    let fd = table.allocate(b"/ws/file.txt", 100, None).unwrap();
    assert!(fd >= base());

    let handle = table.get(fd).unwrap();
    assert_eq!(handle.path, b"/ws/file.txt");
    assert_eq!(handle.size, 100);
    assert_eq!(table.offset(fd).unwrap(), 0);
    assert!(handle.cached_content.is_none());
    assert!(handle.io_permitted);
}

#[test]
fn check_only_descriptor_preserves_metadata_but_denies_io_right() {
    let mut table = new_table();
    let file = table
        .allocate_check_only(b"/ws/check-only.txt", 12, None)
        .unwrap();
    let dir = table
        .allocate_dir_check_only(b"/ws/check-only-dir", Vec::new())
        .unwrap();

    let file_handle = table.get(file).unwrap();
    assert_eq!(file_handle.size, 12);
    assert!(!file_handle.is_directory);
    assert!(!file_handle.io_permitted);

    let dir_handle = table.get(dir).unwrap();
    assert!(dir_handle.is_directory);
    assert!(!dir_handle.io_permitted);
}

#[test]
fn opened_descriptor_pins_metadata_inode_and_path_capability() {
    let mut table = new_table();
    let object_id = [11; 32];
    let mut stat = regular_file(12, [7; 32], false, 41);
    stat.object_id = Some(object_id);
    stat.mode = 0o440;
    let fd = table
        .allocate_opened(
            b"/ws/pinned.txt",
            stat,
            None,
            OpenedFileOptions {
                io_permitted: false,
                path_only: true,
                link_target: Some(b"target.txt".to_vec()),
                flags: libc::O_RDONLY | libc::O_CLOEXEC,
            },
        )
        .unwrap();

    let handle = table.get(fd).unwrap();
    let opened = handle.opened_stat.as_ref().unwrap();
    assert_eq!(opened.size, stat.size);
    assert_eq!(opened.content_hash, stat.content_hash);
    assert_eq!(opened.mode, stat.mode);
    assert_eq!(opened.mtime, stat.mtime);
    assert_eq!(
        handle.opened_inode,
        synthetic_object_inode(&object_id)
    );
    assert_eq!(handle.link_target.as_deref(), Some(&b"target.txt"[..]));
    assert!(!handle.io_permitted);
    assert!(handle.path_only);
    let expected_inode = handle.opened_inode;
    let expected_target = handle.link_target.clone();
    let expected_path_only = handle.path_only;
    let expected_io_permitted = handle.io_permitted;

    let duplicate = table.duplicate(fd).unwrap();
    let duplicate_handle = table.get(duplicate).unwrap();
    assert_eq!(duplicate_handle.opened_inode, expected_inode);
    assert_eq!(duplicate_handle.link_target, expected_target);
    assert_eq!(duplicate_handle.path_only, expected_path_only);
    assert_eq!(duplicate_handle.io_permitted, expected_io_permitted);
}

#[test]
fn allocate_with_small_content() {
    let mut table = new_table();
    let content = vec![0u8; 1024]; // 1 KiB — under threshold
    let fd = table
        .allocate(b"/ws/small.txt", 1024, Some(content.clone()))
        .unwrap();

    let handle = table.get(fd).unwrap();
    assert_eq!(handle.cached_content.as_ref().unwrap(), &content);
}

#[test]
fn allocate_drops_large_content() {
    let mut table = new_table();
    let content = vec![0u8; 128 * 1024]; // 128 KiB — over threshold
    let fd = table
        .allocate(b"/ws/big.bin", 131072, Some(content))
        .unwrap();

    let handle = table.get(fd).unwrap();
    assert!(handle.cached_content.is_none());
}

#[test]
fn advance_offset() {
    let mut table = new_table();
    let fd = table.allocate(b"/ws/f.txt", 200, None).unwrap();

    assert_eq!(table.advance_offset(fd, 50), Some(50));
    assert_eq!(table.advance_offset(fd, 30), Some(80));
    assert_eq!(table.offset(fd).unwrap(), 80);
}

#[test]
fn seek_set() {
    let mut table = new_table();
    let fd = table.allocate(b"/ws/f.txt", 200, None).unwrap();

    assert_eq!(table.seek(fd, 100, libc::SEEK_SET), Ok(100));
    assert_eq!(table.offset(fd).unwrap(), 100);
}

#[test]
fn seek_cur() {
    let mut table = new_table();
    let fd = table.allocate(b"/ws/f.txt", 200, None).unwrap();
    assert_eq!(table.seek(fd, 50, libc::SEEK_SET), Ok(50));

    assert_eq!(table.seek(fd, 25, libc::SEEK_CUR), Ok(75));
    assert_eq!(table.seek(fd, -10, libc::SEEK_CUR), Ok(65));
}

#[test]
fn seek_end() {
    let mut table = new_table();
    let fd = table.allocate(b"/ws/f.txt", 200, None).unwrap();

    assert_eq!(table.seek(fd, 0, libc::SEEK_END), Ok(200));
    assert_eq!(table.seek(fd, -50, libc::SEEK_END), Ok(150));
}

#[test]
fn seek_negative_result_returns_none() {
    let mut table = new_table();
    let fd = table.allocate(b"/ws/f.txt", 200, None).unwrap();

    assert_eq!(table.seek(fd, -1, libc::SEEK_SET), Err(SeekError::Invalid));
    assert_eq!(
        table.seek(fd, -300, libc::SEEK_END),
        Err(SeekError::Invalid)
    );
}

#[test]
fn seek_invalid_whence() {
    let mut table = new_table();
    let fd = table.allocate(b"/ws/f.txt", 200, None).unwrap();
    assert_eq!(table.seek(fd, 0, 99), Err(SeekError::Invalid));
}

#[test]
fn seek_overflow_preserves_the_prior_offset() {
    let mut table = new_table();
    let fd = table
        .allocate(b"/ws/huge.bin", i64::MAX as u64, None)
        .unwrap();
    assert_eq!(
        table.seek(fd, i64::MAX, libc::SEEK_SET),
        Ok(i64::MAX as u64)
    );
    assert_eq!(table.seek(fd, 1, libc::SEEK_CUR), Err(SeekError::Overflow));
    assert_eq!(table.offset(fd).unwrap(), i64::MAX as u64);
    assert_eq!(table.seek(fd, 1, libc::SEEK_END), Err(SeekError::Overflow));
    assert_eq!(table.offset(fd).unwrap(), i64::MAX as u64);
}

#[test]
fn seek_end_rejects_a_size_outside_off_t() {
    let mut table = new_table();
    let fd = table
        .allocate(b"/ws/unrepresentable.bin", i64::MAX as u64 + 1, None)
        .unwrap();
    assert_eq!(table.seek(fd, 0, libc::SEEK_END), Err(SeekError::Overflow));
    assert_eq!(table.offset(fd).unwrap(), 0);
}

#[test]
fn close_removes_fd() {
    let mut table = new_table();
    let fd = table.allocate(b"/ws/f.txt", 100, None).unwrap();
    assert!(table.is_virtual(fd));

    assert!(table.close(fd).is_some());
    assert!(!table.is_virtual(fd));
    assert!(table.get(fd).is_none());
}

#[test]
fn close_nonexistent_returns_none() {
    let mut table = new_table();
    assert!(table.close(base() + 999).is_none());
}

#[test]
fn duplicate_virtual_fd_shares_open_file_offset() {
    let mut table = new_table();
    let fd = table.allocate(b"/ws/f.txt", 200, None).unwrap();
    assert_eq!(table.seek(fd, 75, libc::SEEK_SET), Ok(75));
    table.set_flock(fd, true);

    let dup = table.duplicate(fd).unwrap();
    assert_ne!(dup, fd);
    assert_eq!(table.get(dup).unwrap().path, b"/ws/f.txt");
    assert_eq!(table.offset(dup).unwrap(), 75);
    assert_eq!(table.seek(dup, 25, libc::SEEK_CUR), Ok(100));
    assert_eq!(table.offset(fd).unwrap(), 100);
    assert!(table.has_flock(dup));
    table.close(fd).expect("close original descriptor");
    assert!(
        table.has_flock(dup),
        "closing one alias must retain the open-file-description lock"
    );
    table.set_flock(dup, false);
    assert!(!table.has_flock(dup));
}

#[test]
fn duplicate_into_replaces_existing_virtual_fd() {
    let mut table = new_table();
    let src = table.allocate(b"/ws/src.txt", 50, None).unwrap();
    let dst = table.allocate(b"/ws/dst.txt", 60, None).unwrap();

    let replaced = table.duplicate_into(src, dst, false, 0).unwrap();
    assert_eq!(replaced, dst);
    assert_eq!(table.get(dst).unwrap().path, b"/ws/src.txt");
    assert_eq!(table.get(src).unwrap().path, b"/ws/src.txt");
    assert!(!table.get(dst).unwrap().kernel_backed);
}

#[test]
fn duplicate_reports_table_exhaustion_without_losing_the_source() {
    let mut table = new_table();
    let source = table
        .allocate(b"/ws/source.txt", 1, Some(vec![b'x']))
        .unwrap();
    for index in 1..MAX_VFDS {
        let path = format!("/ws/fill-{index}");
        table
            .allocate(path.as_bytes(), 0, Some(Vec::new()))
            .expect("fill every virtual descriptor slot");
    }

    assert_eq!(table.duplicate(source), Err(DuplicateError::TableFull));
    assert_eq!(table.get(source).unwrap().path, b"/ws/source.txt");
}

#[test]
fn in_flight_open_file_state_cannot_advance_a_reused_descriptor() {
    let mut table = new_table();
    let old_fd = table.allocate(b"/ws/old.txt", 50, None).unwrap();
    let in_flight = table.snapshot(old_fd).unwrap();
    table.close(old_fd).unwrap();

    let replacement = table.allocate(b"/ws/new.txt", 60, None).unwrap();
    table
        .duplicate_into(replacement, old_fd, false, 0)
        .expect("reuse old descriptor number");

    let mut state = table.open_file(&in_flight).unwrap();
    state.offset = 19;
    assert!(table.set_open_file(&in_flight, state));
    assert_eq!(table.open_file(&in_flight).unwrap().offset, 19);
    assert_eq!(
        table.offset(old_fd).unwrap(),
        0,
        "late completion must not advance the replacement open-file description"
    );
}

#[test]
fn ordinary_dup_target_records_kernel_descriptor_ownership() {
    let mut table = new_table();
    let src = table.allocate(b"/ws/src.txt", 50, None).unwrap();
    table
        .duplicate_into(src, 7, true, 0)
        .expect("install ordinary descriptor target");
    assert!(table.get(7).unwrap().kernel_backed);
    assert_eq!(table.offset(7).unwrap(), 0);
    assert_eq!(table.seek(src, 4, libc::SEEK_SET), Ok(4));
    assert_eq!(table.offset(7).unwrap(), 4);
}

#[test]
fn flock_state_clears_on_close() {
    let mut table = new_table();
    let fd = table.allocate(b"/ws/f.txt", 200, None).unwrap();
    table.set_flock(fd, true);
    assert!(table.has_flock(fd));
    table.close(fd);
    assert!(!table.has_flock(fd));
}

#[test]
fn multiple_fds() {
    let mut table = new_table();
    let fd1 = table.allocate(b"/ws/a.txt", 10, None).unwrap();
    let fd2 = table.allocate(b"/ws/b.txt", 20, None).unwrap();
    let fd3 = table.allocate(b"/ws/c.txt", 30, None).unwrap();

    assert_ne!(fd1, fd2);
    assert_ne!(fd2, fd3);
    assert_eq!(table.len(), 3);

    assert_eq!(table.get(fd1).unwrap().path, b"/ws/a.txt");
    assert_eq!(table.get(fd2).unwrap().path, b"/ws/b.txt");
    assert_eq!(table.get(fd3).unwrap().path, b"/ws/c.txt");
}

#[test]
fn non_utf8_handle_paths_and_entry_names_round_trip() {
    let mut table = new_table();
    let raw_path = b"/ws/logs/x-\xff\xfe.log";
    let fd = table.allocate(raw_path, 12, None).unwrap();
    assert_eq!(table.get(fd).unwrap().path, raw_path);

    let dir = table
        .allocate_dir(
            b"/ws/logs",
            vec![DirEntryRaw {
                name: b"x-\xff\xfe.log".to_vec(),
                d_ino: 7,
                d_type: 8,
            }],
        )
        .unwrap();
    let entries = table.get(dir).unwrap().dir_entries.as_ref().unwrap();
    assert_eq!(entries[0].name, b"x-\xff\xfe.log");

    table.track_write(4, raw_path.to_vec());
    assert_eq!(table.close_write(4).unwrap(), raw_path);
}

#[test]
fn is_virtual_check() {
    let table = new_table();
    // Real kernel fds are not virtual.
    assert!(!table.is_virtual(0));
    assert!(!table.is_virtual(1));
    assert!(!table.is_virtual(2));
    assert!(!table.is_virtual(255));
}

// ── Directory handle tests ──────────────────────────────────────────

#[test]
fn allocate_dir_and_get() {
    let mut table = new_table();
    let entries = vec![
        DirEntryRaw {
            name: b"foo.rs".to_vec(),
            d_ino: 100,
            d_type: 8,
        },
        DirEntryRaw {
            name: b"bar".to_vec(),
            d_ino: 101,
            d_type: 4,
        },
    ];
    let fd = table.allocate_dir(b"/ws/src", entries).unwrap();
    assert!(fd >= base());

    let handle = table.get(fd).unwrap();
    assert!(handle.is_directory);
    assert_eq!(table.dir_offset(fd).unwrap(), 0);
    let dir_ents = handle.dir_entries.as_ref().unwrap();
    assert_eq!(dir_ents.len(), 2);
    assert_eq!(dir_ents[0].name, b"foo.rs");
    assert_eq!(dir_ents[1].name, b"bar");
}

#[test]
fn dir_offset_tracking() {
    let mut table = new_table();
    let entries = vec![
        DirEntryRaw {
            name: b"a.txt".to_vec(),
            d_ino: 1,
            d_type: 8,
        },
        DirEntryRaw {
            name: b"b.txt".to_vec(),
            d_ino: 2,
            d_type: 8,
        },
        DirEntryRaw {
            name: b"c.txt".to_vec(),
            d_ino: 3,
            d_type: 8,
        },
    ];
    let fd = table.allocate_dir(b"/ws", entries).unwrap();

    let duplicate = table.duplicate(fd).unwrap();
    table.set_dir_offset(fd, 2);
    assert_eq!(table.dir_offset(fd).unwrap(), 2);
    assert_eq!(
        table.dir_offset(duplicate).unwrap(),
        2,
        "duplicates share one directory-stream position"
    );
}

#[test]
fn close_dir_fd() {
    let mut table = new_table();
    let fd = table.allocate_dir(b"/ws", vec![]).unwrap();
    assert!(table.is_virtual(fd));
    assert!(table.close(fd).is_some());
    assert!(!table.is_virtual(fd));
}

// ── mmap tracking tests ─────────────────────────────────────────────

#[test]
fn mmap_track_and_untrack() {
    let mut table = new_table();
    assert_eq!(table.mmap_count(), 0);

    table.track_mmap(0x1000, 4096);
    table.track_mmap(0x2000, 8192);
    assert_eq!(table.mmap_count(), 2);
    assert!(table.is_virtual_mmap(0x1000));
    assert!(table.is_virtual_mmap(0x2000));
    assert!(!table.is_virtual_mmap(0x3000));

    let region = table.untrack_mmap(0x1000).unwrap();
    assert_eq!(region.addr, 0x1000);
    assert_eq!(region.len, 4096);
    assert_eq!(table.mmap_count(), 1);
    assert!(!table.is_virtual_mmap(0x1000));

    // Untracking nonexistent returns None.
    assert!(table.untrack_mmap(0x9999).is_none());
}

// ── Write tracking tests ──────────────────────────────────────────────

#[test]
fn track_write_and_close() {
    let mut table = new_table();
    // Track a real kernel fd (3) as opened for writing.
    table.track_write(3, b"/ws/src/main.rs".to_vec());
    assert!(table.is_write_tracked(3));

    // Closing returns the path.
    let path = table.close_write(3).unwrap();
    assert_eq!(path, b"/ws/src/main.rs");
    assert!(!table.is_write_tracked(3));
}

#[test]
fn close_write_nonexistent_returns_none() {
    let mut table = new_table();
    assert!(table.close_write(42).is_none());
}

#[test]
fn close_read_only_vfd_has_no_write_path() {
    let mut table = new_table();
    let fd = table.allocate(b"/ws/readme.md", 256, None).unwrap();
    // Virtual read-only fd — write_path should be None.
    let handle = table.close(fd).unwrap();
    assert!(handle.write_path.is_none());
}

#[test]
fn virtual_handle_default_write_path_is_none() {
    let mut table = new_table();
    let fd = table.allocate(b"/ws/file.rs", 100, None).unwrap();
    assert!(table.get(fd).unwrap().write_path.is_none());
}

// ── Atomic write tracking tests ──────────────────────────────────────

#[test]
fn track_atomic_write_and_close() {
    let mut table = new_table();
    table.track_atomic_write(
        7,
        b"/ws/src/main.rs".to_vec(),
        b"/ws/src/main.rs.kin_tmp_12345".to_vec(),
    );
    assert!(table.is_atomic_write(7));

    let entry = table.close_atomic_write(7).unwrap();
    assert_eq!(entry.target_path, b"/ws/src/main.rs");
    assert_eq!(entry.temp_path, b"/ws/src/main.rs.kin_tmp_12345");
    assert!(!table.is_atomic_write(7));
}

#[test]
fn close_atomic_write_nonexistent_returns_none() {
    let mut table = new_table();
    assert!(table.close_atomic_write(42).is_none());
}

#[test]
fn atomic_write_coexists_with_write_tracking() {
    let mut table = new_table();
    // Both atomic and write tracking on same fd
    table.track_write(5, b"/ws/file.rs".to_vec());
    table.track_atomic_write(
        5,
        b"/ws/file.rs".to_vec(),
        b"/ws/file.rs.kin_tmp_999".to_vec(),
    );

    assert!(table.is_write_tracked(5));
    assert!(table.is_atomic_write(5));

    // Close both
    let atomic = table.close_atomic_write(5).unwrap();
    assert_eq!(atomic.target_path, b"/ws/file.rs");
    let write_path = table.close_write(5).unwrap();
    assert_eq!(write_path, b"/ws/file.rs");
}

#[test]
fn write_tracking_does_not_interfere_with_virtual_fds() {
    let mut table = new_table();
    // Track a real write fd.
    table.track_write(5, b"/ws/src/lib.rs".to_vec());
    // Allocate a virtual fd.
    let vfd = table.allocate(b"/ws/other.rs", 50, None).unwrap();
    assert!(vfd >= base());

    // Both coexist.
    assert!(table.is_write_tracked(5));
    assert!(table.is_virtual(vfd));

    // Closing the write fd doesn't affect the virtual fd.
    table.close_write(5);
    assert!(table.is_virtual(vfd));
}

// ── Dynamic VFD base tests ──────────────────────────────────────────

#[test]
fn vfd_base_is_at_least_10000() {
    assert!(base() >= 10_000);
    for limit in [Some(0), None, Some(1_024), Some(u64::MAX)] {
        assert!(vfd_base(&mut VfdBaseCell::new(), limit) >= 10_000);
    }
}

#[test]
fn the_base_stays_where_it_was_when_the_limit_changes() {
    let mut cell = VfdBaseCell::new();
    assert_eq!(vfd_base(&mut cell, Some(65_536)), 66_536);
    for limit in [Some(1_024), None, Some(1 << 20), Some(u64::MAX - 1)] {
        assert_eq!(vfd_base(&mut cell, limit), 66_536);
    }
    assert_eq!(vfd_base(&mut VfdBaseCell::new(), None), 100_000);
}

#[test]
fn a_base_needs_room_for_every_descriptor() {
    assert!(base_has_room(10_000));
    assert!(base_has_room(i32::MAX - MAX_VFDS as i32));
    assert!(!base_has_room(i32::MAX - MAX_VFDS as i32 + 1));
    assert!(!base_has_room(i32::MAX));
}

#[test]
fn vfd_base_lies_a_thousand_above_the_soft_limit() {
    assert_eq!(compute_vfd_base(Some(1024)), 10_000);
    assert_eq!(compute_vfd_base(Some(9_000)), 10_000);
    assert_eq!(compute_vfd_base(Some(65_536)), 66_536);
    assert_eq!(compute_vfd_base(Some(libc::RLIM_INFINITY)), 100_000);
    assert_eq!(compute_vfd_base(None), 100_000);
    assert_eq!(compute_vfd_base(Some(u64::MAX - 1)), i32::MAX);
}

#[test]
fn allocated_fds_are_above_vfd_base() {
    let mut table = new_table();
    let fd1 = table.allocate(b"/ws/a.txt", 10, None).unwrap();
    let fd2 = table.allocate(b"/ws/b.txt", 20, None).unwrap();
    assert!(fd1 >= base());
    assert!(fd2 >= base());
}

#[test]
fn wrap_around_skips_occupied_slots() {
    let mut table = new_table();
    // Allocate first fd.
    let fd1 = table.allocate(b"/ws/first.txt", 10, None).unwrap();
    // Close it — the slot is now free.
    table.close(fd1);
    // Allocate MAX_VFDS - 1 more fds so next_fd wraps around.
    let mut fds = Vec::new();
    for i in 0..(MAX_VFDS - 1) {
        let fd = table
            .allocate(format!("/ws/f{i}.txt").as_bytes(), 10, None)
            .unwrap();
        fds.push(fd);
    }
    // Table has MAX_VFDS - 1 entries. next_vfd should wrap and find fd1's
    // old slot (which was freed).
    let fd_wrap = table.allocate(b"/ws/wrap.txt", 10, None).unwrap();
    assert!(fd_wrap >= base());
    // Should have reclaimed the freed slot.
    assert_eq!(fd_wrap, fd1);
}

#[test]
fn full_table_returns_none() {
    let mut table = new_table();
    // Fill the entire table.
    for i in 0..MAX_VFDS {
        assert!(
            table
                .allocate(format!("/ws/f{i}.txt").as_bytes(), 10, None)
                .is_some(),
            "allocation {} should succeed",
            i
        );
    }
    // Table is full — next allocation should fail.
    assert!(table.allocate(b"/ws/overflow.txt", 10, None).is_none());
}

// ── Shared descriptions ─────────────────────────────────────────────

#[test]
fn a_released_snapshot_gives_back_its_native_descriptor() {
    let mut table = new_table();
    let fd = table.allocate(b"/ws/a.txt", 5, None).unwrap();
    let snapshot = table.snapshot(fd).unwrap();
    let state = OpenFileDescriptionState {
        native_backing_fd: Some(77),
        ..table.open_file(&snapshot).unwrap()
    };
    assert!(table.set_open_file(&snapshot, state));
    assert!(table.close(fd).is_some());
    assert!(table.take_released().is_empty());
    table.release(snapshot);
    assert_eq!(table.take_released(), vec![77]);
    assert!(table.take_released().is_empty());
}

#[test]
fn the_last_alias_releases_the_description() {
    let mut table = new_table();
    let fd = table.allocate(b"/ws/a.txt", 5, None).unwrap();
    let dup = table.duplicate(fd).unwrap();
    let snapshot = table.snapshot(fd).unwrap();
    let state = OpenFileDescriptionState {
        native_backing_fd: Some(31),
        ..table.open_file(&snapshot).unwrap()
    };
    assert_eq!(table.native_backing_fd(dup), None);
    assert!(table.set_open_file(&snapshot, state));
    table.release(snapshot);
    assert_eq!(table.native_backing_fd(fd), Some(31));
    assert_eq!(table.native_backing_fd(dup), Some(31));
    assert_eq!(table.native_backing_fd(dup + 1), None);
    assert!(table.close(fd).is_some());
    assert!(table.take_released().is_empty());
    assert!(table.close(dup).is_some());
    assert_eq!(table.take_released(), vec![31]);
}

#[test]
fn descriptor_flags_belong_to_one_descriptor() {
    let mut table = new_table();
    let fd = table.allocate(b"/ws/a.txt", 5, None).unwrap();
    let dup = table.duplicate(fd).unwrap();
    assert!(table.set_descriptor_flags(fd, libc::FD_CLOEXEC));
    assert_eq!(table.get(fd).unwrap().descriptor_flags, libc::FD_CLOEXEC);
    assert_eq!(table.get(dup).unwrap().descriptor_flags, 0);
    assert!(!table.set_descriptor_flags(3, libc::FD_CLOEXEC));
}

#[test]
fn duplicate_of_a_kernel_descriptor_is_refused() {
    let mut table = new_table();
    assert_eq!(table.duplicate(3), Err(DuplicateError::NotVirtual));
    assert_eq!(
        table.duplicate_into(3, base(), false, 0),
        Err(DuplicateError::NotVirtual)
    );
}

#[test]
fn advance_offset_saturates() {
    let mut table = new_table();
    let fd = table.allocate(b"/ws/a.txt", 5, None).unwrap();
    assert_eq!(table.advance_offset(fd, u64::MAX), Some(u64::MAX));
    assert_eq!(table.advance_offset(fd, 1), Some(u64::MAX));
    assert_eq!(table.advance_offset(3, 1), None);
}

#[test]
fn synthetic_inodes_are_deterministic_and_depend_on_the_bytes() {
    for path in [&b""[..], b"/ws/a", b"/ws/x-\xff\xfe"] {
        assert_eq!(synthetic_inode(path), synthetic_inode(path));
    }
    assert_ne!(synthetic_inode(b"/ws/a"), synthetic_inode(b"/ws/b"));
    assert_ne!(synthetic_inode(b"/ws/\xff"), synthetic_inode(b"/ws/\xfe"));
    assert_ne!(synthetic_object_inode(&[1; 32]), synthetic_object_inode(&[2; 32]));
}

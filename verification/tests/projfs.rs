use kin_vfs::projfs::{
    basic_info_from_stat, callback_key, check_projfs_available, create_deterministic_guid,
    epoch_to_filetime, file_data, get_relative_path, graph_name_as_str, guid_from_hash,
    is_workspace_path_windows as owned_on_windows, notified_keys, placeholder_info,
    result_to_hresult, to_daemon_path, to_wide_str, wants_whole_file, BasicInfo, EnumSession,
    EnumStep, FillOutcome, Guid, Notification, ProjFsError, E_INVALIDARG, FILE_ATTRIBUTE_DIRECTORY,
    FILE_ATTRIBUTE_NORMAL, FILE_NOT_FOUND, INSUFFICIENT_BUFFER, INVALID_NAME, LAST_SECOND,
    S_OK,
};
use kin_vfs::types::{DirEntry, FileType, VirtualStat};
use kin_vfs::vfs_path::{VfsName, WorkspacePathError};

#[test]
fn is_workspace_path_windows() {
    let root = Some(r"C:\Users\test\project".as_bytes());
    let is_workspace_path = |path: &str| owned_on_windows(path.as_bytes(), root);

    assert!(is_workspace_path(r"C:\Users\test\project\src\main.rs"));
    assert!(is_workspace_path(r"C:\Users\test\project\Cargo.toml"));
    assert!(is_workspace_path(r"C:\Users\test\project"));

    // Must not match paths that merely share a prefix.
    assert!(!is_workspace_path(r"C:\Users\test\project2\file.rs"));
    assert!(!is_workspace_path(r"C:\Users\test\projectx"));

    // Outside workspace entirely.
    assert!(!is_workspace_path(r"C:\Windows\System32\notepad.exe"));
    assert!(!is_workspace_path(r"D:\other\path"));
}

#[test]
fn deterministic_guid_is_stable() {
    let path = r"C:\Users\test\workspace";
    let guid1 = create_deterministic_guid(path);
    let guid2 = create_deterministic_guid(path);
    assert_eq!(guid1, guid2);
}

#[test]
fn deterministic_guid_differs_for_different_paths() {
    let path1 = r"C:\Users\test\workspace1";
    let path2 = r"C:\Users\test\workspace2";
    let guid1 = create_deterministic_guid(path1);
    let guid2 = create_deterministic_guid(path2);
    assert_ne!(guid1, guid2);
}

#[test]
fn epoch_to_filetime_known_value() {
    // 2024-01-01 00:00:00 UTC = 1704067200 epoch
    // Expected FILETIME: (1704067200 + 11644473600) * 10_000_000
    let ft = epoch_to_filetime(1704067200);
    assert_eq!(ft, (1704067200u64 + 11_644_473_600) * 10_000_000);
}

#[test]
fn to_daemon_path_with_backslashes() {
    assert_eq!(
        to_daemon_path(r"src\main.rs").unwrap().as_bytes(),
        b"src/main.rs".as_slice()
    );
}

#[test]
fn to_daemon_path_empty_relative() {
    assert!(to_daemon_path("").unwrap().is_root());
}

#[test]
fn to_daemon_path_never_serializes_the_windows_workspace_root() {
    let key = to_daemon_path(r"nested\file.rs").unwrap();
    assert_eq!(key.as_bytes(), b"nested/file.rs".as_slice());
    assert!(!key.as_bytes().windows(3).any(|window| window == b"C:/"));
    assert!(!key.as_bytes().starts_with(b"/"));
}

#[test]
fn to_daemon_path_rejects_absolute_and_traversal_paths() {
    assert_eq!(
        to_daemon_path(r"C:\outside\file.rs").err(),
        Some(WorkspacePathError::OutsideRoot)
    );
    assert_eq!(
        to_daemon_path(r"\outside\file.rs").err(),
        Some(WorkspacePathError::OutsideRoot)
    );
    assert_eq!(
        to_daemon_path(r"src\..\secret.rs").err(),
        Some(WorkspacePathError::ParentTraversal)
    );
}

#[test]
fn notification_key_carries_no_host_root() {
    // The notification sends these exact graph-key bytes. There is no
    // second host-path rendering that could disagree with the key, and no
    // component of the Windows root may survive into it.
    let key = to_daemon_path(r"src\main.rs").unwrap();
    assert_eq!(key.as_bytes(), b"src/main.rs".as_slice());
    assert!(!key.as_bytes().windows(2).any(|window| window == b"C:"));
}

#[test]
fn to_wide_str_roundtrip() {
    let s = "hello.txt";
    let wide = to_wide_str(s);
    // Last element is null terminator.
    assert_eq!(*wide.last().unwrap(), 0);
    // Decode back (without null terminator).
    let decoded = String::from_utf16(&wide[..wide.len() - 1]).unwrap();
    assert_eq!(decoded, s);
}

#[test]
fn projfs_unavailable_error_is_actionable() {
    // Verify the Unavailable error message contains remediation instructions.
    let err = ProjFsError::Unavailable("test".to_string());
    let msg = err.message();
    assert!(msg.contains("ProjFS unavailable"));

    // Every variant has a message.
    let _ = ProjFsError::Setup("s".into()).message();
    let _ = ProjFsError::Start("s".into()).message();
}

#[test]
fn check_projfs_available_returns_result() {
    // On a Windows machine with ProjFS enabled, this returns Ok.
    // On machines without ProjFS, this returns Err(Unavailable).
    for loaded in [true, false] {
        let result = check_projfs_available(loaded);
        assert_eq!(result.is_ok(), loaded);
        match &result {
            Ok(()) => {
                // ProjFS is available — great.
            }
            Err(ProjFsError::Unavailable(msg)) => {
                // Expected on systems without ProjFS.
                assert!(msg.contains("Enable-WindowsOptionalFeature"));
                assert!(msg.contains("Client-ProjFS"));
            }
            Err(other) => {
                panic!("unexpected error variant: {}", other.message());
            }
        }
    }
}

fn file(size: u64, mtime: u64) -> VirtualStat {
    VirtualStat {
        size,
        is_file: true,
        is_dir: false,
        is_symlink: false,
        mode: 0o644,
        mtime,
        ctime: mtime,
        nlink: 1,
        content_hash: None,
        object_id: None,
    }
}

#[test]
fn error_messages_name_their_stage() {
    assert!(ProjFsError::Setup("s".into()).message().ends_with('s'));
    assert_ne!(
        ProjFsError::Setup("s".into()).message(),
        ProjFsError::Start("s".into()).message()
    );
    assert_eq!(result_to_hresult(Ok(())), S_OK);
    assert_eq!(result_to_hresult(Err(FILE_NOT_FOUND)), FILE_NOT_FOUND);
}

#[test]
fn a_guid_spreads_the_hash_over_its_fields() {
    let guid: Guid = guid_from_hash(0x0123_4567_89ab_cdef);
    assert_eq!(guid, guid_from_hash(0x0123_4567_89ab_cdef));
    assert_ne!(guid, guid_from_hash(0x0123_4567_89ab_cdee));
    assert_ne!(guid, guid_from_hash(0x8123_4567_89ab_cdef));
}

#[test]
fn wide_strings_carry_characters_outside_the_basic_plane() {
    let text = "a\u{e9}\u{1f600}";
    let wide = to_wide_str(text);
    assert_eq!(wide, text.encode_utf16().chain(std::iter::once(0)).collect::<Vec<u16>>());
    assert_eq!(get_relative_path(Some(&wide[..wide.len() - 1])).as_deref(), Some(text));
    assert_eq!(get_relative_path(Some(&[0xd800])), None);
    assert_eq!(get_relative_path(None).as_deref(), Some(""));
}

#[test]
fn only_text_names_can_be_projected() {
    assert_eq!(graph_name_as_str(b"main.rs").as_deref(), Some("main.rs"));
    assert_eq!(graph_name_as_str("\u{e9}".as_bytes()).as_deref(), Some("\u{e9}"));
    assert_eq!(graph_name_as_str(b"x-\xff"), None);
}

#[test]
fn metadata_becomes_basic_info() {
    let info = basic_info_from_stat(&file(12, 1704067200));
    let time = ((1704067200u64 + 11_644_473_600) * 10_000_000) as i64;
    assert_eq!(
        info,
        BasicInfo {
            is_directory: false,
            file_size: 12,
            creation_time: time,
            last_access_time: time,
            last_write_time: time,
            change_time: time,
            file_attributes: FILE_ATTRIBUTE_NORMAL,
        }
    );
    let dir = VirtualStat { is_file: false, is_dir: true, ..file(0, 0) };
    assert_eq!(basic_info_from_stat(&dir).file_attributes, FILE_ATTRIBUTE_DIRECTORY);
    assert_eq!(placeholder_info(None), Err(FILE_NOT_FOUND));
    assert_eq!(placeholder_info(Some(file(12, 1704067200))), Ok(info));
}

#[test]
fn callbacks_without_a_usable_name_are_refused() {
    assert_eq!(callback_key(None).err(), Some(E_INVALIDARG));
    assert_eq!(callback_key(Some(r"a\..\b")).err(), Some(E_INVALIDARG));
    assert_eq!(callback_key(Some(r"a\b")).unwrap().as_bytes(), b"a/b");
}

fn entry(name: &[u8], file_type: FileType) -> DirEntry {
    DirEntry { name: VfsName::from_bytes(name).unwrap(), file_type }
}

#[test]
fn an_enumeration_resumes_at_the_entry_that_did_not_fit() {
    let mut session = EnumSession::begin(Some(vec![
        entry(b"dep", FileType::Gitlink),
        entry(b"file", FileType::File),
    ]))
    .unwrap();
    session.begin_batch(false);
    assert!(matches!(session.next(Some("src")), EnumStep::Fill { name, info }
        if name == "dep" && info.is_directory && info.file_size == 0));
    assert_eq!(session.filled(Ok(())), FillOutcome::Next);
    assert!(matches!(session.next(Some("src")), EnumStep::Stat { key, name }
        if key.as_bytes() == b"src/file" && name == "file"));
    assert_eq!(session.filled(Err(INSUFFICIENT_BUFFER)), FillOutcome::Full);
    session.begin_batch(false);
    assert!(matches!(session.next(Some("src")), EnumStep::Stat { .. }));
    assert_eq!(session.filled(Ok(())), FillOutcome::Next);
    assert!(matches!(session.next(Some("src")), EnumStep::Done));
    session.begin_batch(true);
    assert!(matches!(session.next(Some("src")), EnumStep::Fill { .. }));
    assert_eq!(session.filled(Err(E_INVALIDARG)), FillOutcome::Fail(E_INVALIDARG));
}

#[test]
fn an_enumeration_fails_on_a_name_that_is_no_text() {
    let session = EnumSession::begin(Some(vec![entry(b"x-\xff", FileType::File)])).unwrap();
    assert!(matches!(session.next(Some("")), EnumStep::Fail(INVALID_NAME)));
    assert_eq!(EnumSession::begin(None).err(), Some(FILE_NOT_FOUND));
}

#[test]
fn file_requests_are_whole_or_ranged() {
    assert!(wants_whole_file(0, 0));
    assert!(!wants_whole_file(1, 0));
    assert!(!wants_whole_file(0, 1));
    assert_eq!(file_data(None), Err(FILE_NOT_FOUND));
    assert_eq!(file_data(Some(Vec::new())), Ok(None));
    assert_eq!(file_data(Some(b"x".to_vec())), Ok(Some(b"x".to_vec())));
}

#[test]
fn changes_are_announced_under_their_graph_keys() {
    let keys = |notification, relative, destination| {
        notified_keys(notification, relative, destination)
            .iter()
            .map(|key| key.as_bytes().to_vec())
            .collect::<Vec<_>>()
    };
    for notification in
        [Notification::ClosedModified, Notification::ClosedDeleted, Notification::Overwritten, Notification::Created]
    {
        assert_eq!(keys(notification, Some(r"src\a.rs"), None), vec![b"src/a.rs".to_vec()]);
    }
    assert_eq!(
        keys(Notification::Renamed, Some("a"), Some(Some("b"))),
        vec![b"a".to_vec(), b"b".to_vec()]
    );
    assert!(keys(Notification::Other, Some("a"), None).is_empty());
    assert!(keys(Notification::ClosedModified, None, None).is_empty());
}

#[test]
fn the_platform_clock_starts_before_the_epoch_and_ends_in_time() {
    assert_eq!(epoch_to_filetime(0), 116_444_736_000_000_000);
    assert_eq!(epoch_to_filetime(LAST_SECOND), 18_446_744_073_700_000_000);
    assert!(u64::MAX - epoch_to_filetime(LAST_SECOND) < 10_000_000);
}

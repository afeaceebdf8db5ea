use kin_vfs::automount::{
    all_loopback, describe_failure, ensure_hostname_alias, hosts_file_names, is_loopback,
    detach_step, is_mounted, mount_command, mount_layers, mount_nfs, mount_step, mount_tool,
    mounted_path, mounted_paths, nfs_host, system_tool as choose_tool, system_tool_windows,
    tool_candidates, unmount_command, unmount_failure, unmount_tool, windows_tool, IpAddress,
    Platform, ToolAction, ToolEvent, ToolOutput, ToolStage, UnmountAction, Unmounting,
    MAX_IDLE_UNMOUNTS, NFS_HOSTNAME,
};
use kin_vfs::nfs_fs::NfsStatus;
use kin_vfs::registry::{
    default_config_path, file_name, marker_path, paths_equal, search_dirs, Candidate,
    WorkspaceEntry, WorkspaceRegistry,
};
use kin_vfs::router::{
    global_id, local_start, report_as, translate_page, AttributesRoute, DirectoryRoute, FileRoute,
    KinNfsRouter, ListRoute, LookupRoute, Place, SlotPlan, INODES_PER_WORKSPACE, ROOT_INODE, WORKSPACE_BASE,
};
use kin_vfs::server::{
    admission_tick, admit_due, admits_before_shutdown, admitted_changes, default_kin_dir,
    default_mount_point, parse_sync_result, read_pid, read_port, request_sync, state_number,
    tick_action, write_sync_result, NfsServerConfig, SyncStep, TickAction, MIN_TICK,
};
use kin_vfs::status::{name_ordered, Admission, ExportStatus, WriteHealth};
use kin_vfs::vfs_path::VfsPath;

// ── Mounting ────────────────────────────────────────────────────────

#[test]
fn a_mount_line_yields_its_mount_point() {
    assert_eq!(
        mounted_path("kin.local:/ on /Users/x/Kin (nfs, nodev, nosuid)").as_deref(),
        Some("/Users/x/Kin")
    );
    // A mount point whose own name contains " (" still ends at the options.
    assert_eq!(
        mounted_path("kin.local:/ on /Users/x/My (old) Kin (nfs, nodev)").as_deref(),
        Some("/Users/x/My (old) Kin")
    );
    assert_eq!(mounted_path("not a mount line").as_deref(), None);
}

#[test]
fn a_resolution_counts_as_loopback_only_when_every_address_is() {
    let loopback_v4 = IpAddress::V4([127, 0, 0, 1]);
    let loopback_v6 = IpAddress::V6([0, 0, 0, 0, 0, 0, 0, 0, 0, 0, 0, 0, 0, 0, 0, 1]);
    let lan = IpAddress::V4([192, 168, 1, 20]);

    assert!(all_loopback(&vec![loopback_v4]));
    assert!(all_loopback(&vec![loopback_v4, loopback_v6]));
    // The mDNS case: a machine on the LAN answers for `kin.local` beside
    // the hosts-file entry, and mounting there sends the projection to it.
    assert!(!all_loopback(&vec![loopback_v4, lan]));
    assert!(!all_loopback(&vec![lan]));
    // A name that resolves to nothing is not loopback. `all` over an empty
    // iterator would have said it was.
    assert!(!all_loopback(&vec![]));
}

#[test]
fn a_literal_loopback_address_resolves_to_loopback() {
    assert!(is_loopback(&IpAddress::V4([127, 0, 0, 1])));
    assert!(is_loopback(&IpAddress::V4([127, 255, 1, 2])));
    assert!(!is_loopback(&IpAddress::V4([192, 0, 2, 1])));
    assert!(!is_loopback(&IpAddress::V6([0; 16])));
}

#[test]
fn the_export_is_mounted_by_name_only_where_the_name_is_local() {
    assert_eq!(nfs_host(&vec![IpAddress::V4([127, 0, 0, 1])]), NFS_HOSTNAME);
    assert_eq!(nfs_host(&vec![IpAddress::V4([192, 168, 1, 20])]), "127.0.0.1");
    assert_eq!(nfs_host(&vec![]), "127.0.0.1");
}

#[test]
fn the_hosts_entry_is_read_as_a_mapping_rather_than_as_a_substring() {
    assert!(hosts_file_names("127.0.0.1 kin.local\n", "kin.local"));
    assert!(hosts_file_names(
        "127.0.0.1\tlocalhost kin.local other\n",
        "kin.local"
    ));
    // A commented-out line is not an entry, and the substring test the
    // guard replaced answered yes to both of these.
    assert!(!hosts_file_names(
        "# kin.local is not set up\n",
        "kin.local"
    ));
    assert!(!hosts_file_names(
        "127.0.0.1 host # kin.local\n",
        "kin.local"
    ));
    // A longer name that merely contains this one is a different host.
    assert!(!hosts_file_names(
        "127.0.0.1 not-kin.local.example\n",
        "kin.local"
    ));
    // The address column is never a name.
    assert!(!hosts_file_names("kin.local 127.0.0.1\n", "kin.local"));
    assert!(!hosts_file_names("", "kin.local"));
}

/// Names a tool by asking the host which of its candidates are files.
fn system_tool(name: &str) -> Result<String, String> {
    let present =
        tool_candidates(name).iter().map(|path| std::path::Path::new(path).is_file()).collect();
    choose_tool(name, &present)
}

#[test]
fn a_system_tool_is_named_absolutely_or_refused() {
    let shell = system_tool("sh").expect("every unix host has a shell");
    assert!(
        shell.starts_with('/') && tool_candidates("sh").contains(&shell),
        "a tool must be named out of a trusted directory, got {shell:?}"
    );
    assert!(
        system_tool("kin-vfs-tool-that-does-not-exist").is_err(),
        "an absent tool must be refused rather than left to PATH"
    );
}

#[test]
fn a_tool_outside_the_trusted_directories_is_refused() {
    let everywhere = vec![true; 4];
    assert_eq!(choose_tool("mount", &everywhere).as_deref(), Ok("/usr/bin/mount"));
    for name in ["/tmp/mount", "../../tmp/mount", "./mount", "/usr/bin/mount", "mount/"] {
        let refusal = choose_tool(name, &everywhere).unwrap_err();
        assert!(refusal.contains(name), "{refusal}");
    }
    for name in [r"C:\tmp\mount.exe", r"..\mount.exe", "../mount.exe", "D:mount.exe"] {
        let refusal = system_tool_windows(None, name, true).unwrap_err();
        assert!(refusal.contains(name), "{refusal}");
    }
    assert!(system_tool_windows(None, "mount.exe", true).is_ok());
}

#[test]
fn the_first_candidate_that_exists_is_taken() {
    let candidates = tool_candidates("mount");
    assert!(candidates.iter().all(|path| path.starts_with('/') && path.ends_with("/mount")));
    for (n, candidate) in candidates.iter().enumerate() {
        let present = (0..candidates.len()).map(|m| m >= n).collect();
        assert_eq!(choose_tool("mount", &present).as_ref(), Ok(candidate));
    }
    let error = choose_tool("mount", &vec![false; candidates.len()]).unwrap_err();
    assert!(error.contains("mount"), "{error}");
}

#[test]
fn mount_lines_are_read_one_by_one() {
    let output = "kin.local:/ on /Users/x/Kin (nfs)\nnot a line\n/dev/disk1 on / (apfs, local)\n";
    assert_eq!(mounted_paths(output), vec!["/Users/x/Kin", "/"]);
    assert!(mounted_paths("").is_empty());
}

#[test]
fn test_is_mounted_non_mount() {
    // A regular directory is not a mount point.
    let mounted = vec![Some(b"/".to_vec()), None, Some(b"/private/tmp/kin".to_vec())];
    assert!(!is_mounted(Some(b"/private/tmp/other"), &mounted));
    assert!(is_mounted(Some(b"/private/tmp/kin"), &mounted));
}

#[test]
fn test_is_mounted_nonexistent() {
    assert!(!is_mounted(None, &vec![Some(b"/".to_vec()), None]));
    assert!(!is_mounted(Some(b"/"), &vec![]));
}

#[test]
fn the_alias_is_added_only_where_it_is_missing() {
    assert_eq!(ensure_hostname_alias("127.0.0.1 kin.local\n"), None);
    assert_eq!(
        ensure_hostname_alias("127.0.0.1 localhost\n").as_deref(),
        Some("127.0.0.1 kin.local")
    );
}

#[test]
fn mount_and_unmount_commands_carry_the_port_and_the_mount_point() {
    for platform in [Platform::Linux, Platform::MacOs, Platform::Windows] {
        let mount = mount_command(platform, 2049, "kin.local", "/mnt/kin");
        assert!(mount.last().is_some_and(|last| last.contains("/mnt/kin")), "{mount:?}");
        assert!(mount.iter().any(|word| word.contains("kin.local")), "{mount:?}");
        let unmount = unmount_command(platform, "/mnt/kin");
        assert!(unmount.iter().any(|word| word == "/mnt/kin"), "{unmount:?}");
    }
    let linux = mount_command(Platform::Linux, 4050, "127.0.0.1", "/m");
    assert!(linux.iter().any(|word| word.contains("port=4050,mountport=4050")), "{linux:?}");
}

#[test]
fn a_failed_mount_carries_what_the_tool_said() {
    let ok = ToolOutput { success: true, code: Some(0), stderr: Vec::new() };
    assert_eq!(mount_nfs(&ok), Ok(()));
    let failed = ToolOutput { success: false, code: Some(32), stderr: b"access \xff denied\n".to_vec() };
    let message = mount_nfs(&failed).unwrap_err();
    assert!(message.contains("32") && message.contains("access \u{fffd} denied"), "{message}");
    assert!(describe_failure("mount", None, "").contains("mount"));
}

/// Unmounts `layers`, of which each attempt takes off as many as `taken` says;
/// how many attempts there were, and what came of it.
fn unmount_layers(layers: usize, mut taken: impl FnMut(usize) -> usize) -> (usize, UnmountAction) {
    let (mut unmounting, mut action) = Unmounting::begin();
    let (mut left, mut attempts) = (layers, 0);
    loop {
        match action {
            UnmountAction::Check => {}
            UnmountAction::Unmount => {
                left -= taken(attempts).min(left);
                attempts += 1;
            }
            last => return (attempts, last),
        }
        action = unmounting.unmount(left);
    }
}

#[test]
fn every_stacked_layer_is_unmounted() {
    for layers in [0, 1, 2, 10, 11, 12, 250] {
        assert_eq!(unmount_layers(layers, |_| 1), (layers, UnmountAction::Done));
    }
    // Attempts that take nothing off are made up for by one that does.
    assert_eq!(
        unmount_layers(3, |attempt| usize::from(attempt % 9 == 8)),
        (27, UnmountAction::Done)
    );
}

#[test]
fn an_unmount_gives_up_when_nothing_comes_off() {
    let limit = MAX_IDLE_UNMOUNTS as usize;
    assert_eq!(limit, 10);
    assert_eq!(unmount_layers(1, |_| 0), (limit, UnmountAction::Fail));
    assert_eq!(
        unmount_layers(3, |attempt| usize::from(attempt < 2)),
        (2 + limit, UnmountAction::Fail)
    );
    assert!(unmount_failure("/mnt").contains("/mnt"));
}

#[test]
fn layers_are_counted_at_the_mount_point_alone() {
    let kin = Some(b"/mnt/kin".to_vec());
    let mounted = vec![Some(b"/".to_vec()), kin.clone(), None, kin.clone(), kin];
    assert_eq!(mount_layers(Some(b"/mnt/kin"), &mounted), 3);
    assert_eq!(mount_layers(Some(b"/mnt"), &mounted), 0);
    assert_eq!(mount_layers(None, &mounted), 0);
    assert!(is_mounted(Some(b"/mnt/kin"), &mounted));
}

fn tool_ended(success: bool, stderr: &[u8]) -> ToolEvent {
    ToolEvent::Ran(ToolOutput { success, code: Some(1), stderr: stderr.to_vec() })
}

#[test]
fn a_share_is_mounted_where_it_is_not_yet() {
    assert!(matches!(
        mount_step(ToolStage::Asked, ToolEvent::Mounted(true)),
        (ToolStage::Finished, ToolAction::Done)
    ));
    assert!(matches!(
        mount_step(ToolStage::Asked, ToolEvent::Mounted(false)),
        (ToolStage::Running, ToolAction::Run)
    ));
    assert!(matches!(
        mount_step(ToolStage::Running, tool_ended(true, b"")),
        (ToolStage::Finished, ToolAction::Done)
    ));
    match mount_step(ToolStage::Running, tool_ended(false, b"denied")) {
        (ToolStage::Finished, ToolAction::Fail(message)) => {
            assert!(message.contains("mount") && message.contains("denied"), "{message}");
        }
        other => panic!("{other:?}"),
    }
}

#[test]
fn a_detached_share_must_be_gone() {
    assert!(matches!(
        detach_step(ToolStage::Asked, ToolEvent::Mounted(false), "K:"),
        (ToolStage::Finished, ToolAction::Done)
    ));
    assert!(matches!(
        detach_step(ToolStage::Asked, ToolEvent::Mounted(true), "K:"),
        (ToolStage::Running, ToolAction::Run)
    ));
    assert!(matches!(
        detach_step(ToolStage::Running, tool_ended(true, b""), "K:"),
        (ToolStage::Verifying, ToolAction::Check)
    ));
    assert!(matches!(
        detach_step(ToolStage::Verifying, ToolEvent::Mounted(false), "K:"),
        (ToolStage::Finished, ToolAction::Done)
    ));
    match detach_step(ToolStage::Verifying, ToolEvent::Mounted(true), "K:") {
        (ToolStage::Finished, ToolAction::Fail(message)) => {
            assert_eq!(message, "failed to fully unmount K:");
        }
        other => panic!("{other:?}"),
    }
    match detach_step(ToolStage::Running, tool_ended(false, b"in use"), "K:") {
        (ToolStage::Finished, ToolAction::Fail(message)) => {
            assert!(message.contains("unmount") && message.contains("in use"), "{message}");
        }
        other => panic!("{other:?}"),
    }
}

// ── Registry ────────────────────────────────────────────────────────

fn new_registry() -> WorkspaceRegistry {
    WorkspaceRegistry::with_entries(Vec::new(), b"/home/x/reg.json".to_vec())
}

#[test]
fn register_and_list() {
    let mut reg = new_registry();

    let entry = reg.register("/tmp/my-project".as_bytes().to_vec(), "http://127.0.0.1:4219".to_string());
    assert_eq!(entry.name, "my-project");

    assert_eq!(reg.list().len(), 1);
    assert_eq!(reg.list()[0].name, "my-project");
}

#[test]
fn register_deduplication() {
    let mut reg = new_registry();

    reg.register("/tmp/project".as_bytes().to_vec(), "http://127.0.0.1:4219".to_string());
    let second = reg.register("/other/project".as_bytes().to_vec(), "http://127.0.0.1:4220".to_string());
    assert_eq!(second.name, "project-2");

    let third = reg.register("/yet/another/project".as_bytes().to_vec(), "http://127.0.0.1:4221".to_string());
    assert_eq!(third.name, "project-3");
}

#[test]
fn deregister_removes_entry() {
    let mut reg = new_registry();

    reg.register("/tmp/foo".as_bytes().to_vec(), "http://127.0.0.1:4219".to_string());
    assert_eq!(reg.list().len(), 1);

    assert!(reg.deregister("foo"));
    assert_eq!(reg.list().len(), 0);

    // Removing a non-existent entry returns false.
    assert!(!reg.deregister("foo"));
}

#[test]
fn is_registered_path_works() {
    let mut reg = new_registry();

    reg.register("/tmp/myrepo".as_bytes().to_vec(), "http://127.0.0.1:4219".to_string());

    assert!(reg.is_registered_path(b"/tmp/myrepo"));
    assert!(!reg.is_registered_path(b"/tmp/other"));
}

#[test]
fn get_by_name() {
    let mut reg = new_registry();

    reg.register("/tmp/abc".as_bytes().to_vec(), "http://127.0.0.1:4219".to_string());

    assert!(reg.get("abc").is_some());
    assert_eq!(reg.get("abc").unwrap().daemon_url, "http://127.0.0.1:4219");
    assert!(reg.get("nonexistent").is_none());
}

fn candidate(path: &str, holds_marker: bool) -> Candidate {
    Candidate { path: path.as_bytes().to_vec(), holds_marker }
}

#[test]
fn discover_finds_kin_dirs() {
    let found = vec![
        candidate("/home/x/GitHub/repo-a", true),
        candidate("/home/x/GitHub/repo-b", true),
        candidate("/home/x/GitHub/not-a-repo", false),
    ];
    let mut reg = new_registry();

    let discovered = reg.discover(&found);

    assert_eq!(discovered.len(), 2);
    assert!(discovered.contains(&"repo-a".to_string()));
    assert!(discovered.contains(&"repo-b".to_string()));
    assert_eq!(reg.list().len(), 2);

    // Running again should find nothing new.
    let again = reg.discover(&found);
    assert!(again.is_empty());
}

#[test]
fn a_discovery_appends_what_is_new_in_order() {
    let mut reg = new_registry();
    reg.register(b"/w/known".to_vec(), String::new());
    let found = vec![
        candidate("/w/b", true),
        candidate("/w/known/", true),
        candidate("/w/plain", false),
        candidate("/v/b", true),
        candidate("/w//b/.", true),
    ];
    assert_eq!(reg.discover(&found), ["b", "b-2"]);
    let paths: Vec<&[u8]> = reg.list().iter().map(|entry| entry.path.as_slice()).collect();
    assert_eq!(paths, [b"/w/known".as_slice(), b"/w/b", b"/v/b"]);
    assert!(reg.discover(&found).is_empty());
    assert_eq!(reg.list().len(), 3);
    assert_eq!(marker_path(b"/w/b"), b"/w/b/.kin");
}

#[test]
fn names_come_from_the_last_component() {
    assert_eq!(file_name(b"/a/b"), Some(b"b".to_vec()));
    assert_eq!(file_name(b"/a/b/"), Some(b"b".to_vec()));
    assert_eq!(file_name(b"/a/b/."), Some(b"b".to_vec()));
    assert_eq!(file_name(b"/a/.."), None);
    assert_eq!(file_name(b"/"), None);
    let mut reg = new_registry();
    assert_eq!(reg.register(b"/".to_vec(), String::new()).name, "workspace");
    assert_eq!(reg.register(b"/x/a-\xff".to_vec(), String::new()).name, "a-\u{fffd}");
}

#[test]
fn paths_are_compared_by_their_components() {
    assert!(paths_equal(b"/a//b/", b"/a/b"));
    assert!(paths_equal(b"/a/./b", b"/a/b"));
    assert!(!paths_equal(b"/a/../b", b"/b"));
    assert!(!paths_equal(b"a", b"/a"));
    let mut reg = new_registry();
    reg.register(b"/tmp/x/".to_vec(), String::new());
    assert!(reg.is_registered_path(b"/tmp/x"));
}

#[test]
fn a_freed_name_is_given_again() {
    let mut reg = new_registry();
    reg.register(b"/a/p".to_vec(), String::new());
    reg.register(b"/b/p".to_vec(), String::new());
    assert!(reg.deregister("p"));
    assert_eq!(reg.register(b"/c/p".to_vec(), String::new()).name, "p");
    assert_eq!(reg.register(b"/d/p".to_vec(), String::new()).name, "p-3");
    let names: Vec<&str> = reg.list().iter().map(|entry| entry.name.as_str()).collect();
    assert_eq!(names, ["p-2", "p", "p-3"]);
}

#[test]
fn workspaces_are_searched_below_home() {
    let dirs = search_dirs(b"/home/x");
    assert!(dirs.contains(&b"/home/x/GitHub".to_vec()), "{dirs:?}");
    assert_eq!(dirs.last().map(Vec::as_slice), Some(b"/home/x".as_slice()));
    assert_eq!(dirs.len(), 8);
    assert_eq!(new_registry().config_path(), b"/home/x/reg.json");
    assert!(default_config_path(Some(b"/home/x")).starts_with(b"/home/x/.kin/"));
}

// ── Router ──────────────────────────────────────────────────────────

fn entries() -> Vec<WorkspaceEntry> {
    vec![WorkspaceEntry {
        name: "demo".into(),
        path: b"/nonexistent/demo".to_vec(),
        daemon_url: "http://127.0.0.1:1".into(),
    }]
}

fn read_only() -> KinNfsRouter {
    KinNfsRouter::new(entries(), 501, 20)
}

fn writable() -> KinNfsRouter {
    KinNfsRouter::with_writes(entries(), true, 501, 20)
}

#[test]
fn capabilities_follow_the_export_not_a_lazily_created_slot() {
    // `nfsserve` asks the export once per write, before any lookup has
    // created a slot. An answer derived from the slots map would refuse
    // the first write on every freshly started server.
    assert!(!read_only().is_writable());
    assert!(writable().is_writable());
}

/// The read-only refusal must be about the export, not about the object.
/// A writable export answers ISDIR for the same call, which is what proves
/// the ROFS above is a real refusal rather than a constant.
#[test]
fn a_read_only_export_refuses_where_a_writable_one_describes_the_object() {
    let root = read_only().root_dir();

    assert_eq!(read_only().write(root), Err(NfsStatus::RoFs));
    assert_eq!(writable().write(root), Err(NfsStatus::IsDir));
    assert_eq!(read_only().refuse_when_read_only(), Err(NfsStatus::RoFs));
    // The export root lists workspaces and holds no files of its own, so a
    // writable export still refuses a directory there.
    assert_eq!(writable().refuse_when_read_only(), Ok(()));
    assert_eq!(writable().workspace_dir(root), Err(NfsStatus::RoFs));
}

#[test]
fn a_read_only_export_reports_no_write_side() {
    let mut router = read_only();
    assert!(!router.is_writable());
    assert!(router.writing().is_empty());
    assert!(router.refusals().is_empty());
    router.create_slot(0, Ok(()));
    assert!(router.writing().is_empty());
}

#[test]
fn numbers_lead_to_their_workspace_and_back() {
    let mut router = writable();
    assert_eq!(router.get_or_create_slot(0), SlotPlan::Create(0));
    let slot = router.create_slot(0, Ok(()));
    assert_eq!(router.get_or_create_slot(0), SlotPlan::Open(slot));
    assert_eq!(router.find_slot("demo"), Some(slot));
    let offset = router.slot_offset(slot);
    let id = global_id(7, offset);
    assert_eq!(router.classify(id), Place::Slot { slot, local: 7 });
    assert_eq!(router.read(id), Ok(FileRoute { slot, local: 7 }));
    assert_eq!(router.write(id), Ok(FileRoute { slot, local: 7 }));
    assert_eq!(router.workspace_dir(id), Ok(DirectoryRoute::Slot { slot, local: 7 }));
    assert_eq!(router.getattr(id), Ok(AttributesRoute::Slot { slot, local: 7 }));
    assert_eq!(router.lookup(id, b"x"), Ok(LookupRoute::InSlot { slot, local: 7 }));
    assert_eq!(router.readdir(id), Ok(ListRoute::Slot { slot, local: 7 }));
    assert_eq!(local_start(id, offset), 7);
    assert_eq!(local_start(0, offset), 0);
    assert_eq!(router.classify(id + INODES_PER_WORKSPACE), Place::Stale);
    assert_eq!(router.read(id + INODES_PER_WORKSPACE), Err(NfsStatus::Stale));
}

#[test]
fn the_export_root_lists_its_workspaces() {
    let router = read_only();
    let listed = router.root_listing();
    let names: Vec<&[u8]> = listed.iter().map(|entry| entry.name.as_slice()).collect();
    assert_eq!(names, [&b"."[..], b"..", b"demo"]);
    let demo = listed[2].id;
    assert_eq!(demo, 2);
    assert!(demo < WORKSPACE_BASE);
    assert_eq!(router.workspace_root_inode("demo"), demo);
    assert_eq!(router.classify(demo), Place::Workspace(0));
    assert_eq!(router.classify(demo + 1), Place::Vacant);
    assert_eq!(router.classify(ROOT_INODE), Place::Root);
    assert_eq!(router.getattr(ROOT_INODE), Ok(AttributesRoute::Root));
    assert_eq!(router.getattr(demo), Ok(AttributesRoute::Workspace(0)));
    assert_eq!(router.lookup(ROOT_INODE, b"demo"), Ok(LookupRoute::WorkspaceRoot(0)));
    assert_eq!(router.lookup(ROOT_INODE, b"."), Ok(LookupRoute::Found(ROOT_INODE)));
    assert_eq!(router.lookup(ROOT_INODE, b"none"), Err(NfsStatus::NoEnt));
    assert_eq!(router.lookup(ROOT_INODE, b".."), Ok(LookupRoute::Found(ROOT_INODE)));
    assert_eq!(router.lookup(demo, b"src"), Ok(LookupRoute::InWorkspace(0)));
    assert_eq!(router.read(ROOT_INODE), Err(NfsStatus::IsDir));
    assert_eq!(router.entries().len(), 1);
    let attr = router.root_attr(77);
    assert_eq!((attr.fileid, attr.uid, attr.gid, attr.mtime), (ROOT_INODE, 501, 20, 77));
    assert_eq!(router.readdir(ROOT_INODE), Ok(ListRoute::Root));
    assert_eq!(router.readdir(demo), Ok(ListRoute::Workspace(0)));
    assert_eq!(router.readdir(demo + 1), Err(NfsStatus::Stale));
    assert_eq!(router.readdir(0), Err(NfsStatus::Stale));
}

#[test]
fn a_workspace_is_listed_with_its_own_attributes_under_its_number() {
    let router = read_only();
    let root = router.root_attr(77);
    let mut own = root;
    own.mode = 0o700;
    own.fileid = 1;
    let listed = router.listed_attributes(2, Some(own), 77);
    assert_eq!((listed.fileid, listed.mode), (2, 0o700));
    let unknown = router.listed_attributes(2, None, 77);
    assert_eq!((unknown.fileid, unknown.mode), (2, root.mode));
    assert_eq!(router.listed_attributes(ROOT_INODE, Some(own), 77), root);
    assert_eq!(report_as(Ok(own), 9).unwrap().fileid, 9);
    assert_eq!(report_as(Err(NfsStatus::Io), 9), Err(NfsStatus::Io));
}

#[test]
fn a_workspace_without_a_writer_is_refused_by_name() {
    let mut router = writable();
    let slot = router.create_slot(0, Err("cannot attribute a mount write".into()));
    assert!(router.writing().is_empty());
    assert_eq!(
        router.refusals(),
        &vec![("demo".to_string(), "cannot attribute a mount write".to_string())]
    );
    assert!(!router.adapter(slot).capabilities());
    let mut served = writable();
    let slot = served.create_slot(0, Ok(()));
    assert_eq!(served.writing(), ["demo"]);
    assert!(served.adapter(slot).capabilities());
}

#[test]
fn an_adapter_that_was_taken_is_put_back() {
    let mut router = writable();
    let slot = router.create_slot(0, Ok(()));
    let mut adapter = router.take_adapter(slot);
    let child = adapter.begin_mutation(1, b"new").unwrap();
    let id = adapter.finish_create_exclusive(&child, Ok(())).unwrap();
    router.put_adapter(slot, adapter);
    assert_eq!(router.adapter(slot).id_to_path(id).unwrap().as_bytes(), b"new");
}

#[test]
fn moves_stay_within_one_workspace() {
    let router = writable();
    assert_eq!(router.rename(3, 3), Ok(()));
    assert_eq!(router.rename(3, 4), Err(NfsStatus::XDev));
    assert_eq!(writable().symlink(), NfsStatus::NotSupp);
    assert_eq!(read_only().symlink(), NfsStatus::RoFs);
    assert!(translate_page(&Vec::new(), 10, true).is_empty());
}

// ── Server ──────────────────────────────────────────────────────────

#[test]
fn test_state_file_roundtrip() {
    assert_eq!(state_number(2049), "2049");
    assert_eq!(read_port(Some(&state_number(2049))), Some(2049));

    assert_eq!(read_pid(Some(&state_number(12345))), Some(12345));
}

#[test]
fn test_read_missing_state() {
    assert_eq!(read_port(None), None);
    assert_eq!(read_pid(None), None);
    assert_eq!(read_port(Some("70000")), None);
    assert_eq!(read_pid(Some("x")), None);
}

#[test]
fn test_default_config() {
    let config = NfsServerConfig::default_for(Some(b"/home/x"), 5_000_000_000);
    assert_eq!(config.port, 0);
    assert_eq!(config.bind_addr, "127.0.0.1");
    assert!(
        config.mount_point.ends_with(b"Kin") || config.mount_point.ends_with(b"mnt"),
        "unexpected mount point: {:?}",
        config.mount_point
    );
    assert!(config.state_dir.ends_with(b".kin"));
    // Read-only by default: a mount that admitted writes without the caller
    // asking would commit to a repository nobody offered it.
    assert!(!config.writable);
    assert_eq!(config.admit_debounce, 5_000_000_000);
    assert_eq!(config.bind_string(), "127.0.0.1:0");
    assert_eq!(default_kin_dir(Some(b"/home/x")), b"/home/x/.kin");
    assert!(default_mount_point(Some(b"/home/x")).starts_with(b"/home/x"));
}

#[test]
fn admissions_are_checked_at_least_ten_times_a_second() {
    assert_eq!(admission_tick(0), MIN_TICK);
    assert!(admission_tick(u128::MAX) > MIN_TICK);
    assert_eq!(tick_action(false, true), TickAction::Rest);
    assert_eq!(tick_action(true, true), TickAction::AdmitNow);
    assert_eq!(tick_action(true, false), TickAction::AdmitDue);
    assert!(admits_before_shutdown(true));
    assert!(!admits_before_shutdown(false));
}

#[test]
fn a_written_answer_is_read_back() {
    let results = vec![
        ("clean".to_string(), Ok(None)),
        ("moved".to_string(), Ok(Some("chg-1".to_string()))),
        ("stuck".to_string(), Err("a reason\twith a tab".to_string())),
    ];
    let raw = write_sync_result(&results);
    let read = parse_sync_result(&raw);
    assert_eq!(read.len(), 3, "{raw:?}");
    let row = |state: &str, name: &str, detail: &str| (state.to_string(), name.to_string(), detail.to_string());
    assert_eq!(read[0], row("empty", "clean", "-"));
    assert_eq!(read[1], row("ok", "moved", "chg-1"));
    assert_eq!(read[2], row("error", "stuck", "a reason\twith a tab"));
    assert!(parse_sync_result("").is_empty());
}

#[test]
fn only_what_is_due_is_admitted_and_only_changes_are_named() {
    let names = vec!["a".to_string(), "b".to_string(), "c".to_string()];
    assert_eq!(admit_due(&names, &vec![true, false, true]), ["a", "c"]);
    let results = vec![
        ("a".to_string(), Ok(Some("chg-1".to_string()))),
        ("b".to_string(), Ok(None)),
        ("c".to_string(), Err("refused".to_string())),
    ];
    assert_eq!(admitted_changes(&results), vec![("a".to_string(), "chg-1".to_string())]);
}

#[test]
fn a_sync_waits_for_its_answer_until_the_time_is_up() {
    assert!(matches!(request_sync(None, false), SyncStep::Wait));
    assert!(matches!(request_sync(Some("ok\tw\tc\n"), true), SyncStep::Expired));
    assert!(matches!(
        request_sync(Some("ok\tw\tc\n"), false),
        SyncStep::Answered(rows)
            if rows == vec![("ok".to_string(), "w".to_string(), "c".to_string())]
    ));
    assert_eq!(
        parse_sync_result("odd\n \nok\tw\n"),
        vec![
            ("odd".to_string(), "?".to_string(), String::new()),
            ("ok".to_string(), "w".to_string(), String::new()),
        ]
    );
}

// ── Status ──────────────────────────────────────────────────────────

fn path(text: &str) -> VfsPath {
    VfsPath::from_bytes(text.as_bytes()).unwrap()
}

#[test]
fn one_degraded_workspace_degrades_the_export() {
    let status = ExportStatus::build(
        2049,
        b"/mnt".to_vec(),
        true,
        &vec![
            ("clean".into(), WriteHealth::Settled { last: None }),
            (
                "stuck".into(),
                WriteHealth::Degraded {
                    paths: vec![path("a.rs")],
                    reason: "the graph refused the admission".into(),
                },
            ),
        ],
        &Vec::new(),
        7,
    );
    assert_eq!(status.state(), "degraded");
}

#[test]
fn a_workspace_that_could_not_open_writable_degrades_the_export() {
    let status = ExportStatus::build(
        2049,
        b"/mnt".to_vec(),
        true,
        &Vec::new(),
        &vec![("no-author".into(), "cannot attribute a mount write".into())],
        7,
    );
    assert_eq!(status.state(), "degraded");
    assert_eq!(status.workspaces[0].state, "read-only");
    assert!(status.workspaces[0].reason.is_some());
}

#[test]
fn pending_paths_are_reported_by_name() {
    let status = ExportStatus::build(
        2049,
        b"/mnt".to_vec(),
        true,
        &vec![(
            "w".into(),
            WriteHealth::Pending {
                paths: vec![path("src/main.rs")],
            },
        )],
        &Vec::new(),
        7,
    );
    assert_eq!(status.state(), "pending");
    assert_eq!(status.workspaces[0].unadmitted, vec!["src/main.rs"]);
}

#[test]
fn a_settled_export_names_the_change_that_settled_it() {
    let status = ExportStatus::build(
        2049,
        b"/mnt".to_vec(),
        true,
        &vec![(
            "w".into(),
            WriteHealth::Settled {
                last: Some(Admission {
                    change_id: "chg-1".into(),
                    branch: "main".into(),
                    file_count: 1,
                    paths: vec![path("src/main.rs")],
                }),
            },
        )],
        &Vec::new(),
        7,
    );
    assert_eq!(status.state(), "writable");
    assert_eq!(
        status.workspaces[0].last_change_id.as_deref(),
        Some("chg-1")
    );
}

#[test]
fn a_read_only_export_never_reports_writable() {
    let status =
        ExportStatus::build(2049, b"/mnt".to_vec(), false, &Vec::new(), &Vec::new(), 7);
    assert_eq!(status.state(), "read-only");
}

#[test]
fn workspaces_are_reported_in_the_order_of_their_names() {
    let status = ExportStatus::build(
        2049,
        b"/mnt".to_vec(),
        true,
        &vec![
            ("b".into(), WriteHealth::Settled { last: None }),
            ("c".into(), WriteHealth::Settled { last: None }),
        ],
        &vec![("a".into(), "refused".into())],
        7,
    );
    let names: Vec<&str> = status.workspaces.iter().map(|w| w.name.as_str()).collect();
    assert_eq!(names, ["a", "b", "c"]);
    assert_eq!((status.port, status.written_at, status.writable), (2049, 7, true));
    assert!(name_ordered("a", "b") && name_ordered("a", "a") && !name_ordered("b", "a"));
    assert!(name_ordered("a", "ab") && !name_ordered("ab", "a"));
}

#[test]
fn unadmitted_paths_are_reported_as_text() {
    let raw = VfsPath::from_bytes(b"x-\xff").unwrap();
    let status = ExportStatus::build(
        1,
        b"/mnt".to_vec(),
        true,
        &vec![("w".into(), WriteHealth::Degraded { paths: vec![raw], reason: "r".into() })],
        &Vec::new(),
        7,
    );
    assert_eq!(status.workspaces[0].unadmitted, ["x-\u{fffd}"]);
    assert_eq!(status.workspaces[0].reason.as_deref(), Some("r"));
}

#[test]
fn each_platform_names_its_tools() {
    assert_eq!(mount_tool(Platform::Linux), "mount");
    assert_eq!(mount_tool(Platform::MacOs), "mount");
    assert_eq!(mount_tool(Platform::Windows), "mount.exe");
    assert_eq!(unmount_tool(Platform::Linux), "umount");
    assert_eq!(unmount_tool(Platform::MacOs), "diskutil");
    assert_eq!(unmount_tool(Platform::Windows), "net.exe");
}

#[test]
fn windows_tools_come_from_the_system_directory_or_not_at_all() {
    assert_eq!(windows_tool(None, "mount.exe"), r"C:\Windows\System32\mount.exe");
    assert_eq!(windows_tool(Some(r"D:\Win"), "net.exe"), r"D:\Win\System32\net.exe");
    assert_eq!(windows_tool(Some(r"D:\"), "net.exe"), r"D:\System32\net.exe");
    assert_eq!(windows_tool(Some("D:"), "net.exe"), r"D:System32\net.exe");
    assert_eq!(
        system_tool_windows(None, "net.exe", true).as_deref(),
        Ok(r"C:\Windows\System32\net.exe")
    );
    let refusal = system_tool_windows(None, "net.exe", false).unwrap_err();
    assert_eq!(
        refusal,
        r"net.exe was not found at C:\Windows\System32\net.exe; refusing to resolve it through PATH"
    );
}

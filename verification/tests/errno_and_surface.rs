use kin_vfs::client::ClientCallFailure;
use kin_vfs::errno::{
    graph_failure_errno_in_mode, graph_miss_errno_in_mode, graph_mode_allows, graph_path_errno,
};
use kin_vfs::graph_walk::GraphPathError;
use kin_vfs::surface::{
    host_path_for_descriptor, is_stale_temp, uninterposed_surface_disposition, walk_disposition,
    workspace_surface_disposition, BypassDue, Reentry, ReentryGuard, SurfaceDisposition,
    SurfacePlan, UninterposedSurface,
};
use kin_vfs::host_path::HostPathResolution;
use kin_vfs::types::VirtualStat;

// ── Re-entry ────────────────────────────────────────────────────────

#[test]
fn reentry_guard_refuses_nested_entry() {
    let mut thread = Reentry::new();

    let outer = thread.enter(0);
    assert!(
        outer.is_some(),
        "first entry on a fresh thread must succeed"
    );

    assert!(
        thread.enter(0).is_none(),
        "nested entry while already in-shim must be refused"
    );

    // Leaving the outermost guard clears the flag so the next top-level
    // call can enter again.
    thread.leave(outer.unwrap());
    let again = thread.enter(0);
    assert!(
        again.is_some(),
        "entry must succeed again after the outermost guard drops"
    );
    thread.leave(again.unwrap());
}

#[test]
fn reentry_guard_ok_restores_entry_errno() {
    let mut thread = Reentry::new();
    let g: ReentryGuard = thread.enter(libc::EIO).expect("fresh entry");
    assert_eq!(g.ok(), libc::EIO, "ok must restore the entry errno");
    thread.leave(g);
    let g = thread.enter(libc::EACCES).expect("fresh entry");
    assert_eq!(g.ok(), libc::EACCES);
    thread.leave(g);
    assert!(!thread.in_shim);
}

#[test]
fn graph_failure_errno_never_grants_raw_filesystem_fallback() {
    assert_eq!(
        graph_failure_errno_in_mode(ClientCallFailure::NotFound, false),
        libc::ENOENT
    );
    assert_eq!(
        graph_failure_errno_in_mode(ClientCallFailure::PermissionDenied, false),
        libc::EACCES
    );
    assert_eq!(
        graph_failure_errno_in_mode(ClientCallFailure::NotDirectory, false),
        libc::ENOTDIR
    );
    assert_eq!(
        graph_failure_errno_in_mode(ClientCallFailure::InvalidInput, false),
        libc::EINVAL
    );
    // Unavailable authority is EIO in BOTH modes. Quieting the shim's
    // stderr for a process that never had authority must not reach this:
    // the errno is what an authority caller acts on, and softening it to
    // ENOENT would let raw disk answer the retry.
    assert_eq!(
        graph_failure_errno_in_mode(ClientCallFailure::Unreachable, false),
        libc::EIO
    );
    assert_eq!(
        graph_failure_errno_in_mode(ClientCallFailure::Unreachable, true),
        libc::EIO,
        "an authority caller must keep failing loud when the daemon is gone"
    );
    assert_eq!(
        graph_failure_errno_in_mode(ClientCallFailure::Authority, false),
        libc::EIO,
        "size/hash/protocol disagreement must surface as EIO"
    );
}

#[test]
fn canary_bypass_latches_only_an_acknowledged_report_and_otherwise_fails_closed() {
    let mut surface = UninterposedSurface::new();
    assert!(!surface.reported);
    assert!(!surface.acknowledge_report(false));
    assert!(
        !surface.reported,
        "a failed socket attempt must leave the bypass eligible to retry"
    );
    assert_eq!(
        workspace_surface_disposition(false, false),
        SurfaceDisposition::Refuse(libc::EIO),
        "default mode must not serve disk if the red verdict was not persisted"
    );

    assert!(surface.acknowledge_report(true));
    assert!(surface.reported);
    assert_eq!(
        workspace_surface_disposition(false, true),
        SurfaceDisposition::Passthrough
    );
    assert_eq!(
        workspace_surface_disposition(true, true),
        SurfaceDisposition::Refuse(libc::EIO),
        "strict mode still refuses even after the evidence is persisted"
    );
}

/// Strict mode turns a definitive workspace miss into the same refusal the
/// caller gets when graph authority is unavailable, so a tool cannot read a
/// path the graph does not hold as an ordinary absent file.
#[test]
fn strict_mode_refuses_a_definitive_graph_miss() {
    assert_eq!(
        graph_failure_errno_in_mode(ClientCallFailure::NotFound, true),
        libc::EIO
    );
    assert_eq!(
        graph_path_errno(GraphPathError::MissingFinal, ClientCallFailure::NoFailure, true),
        libc::EIO
    );
    assert_eq!(
        graph_path_errno(GraphPathError::MissingFinal, ClientCallFailure::NoFailure, false),
        libc::ENOENT
    );
    assert_eq!(graph_miss_errno_in_mode(true), libc::EIO);
    assert_eq!(graph_miss_errno_in_mode(false), libc::ENOENT);

    // Answers that describe an entry the graph *does* hold keep their exact
    // meaning: strict hardens the miss, it does not blur every failure.
    assert_eq!(
        graph_failure_errno_in_mode(ClientCallFailure::PermissionDenied, true),
        libc::EACCES
    );
    assert_eq!(
        graph_failure_errno_in_mode(ClientCallFailure::UnsupportedBoundary, true),
        libc::ENOTSUP
    );
    assert_eq!(
        graph_path_errno(GraphPathError::SymlinkLoop, ClientCallFailure::NoFailure, true),
        libc::ELOOP
    );
    assert_eq!(
        graph_path_errno(GraphPathError::NotDirectory, ClientCallFailure::NoFailure, true),
        libc::ENOTDIR
    );
    assert_eq!(
        graph_path_errno(GraphPathError::OutsideWorkspace, ClientCallFailure::NoFailure, true),
        libc::EACCES
    );
}

#[test]
fn an_authority_failure_on_the_way_reads_as_what_the_daemon_said() {
    for (failure, errno) in [
        (ClientCallFailure::PermissionDenied, libc::EACCES),
        (ClientCallFailure::IsDirectory, libc::EISDIR),
        (ClientCallFailure::UnsupportedBoundary, libc::ENOTSUP),
        (ClientCallFailure::Unreachable, libc::EIO),
        (ClientCallFailure::Authority, libc::EIO),
        (ClientCallFailure::NoFailure, libc::ENOENT),
        (ClientCallFailure::NotFound, libc::ENOENT),
    ] {
        assert_eq!(graph_path_errno(GraphPathError::Authority, failure, false), errno);
    }
    assert_eq!(
        graph_path_errno(GraphPathError::InvalidSymlink, ClientCallFailure::NoFailure, false),
        libc::EINVAL
    );
}

#[test]
fn projected_permissions_ask_for_each_requested_right() {
    let stat = VirtualStat {
        size: 0,
        is_file: true,
        is_dir: false,
        is_symlink: false,
        mode: 0o644,
        mtime: 0,
        ctime: 0,
        nlink: 1,
        content_hash: None,
        object_id: None,
    };
    assert!(graph_mode_allows(&stat, libc::F_OK));
    assert!(graph_mode_allows(&stat, libc::R_OK));
    assert!(graph_mode_allows(&stat, libc::R_OK | libc::W_OK));
    assert!(!graph_mode_allows(&stat, libc::X_OK));
    let executable = VirtualStat { mode: 0o755, ..stat };
    assert!(graph_mode_allows(&executable, libc::X_OK));
}

// ── Surfaces that are reported rather than served ───────────────────

#[test]
fn a_bypass_is_warned_about_once_and_reported_until_acknowledged() {
    let mut surface = UninterposedSurface::new();
    assert_eq!(surface.report_workspace_bypass(true), BypassDue { warn: true, report: true });
    assert_eq!(surface.report_workspace_bypass(true), BypassDue { warn: false, report: true });
    assert!(surface.acknowledge_report(true));
    assert_eq!(surface.report_workspace_bypass(true), BypassDue { warn: false, report: false });
    let mut quiet = UninterposedSurface::new();
    assert_eq!(quiet.report_workspace_bypass(false), BypassDue { warn: true, report: false });
}

#[test]
fn only_a_workspace_path_is_reported() {
    let plan = |resolution| uninterposed_surface_disposition(resolution, Some(b"/ws"));
    assert!(matches!(
        plan(HostPathResolution::Resolved(b"/ws/a".to_vec())),
        SurfacePlan::Report(path) if path == b"/ws/a"
    ));
    assert!(matches!(
        plan(HostPathResolution::Resolved(b"/etc/hosts".to_vec())),
        SurfacePlan::Settled(SurfaceDisposition::Passthrough)
    ));
    assert!(matches!(
        plan(HostPathResolution::Passthrough),
        SurfacePlan::Settled(SurfaceDisposition::Passthrough)
    ));
    assert!(matches!(
        plan(HostPathResolution::Refused),
        SurfacePlan::Settled(SurfaceDisposition::Refuse(libc::EIO))
    ));
    assert!(matches!(
        plan(HostPathResolution::InvalidDescriptor),
        SurfacePlan::Settled(SurfaceDisposition::Refuse(libc::EBADF))
    ));
}

#[test]
fn a_walk_is_refused_by_its_first_refused_root() {
    let pass = SurfaceDisposition::Passthrough;
    let refuse = SurfaceDisposition::Refuse;
    assert_eq!(walk_disposition(&vec![]), pass);
    assert_eq!(walk_disposition(&vec![pass, pass]), pass);
    assert_eq!(walk_disposition(&vec![pass, refuse(5), refuse(13)]), refuse(5));
}

#[test]
fn a_descriptor_stands_for_the_absolute_path_it_was_opened_on() {
    assert_eq!(
        host_path_for_descriptor(3, Some(b"/ws/dir".to_vec())),
        Some(b"/ws/dir".to_vec())
    );
    assert_eq!(host_path_for_descriptor(3, None), None);
    assert_eq!(host_path_for_descriptor(-1, Some(b"/ws/dir".to_vec())), None);
}

#[test]
fn stale_temporaries_are_those_of_the_same_target() {
    assert!(is_stale_temp(b"main.rs.kin_tmp_4242", b"main.rs"));
    assert!(!is_stale_temp(b"other.rs.kin_tmp_4242", b"main.rs"));
    assert!(!is_stale_temp(b"main.rs", b"main.rs"));
}

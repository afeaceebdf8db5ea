use kin_vfs::shim::{
    canary_announcement, is_kin_family_process, mark_interpose_active, process_basename,
    shim_init_windows, simple_hash, Shim, ShimEnvironment, CANARY_ENV, INTERPOSE_ACTIVE_ENV,
};

fn environment(workspace: Option<&str>) -> ShimEnvironment {
    ShimEnvironment {
        disable: None,
        no_vfs: None,
        workspace: workspace.map(str::to_string),
        session_id: None,
        canary: None,
        strict: None,
        endpoint: None,
        argv0: None,
    }
}

#[test]
fn disabled_flag_default() {
    // Calls that arrive before the shim is set up go straight through.
    let mut shim = Shim::new();
    assert!(shim.is_disabled());
    shim.shim_init(&environment(None), false);
    assert!(shim.is_disabled());
}

#[test]
fn kin_family_processes_skip_vfs() {
    assert!(is_kin_family_process("kin"));
    assert!(is_kin_family_process(r"C:\Users\test\kin.exe"));
    assert!(is_kin_family_process("/usr/local/bin/kin-real"));
    assert!(is_kin_family_process("/opt/bin/kin-daemon"));
    assert!(is_kin_family_process("/tmp/kin-bench-target"));
    assert!(is_kin_family_process(r"C:\Users\test\kin-mcp.exe"));
    assert!(is_kin_family_process("kin-vfs"));
}

#[test]
fn non_kin_processes_do_not_skip_vfs() {
    assert!(!is_kin_family_process("cargo"));
    assert!(!is_kin_family_process("/usr/bin/python3"));
    assert!(!is_kin_family_process("kingpin"));
    assert!(!is_kin_family_process("akin-helper"));
}

#[test]
fn canary_announcement_reads_and_normalizes_token() {
    // A valid token is trimmed and surfaced for announcement.
    let token = canary_announcement(Some("  launch-tok-9 "));
    assert_eq!(token.as_deref(), Some("launch-tok-9"));

    // No token injected → nothing to announce.
    let none = canary_announcement(None);
    assert_eq!(none, None);

    // A blank/malformed token must NOT register as expected (would otherwise
    // become a permanent false "stripped" alarm).
    let blank = canary_announcement(Some("   "));
    assert_eq!(blank, None);
}

#[test]
fn basenames_follow_the_last_separator() {
    assert_eq!(process_basename("/usr/bin/env"), "env");
    assert_eq!(process_basename(r"C:\bin\Kin.EXE"), "Kin.EXE");
    assert_eq!(process_basename("kin"), "kin");
    assert_eq!(process_basename("/"), "");
    assert!(is_kin_family_process(r"C:\bin\Kin.EXE"));
}

#[test]
fn the_variables_have_their_names() {
    assert_eq!(CANARY_ENV, "KIN_VFS_CANARY");
    assert_eq!(INTERPOSE_ACTIVE_ENV, "KIN_VFS_INTERPOSE_ACTIVE");
    assert_eq!(mark_interpose_active(Some("tok")), "tok");
    assert_eq!(mark_interpose_active(None), "1");
}

#[test]
fn a_workspace_brings_the_shim_up() {
    let mut shim = Shim::new();
    let mut env = environment(Some("/ws"));
    env.canary = Some(" tok ".to_string());
    env.strict = Some("1".to_string());
    env.session_id = Some("s".to_string());
    assert_eq!(shim.shim_init(&env, false).as_deref(), Some("tok"));
    assert!(!shim.is_disabled());
    let state = shim.shim_state().unwrap();
    assert_eq!(state.workspace_root, "/ws");
    assert_eq!(state.endpoint, "/ws/.kin/vfs.sock");
    assert_eq!(state.session_id.as_deref(), Some("s"));
    assert_eq!(state.canary_token.as_deref(), Some("tok"));
    assert!(state.strict);
}

#[test]
fn every_switch_keeps_the_shim_out() {
    let out = |env: ShimEnvironment| {
        let mut shim = Shim::new();
        let marked = shim.shim_init(&env, false);
        marked.is_none() && shim.is_disabled() && shim.shim_state().is_none()
    };
    let ws = || environment(Some("/ws"));
    assert!(!out(ws()));
    assert!(out(environment(None)));
    assert!(out(environment(Some(""))));
    assert!(out(ShimEnvironment { disable: Some("1".into()), ..ws() }));
    assert!(!out(ShimEnvironment { disable: Some("0".into()), ..ws() }));
    assert!(out(ShimEnvironment { no_vfs: Some("1".into()), ..ws() }));
    assert!(out(ShimEnvironment { argv0: Some("/usr/bin/kin-daemon".into()), ..ws() }));
    assert!(!out(ShimEnvironment { argv0: Some("/usr/bin/cargo".into()), ..ws() }));
}

#[test]
fn a_pipe_is_named_after_its_workspace() {
    let mut shim = Shim::new();
    let (root, pipe) = shim_init_windows(&mut shim, &environment(Some(r"C:\ws"))).unwrap();
    assert_eq!(root, r"C:\ws");
    assert_eq!(pipe, format!(r"\\.\pipe\kin-vfs-{:016x}", simple_hash(r"C:\ws")));
    let mut other = Shim::new();
    let (_, another) = shim_init_windows(&mut other, &environment(Some(r"C:\other"))).unwrap();
    assert_ne!(pipe, another);
    let named = ShimEnvironment { endpoint: Some("p".into()), ..environment(Some("w")) };
    assert_eq!(shim_init_windows(&mut Shim::new(), &named).unwrap().1, "p");
    assert!(shim_init_windows(&mut Shim::new(), &environment(None)).is_err());
}

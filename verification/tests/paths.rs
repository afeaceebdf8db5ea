use kin_vfs::fd_table::{compute_vfd_base, FdTable};
use kin_vfs::host_path::{
    at_path_base, host_path_error_errno, is_workspace_path, place_dirfd, unresolved_real_dirfd,
    AtBase, HostPathResolution, HostPathStart, KernelStep, Placement,
};
use kin_vfs::host_path;
use kin_vfs::pathmap::{
    atomic_temp_path, is_interpose_temp_artifact, join_at_path, normalize_graph_path,
    normalize_kernel_path, path_within_root,
};
use kin_vfs::vfs_path::{workspace_graph_key, VfsName, VfsPath, VfsPathError, WorkspacePathError};
use std::collections::{BTreeMap, BTreeSet};

// ── Path arguments ──────────────────────────────────────────────────

/// The directories and links of a host, as its kernel sees them.
struct Host {
    dirs: BTreeSet<Vec<u8>>,
    links: BTreeMap<Vec<u8>, Vec<u8>>,
}

impl Host {
    /// What `realpath` says of an absolute path.
    fn canonicalize(&self, path: &[u8]) -> Result<Vec<u8>, i32> {
        let mut pending: Vec<Vec<u8>> =
            path.split(|b| *b == b'/').rev().map(<[u8]>::to_vec).collect();
        let mut current: Vec<u8> = Vec::new();
        while let Some(part) = pending.pop() {
            if part.is_empty() || part == b"." {
                continue;
            }
            if part == b".." {
                let cut = current.iter().rposition(|b| *b == b'/').unwrap_or(0);
                current.truncate(cut);
                continue;
            }
            let mut next = current.clone();
            next.push(b'/');
            next.extend_from_slice(&part);
            if let Some(target) = self.links.get(&next) {
                current.clear();
                pending.extend(target.split(|b| *b == b'/').rev().map(<[u8]>::to_vec));
            } else if self.dirs.contains(&next) {
                current = next;
            } else {
                return Err(libc::ENOENT);
            }
        }
        Ok(if current.is_empty() { b"/".to_vec() } else { current })
    }

    /// Whether the directory holding the path has an entry of its last name.
    fn has_entry(&self, path: &[u8]) -> bool {
        self.links.contains_key(path) || self.dirs.contains(path)
    }
}

fn resolve_on(
    host: &Host,
    path: &[u8],
    base: Option<&[u8]>,
    root: Option<&[u8]>,
) -> HostPathResolution {
    match host_path::resolve_host_path_from(path, base, root) {
        HostPathStart::Settled(resolution) => resolution,
        HostPathStart::Ask { mut walk, mut step } => loop {
            step = match step {
                KernelStep::Settled(resolution) => return resolution,
                KernelStep::Canonicalize(path) => walk.canonical(host.canonicalize(&path)),
                KernelStep::CheckEntry(path) => walk.entry_checked(host.has_entry(&path)),
            };
        },
    }
}

fn resolved(resolution: HostPathResolution) -> Vec<u8> {
    match resolution {
        HostPathResolution::Resolved(path) => path,
        other => panic!("a resolved path was expected, got {other:?}"),
    }
}

/// Containment is decided on absolute bytes, so a relative argument must be
/// resolved against the live cwd before the workspace check — otherwise the
/// hook passes it through and raw disk answers for a graph-owned file.
#[test]
fn relative_paths_resolve_against_the_live_cwd() {
    let resolve = |text: &str, cwd: &[u8]| match host_path::resolve_host_path_from(
        text.as_bytes(),
        Some(cwd),
        None,
    ) {
        HostPathStart::Settled(resolution) => resolved(resolution),
        HostPathStart::Ask { step, .. } => panic!("cwd-backed path should resolve, got {step:?}"),
    };

    // An absolute argument is authoritative and travels unchanged.
    assert_eq!(
        resolve("/ws/project/src/main.rs", b"/start"),
        b"/ws/project/src/main.rs"
    );

    assert_eq!(resolve("main.rs", b"/start"), b"/start/main.rs");
    assert_eq!(resolve("src/main.rs", b"/start"), b"/start/src/main.rs");
    assert_eq!(resolve("main.rs", b"/start"), join_at_path(b"/start", b"main.rs"));

    // The directory is an argument of every call, so a host that changes it
    // maps the next relative path onto the new directory.
    assert_eq!(resolve("main.rs", b"/moved"), b"/moved/main.rs");
}

/// A workspace beside an unrelated sibling directory, so parent traversal can
/// be classified against a root that really exists. The refusal boundary
/// depends on where the kernel resolves a path to, and a fictional root cannot
/// exercise that.
struct TraversalFixture {
    host: Host,
    workspace: Vec<u8>,
    outside: Vec<u8>,
}

impl TraversalFixture {
    fn new() -> Self {
        let mut dirs = BTreeSet::new();
        for dir in ["/usr", "/usr/lib", "/c", "/c/workspace", "/c/workspace/subdir", "/c/outside"] {
            dirs.insert(dir.as_bytes().to_vec());
        }
        TraversalFixture {
            host: Host { dirs, links: BTreeMap::new() },
            workspace: b"/c/workspace".to_vec(),
            outside: b"/c/outside".to_vec(),
        }
    }

    fn resolve(&self, path: &[u8], base: Option<&[u8]>) -> HostPathResolution {
        resolve_on(&self.host, path, base, Some(&self.workspace))
    }

    fn link(&mut self, target: Vec<u8>, at: Vec<u8>) {
        self.host.links.insert(at, target);
    }

    fn under_workspace(&self, rel: &str) -> Vec<u8> {
        join_at_path(&self.workspace, rel.as_bytes())
    }

    fn under_outside(&self, rel: &str) -> Vec<u8> {
        join_at_path(&self.outside, rel.as_bytes())
    }
}

#[test]
fn outside_parent_traversal_into_workspace_never_passes_to_raw_disk() {
    let mut fixture = TraversalFixture::new();

    assert_eq!(
        resolved(resolve_on(
            &fixture.host,
            b"../workspace/graph-only.rs",
            Some(b"/outside"),
            None
        )),
        b"/workspace/graph-only.rs",
        "a leading relative parent is unambiguous and must map onto graph authority"
    );

    let absolute_into_workspace = fixture.under_outside("../workspace/graph-only.rs");
    assert!(
        matches!(fixture.resolve(&absolute_into_workspace, None), HostPathResolution::Refused),
        "an absolute traversal into graph authority is the same authority boundary"
    );

    // The case lexical normalization cannot see: a normal component before
    // `..` that is a symlink into the workspace. Its lexical spelling stays
    // outside the root, so only asking the kernel finds the graph-owned
    // destination.
    fixture.link(fixture.under_workspace("subdir"), fixture.under_outside("child"));
    assert!(
        matches!(
            fixture.resolve(b"child/../disk_only.rs", Some(&fixture.outside)),
            HostPathResolution::Refused
        ),
        "a symlink into the workspace must be found through the kernel, not the spelling"
    );

    // A dangling symlink reports `ENOENT` exactly like an absent component
    // while still redirecting. Treating it as absent would classify a
    // graph-owned destination as outside and hand it to raw disk.
    fixture.link(fixture.under_workspace("never_created"), fixture.under_outside("dangling"));
    assert!(
        matches!(
            fixture.resolve(b"dangling/../disk_only.rs", Some(&fixture.outside)),
            HostPathResolution::Refused
        ),
        "an unresolvable component that still exists as a link must fail closed"
    );
}

/// Parent traversal with no workspace relationship belongs to libc.
///
/// Embedded `..` is routine in autotools, cmake, libtool, pkg-config, node
/// module resolution and rustc `-L` arguments. Refusing those spellings
/// makes a shim-enabled process unable to open the host filesystem, which
/// is the opposite of a transparent projection.
#[test]
fn non_workspace_parent_traversal_reaches_the_host_filesystem() {
    let mut fixture = TraversalFixture::new();
    let unrelated = fixture.under_outside("project");
    fixture.host.dirs.insert(unrelated.clone());

    let absolute = [
        b"/usr/lib/../lib/libSystem.dylib".to_vec(),
        fixture.under_outside("Cellar/foo/1.0/bin/../lib/libfoo.dylib"),
        fixture.under_outside("Frameworks/../Frameworks/Foundation.framework/Foundation"),
    ];
    for path in absolute {
        assert!(
            matches!(fixture.resolve(&path, None), HostPathResolution::Passthrough),
            "absolute non-workspace traversal must reach libc: {}",
            String::from_utf8_lossy(&path)
        );
    }

    for spelling in [
        b"node_modules/foo/../bar/index.js".as_slice(),
        b"src/../include/x.h".as_slice(),
        b"./a/../b".as_slice(),
    ] {
        assert!(
            matches!(
                fixture.resolve(spelling, Some(&unrelated)),
                HostPathResolution::Passthrough
            ),
            "relative non-workspace traversal must reach libc: {}",
            String::from_utf8_lossy(spelling)
        );
    }
}

#[test]
fn all_modes_refuse_unresolvable_or_parent_ambiguous_paths() {
    let fixture = TraversalFixture::new();

    assert!(
        matches!(
            resolve_on(&fixture.host, b"relative.rs", None, None),
            HostPathResolution::Refused
        ),
        "getcwd/dirfd resolution failure must never fall through to raw disk"
    );
    assert!(
        matches!(
            fixture.resolve(b"child/../graph-only.rs", Some(&fixture.workspace)),
            HostPathResolution::Refused
        ),
        "every mode must fail closed because child may be a symlink into graph authority"
    );

    assert_eq!(
        resolved(resolve_on(&fixture.host, b"../outside.rs", Some(b"/workspace"), None)),
        b"/outside.rs",
        "a leading parent over a resolved base is exact even when it exits the workspace"
    );
    // The traversal starts inside the workspace, so the destination is
    // workspace-related whatever `subdir` turns out to be.
    assert!(
        matches!(
            fixture.resolve(b"subdir/../outside.rs", Some(&fixture.workspace)),
            HostPathResolution::Refused
        ),
        "graph-scoped traversal after a possibly-symlink component is refused"
    );
}

#[test]
fn a_kernel_that_cannot_answer_is_never_passed_to_raw_disk() {
    let root = Some(b"/ws".as_slice());
    let ask = || match host_path::resolve_host_path_from(b"/a/b/../c", None, root) {
        HostPathStart::Ask { walk, step } => (walk, step),
        HostPathStart::Settled(resolution) => panic!("settled without asking: {resolution:?}"),
    };
    let (mut walk, step) = ask();
    assert!(matches!(step, KernelStep::Canonicalize(path) if path == b"/a/b/.."));
    assert!(matches!(
        walk.canonical(Err(libc::EACCES)),
        KernelStep::Settled(HostPathResolution::Refused)
    ));
    let (mut walk, _) = ask();
    assert!(matches!(
        walk.canonical(Ok(b"/ws/deep".to_vec())),
        KernelStep::Settled(HostPathResolution::Refused)
    ));
}

#[test]
fn invalid_real_and_virtual_dirfds_preserve_ebadf() {
    let base = compute_vfd_base(Some(1024));
    let table = FdTable::new(base);

    assert!(matches!(
        at_path_base(Some(b"child"), -1, base, Some(&table)),
        AtBase::KernelDescriptor
    ));
    assert!(matches!(place_dirfd(None, true), Placement::Inspect));
    let invalid_real = unresolved_real_dirfd(Err(libc::EBADF));
    assert!(matches!(invalid_real, HostPathResolution::InvalidDescriptor));
    assert_eq!(host_path_error_errno(&invalid_real), Some(libc::EBADF));

    assert!(matches!(
        at_path_base(Some(b"child"), i32::MAX, base, Some(&table)),
        AtBase::InvalidDescriptor
    ));
    let missing_virtual = HostPathResolution::InvalidDescriptor;
    assert_eq!(host_path_error_errno(&missing_virtual), Some(libc::EBADF));
}

#[test]
fn dirfds_are_placed_by_what_is_known_of_them() {
    let base = compute_vfd_base(Some(1024));
    let mut table = FdTable::new(base);
    let fd = table.allocate_dir(b"/ws/src", Vec::new()).unwrap();
    assert!(matches!(
        at_path_base(Some(b"main.rs"), fd, base, Some(&table)),
        AtBase::Virtual(path) if path == b"/ws/src"
    ));
    assert!(matches!(
        at_path_base(Some(b"main.rs"), libc::AT_FDCWD, base, Some(&table)),
        AtBase::WorkingDirectory
    ));
    assert!(matches!(at_path_base(Some(b"/a"), 7, base, None), AtBase::Absolute));
    assert!(matches!(at_path_base(None, 7, base, None), AtBase::Passthrough));
    assert!(matches!(
        place_dirfd(Some(b"/tmp".to_vec()), true),
        Placement::At(path) if path == b"/tmp"
    ));
    assert!(matches!(place_dirfd(Some(Vec::new()), true), Placement::Inspect));
    assert!(matches!(place_dirfd(None, false), Placement::Passthrough));
    assert!(matches!(
        unresolved_real_dirfd(Ok(libc::S_IFDIR | 0o755)),
        HostPathResolution::Refused
    ));
    assert!(matches!(
        unresolved_real_dirfd(Ok(libc::S_IFREG | 0o644)),
        HostPathResolution::Passthrough
    ));
    assert!(matches!(unresolved_real_dirfd(Err(libc::EIO)), HostPathResolution::Refused));
}

#[test]
fn kernel_path_normalization_clamps_parent_traversal_at_root() {
    assert_eq!(
        normalize_kernel_path(b"/../../workspace/file"),
        Some(b"/workspace/file".to_vec())
    );
    assert_eq!(
        normalize_kernel_path(b"/outside/../workspace/./file"),
        Some(b"/workspace/file".to_vec())
    );
    assert_eq!(normalize_kernel_path(b"relative/../file"), None);
}

#[test]
fn graph_normalization_stops_above_the_root() {
    assert_eq!(normalize_graph_path(b"/ws/a/../b/./c"), Some(b"/ws/b/c".to_vec()));
    assert_eq!(normalize_graph_path(b"/../ws"), None);
    assert_eq!(normalize_graph_path(b"relative"), None);
    assert_eq!(normalize_graph_path(b"/"), Some(b"/".to_vec()));
}

// ── Workspace containment ───────────────────────────────────────────

#[test]
fn is_workspace_path_basic() {
    let root = Some(b"/home/user/project".as_slice());
    let is_workspace_path = |path: &str| is_workspace_path(path.as_bytes(), root);

    assert!(is_workspace_path("/home/user/project/src/main.rs"));
    assert!(is_workspace_path("/home/user/project/Cargo.toml"));
    assert!(is_workspace_path("/home/user/project"));

    // Must not match paths that merely share a prefix.
    assert!(!is_workspace_path("/home/user/project2/file.rs"));
    assert!(!is_workspace_path("/home/user/projectx"));

    // Outside workspace entirely.
    assert!(!is_workspace_path("/etc/passwd"));
    assert!(!is_workspace_path("/tmp/file"));
    assert!(!is_workspace_path("relative/path"));

    // .kin_tmp_ temp files must be excluded to prevent re-entrance
    // when a file is materialized.
    assert!(!is_workspace_path(
        "/home/user/project/src/main.rs.kin_tmp_12345"
    ));
    assert!(!is_workspace_path(
        "/home/user/project/Cargo.toml.kin_tmp_99"
    ));
}

#[test]
fn without_a_workspace_no_path_is_owned() {
    assert!(!is_workspace_path(b"/home/user/project", None));
}

#[test]
fn a_temporary_is_recognized_whatever_its_target() {
    let temp = atomic_temp_path(b"/ws/src/\xff.rs", 4242);
    assert_eq!(temp, b"/ws/src/\xff.rs.kin_tmp_4242");
    assert!(is_interpose_temp_artifact(&temp));
    assert!(is_interpose_temp_artifact(&atomic_temp_path(b"", -1)));
    assert!(!is_interpose_temp_artifact(b"/ws/src/main.rs"));
    assert!(path_within_root(&temp, b"/ws"));
}

#[test]
fn workspace_keys_hold_what_lies_below_the_root() {
    let key = |path: &[u8]| workspace_graph_key(path, b"/ws").map(|key| key.as_bytes().to_vec());
    assert_eq!(key(b"/ws"), Ok(Vec::new()));
    assert_eq!(key(b"/ws/"), Ok(Vec::new()));
    assert_eq!(key(b"/ws/src//./a-\xff"), Ok(b"src/a-\xff".to_vec()));
    assert_eq!(key(b"/wsx/a"), Err(WorkspacePathError::OutsideRoot));
    assert_eq!(key(b"/ws/../etc"), Err(WorkspacePathError::ParentTraversal));
    assert_eq!(key(b"/ws/a\0b"), Err(WorkspacePathError::InvalidComponent));
    let back = join_at_path(b"/ws", b"src/a-\xff");
    assert_eq!(key(&back), Ok(b"src/a-\xff".to_vec()));
}

#[test]
fn graph_keys_are_relative_names_without_noise() {
    for bad in [&b"/a"[..], b"a/", b"a//b", b".", b"a/..", b"a/./b", b"a\0"] {
        assert_eq!(VfsPath::from_bytes(bad).err(), Some(VfsPathError::InvalidComponent));
    }
    for bad in [&b""[..], b".", b"..", b"a/b", b"a\0"] {
        assert_eq!(VfsName::from_bytes(bad).err(), Some(VfsPathError::InvalidComponent));
    }
    let key = VfsPath::from_bytes(b"src/x-\xff").unwrap();
    assert_eq!(key.components(), vec![b"src".to_vec(), b"x-\xff".to_vec()]);
    assert_eq!(key.parent().unwrap().as_bytes(), b"src");
    assert!(key.parent().unwrap().parent().unwrap().is_root());
    assert!(VfsPath::root().parent().is_none());
    let joined = key.parent().unwrap().join(&VfsName::from_bytes(b"x-\xff").unwrap());
    assert_eq!(joined.as_bytes(), key.as_bytes());
}

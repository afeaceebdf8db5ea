use kin_vfs::client::ClientCallFailure;
use kin_vfs::errno::{graph_miss_errno_in_mode, graph_path_errno};
use kin_vfs::graph_walk::{
    GraphAnswer, GraphPathError, GraphProgress, GraphQuestion, GraphWalk, StatProbe, MAX_SYMLINKS,
};
use kin_vfs::statcache::StatCache;
use kin_vfs::types::VirtualStat;
use kin_vfs::vfs_path::VfsPath;

/// Whatever answers questions about the graph.
trait GraphOracle {
    fn stat(&mut self, host_path: &[u8]) -> StatProbe;
    fn read_link(&mut self, host_path: &[u8]) -> Option<Vec<u8>>;
}

type Resolved = Result<(Vec<u8>, VirtualStat), GraphPathError>;

fn run(
    mut walk: GraphWalk,
    mut progress: GraphProgress,
    cache: &mut StatCache,
    oracle: &mut dyn GraphOracle,
) -> Resolved {
    loop {
        let answer = match progress {
            GraphProgress::Done(outcome) => return outcome,
            GraphProgress::Ask(GraphQuestion::Stat(path)) => GraphAnswer::Stat(oracle.stat(&path)),
            GraphProgress::Ask(GraphQuestion::ReadLink(path)) => {
                GraphAnswer::Link(oracle.read_link(&path))
            }
        };
        progress = walk.advance(cache, answer);
    }
}

fn resolve_graph_path(
    root: &[u8],
    key: &VfsPath,
    cache: &mut StatCache,
    oracle: &mut dyn GraphOracle,
) -> Resolved {
    let (walk, question) = GraphWalk::start(root, key);
    run(walk, GraphProgress::Ask(question), cache, oracle)
}

fn follow_symlinked_path(root: &[u8], key: &VfsPath, oracle: &mut dyn GraphOracle) -> Resolved {
    let (walk, progress) = GraphWalk::follow_symlinked_path(root, key);
    run(walk, progress, &mut StatCache::new(0), oracle)
}

fn directory(mtime: u64) -> VirtualStat {
    VirtualStat {
        size: 0,
        is_file: false,
        is_dir: true,
        is_symlink: false,
        mode: 0o755,
        mtime,
        ctime: mtime,
        nlink: 2,
        content_hash: None,
        object_id: None,
    }
}

fn regular_file(size: u64, content_hash: [u8; 32], executable: bool, mtime: u64) -> VirtualStat {
    VirtualStat {
        size,
        is_file: true,
        is_dir: false,
        is_symlink: false,
        mode: if executable { 0o755 } else { 0o644 },
        mtime,
        ctime: mtime,
        nlink: 1,
        content_hash: Some(content_hash),
        object_id: None,
    }
}

fn link(size: u64) -> VirtualStat {
    VirtualStat { is_file: false, is_symlink: true, mode: 0o777, ..regular_file(size, [0; 32], false, 1) }
}

// ── Path resolution: round-trip cost ────────────────────────────────

/// A graph that answers about a fixed set of paths and counts every
/// question. The count is the whole point: it is the daemon round trips a
/// resolution would cost, and it does not move with machine load.
struct FixtureGraph {
    root: Vec<u8>,
    dirs: std::collections::BTreeSet<Vec<u8>>,
    files: std::collections::BTreeSet<Vec<u8>>,
    generation: u64,
    stats: usize,
}

impl FixtureGraph {
    fn new(root: &str, generation: u64) -> Self {
        Self {
            root: root.as_bytes().to_vec(),
            dirs: std::collections::BTreeSet::new(),
            files: std::collections::BTreeSet::new(),
            generation,
            stats: 0,
        }
    }

    /// Add a file and every directory that must exist above it, which is
    /// the same closure the daemon's tree contract derives from artifacts.
    fn with_file(mut self, path: &str) -> Self {
        self.files.insert(path.as_bytes().to_vec());
        let components: Vec<&str> = path.split('/').collect();
        for end in 1..components.len() {
            self.dirs.insert(components[..end].join("/").into_bytes());
        }
        self
    }

    fn relative(&self, host_path: &[u8]) -> Option<Vec<u8>> {
        if host_path == self.root.as_slice() {
            return Some(Vec::new());
        }
        let rest = host_path.strip_prefix(self.root.as_slice())?;
        rest.strip_prefix(b"/").map(<[u8]>::to_vec)
    }
}

impl GraphOracle for FixtureGraph {
    fn stat(&mut self, host_path: &[u8]) -> StatProbe {
        self.stats += 1;
        let generation = self.generation;
        let Some(rel) = self.relative(host_path) else {
            return StatProbe::Unavailable;
        };
        if rel.is_empty() || self.dirs.contains(&rel) {
            return StatProbe::Present {
                stat: directory(generation),
                generation,
            };
        }
        if self.files.contains(&rel) {
            return StatProbe::Present {
                stat: regular_file(7, [0u8; 32], false, 1),
                generation,
            };
        }
        StatProbe::Absent { generation }
    }

    fn read_link(&mut self, _host_path: &[u8]) -> Option<Vec<u8>> {
        None
    }
}

const WALK_ROOT: &str = "/ws";
/// Directories above each fixture file: `src/pkg/mod/leaf`.
const WALK_PREFIX_DIRS: usize = 4;
const WALK_FILES: usize = 25;

fn walk_fixture() -> (FixtureGraph, Vec<String>) {
    let mut graph = FixtureGraph::new(WALK_ROOT, 11);
    let mut paths = Vec::new();
    for index in 0..WALK_FILES {
        let rel = format!("src/pkg/mod/leaf/file{index}.rs");
        graph = graph.with_file(&rel);
        paths.push(format!("{WALK_ROOT}/{rel}"));
    }
    (graph, paths)
}

fn vkey(host_path: &str) -> VfsPath {
    let rel = host_path
        .strip_prefix(WALK_ROOT)
        .and_then(|rest| rest.strip_prefix('/'))
        .unwrap_or("");
    VfsPath::from_bytes(rel.as_bytes()).expect("valid fixture key")
}

#[test]
fn a_tree_walk_costs_one_round_trip_per_file_not_one_per_component() {
    let (mut graph, paths) = walk_fixture();
    let mut cache = StatCache::new(64);
    for path in &paths {
        let resolved =
            resolve_graph_path(WALK_ROOT.as_bytes(), &vkey(path), &mut cache, &mut graph)
                .expect("fixture file resolves");
        assert_eq!(
            resolved.0,
            path.as_bytes(),
            "resolution must name the path it was asked about"
        );
    }
    assert_eq!(
        graph.stats, WALK_FILES,
        "one round trip per file; anything larger means the path is still \
         being resolved a component at a time"
    );

    // Falsification: the component walk asks about every component.
    let (mut walked, paths) = walk_fixture();
    for path in &paths {
        follow_symlinked_path(WALK_ROOT.as_bytes(), &vkey(path), &mut walked)
            .expect("fixture file resolves");
    }
    assert_eq!(
        walked.stats,
        WALK_FILES * (WALK_PREFIX_DIRS + 1),
        "the component walk must still cost depth x files, or this \
         comparison is measuring nothing"
    );
}

#[test]
fn repeated_probes_for_absent_files_stop_re_asking_about_the_prefix() {
    // The language-server shape: the same directory probed over and over
    // for files that are not there.
    let probes = 20;
    let mut graph = FixtureGraph::new(WALK_ROOT, 5).with_file("src/pkg/mod/leaf/real.rs");
    let mut cache = StatCache::new(64);
    for index in 0..probes {
        let path = format!("{WALK_ROOT}/src/pkg/mod/leaf/absent{index}.ts");
        let error = resolve_graph_path(WALK_ROOT.as_bytes(), &vkey(&path), &mut cache, &mut graph)
            .expect_err("an absent file must not resolve");
        assert!(matches!(error, GraphPathError::MissingFinal));
    }
    // One question per probe for the path itself, which is always asked,
    // plus the four prefix directories asked once for the whole run.
    assert_eq!(graph.stats, probes + WALK_PREFIX_DIRS);

    let mut uncached = FixtureGraph::new(WALK_ROOT, 5).with_file("src/pkg/mod/leaf/real.rs");
    let mut disabled = StatCache::new(0);
    for index in 0..probes {
        let path = format!("{WALK_ROOT}/src/pkg/mod/leaf/absent{index}.ts");
        let _ =
            resolve_graph_path(WALK_ROOT.as_bytes(), &vkey(&path), &mut disabled, &mut uncached);
    }
    assert_eq!(
        uncached.stats,
        probes * (1 + WALK_PREFIX_DIRS),
        "with nothing remembered the prefix must be re-asked on every \
         probe, or the cache is not what is saving the round trips"
    );
}

#[test]
fn the_first_resolution_after_a_publication_re_asks_and_reports_the_new_truth() {
    let mut graph = FixtureGraph::new(WALK_ROOT, 5).with_file("src/pkg/keep.rs");
    let mut cache = StatCache::new(64);

    let first = format!("{WALK_ROOT}/src/pkg/absent-a.ts");
    assert!(matches!(
        resolve_graph_path(WALK_ROOT.as_bytes(), &vkey(&first), &mut cache, &mut graph),
        Err(GraphPathError::MissingFinal)
    ));
    assert_eq!(graph.stats, 3, "the path plus its two prefix directories");

    let second = format!("{WALK_ROOT}/src/pkg/absent-b.ts");
    assert!(matches!(
        resolve_graph_path(WALK_ROOT.as_bytes(), &vkey(&second), &mut cache, &mut graph),
        Err(GraphPathError::MissingFinal)
    ));
    assert_eq!(
        graph.stats, 4,
        "the prefix is remembered within one generation"
    );

    // Publish: `src/pkg` stops being a directory and becomes a file. A
    // remembered prefix would answer MissingFinal (ENOENT) here; the truth
    // is NotDirectory (ENOTDIR), and they are not the same errno.
    graph.generation = 6;
    graph.dirs.remove(b"src/pkg".as_slice());
    graph.files.remove(b"src/pkg/keep.rs".as_slice());
    graph.files.insert(b"src/pkg".to_vec());

    let third = format!("{WALK_ROOT}/src/pkg/absent-c.ts");
    let error = resolve_graph_path(WALK_ROOT.as_bytes(), &vkey(&third), &mut cache, &mut graph)
        .expect_err("a path under a file must not resolve");
    assert!(
        matches!(error, GraphPathError::NotDirectory),
        "the first resolution after a generation change must re-ask, not \
         serve what the previous generation said; got {error:?}"
    );
    assert_eq!(
        graph.stats, 7,
        "the path plus both prefixes asked again, because the publication \
         discarded every remembered fact"
    );
}

#[test]
fn an_absent_prefix_and_an_absent_final_component_report_the_same_errno() {
    // A missing directory must not start reading as an I/O error.
    for strict in [false, true] {
        assert_eq!(
            graph_path_errno(GraphPathError::MissingPrefix, ClientCallFailure::NoFailure, strict),
            graph_miss_errno_in_mode(strict)
        );
        assert_eq!(
            graph_path_errno(GraphPathError::MissingFinal, ClientCallFailure::NoFailure, strict),
            graph_path_errno(GraphPathError::MissingPrefix, ClientCallFailure::NoFailure, strict)
        );
    }
}

#[test]
fn a_directory_and_the_workspace_root_resolve_through_the_same_path() {
    let mut graph = FixtureGraph::new(WALK_ROOT, 2).with_file("src/pkg/file.rs");
    let mut cache = StatCache::new(64);

    let (path, stat) = resolve_graph_path(
        WALK_ROOT.as_bytes(),
        &VfsPath::root(),
        &mut cache,
        &mut graph,
    )
    .expect("the workspace root resolves");
    assert_eq!(path, WALK_ROOT.as_bytes());
    assert!(stat.is_dir);

    let dir = format!("{WALK_ROOT}/src/pkg");
    let (path, stat) =
        resolve_graph_path(WALK_ROOT.as_bytes(), &vkey(&dir), &mut cache, &mut graph)
            .expect("a directory resolves");
    assert_eq!(path, dir.as_bytes());
    assert!(stat.is_dir);
}

struct DeadGraph {
    stats: usize,
}

impl GraphOracle for DeadGraph {
    fn stat(&mut self, _host_path: &[u8]) -> StatProbe {
        self.stats += 1;
        StatProbe::Unavailable
    }
    fn read_link(&mut self, _host_path: &[u8]) -> Option<Vec<u8>> {
        None
    }
}

#[test]
fn an_unreachable_graph_is_never_reported_as_an_absent_path() {
    let mut graph = DeadGraph { stats: 0 };
    let mut cache = StatCache::new(64);
    let path = format!("{WALK_ROOT}/src/pkg/mod/leaf/file0.rs");
    let error = resolve_graph_path(WALK_ROOT.as_bytes(), &vkey(&path), &mut cache, &mut graph)
        .expect_err("an unreachable graph must not resolve");
    assert!(
        matches!(error, GraphPathError::Authority),
        "unavailable authority must stay authority failure, never absence"
    );
    assert_eq!(
        graph.stats, 1,
        "a dead daemon must be asked once, not once per component"
    );
}

// ── Links ───────────────────────────────────────────────────────────

/// A graph of directories, files and links below `/ws`.
struct LinkedGraph {
    entries: std::collections::BTreeMap<Vec<u8>, VirtualStat>,
    links: std::collections::BTreeMap<Vec<u8>, Vec<u8>>,
}

impl LinkedGraph {
    fn new(dirs: &[&str], files: &[&str], links: &[(&str, &[u8])]) -> Self {
        let mut graph = LinkedGraph {
            entries: std::collections::BTreeMap::new(),
            links: std::collections::BTreeMap::new(),
        };
        for dir in dirs {
            graph.entries.insert(dir.as_bytes().to_vec(), directory(1));
        }
        for file in files {
            graph
                .entries
                .insert(file.as_bytes().to_vec(), regular_file(7, [0; 32], false, 1));
        }
        for (path, target) in links {
            graph.entries.insert(path.as_bytes().to_vec(), link(target.len() as u64));
            graph.links.insert(path.as_bytes().to_vec(), target.to_vec());
        }
        graph
    }
}

impl GraphOracle for LinkedGraph {
    fn stat(&mut self, host_path: &[u8]) -> StatProbe {
        match self.entries.get(host_path) {
            Some(stat) => StatProbe::Present { stat: *stat, generation: 3 },
            None => StatProbe::Absent { generation: 3 },
        }
    }
    fn read_link(&mut self, host_path: &[u8]) -> Option<Vec<u8>> {
        self.links.get(host_path).cloned()
    }
}

fn resolve_in(graph: &mut LinkedGraph, path: &str) -> Resolved {
    resolve_graph_path(b"/ws", &vkey(path), &mut StatCache::new(8), graph)
}

#[test]
fn links_are_followed_relative_to_their_directory_and_to_the_root() {
    let mut graph = LinkedGraph::new(
        &["/ws", "/ws/src", "/ws/lib"],
        &["/ws/lib/a.rs"],
        &[
            ("/ws/src/up", b"../lib"),
            ("/ws/src/whole", b"/ws/lib/a.rs"),
            ("/ws/src/home", b"/ws"),
        ],
    );
    assert_eq!(resolve_in(&mut graph, "/ws/src/up/a.rs").unwrap().0, b"/ws/lib/a.rs");
    assert_eq!(resolve_in(&mut graph, "/ws/src/whole").unwrap().0, b"/ws/lib/a.rs");
    let (path, stat) = resolve_in(&mut graph, "/ws/src/home").unwrap();
    assert_eq!(path, b"/ws");
    assert!(stat.is_dir);
    assert_eq!(resolve_in(&mut graph, "/ws/src/home/lib/a.rs").unwrap().0, b"/ws/lib/a.rs");
}

#[test]
fn every_way_a_link_fails_is_told_apart() {
    let mut graph = LinkedGraph::new(
        &["/ws"],
        &["/ws/file"],
        &[
            ("/ws/out", b"/etc/passwd"),
            ("/ws/up", b"../etc"),
            ("/ws/above", b"../../etc"),
            ("/ws/nul", b"a\0b"),
            ("/ws/void", b""),
            ("/ws/loop", b"loop"),
            ("/ws/gone", b"missing"),
            ("/ws/deep", b"missing/further"),
            ("/ws/through", b"file/further"),
        ],
    );
    let error = |graph: &mut LinkedGraph, path: &str| resolve_in(graph, path).unwrap_err();
    assert_eq!(error(&mut graph, "/ws/out"), GraphPathError::OutsideWorkspace);
    assert_eq!(error(&mut graph, "/ws/up"), GraphPathError::OutsideWorkspace);
    assert_eq!(error(&mut graph, "/ws/above"), GraphPathError::InvalidSymlink);
    assert_eq!(error(&mut graph, "/ws/nul"), GraphPathError::InvalidSymlink);
    assert_eq!(error(&mut graph, "/ws/void"), GraphPathError::InvalidSymlink);
    assert_eq!(error(&mut graph, "/ws/loop"), GraphPathError::SymlinkLoop);
    assert_eq!(error(&mut graph, "/ws/gone"), GraphPathError::MissingFinal);
    assert_eq!(error(&mut graph, "/ws/deep"), GraphPathError::MissingPrefix);
    assert_eq!(error(&mut graph, "/ws/through"), GraphPathError::NotDirectory);
    graph.links.remove(b"/ws/out".as_slice());
    assert_eq!(error(&mut graph, "/ws/out"), GraphPathError::Authority);
}

#[test]
fn forty_links_are_followed_and_no_more() {
    let chain = |length: u32| {
        let names: Vec<(String, Vec<u8>)> = (0..length)
            .map(|n| (format!("/ws/l{n}"), format!("l{}", n + 1).into_bytes()))
            .collect();
        let last = format!("/ws/l{length}");
        let links: Vec<(&str, &[u8])> =
            names.iter().map(|(path, target)| (path.as_str(), target.as_slice())).collect();
        LinkedGraph::new(&["/ws"], &[last.as_str()], &links)
    };
    assert!(resolve_in(&mut chain(MAX_SYMLINKS), "/ws/l0").is_ok());
    assert_eq!(
        resolve_in(&mut chain(MAX_SYMLINKS + 1), "/ws/l0").unwrap_err(),
        GraphPathError::SymlinkLoop
    );
}

#[test]
fn the_root_has_no_component_to_follow() {
    let mut graph = LinkedGraph::new(&["/ws"], &[], &[]);
    assert_eq!(
        follow_symlinked_path(b"/ws", &VfsPath::root(), &mut graph).unwrap_err(),
        GraphPathError::Authority
    );
}

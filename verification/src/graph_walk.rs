//! Resolution of a workspace path through graph truth.
//!
//! The graph is asked about the whole path first, which is what makes a
//! resolution cost one round trip rather than one per component. That is sound
//! because no path of a snapshot holds both an artifact and descendants: an
//! entry at `a/b/c` proves that `a` and `a/b` are directories. A walk remains
//! for a symlink, which is followed through graph truth and never through the
//! host filesystem, and for an absence, which is told apart from a missing
//! prefix and from a prefix that is not a directory.
//!
//! A walk asks one question at a time. Whoever drives it puts the question to
//! the daemon and hands the answer back.

use vstd::prelude::*;

use crate::bytes;
use crate::bytes::{contains_byte, find_byte, to_vec, SLASH};
use crate::pathmap;
use crate::pathmap::{join_at_path, normalize_graph_path};
use crate::statcache;
use crate::statcache::{PathFact, StatCache};
use crate::types::VirtualStat;
use crate::vfs_path;
use crate::vfs_path::{workspace_graph_key, VfsPath};

verus! {

/// How many symlinks one resolution follows before it reports a loop.
pub const MAX_SYMLINKS: u32 = 40;

/// One answer about a single path, with the generation that produced it.
#[derive(Debug, Clone, Copy)]
pub enum StatProbe {
    /// The graph holds an entry here.
    Present { stat: VirtualStat, generation: u64 },
    /// The graph was reached and definitively holds no entry here.
    Absent { generation: u64 },
    /// No usable answer.
    Unavailable,
}

/// Why a path did not resolve.
#[derive(Debug, Clone, Copy, PartialEq, Eq, Structural)]
pub enum GraphPathError {
    /// Graph authority gave no usable answer.
    Authority,
    /// Every component before the last one resolved; the last has no entry.
    MissingFinal,
    /// A component before the last one has no entry.
    MissingPrefix,
    /// A link target is empty, holds a NUL, or leads above the root.
    InvalidSymlink,
    /// Too many links.
    SymlinkLoop,
    /// A link leads out of the workspace.
    OutsideWorkspace,
    /// A component before the last one is no directory.
    NotDirectory,
}

/// A question to graph truth about a host path.
#[derive(Debug)]
pub enum GraphQuestion {
    /// What is at this path?
    Stat(Vec<u8>),
    /// Where does the link at this path lead?
    ReadLink(Vec<u8>),
}

/// What graph truth answered.
#[derive(Debug)]
pub enum GraphAnswer {
    /// To `Stat`.
    Stat(StatProbe),
    /// To `ReadLink`.
    Link(Option<Vec<u8>>),
}

/// What a walk needs next.
#[derive(Debug)]
pub enum GraphProgress {
    /// An answer to this question.
    Ask(GraphQuestion),
    /// Nothing: the path resolved, or it did not.
    Done(Result<(Vec<u8>, VirtualStat), GraphPathError>),
}

/// A question, over byte sequences.
pub enum Question {
    Stat(Seq<u8>),
    ReadLink(Seq<u8>),
}

/// An answer, over byte sequences.
pub enum Answer {
    Stat(StatProbe),
    Link(Option<Seq<u8>>),
}

/// What a resolution ends in, over byte sequences.
pub type Outcome = Result<(Seq<u8>, VirtualStat), GraphPathError>;

/// Progress, over byte sequences.
pub enum Progress {
    Ask(Question),
    Done(Outcome),
}

impl View for GraphQuestion {
    type V = Question;

    open spec fn view(&self) -> Question {
        match self {
            GraphQuestion::Stat(p) => Question::Stat(p@),
            GraphQuestion::ReadLink(p) => Question::ReadLink(p@),
        }
    }
}

impl View for GraphAnswer {
    type V = Answer;

    open spec fn view(&self) -> Answer {
        match self {
            GraphAnswer::Stat(p) => Answer::Stat(*p),
            GraphAnswer::Link(Some(t)) => Answer::Link(Some(t@)),
            GraphAnswer::Link(None) => Answer::Link(None),
        }
    }
}

impl View for GraphProgress {
    type V = Progress;

    open spec fn view(&self) -> Progress {
        match self {
            GraphProgress::Ask(q) => Progress::Ask(q@),
            GraphProgress::Done(Ok((p, s))) => Progress::Done(Ok((p@, *s))),
            GraphProgress::Done(Err(e)) => Progress::Done(Err(*e)),
        }
    }
}

/// Where a walk stands.
pub enum Stage {
    /// The root was asked about: the path is the workspace itself.
    Root,
    /// The whole path was asked about.
    Full,
    /// The prefix that ends at this separator was asked about.
    Prefix(int),
    /// The first pending component, in this directory, was asked about.
    Component { current: Seq<u8>, pending: Seq<Seq<u8>>, followed: int },
    /// The target of the link at `candidate` was asked for.
    Link { current: Seq<u8>, candidate: Seq<u8>, rest: Seq<Seq<u8>>, followed: int },
    /// The root was asked about, because a link led there.
    Redirected,
    /// Nothing is outstanding.
    Finished,
}

/// A walk: what is resolved, below which root, and how far it has come.
pub struct Walk {
    pub root: Seq<u8>,
    pub key: Seq<u8>,
    pub stage: Stage,
}

/// The memory after one answer was noted: the generation is observed first, so
/// the fact is stored under the generation that produced it.
pub open spec fn noting(
    memory: statcache::Memory,
    key: Seq<u8>,
    generation: u64,
    fact: PathFact,
) -> statcache::Memory {
    memory.observing(generation).remembering(key, generation, fact)
}

/// The fact that an entry's metadata amounts to.
pub open spec fn stat_fact(stat: VirtualStat) -> PathFact {
    PathFact::Present { is_dir: stat.is_dir, is_symlink: stat.is_symlink }
}

/// The next separator at or after `from`, or the length.
pub open spec fn next_cut(key: Seq<u8>, from: int) -> int {
    from + bytes::first_of(key.subrange(from, key.len() as int), SLASH)
}

/// What the remembered facts say of the proper prefixes from `from` on.
pub enum Scan {
    /// Nothing is remembered of the prefix that ends here.
    Unknown(int),
    /// A prefix is a symlink.
    Symlinked,
    /// Every prefix is a directory.
    Directories,
    /// A prefix is missing or no directory.
    Broken(GraphPathError),
}

/// Consults the remembered facts about the prefixes of `key`, shortest first.
pub open spec fn scan(memory: statcache::Memory, key: Seq<u8>, from: int) -> (
    Scan,
    statcache::Memory,
)
    decreases key.len() - from,
    when 0 <= from <= key.len()
{
    let cut = next_cut(key, from);
    if !(from <= cut < key.len()) {
        (Scan::Directories, memory)
    } else {
        let prefix = key.subrange(0, cut);
        let after = memory.recalling(prefix);
        match memory.fact(prefix) {
            None => (Scan::Unknown(cut), after),
            Some(PathFact::Present { is_symlink: true, .. }) => (Scan::Symlinked, after),
            Some(PathFact::Present { is_dir: true, .. }) => scan(after, key, cut + 1),
            Some(PathFact::Present { .. }) => (Scan::Broken(GraphPathError::NotDirectory), after),
            Some(PathFact::Absent) => (Scan::Broken(GraphPathError::MissingPrefix), after),
        }
    }
}

/// The question that is outstanding.
pub open spec fn question(walk: Walk) -> Question {
    match walk.stage {
        Stage::Full => Question::Stat(pathmap::joined_at(walk.root, walk.key)),
        Stage::Prefix(cut) => Question::Stat(
            pathmap::joined_at(walk.root, walk.key.subrange(0, cut)),
        ),
        Stage::Component { current, pending, .. } => Question::Stat(
            pathmap::joined_at(current, pending[0]),
        ),
        Stage::Link { candidate, .. } => Question::ReadLink(candidate),
        _ => Question::Stat(walk.root),
    }
}

/// The walk at its start.
pub open spec fn starting(root: Seq<u8>, key: Seq<u8>) -> Walk {
    Walk {
        root,
        key,
        stage: if key.len() == 0 {
            Stage::Root
        } else {
            Stage::Full
        },
    }
}

/// Going on with the question of `stage`.
pub open spec fn asking(walk: Walk, memory: statcache::Memory, stage: Stage) -> (
    Walk,
    statcache::Memory,
    Progress,
) {
    let on = Walk { stage, ..walk };
    (on, memory, Progress::Ask(question(on)))
}

/// Ending with `outcome`.
pub open spec fn ending(walk: Walk, memory: statcache::Memory, outcome: Outcome) -> (
    Walk,
    statcache::Memory,
    Progress,
) {
    (Walk { stage: Stage::Finished, ..walk }, memory, Progress::Done(outcome))
}

/// Following the path component by component from the root.
pub open spec fn following(walk: Walk, memory: statcache::Memory) -> (
    Walk,
    statcache::Memory,
    Progress,
) {
    asking(
        walk,
        memory,
        Stage::Component {
            current: walk.root,
            pending: vfs_path::key_components(walk.key),
            followed: 0,
        },
    )
}

/// Going on once the prefixes before `from` are known to be directories.
pub open spec fn classifying(walk: Walk, memory: statcache::Memory, from: int) -> (
    Walk,
    statcache::Memory,
    Progress,
) {
    let (found, after) = scan(memory, walk.key, from);
    match found {
        Scan::Unknown(cut) => asking(walk, after, Stage::Prefix(cut)),
        Scan::Symlinked => following(walk, after),
        Scan::Directories => ending(walk, after, Err(GraphPathError::MissingFinal)),
        Scan::Broken(error) => ending(walk, after, Err(error)),
    }
}

/// The walk after the target of a link is known.
pub open spec fn redirecting(
    walk: Walk,
    memory: statcache::Memory,
    current: Seq<u8>,
    rest: Seq<Seq<u8>>,
    followed: int,
    target: Seq<u8>,
) -> (Walk, statcache::Memory, Progress) {
    if target.contains(0) || target.len() == 0 {
        ending(walk, memory, Err(GraphPathError::InvalidSymlink))
    } else {
        match pathmap::graph_normal(pathmap::joined_at(current, target)) {
            None => ending(walk, memory, Err(GraphPathError::InvalidSymlink)),
            Some(normal) => match vfs_path::graph_key(normal, walk.root) {
                Err(_) => ending(walk, memory, Err(GraphPathError::OutsideWorkspace)),
                Ok(key) => {
                    let pending = vfs_path::key_components(key) + rest;
                    if pending.len() == 0 {
                        asking(walk, memory, Stage::Redirected)
                    } else {
                        asking(
                            walk,
                            memory,
                            Stage::Component { current: walk.root, pending, followed },
                        )
                    }
                },
            },
        }
    }
}

/// The walk, the memory and what is needed next, after `answer` came.
pub open spec fn next(walk: Walk, memory: statcache::Memory, answer: Answer) -> (
    Walk,
    statcache::Memory,
    Progress,
) {
    match (walk.stage, answer) {
        (Stage::Root, Answer::Stat(StatProbe::Present { stat, .. })) => ending(
            walk,
            memory,
            Ok((walk.root, stat)),
        ),
        (Stage::Redirected, Answer::Stat(StatProbe::Present { stat, .. })) => ending(
            walk,
            memory,
            Ok((walk.root, stat)),
        ),
        (Stage::Full, Answer::Stat(StatProbe::Present { stat, generation })) => {
            let after = noting(memory, walk.key, generation, stat_fact(stat));
            if stat.is_symlink {
                following(walk, after)
            } else {
                ending(walk, after, Ok((pathmap::joined_at(walk.root, walk.key), stat)))
            }
        },
        (Stage::Full, Answer::Stat(StatProbe::Absent { generation })) => classifying(
            walk,
            noting(memory, walk.key, generation, PathFact::Absent),
            0,
        ),
        (Stage::Prefix(cut), Answer::Stat(StatProbe::Present { stat, generation })) => {
            let after = noting(memory, walk.key.subrange(0, cut), generation, stat_fact(stat));
            if stat.is_symlink {
                following(walk, after)
            } else if stat.is_dir {
                classifying(walk, after, cut + 1)
            } else {
                ending(walk, after, Err(GraphPathError::NotDirectory))
            }
        },
        (Stage::Prefix(cut), Answer::Stat(StatProbe::Absent { generation })) => ending(
            walk,
            noting(memory, walk.key.subrange(0, cut), generation, PathFact::Absent),
            Err(GraphPathError::MissingPrefix),
        ),
        (
            Stage::Component { current, pending, followed },
            Answer::Stat(StatProbe::Present { stat, .. }),
        ) => {
            let candidate = pathmap::joined_at(current, pending[0]);
            let rest = pending.drop_first();
            if stat.is_symlink {
                if followed >= MAX_SYMLINKS {
                    ending(walk, memory, Err(GraphPathError::SymlinkLoop))
                } else {
                    asking(
                        walk,
                        memory,
                        Stage::Link { current, candidate, rest, followed: followed + 1 },
                    )
                }
            } else if rest.len() == 0 {
                ending(walk, memory, Ok((candidate, stat)))
            } else if !stat.is_dir {
                ending(walk, memory, Err(GraphPathError::NotDirectory))
            } else {
                asking(
                    walk,
                    memory,
                    Stage::Component { current: candidate, pending: rest, followed },
                )
            }
        },
        (Stage::Component { pending, .. }, Answer::Stat(StatProbe::Absent { .. })) => ending(
            walk,
            memory,
            Err(
                if pending.len() == 1 {
                    GraphPathError::MissingFinal
                } else {
                    GraphPathError::MissingPrefix
                },
            ),
        ),
        (Stage::Link { current, rest, followed, .. }, Answer::Link(Some(target))) => redirecting(
            walk,
            memory,
            current,
            rest,
            followed,
            target,
        ),
        _ => ending(walk, memory, Err(GraphPathError::Authority)),
    }
}

// ── The executable walk ─────────────────────────────────────────────────

#[derive(Debug)]
enum WalkStage {
    Root,
    Full,
    Prefix(usize),
    Component { current: Vec<u8>, pending: Vec<Vec<u8>>, followed: u32 },
    Link { current: Vec<u8>, candidate: Vec<u8>, rest: Vec<Vec<u8>>, followed: u32 },
    Redirected,
    Finished,
}

impl WalkStage {
    spec fn view(&self) -> Stage {
        match self {
            WalkStage::Root => Stage::Root,
            WalkStage::Full => Stage::Full,
            WalkStage::Prefix(cut) => Stage::Prefix(*cut as int),
            WalkStage::Component { current, pending, followed } => Stage::Component {
                current: current@,
                pending: bytes::views(pending@),
                followed: *followed as int,
            },
            WalkStage::Link { current, candidate, rest, followed } => Stage::Link {
                current: current@,
                candidate: candidate@,
                rest: bytes::views(rest@),
                followed: *followed as int,
            },
            WalkStage::Redirected => Stage::Redirected,
            WalkStage::Finished => Stage::Finished,
        }
    }
}

/// One resolution under way.
#[derive(Debug)]
pub struct GraphWalk {
    root: Vec<u8>,
    key: VfsPath,
    stage: WalkStage,
}

impl View for GraphWalk {
    type V = Walk;

    closed spec fn view(&self) -> Walk {
        Walk { root: self.root@, key: self.key@, stage: self.stage.view() }
    }
}

/// What holds of a walk at every point.
pub open spec fn well_formed(walk: Walk) -> bool {
    match walk.stage {
        Stage::Prefix(cut) => 0 <= cut < walk.key.len() && walk.key[cut] == SLASH,
        Stage::Component { pending, followed, .. } => pending.len() > 0 && 0 <= followed
            <= MAX_SYMLINKS,
        Stage::Link { followed, .. } => 0 <= followed <= MAX_SYMLINKS,
        Stage::Full => walk.key.len() > 0,
        _ => true,
    }
}

/// Whether `answer` answers the outstanding question.
pub open spec fn answers(walk: Walk, answer: Answer) -> bool {
    match walk.stage {
        Stage::Link { .. } => answer is Link,
        Stage::Finished => false,
        _ => answer is Stat,
    }
}

/// Records one answer: observes its generation, then remembers the fact.
pub fn note_fact(cache: &mut StatCache, key: &VfsPath, generation: u64, fact: PathFact)
    requires
        old(cache).well_formed(),
    ensures
        final(cache).well_formed(),
        final(cache)@ == noting(old(cache)@, key@, generation, fact),
{
    cache.observe(generation);
    cache.remember(key, generation, fact);
}

/// The fact that an entry's metadata amounts to.
pub fn fact_of(stat: &VirtualStat) -> (r: PathFact)
    ensures
        r == stat_fact(*stat),
{
    PathFact::Present { is_dir: stat.is_dir, is_symlink: stat.is_symlink }
}

impl GraphWalk {
    /// Begins to resolve `key` below `root`.
    pub fn start(root: &[u8], key: &VfsPath) -> (r: (GraphWalk, GraphQuestion))
        ensures
            r.0@ == starting(root@, key@),
            r.1@ == question(r.0@),
            well_formed(r.0@),
    {
        if key.is_root() {
            (
                GraphWalk { root: to_vec(root), key: key.clone(), stage: WalkStage::Root },
                GraphQuestion::Stat(to_vec(root)),
            )
        } else {
            (
                GraphWalk { root: to_vec(root), key: key.clone(), stage: WalkStage::Full },
                GraphQuestion::Stat(join_at_path(root, key.as_bytes())),
            )
        }
    }

    /// Begins to resolve `key` below `root` one component at a time, asking
    /// about every one of them. The root itself has no component to follow.
    pub fn follow_symlinked_path(root: &[u8], key: &VfsPath) -> (r: (GraphWalk, GraphProgress))
        ensures
            well_formed(r.0@),
            key@.len() == 0 ==> r.0@ == (Walk { stage: Stage::Finished, ..starting(root@, key@) })
                && r.1@ == Progress::Done(Err(GraphPathError::Authority)),
            key@.len() > 0 ==> forall|m: statcache::Memory| #[trigger]
                following(starting(root@, key@), m) == (r.0@, m, r.1@),
    {
        let (mut walk, _question) = GraphWalk::start(root, key);
        if key.is_root() {
            walk.stage = WalkStage::Finished;
            return (walk, GraphProgress::Done(Err(GraphPathError::Authority)));
        }
        let progress = walk.follow();
        (walk, progress)
    }

    /// Takes the answer to the outstanding question.
    pub fn advance(&mut self, cache: &mut StatCache, answer: GraphAnswer) -> (r: GraphProgress)
        requires
            old(cache).well_formed(),
            well_formed(old(self)@),
            answers(old(self)@, answer@),
        ensures
            final(cache).well_formed(),
            well_formed(final(self)@),
            (final(self)@, final(cache)@, r@) == next(old(self)@, old(cache)@, answer@),
    {
        let mut stage = WalkStage::Finished;
        std::mem::swap(&mut self.stage, &mut stage);
        let ghost here = self@;
        match stage {
            WalkStage::Root | WalkStage::Redirected => {
                match answer {
                    GraphAnswer::Stat(StatProbe::Present { stat, .. }) => GraphProgress::Done(
                        Ok((to_vec(self.root.as_slice()), stat)),
                    ),
                    _ => GraphProgress::Done(Err(GraphPathError::Authority)),
                }
            },
            WalkStage::Full => {
                match answer {
                    GraphAnswer::Stat(StatProbe::Present { stat, generation }) => {
                        let full = join_at_path(self.root.as_slice(), self.key.as_bytes());
                        note_fact(cache, &self.key, generation, fact_of(&stat));
                        if stat.is_symlink {
                            assert(following(here, cache@) == following(old(self)@, cache@));
                            self.follow()
                        } else {
                            GraphProgress::Done(Ok((full, stat)))
                        }
                    },
                    GraphAnswer::Stat(StatProbe::Absent { generation }) => {
                        note_fact(cache, &self.key, generation, PathFact::Absent);
                        self.classify(cache, 0)
                    },
                    _ => GraphProgress::Done(Err(GraphPathError::Authority)),
                }
            },
            WalkStage::Prefix(cut) => {
                match answer {
                    GraphAnswer::Stat(StatProbe::Present { stat, generation }) => {
                        let length: usize = self.key.as_bytes().len();
                        assert(cut < length);
                        let prefix = self.key.prefix(cut);
                        note_fact(cache, &prefix, generation, fact_of(&stat));
                        if stat.is_symlink {
                            assert(following(here, cache@) == following(old(self)@, cache@));
                            self.follow()
                        } else if stat.is_dir {
                            self.classify(cache, cut + 1)
                        } else {
                            GraphProgress::Done(Err(GraphPathError::NotDirectory))
                        }
                    },
                    GraphAnswer::Stat(StatProbe::Absent { generation }) => {
                        let prefix = self.key.prefix(cut);
                        note_fact(cache, &prefix, generation, PathFact::Absent);
                        GraphProgress::Done(Err(GraphPathError::MissingPrefix))
                    },
                    _ => GraphProgress::Done(Err(GraphPathError::Authority)),
                }
            },
            WalkStage::Component { current, pending, followed } => {
                match answer {
                    GraphAnswer::Stat(probe) => self.component(current, pending, followed, probe),
                    _ => GraphProgress::Done(Err(GraphPathError::Authority)),
                }
            },
            WalkStage::Link { current, candidate: _, rest, followed } => {
                match answer {
                    GraphAnswer::Link(Some(target)) => {
                        assert(redirecting(
                            here,
                            cache@,
                            current@,
                            bytes::views(rest@),
                            followed as int,
                            target@,
                        ) == next(old(self)@, cache@, answer@));
                        self.redirect(current, rest, followed, target)
                    },
                    _ => GraphProgress::Done(Err(GraphPathError::Authority)),
                }
            },
            WalkStage::Finished => GraphProgress::Done(Err(GraphPathError::Authority)),
        }
    }

    /// Decides what the components before the last one are from `from` on,
    /// consulting remembered facts before asking. Every file in a directory
    /// shares them.
    fn classify(&mut self, cache: &mut StatCache, from: usize) -> (r: GraphProgress)
        requires
            old(cache).well_formed(),
            old(self)@.key.len() > 0,
            from <= old(self)@.key.len(),
        ensures
            final(cache).well_formed(),
            well_formed(final(self)@),
            (final(self)@, final(cache)@, r@) == classifying(
                old(self)@,
                old(cache)@,
                from as int,
            ),
    {
        let ghost key = self.key@;
        let length: usize = self.key.as_bytes().len();
        let mut at: usize = from;
        loop
            invariant
                length == key.len(),
                cache.well_formed(),
                at <= key.len(),
                key.len() > 0,
                self@ == old(self)@,
                key == self.key@,
                scan(cache@, key, at as int) == scan(old(cache)@, key, from as int),
            decreases key.len() - at,
        {
            let ghost rest = key.subrange(at as int, key.len() as int);
            match find_byte(self.key.as_bytes(), SLASH, at) {
                None => {
                    proof {
                        assert forall|i: int| 0 <= i < rest.len() implies rest[i] != SLASH by {
                            assert(rest[i] == key[at + i]);
                        }
                        bytes::lemma_first_of_is(rest, SLASH, rest.len() as int);
                    }
                    self.stage = WalkStage::Finished;
                    return GraphProgress::Done(Err(GraphPathError::MissingFinal));
                },
                Some(cut) => {
                    proof {
                        assert forall|i: int| 0 <= i < cut - at implies rest[i] != SLASH by {
                            assert(rest[i] == key[at + i]);
                        }
                        assert(rest[cut - at] == key[cut as int]);
                        bytes::lemma_first_of_is(rest, SLASH, cut - at);
                    }
                    let prefix = self.key.prefix(cut);
                    match cache.recall(&prefix) {
                        None => {
                            let host = join_at_path(self.root.as_slice(), prefix.as_bytes());
                            self.stage = WalkStage::Prefix(cut);
                            return GraphProgress::Ask(GraphQuestion::Stat(host));
                        },
                        Some(PathFact::Present { is_symlink, is_dir }) => {
                            if is_symlink {
                                return self.follow();
                            }
                            if !is_dir {
                                self.stage = WalkStage::Finished;
                                return GraphProgress::Done(Err(GraphPathError::NotDirectory));
                            }
                            at = cut + 1;
                        },
                        Some(PathFact::Absent) => {
                            self.stage = WalkStage::Finished;
                            return GraphProgress::Done(Err(GraphPathError::MissingPrefix));
                        },
                    }
                },
            }
        }
    }

    /// Starts to walk the path one component at a time, which is what a link
    /// takes. Nothing from here on consults a remembered fact: a redirect
    /// changes what the last component even is.
    fn follow(&mut self) -> (r: GraphProgress)
        requires
            old(self)@.key.len() > 0,
        ensures
            well_formed(final(self)@),
            forall|m: statcache::Memory| #[trigger]
                following(old(self)@, m) == (final(self)@, m, r@),
    {
        let pending = self.key.components();
        proof {
            pathmap::lemma_split_fields(self.key@, SLASH);
        }
        let host = join_at_path(self.root.as_slice(), pending[0].as_slice());
        self.stage =
        WalkStage::Component { current: to_vec(self.root.as_slice()), pending, followed: 0 };
        GraphProgress::Ask(GraphQuestion::Stat(host))
    }

    /// Takes the answer about the first pending component.
    fn component(
        &mut self,
        current: Vec<u8>,
        pending: Vec<Vec<u8>>,
        followed: u32,
        probe: StatProbe,
    ) -> (r: GraphProgress)
        requires
            old(self)@.stage is Finished,
            pending@.len() > 0,
            followed <= MAX_SYMLINKS,
        ensures
            well_formed(final(self)@),
            forall|m: statcache::Memory| #[trigger]
                next(
                    (Walk {
                        root: old(self)@.root,
                        key: old(self)@.key,
                        stage: Stage::Component {
                            current: current@,
                            pending: bytes::views(pending@),
                            followed: followed as int,
                        },
                    }),
                    m,
                    Answer::Stat(probe),
                ) == (final(self)@, m, r@),
    {
        let mut rest = pending;
        let component = rest.remove(0);
        let candidate = join_at_path(current.as_slice(), component.as_slice());
        assert(bytes::views(rest@) =~= bytes::views(pending@).drop_first());
        match probe {
            StatProbe::Present { stat, .. } => {
                if stat.is_symlink {
                    if followed >= MAX_SYMLINKS {
                        return GraphProgress::Done(Err(GraphPathError::SymlinkLoop));
                    }
                    let link = to_vec(candidate.as_slice());
                    self.stage =
                    WalkStage::Link { current, candidate, rest, followed: followed + 1 };
                    GraphProgress::Ask(GraphQuestion::ReadLink(link))
                } else if rest.len() == 0 {
                    GraphProgress::Done(Ok((candidate, stat)))
                } else if !stat.is_dir {
                    GraphProgress::Done(Err(GraphPathError::NotDirectory))
                } else {
                    let host = join_at_path(candidate.as_slice(), rest[0].as_slice());
                    self.stage =
                    WalkStage::Component { current: candidate, pending: rest, followed };
                    GraphProgress::Ask(GraphQuestion::Stat(host))
                }
            },
            StatProbe::Absent { .. } => {
                if rest.len() == 0 {
                    GraphProgress::Done(Err(GraphPathError::MissingFinal))
                } else {
                    GraphProgress::Done(Err(GraphPathError::MissingPrefix))
                }
            },
            StatProbe::Unavailable => GraphProgress::Done(Err(GraphPathError::Authority)),
        }
    }

    /// Takes the target of a link: exact graph-owned bytes, never required to
    /// be text, only non-empty and free of NUL.
    fn redirect(
        &mut self,
        current: Vec<u8>,
        rest: Vec<Vec<u8>>,
        followed: u32,
        target: Vec<u8>,
    ) -> (r: GraphProgress)
        requires
            old(self)@.stage is Finished,
            followed <= MAX_SYMLINKS,
        ensures
            well_formed(final(self)@),
            forall|m: statcache::Memory| #[trigger]
                redirecting(
                    old(self)@,
                    m,
                    current@,
                    bytes::views(rest@),
                    followed as int,
                    target@,
                ) == (final(self)@, m, r@),
    {
        if contains_byte(target.as_slice(), 0) || target.len() == 0 {
            return GraphProgress::Done(Err(GraphPathError::InvalidSymlink));
        }
        let joined = join_at_path(current.as_slice(), target.as_slice());
        match normalize_graph_path(joined.as_slice()) {
            None => GraphProgress::Done(Err(GraphPathError::InvalidSymlink)),
            Some(normal) => match workspace_graph_key(normal.as_slice(), self.root.as_slice()) {
                Err(_) => GraphProgress::Done(Err(GraphPathError::OutsideWorkspace)),
                Ok(key) => {
                    let mut pending = key.components();
                    let ghost head = bytes::views(pending@);
                    let mut tail = rest;
                    pending.append(&mut tail);
                    assert(bytes::views(pending@) =~= head + bytes::views(rest@));
                    if pending.len() == 0 {
                        self.stage = WalkStage::Redirected;
                        GraphProgress::Ask(GraphQuestion::Stat(to_vec(self.root.as_slice())))
                    } else {
                        let host = join_at_path(self.root.as_slice(), pending[0].as_slice());
                        self.stage =
                        WalkStage::Component {
                            current: to_vec(self.root.as_slice()),
                            pending,
                            followed,
                        };
                        GraphProgress::Ask(GraphQuestion::Stat(host))
                    }
                },
            },
        }
    }
}

// ── What a resolution means ─────────────────────────────────────────────

/// One unchanging graph: what it holds at each host path, and where its links
/// lead.
pub struct Graph {
    pub stat: spec_fn(Seq<u8>) -> StatProbe,
    pub link: spec_fn(Seq<u8>) -> Option<Seq<u8>>,
}

/// What the graph answers.
pub open spec fn reply(graph: Graph, question: Question) -> Answer {
    match question {
        Question::Stat(path) => Answer::Stat((graph.stat)(path)),
        Question::ReadLink(path) => Answer::Link((graph.link)(path)),
    }
}

/// What the workspace root resolves to.
pub open spec fn root_outcome(graph: Graph, root: Seq<u8>) -> Outcome {
    match (graph.stat)(root) {
        StatProbe::Present { stat, .. } => Ok((root, stat)),
        _ => Err(GraphPathError::Authority),
    }
}

/// Where a link in `current` to `target` leads: a key below `root`.
pub open spec fn link_key(root: Seq<u8>, current: Seq<u8>, target: Seq<u8>) -> Result<
    Seq<u8>,
    GraphPathError,
> {
    if target.contains(0) || target.len() == 0 {
        Err(GraphPathError::InvalidSymlink)
    } else {
        match pathmap::graph_normal(pathmap::joined_at(current, target)) {
            None => Err(GraphPathError::InvalidSymlink),
            Some(normal) => match vfs_path::graph_key(normal, root) {
                Err(_) => Err(GraphPathError::OutsideWorkspace),
                Ok(key) => Ok(key),
            },
        }
    }
}

/// What the components `pending`, taken from the directory `current`, resolve
/// to when `followed` links lie behind.
pub open spec fn follow(
    graph: Graph,
    root: Seq<u8>,
    current: Seq<u8>,
    pending: Seq<Seq<u8>>,
    followed: int,
) -> Outcome
    decreases MAX_SYMLINKS - followed, pending.len(),
{
    let candidate = pathmap::joined_at(current, pending[0]);
    let rest = pending.drop_first();
    if pending.len() == 0 {
        Err(GraphPathError::Authority)
    } else {
        match (graph.stat)(candidate) {
            StatProbe::Unavailable => Err(GraphPathError::Authority),
            StatProbe::Absent { .. } => Err(
                if rest.len() == 0 {
                    GraphPathError::MissingFinal
                } else {
                    GraphPathError::MissingPrefix
                },
            ),
            StatProbe::Present { stat, .. } => if stat.is_symlink {
                if followed >= MAX_SYMLINKS {
                    Err(GraphPathError::SymlinkLoop)
                } else {
                    match (graph.link)(candidate) {
                        None => Err(GraphPathError::Authority),
                        Some(target) => match link_key(root, current, target) {
                            Err(error) => Err(error),
                            Ok(key) => {
                                let onward = vfs_path::key_components(key) + rest;
                                if onward.len() == 0 {
                                    root_outcome(graph, root)
                                } else {
                                    follow(graph, root, root, onward, followed + 1)
                                }
                            },
                        },
                    }
                }
            } else if rest.len() == 0 {
                Ok((candidate, stat))
            } else if !stat.is_dir {
                Err(GraphPathError::NotDirectory)
            } else {
                follow(graph, root, candidate, rest, followed)
            },
        }
    }
}

/// What an absent path resolves to, its prefixes before `from` being
/// directories.
pub open spec fn classified(graph: Graph, root: Seq<u8>, key: Seq<u8>, from: int) -> Outcome
    decreases key.len() - from,
    when 0 <= from <= key.len()
{
    let cut = next_cut(key, from);
    if !(from <= cut < key.len()) {
        Err(GraphPathError::MissingFinal)
    } else {
        match (graph.stat)(pathmap::joined_at(root, key.subrange(0, cut))) {
            StatProbe::Unavailable => Err(GraphPathError::Authority),
            StatProbe::Absent { .. } => Err(GraphPathError::MissingPrefix),
            StatProbe::Present { stat, .. } => if stat.is_symlink {
                follow(graph, root, root, vfs_path::key_components(key), 0)
            } else if stat.is_dir {
                classified(graph, root, key, cut + 1)
            } else {
                Err(GraphPathError::NotDirectory)
            },
        }
    }
}

/// What `key` resolves to below `root`.
pub open spec fn resolved(graph: Graph, root: Seq<u8>, key: Seq<u8>) -> Outcome {
    let full = pathmap::joined_at(root, key);
    if key.len() == 0 {
        root_outcome(graph, root)
    } else {
        match (graph.stat)(full) {
            StatProbe::Unavailable => Err(GraphPathError::Authority),
            StatProbe::Absent { .. } => classified(graph, root, key, 0),
            StatProbe::Present { stat, .. } => if stat.is_symlink {
                follow(graph, root, root, vfs_path::key_components(key), 0)
            } else {
                Ok((full, stat))
            },
        }
    }
}

/// What a walk ends in when `graph` answers at most `rounds` questions; `None`
/// where that many do not suffice.
pub open spec fn run(graph: Graph, walk: Walk, memory: statcache::Memory, rounds: nat) -> Option<
    Outcome,
>
    decreases rounds,
{
    if rounds == 0 {
        None
    } else {
        let (on, after, progress) = next(walk, memory, reply(graph, question(walk)));
        match progress {
            Progress::Done(outcome) => Some(outcome),
            Progress::Ask(_) => run(graph, on, after, (rounds - 1) as nat),
        }
    }
}

/// As `run`, from the point where `step` was reached.
pub open spec fn run_on(
    graph: Graph,
    step: (Walk, statcache::Memory, Progress),
    rounds: nat,
) -> Option<Outcome> {
    match step.2 {
        Progress::Done(outcome) => Some(outcome),
        Progress::Ask(_) => run(graph, step.0, step.1, rounds),
    }
}

/// The fact that the graph would tell about `key`, if it answers at all.
pub open spec fn told(graph: Graph, root: Seq<u8>, key: Seq<u8>) -> Option<PathFact> {
    match (graph.stat)(pathmap::joined_at(root, key)) {
        StatProbe::Present { stat, .. } => Some(stat_fact(stat)),
        StatProbe::Absent { .. } => Some(PathFact::Absent),
        StatProbe::Unavailable => None,
    }
}

/// Every remembered fact is what the graph would tell.
pub open spec fn truthful(memory: statcache::Memory, graph: Graph, root: Seq<u8>) -> bool {
    forall|key: Seq<u8>|
        (#[trigger] memory.fact(key)) is Some ==> memory.fact(key) == told(graph, root, key)
}

/// Noting what the graph tells keeps a memory truthful.
proof fn lemma_noting_truthful(
    memory: statcache::Memory,
    graph: Graph,
    root: Seq<u8>,
    key: Seq<u8>,
    generation: u64,
    fact: PathFact,
)
    requires
        memory.well_formed(),
        truthful(memory, graph, root),
        told(graph, root, key) == Some(fact),
    ensures
        noting(memory, key, generation, fact).well_formed(),
        truthful(noting(memory, key, generation, fact), graph, root),
{
    let seen = memory.observing(generation);
    statcache::law_memory_stays_well_formed(memory, key, generation, fact);
    statcache::law_memory_stays_well_formed(seen, key, generation, fact);
    assert forall|other: Seq<u8>|
        (#[trigger] noting(memory, key, generation, fact).fact(other)) is Some implies noting(
        memory,
        key,
        generation,
        fact,
    ).fact(other) == told(graph, root, other) by {
        if generation != 0 && generation == seen.observed && seen.capacity > 0 {
            statcache::lemma_stored(
                seen.entries,
                seen.capacity,
                key,
                statcache::fact_stamp(generation, fact),
            );
            if other != key {
                assert(seen.fact(other) == noting(memory, key, generation, fact).fact(other));
                assert(memory.fact(other) == seen.fact(other));
            }
        } else {
            assert(memory.fact(other) == seen.fact(other));
        }
    }
}

/// A step that asks about a component runs to what `follow` says.
proof fn lemma_run_component(graph: Graph, walk: Walk, memory: statcache::Memory) -> (rounds: nat)
    requires
        walk.stage is Component,
        walk.stage->Component_pending.len() > 0,
        0 <= walk.stage->Component_followed <= MAX_SYMLINKS,
    ensures
        run(graph, walk, memory, rounds) == Some(
            follow(
                graph,
                walk.root,
                walk.stage->Component_current,
                walk.stage->Component_pending,
                walk.stage->Component_followed,
            ),
        ),
    decreases
            MAX_SYMLINKS - walk.stage->Component_followed,
            walk.stage->Component_pending.len(),
{
    let current = walk.stage->Component_current;
    let pending = walk.stage->Component_pending;
    let followed = walk.stage->Component_followed;
    let candidate = pathmap::joined_at(current, pending[0]);
    let (on, after, progress) = next(walk, memory, reply(graph, question(walk)));
    match progress {
        Progress::Done(_) => 1,
        Progress::Ask(_) => {
            if on.stage is Component {
                let rounds = lemma_run_component(graph, on, after);
                rounds + 1
            } else {
                let (further, last, outcome) = next(on, after, reply(graph, question(on)));
                match outcome {
                    Progress::Done(_) => {
                        assert(run(graph, on, after, 1) is Some);
                        2
                    },
                    Progress::Ask(_) => {
                        if further.stage is Component {
                            let rounds = lemma_run_component(graph, further, last);
                            assert(run(graph, on, after, rounds + 1) == run(
                                graph,
                                further,
                                last,
                                rounds,
                            ));
                            rounds + 2
                        } else {
                            assert(run(graph, further, last, 1) == Some(
                                root_outcome(graph, walk.root),
                            ));
                            assert(run(graph, on, after, 2) == run(graph, further, last, 1));
                            3
                        }
                    },
                }
            }
        },
    }
}

/// A step that consults the prefixes runs to what `classified` says.
proof fn lemma_run_classifying(graph: Graph, walk: Walk, memory: statcache::Memory, from: int) -> (
    rounds: nat)
    requires
        vfs_path::is_key(walk.key),
        walk.key.len() > 0,
        0 <= from <= walk.key.len(),
        memory.well_formed(),
        truthful(memory, graph, walk.root),
    ensures
        run_on(graph, classifying(walk, memory, from), rounds) == Some(
            classified(graph, walk.root, walk.key, from),
        ),
    decreases walk.key.len() - from,
{
    let key = walk.key;
    let cut = next_cut(key, from);
    let rest = key.subrange(from, key.len() as int);
    bytes::lemma_first_of(rest, SLASH);
    pathmap::lemma_split_fields(key, SLASH);
    if !(from <= cut < key.len()) {
        0
    } else {
        let prefix = key.subrange(0, cut);
        let after = memory.recalling(prefix);
        statcache::lemma_touched(memory.entries, prefix);
        statcache::law_memory_stays_well_formed(memory, prefix, 0, PathFact::Absent);
        assert(truthful(after, graph, walk.root)) by {
            assert forall|other: Seq<u8>| (#[trigger] after.fact(other)) is Some implies after.fact(
                other,
            ) == told(graph, walk.root, other) by {
                assert(memory.fact(other) == after.fact(other));
            }
        }
        let begun = following(walk, after);
        match memory.fact(prefix) {
            Some(fact) => {
                assert(told(graph, walk.root, prefix) == Some(fact));
                match fact {
                    PathFact::Present { is_symlink: true, .. } => {
                        lemma_run_component(graph, begun.0, begun.1)
                    },
                    PathFact::Present { is_dir: true, .. } => {
                        let rounds = lemma_run_classifying(graph, walk, after, cut + 1);
                        assert(classifying(walk, memory, from) == classifying(
                            walk,
                            after,
                            cut + 1,
                        ));
                        rounds
                    },
                    _ => 0,
                }
            },
            None => {
                let asked = Walk { stage: Stage::Prefix(cut), ..walk };
                assert(classifying(walk, memory, from) == asking(walk, after, Stage::Prefix(cut)));
                match (graph.stat)(pathmap::joined_at(walk.root, prefix)) {
                    StatProbe::Unavailable => {
                        assert(run(graph, asked, after, 1) is Some);
                        1
                    },
                    StatProbe::Absent { generation } => {
                        assert(run(graph, asked, after, 1) is Some);
                        1
                    },
                    StatProbe::Present { stat, generation } => {
                        let noted = noting(after, prefix, generation, stat_fact(stat));
                        lemma_noting_truthful(
                            after,
                            graph,
                            walk.root,
                            prefix,
                            generation,
                            stat_fact(stat),
                        );
                        if stat.is_symlink {
                            let onward = following(asked, noted);
                            let rounds = lemma_run_component(graph, onward.0, onward.1);
                            assert(run(graph, asked, after, rounds + 1) == run(
                                graph,
                                onward.0,
                                onward.1,
                                rounds,
                            ));
                            rounds + 1
                        } else if stat.is_dir {
                            let rounds = lemma_run_classifying(graph, asked, noted, cut + 1);
                            assert(run(graph, asked, after, rounds + 1) == run_on(
                                graph,
                                classifying(asked, noted, cut + 1),
                                rounds,
                            ));
                            rounds + 1
                        } else {
                            assert(run(graph, asked, after, 1) is Some);
                            1
                        }
                    },
                }
            },
        }
    }
}

/// Against one unchanging graph, a walk ends in what the path resolves to in
/// that graph, whatever truthful facts were remembered before.
pub proof fn law_a_walk_finds_what_the_path_resolves_to(
    graph: Graph,
    root: Seq<u8>,
    key: Seq<u8>,
    memory: statcache::Memory,
) -> (rounds: nat)
    requires
        vfs_path::is_key(key),
        memory.well_formed(),
        truthful(memory, graph, root),
    ensures
        run(graph, starting(root, key), memory, rounds) == Some(resolved(graph, root, key)),
{
    let walk = starting(root, key);
    if key.len() == 0 {
        1
    } else {
        pathmap::lemma_split_fields(key, SLASH);
        match (graph.stat)(pathmap::joined_at(root, key)) {
            StatProbe::Unavailable => 1,
            StatProbe::Absent { generation } => {
                let noted = noting(memory, key, generation, PathFact::Absent);
                lemma_noting_truthful(memory, graph, root, key, generation, PathFact::Absent);
                let rounds = lemma_run_classifying(graph, walk, noted, 0);
                assert(run(graph, walk, memory, rounds + 1) == run_on(
                    graph,
                    classifying(walk, noted, 0),
                    rounds,
                ));
                rounds + 1
            },
            StatProbe::Present { stat, generation } => {
                if stat.is_symlink {
                    let noted = noting(memory, key, generation, stat_fact(stat));
                    let onward = following(walk, noted);
                    let rounds = lemma_run_component(graph, onward.0, onward.1);
                    assert(run(graph, walk, memory, rounds + 1) == run(
                        graph,
                        onward.0,
                        onward.1,
                        rounds,
                    ));
                    rounds + 1
                } else {
                    1
                }
            },
        }
    }
}

/// A walk that follows a path one component at a time ends where following
/// every component and every link from the root leads.
pub proof fn law_following_every_component_finds_the_same_place(
    graph: Graph,
    root: Seq<u8>,
    key: Seq<u8>,
    memory: statcache::Memory,
) -> (rounds: nat)
    requires
        vfs_path::is_key(key),
        key.len() > 0,
    ensures
        run(graph, following(starting(root, key), memory).0, memory, rounds) == Some(
            follow(graph, root, root, vfs_path::key_components(key), 0),
        ),
{
    pathmap::lemma_split_fields(key, SLASH);
    lemma_run_component(graph, following(starting(root, key), memory).0, memory)
}

/// An entry that is no link is found with a single question, however deep.
pub proof fn law_an_entry_costs_one_question(
    graph: Graph,
    root: Seq<u8>,
    key: Seq<u8>,
    memory: statcache::Memory,
    stat: VirtualStat,
    generation: u64,
)
    requires
        key.len() > 0,
        !stat.is_symlink,
        (graph.stat)(pathmap::joined_at(root, key)) == (StatProbe::Present { stat, generation }),
    ensures
        run(graph, starting(root, key), memory, 1) == Some(
            Ok::<(Seq<u8>, VirtualStat), GraphPathError>((pathmap::joined_at(root, key), stat)),
        ),
{
}

/// A graph that does not answer is asked once, and the walk reports missing
/// authority rather than a missing path.
pub proof fn law_no_answer_is_never_an_absence(
    walk: Walk,
    memory: statcache::Memory,
    answer: Answer,
)
    requires
        answer == Answer::Stat(StatProbe::Unavailable) || answer == Answer::Link(None),
    ensures
        next(walk, memory, answer).2 == Progress::Done(
            Err::<(Seq<u8>, VirtualStat), GraphPathError>(GraphPathError::Authority),
        ),
        next(walk, memory, answer).1 == memory,
{
}

/// Where every prefix is remembered to be a directory, an absent path costs
/// the one question about itself.
pub proof fn law_known_prefixes_are_not_asked_again(
    root: Seq<u8>,
    key: Seq<u8>,
    memory: statcache::Memory,
    generation: u64,
)
    requires
        key.len() > 0,
        memory.well_formed(),
        forall|cut: int|
            0 <= cut < key.len() && key[cut] == SLASH ==> (#[trigger] noting(
                memory,
                key,
                generation,
                PathFact::Absent,
            ).fact(key.subrange(0, cut))) == Some(
                (PathFact::Present { is_dir: true, is_symlink: false }),
            ),
    ensures
        next(
            starting(root, key),
            memory,
            Answer::Stat(StatProbe::Absent { generation }),
        ).2 == Progress::Done(
            Err::<(Seq<u8>, VirtualStat), GraphPathError>(GraphPathError::MissingFinal),
        ),
{
    let noted = noting(memory, key, generation, PathFact::Absent);
    let seen = memory.observing(generation);
    statcache::law_memory_stays_well_formed(memory, key, generation, PathFact::Absent);
    statcache::law_memory_stays_well_formed(seen, key, generation, PathFact::Absent);
    lemma_scan_directories(noted, key, 0);
}

proof fn lemma_scan_directories(memory: statcache::Memory, key: Seq<u8>, from: int)
    requires
        0 <= from <= key.len(),
        memory.well_formed(),
        forall|cut: int|
            from <= cut < key.len() && key[cut] == SLASH ==> (#[trigger] memory.fact(
                key.subrange(0, cut),
            )) == Some((PathFact::Present { is_dir: true, is_symlink: false })),
    ensures
        scan(memory, key, from).0 is Directories,
    decreases key.len() - from,
{
    let rest = key.subrange(from, key.len() as int);
    bytes::lemma_first_of(rest, SLASH);
    let cut = next_cut(key, from);
    if from <= cut < key.len() {
        assert(rest[cut - from] == key[cut]);
        let prefix = key.subrange(0, cut);
        let after = memory.recalling(prefix);
        statcache::lemma_touched(memory.entries, prefix);
        assert forall|later: int| cut + 1 <= later < key.len() && key[later] == SLASH implies (
        #[trigger] after.fact(key.subrange(0, later))) == Some(
            (PathFact::Present { is_dir: true, is_symlink: false }),
        ) by {
            assert(memory.fact(key.subrange(0, later)) == after.fact(key.subrange(0, later)));
        }
        lemma_scan_directories(after, key, cut + 1);
    }
}

// ── Outcomes of whole walks ─────────────────────────────────────────────
//
// A path is given here by its names below the names of the workspace root, and
// stands for the host path in which a separator comes before each of them.

/// The host path of the names `xs` below the root made of `rs`.
pub open spec fn host(rs: Seq<Seq<u8>>, xs: Seq<Seq<u8>>) -> Seq<u8> {
    pathmap::rooted(rs + xs)
}

/// Whether the graph holds a directory at a host path.
pub open spec fn directory_at(graph: Graph, path: Seq<u8>) -> bool {
    (graph.stat)(path) matches StatProbe::Present { stat, .. } && stat.is_dir && !stat.is_symlink
}

/// Whether everything between the root and the last of the names `xs` is a
/// directory.
pub open spec fn directories_above(graph: Graph, rs: Seq<Seq<u8>>, xs: Seq<Seq<u8>>) -> bool {
    forall|n: int| 0 < n < xs.len() ==> directory_at(graph, #[trigger] host(rs, xs.take(n)))
}

/// Whether the graph holds a link to `target` at a host path.
pub open spec fn link_at(graph: Graph, path: Seq<u8>, target: Seq<u8>) -> bool {
    &&& (graph.stat)(path) matches StatProbe::Present { stat, .. } && stat.is_symlink
    &&& (graph.link)(path) == Some(target)
}

/// What is told of a place that is no link, where everything above it is a
/// directory.
pub open spec fn told_of(graph: Graph, path: Seq<u8>) -> Outcome {
    match (graph.stat)(path) {
        StatProbe::Present { stat, .. } => Ok((path, stat)),
        StatProbe::Absent { .. } => Err(GraphPathError::MissingFinal),
        StatProbe::Unavailable => Err(GraphPathError::Authority),
    }
}

/// Whether there is no link at a host path.
pub open spec fn no_link_at(graph: Graph, path: Seq<u8>) -> bool {
    (graph.stat)(path) matches StatProbe::Present { stat, .. } ==> !stat.is_symlink
}

proof fn lemma_follow_directories(
    graph: Graph,
    rs: Seq<Seq<u8>>,
    done: Seq<Seq<u8>>,
    pending: Seq<Seq<u8>>,
    followed: int,
)
    requires
        rs.len() > 0,
        pathmap::all_names(rs),
        pathmap::all_names(done),
        pathmap::all_names(pending),
        pending.len() > 0,
        directories_above(graph, rs, done + pending),
        no_link_at(graph, host(rs, done + pending)),
        0 <= followed <= MAX_SYMLINKS,
    ensures
        follow(graph, pathmap::rooted(rs), host(rs, done), pending, followed) == told_of(
            graph,
            host(rs, done + pending),
        ),
    decreases pending.len(),
{
    let all = done + pending;
    let c = pending[0];
    let rest = pending.drop_first();
    assert(pathmap::is_name(c));
    let so_far = rs + done;
    assert forall|i: int| 0 <= i < so_far.len() implies pathmap::is_name(#[trigger] so_far[i]) by {
        if i < rs.len() {
            assert(so_far[i] == rs[i]);
        } else {
            assert(so_far[i] == done[i - rs.len()]);
        }
    }
    pathmap::lemma_joined_name(so_far, c);
    assert(so_far.push(c) =~= rs + done.push(c));
    assert(pathmap::joined_at(host(rs, done), c) == host(rs, done.push(c)));
    if rest.len() == 0 {
        assert(done.push(c) =~= all);
    } else {
        let n = done.len() as int + 1;
        assert(all.take(n) =~= done.push(c));
        assert(directory_at(graph, host(rs, all.take(n))));
        assert(done.push(c) + rest =~= all);
        assert forall|i: int| 0 <= i < rest.len() implies pathmap::is_name(#[trigger] rest[i]) by {
            assert(rest[i] == pending[i + 1]);
        }
        let further = done.push(c);
        assert forall|i: int| 0 <= i < further.len() implies pathmap::is_name(
            #[trigger] further[i],
        ) by {
            if i < done.len() {
                assert(further[i] == done[i]);
            }
        }
        lemma_follow_directories(graph, rs, further, rest, followed);
    }
}

/// Following `ds` down to a link in that directory, and then on from there.
proof fn lemma_follow_to_link(
    graph: Graph,
    rs: Seq<Seq<u8>>,
    done: Seq<Seq<u8>>,
    ds: Seq<Seq<u8>>,
    l: Seq<u8>,
    ms: Seq<Seq<u8>>,
    target: Seq<u8>,
    leads: Seq<Seq<u8>>,
    followed: int,
)
    requires
        rs.len() > 0,
        pathmap::all_names(rs),
        pathmap::all_names(done),
        pathmap::all_names(ds),
        pathmap::is_name(l),
        directories_above(graph, rs, (done + ds).push(l)),
        link_at(graph, host(rs, (done + ds).push(l)), target),
        link_key(pathmap::rooted(rs), host(rs, done + ds), target) == Ok::<
            Seq<u8>,
            GraphPathError,
        >(pathmap::join(leads)),
        pathmap::all_names(leads),
        leads.len() > 0,
        0 <= followed < MAX_SYMLINKS,
    ensures
        follow(
            graph,
            pathmap::rooted(rs),
            host(rs, done),
            ds.push(l) + ms,
            followed,
        ) == follow(
            graph,
            pathmap::rooted(rs),
            pathmap::rooted(rs),
            leads + ms,
            followed + 1,
        ),
    decreases ds.len(),
{
    let pending = ds.push(l) + ms;
    let c = pending[0];
    let so_far = rs + done;
    assert forall|i: int| 0 <= i < so_far.len() implies pathmap::is_name(#[trigger] so_far[i]) by {
        if i < rs.len() {
            assert(so_far[i] == rs[i]);
        } else {
            assert(so_far[i] == done[i - rs.len()]);
        }
    }
    if ds.len() == 0 {
        assert(c == l);
        assert(done + ds =~= done);
        pathmap::lemma_joined_name(so_far, l);
        assert(so_far.push(l) =~= rs + done.push(l));
        assert(pending.drop_first() =~= ms);
        lemma_join_names(leads);
        assert(vfs_path::key_components(pathmap::join(leads)) == leads);
    } else {
        assert(c == ds[0]);
        assert(pathmap::is_name(c));
        pathmap::lemma_joined_name(so_far, c);
        assert(so_far.push(c) =~= rs + done.push(c));
        let all = (done + ds).push(l);
        let n = done.len() as int + 1;
        assert(all.take(n) =~= done.push(c));
        assert(directory_at(graph, host(rs, all.take(n))));
        let rest = ds.drop_first();
        assert(pending.drop_first() =~= rest.push(l) + ms);
        assert(done.push(c) + rest =~= done + ds);
        let further = done.push(c);
        assert forall|i: int| 0 <= i < further.len() implies pathmap::is_name(
            #[trigger] further[i],
        ) by {
            if i < done.len() {
                assert(further[i] == done[i]);
            }
        }
        assert forall|i: int| 0 <= i < rest.len() implies pathmap::is_name(#[trigger] rest[i]) by {
            assert(rest[i] == ds[i + 1]);
        }
        lemma_follow_to_link(graph, rs, further, rest, l, ms, target, leads, followed);
        assert(pending.drop_first().len() > 0);
    }
}

/// The key made of names, and its components.
proof fn lemma_join_names(names: Seq<Seq<u8>>)
    requires
        pathmap::all_names(names),
        names.len() > 0,
    ensures
        vfs_path::key_components(pathmap::join(names)) == names,
        vfs_path::is_key(pathmap::join(names)),
        pathmap::join(names).len() > 0,
{
    assert forall|i: int| 0 <= i < names.len() implies !(#[trigger] names[i]).contains(SLASH) by {
        assert(pathmap::is_name(names[i]));
    }
    assert(pathmap::is_name(names[0]));
    pathmap::lemma_split_join(names);
    pathmap::lemma_join_first(names);
}

/// The names of `a` and `b` are names.
proof fn lemma_names_append(a: Seq<Seq<u8>>, b: Seq<Seq<u8>>)
    requires
        pathmap::all_names(a),
        pathmap::all_names(b),
    ensures
        pathmap::all_names(a + b),
{
    let all = a + b;
    assert forall|i: int| 0 <= i < all.len() implies pathmap::is_name(#[trigger] all[i]) by {
        if i < a.len() {
            assert(all[i] == a[i]);
        } else {
            assert(all[i] == b[i - a.len()]);
        }
    }
}

proof fn lemma_names_take(a: Seq<Seq<u8>>, n: int)
    requires
        pathmap::all_names(a),
        0 <= n <= a.len(),
    ensures
        pathmap::all_names(a.take(n)),
{
    let some = a.take(n);
    assert forall|i: int| 0 <= i < some.len() implies pathmap::is_name(#[trigger] some[i]) by {
        assert(some[i] == a[i]);
    }
}

/// What comes of an absent path in which a link stands.
proof fn lemma_classified_at_link(
    graph: Graph,
    rs: Seq<Seq<u8>>,
    xs: Seq<Seq<u8>>,
    at: int,
    k: int,
)
    requires
        rs.len() > 0,
        pathmap::all_names(rs),
        pathmap::all_names(xs),
        0 <= at < k < xs.len(),
        forall|n: int| at < n < k ==> directory_at(graph, #[trigger] host(rs, xs.take(n))),
        (graph.stat)(host(rs, xs.take(k))) matches StatProbe::Present { stat, .. }
            && stat.is_symlink,
    ensures
        classified(graph, pathmap::rooted(rs), pathmap::join(xs), start_of(xs, at)) == follow(
            graph,
            pathmap::rooted(rs),
            pathmap::rooted(rs),
            xs,
            0,
        ),
    decreases k - at,
{
    lemma_cut(rs, xs, at);
    lemma_join_names(xs);
    if at + 1 < k {
        assert(directory_at(graph, host(rs, xs.take(at + 1))));
        lemma_classified_at_link(graph, rs, xs, at + 1, k);
    }
}

/// Where the name at `at` begins in a key.
pub open spec fn start_of(xs: Seq<Seq<u8>>, at: int) -> int {
    if at == 0 {
        0
    } else {
        pathmap::join(xs.take(at)).len() as int + 1
    }
}

/// The name at `at`, which is not the last, ends before the next separator, and
/// what stands before that separator is the path of the names so far.
proof fn lemma_cut(rs: Seq<Seq<u8>>, xs: Seq<Seq<u8>>, at: int)
    requires
        rs.len() > 0,
        pathmap::all_names(rs),
        pathmap::all_names(xs),
        0 <= at < xs.len(),
    ensures
        0 <= start_of(xs, at) <= pathmap::join(xs).len(),
        at + 1 < xs.len() ==> {
            let cut = next_cut(pathmap::join(xs), start_of(xs, at));
            &&& start_of(xs, at) <= cut < pathmap::join(xs).len()
            &&& cut + 1 == start_of(xs, at + 1)
            &&& pathmap::joined_at(
                pathmap::rooted(rs),
                pathmap::join(xs).subrange(0, cut),
            ) == host(rs, xs.take(at + 1))
        },
        at + 1 == xs.len() ==> next_cut(pathmap::join(xs), start_of(xs, at)) == pathmap::join(
            xs,
        ).len(),
{
    let key = pathmap::join(xs);
    let from = start_of(xs, at);
    let rest = key.subrange(from, key.len() as int);
    let here = xs.take(at + 1);
    lemma_join_take(xs, at + 1);
    lemma_names_take(xs, at + 1);
    assert(pathmap::is_name(xs[at]));
    assert(here.last() == xs[at]);
    assert(here.drop_last() =~= xs.take(at));
    let upto = pathmap::join(here);
    if at > 0 {
        lemma_join_take(xs, at);
        assert(upto == pathmap::join(xs.take(at)) + seq![SLASH] + xs[at]);
    } else {
        assert(here =~= seq![xs[0]]);
    }
    assert(upto.len() == from + xs[at].len());
    assert(upto.subrange(from, upto.len() as int) =~= xs[at]);
    assert forall|i: int| 0 <= i < xs[at].len() implies rest[i] != SLASH by {
        assert(upto[from + i] == xs[at][i]);
        assert(key[from + i] == upto[from + i]);
        assert(xs[at].contains(xs[at][i]));
    }
    if at + 1 < xs.len() {
        assert(key[upto.len() as int] == SLASH);
        assert(rest[xs[at].len() as int] == key[upto.len() as int]);
        bytes::lemma_first_of_is(rest, SLASH, xs[at].len() as int);
        assert(key.subrange(0, upto.len() as int) =~= upto);
        pathmap::lemma_joined_names(rs, here);
    } else {
        assert(here =~= xs);
        bytes::lemma_first_of_is(rest, SLASH, rest.len() as int);
    }
}

/// The join of the first names of a path is what the whole join begins with.
proof fn lemma_join_take(xs: Seq<Seq<u8>>, n: int)
    requires
        0 < n <= xs.len(),
    ensures
        pathmap::join(xs.take(n)).len() <= pathmap::join(xs).len(),
        pathmap::join(xs.take(n)) == pathmap::join(xs).subrange(
            0,
            pathmap::join(xs.take(n)).len() as int,
        ),
        n < xs.len() ==> pathmap::join(xs.take(n)).len() < pathmap::join(xs).len()
            && pathmap::join(xs)[pathmap::join(xs.take(n)).len() as int] == SLASH,
    decreases xs.len() - n,
{
    if n == xs.len() {
        assert(xs.take(n) =~= xs);
        assert(pathmap::join(xs) =~= pathmap::join(xs).subrange(
            0,
            pathmap::join(xs).len() as int,
        ));
    } else {
        let more = xs.take(n + 1);
        lemma_join_take(xs, n + 1);
        assert(more.drop_last() =~= xs.take(n));
        assert(more.last() == xs[n]);
        let a = pathmap::join(xs.take(n));
        let b = pathmap::join(more);
        let c = pathmap::join(xs);
        assert(b == a + seq![SLASH] + xs[n]);
        assert(b.subrange(0, a.len() as int) =~= a);
        assert(c.subrange(0, a.len() as int) =~= b.subrange(0, a.len() as int)) by {
            assert forall|i: int| 0 <= i < a.len() implies c[i] == b[i] by {
                assert(b[i] == c.subrange(0, b.len() as int)[i]);
            }
        }
        assert(c[a.len() as int] == b[a.len() as int]) by {
            assert(b[a.len() as int] == c.subrange(0, b.len() as int)[a.len() as int]);
        }
    }
}

/// Where a link whose target is made of `..`s and then of names leads.
proof fn lemma_link_key(
    rs: Seq<Seq<u8>>,
    ds: Seq<Seq<u8>>,
    ups: nat,
    ts: Seq<Seq<u8>>,
)
    requires
        rs.len() > 0,
        ts.len() > 0,
        pathmap::all_names(rs),
        pathmap::all_names(ds),
        pathmap::all_names(ts),
        ups <= ds.len(),
    ensures
        ({
            let target = pathmap::join(Seq::new(ups, |i: int| pathmap::dot_dot()) + ts);
            link_key(pathmap::rooted(rs), host(rs, ds), target) == Ok::<Seq<u8>, GraphPathError>(
                pathmap::join(ds.take(ds.len() - ups) + ts),
            )
        }),
{
    let above = Seq::new(ups, |i: int| pathmap::dot_dot());
    let parts = above + ts;
    let target = pathmap::join(parts);
    let all = rs + ds;
    let root = pathmap::rooted(rs);
    let here = pathmap::rooted(all);
    lemma_names_append(rs, ds);
    pathmap::lemma_rooted_ends(all);
    pathmap::lemma_rooted_ends(rs);
    assert(pathmap::dot_dot().len() == 2);
    assert(!pathmap::dot_dot().contains(SLASH) && !pathmap::dot_dot().contains(0));
    assert forall|i: int| 0 <= i < parts.len() implies !(#[trigger] parts[i]).contains(SLASH)
        && !parts[i].contains(0) && parts[i].len() > 0 by {
        if i >= ups {
            assert(parts[i] == ts[i - ups]);
            assert(pathmap::is_name(ts[i - ups]));
        }
    }
    pathmap::lemma_join_first(parts);
    pathmap::lemma_join_without(parts, 0);
    let joined = here + seq![SLASH] + target;
    assert(pathmap::joined_at(here, target) == joined);
    assert(pathmap::absolute(joined)) by {
        assert(joined[0] == here[0]);
    }
    pathmap::lemma_split_at(here, target, SLASH);
    pathmap::lemma_split_join(parts);
    let empty = Seq::<u8>::empty();
    pathmap::lemma_split_rooted(all);
    assert(bytes::split(joined, SLASH) == (seq![empty] + all) + parts);
    assert((seq![empty] + all) + parts =~= seq![empty] + (all + parts));
    pathmap::lemma_contained_leading(all + parts);
    pathmap::lemma_contained_ups(all, ups);
    pathmap::lemma_contained_names(all + above, ts);
    assert(all + parts =~= (all + above) + ts);
    let place = ds.take(ds.len() - ups) + ts;
    assert(all.take(all.len() - ups) + ts =~= rs + place);
    assert(pathmap::graph_normal(joined) == Some(pathmap::rooted(rs + place)));
    lemma_names_take(ds, ds.len() - ups);
    lemma_names_append(ds.take(ds.len() - ups), ts);
    pathmap::lemma_joined_names(rs, place);
    lemma_join_names(place);
    vfs_path::law_key_round_trips_through_the_host(root, pathmap::join(place));
}

/// A link is taken from the directory that holds it: one whose target is made of
/// as many `..`s as there are directories to leave, and then of names, leads to
/// those names below the directory that is left. What comes behind the link in
/// the path comes behind them. So a link to a single name leads to the entry of
/// that name beside it.
pub proof fn law_a_link_is_taken_from_its_directory(
    graph: Graph,
    rs: Seq<Seq<u8>>,
    ds: Seq<Seq<u8>>,
    l: Seq<u8>,
    ms: Seq<Seq<u8>>,
    ups: nat,
    ts: Seq<Seq<u8>>,
    memory: statcache::Memory,
) -> (rounds: nat)
    requires
        rs.len() > 0,
        pathmap::all_names(rs),
        pathmap::all_names(ds),
        pathmap::is_name(l),
        pathmap::all_names(ms),
        ups <= ds.len(),
        ts.len() > 0,
        pathmap::all_names(ts),
        directories_above(graph, rs, ds.push(l)),
        link_at(
            graph,
            host(rs, ds.push(l)),
            pathmap::join(Seq::new(ups, |i: int| pathmap::dot_dot()) + ts),
        ),
        ms.len() > 0 ==> (graph.stat)(host(rs, ds.push(l) + ms)) is Absent,
        directories_above(graph, rs, ds.take(ds.len() - ups) + ts + ms),
        no_link_at(graph, host(rs, ds.take(ds.len() - ups) + ts + ms)),
        memory.well_formed(),
        truthful(memory, graph, pathmap::rooted(rs)),
    ensures
        run(
            graph,
            starting(pathmap::rooted(rs), pathmap::join(ds.push(l) + ms)),
            memory,
            rounds,
        ) == Some(told_of(graph, host(rs, ds.take(ds.len() - ups) + ts + ms))),
{
    let left = ds.take(ds.len() - ups);
    lemma_names_take(ds, ds.len() - ups);
    lemma_names_append(left, ts);
    lemma_link_key(rs, ds, ups, ts);
    lemma_linked(
        graph,
        rs,
        ds,
        l,
        ms,
        pathmap::join(Seq::new(ups, |i: int| pathmap::dot_dot()) + ts),
        left + ts,
        memory,
    )
}

/// A link whose target is absolute leads to that place in the workspace, wherever
/// the link stands.
pub proof fn law_an_absolute_link_leads_below_the_root(
    graph: Graph,
    rs: Seq<Seq<u8>>,
    ds: Seq<Seq<u8>>,
    l: Seq<u8>,
    ms: Seq<Seq<u8>>,
    ts: Seq<Seq<u8>>,
    memory: statcache::Memory,
) -> (rounds: nat)
    requires
        rs.len() > 0,
        pathmap::all_names(rs),
        pathmap::all_names(ds),
        pathmap::is_name(l),
        pathmap::all_names(ms),
        ts.len() > 0,
        pathmap::all_names(ts),
        directories_above(graph, rs, ds.push(l)),
        link_at(graph, host(rs, ds.push(l)), host(rs, ts)),
        ms.len() > 0 ==> (graph.stat)(host(rs, ds.push(l) + ms)) is Absent,
        directories_above(graph, rs, ts + ms),
        no_link_at(graph, host(rs, ts + ms)),
        memory.well_formed(),
        truthful(memory, graph, pathmap::rooted(rs)),
    ensures
        run(
            graph,
            starting(pathmap::rooted(rs), pathmap::join(ds.push(l) + ms)),
            memory,
            rounds,
        ) == Some(told_of(graph, host(rs, ts + ms))),
{
    let target = host(rs, ts);
    lemma_names_append(rs, ts);
    lemma_absolute_normal(rs + ts);
    pathmap::lemma_rooted_ends(rs);
    pathmap::lemma_joined_names(rs, ts);
    lemma_join_names(ts);
    vfs_path::law_key_round_trips_through_the_host(pathmap::rooted(rs), pathmap::join(ts));
    lemma_linked(graph, rs, ds, l, ms, target, ts, memory)
}

/// A path made of names is its own normal form, and holds no NUL.
proof fn lemma_absolute_normal(names: Seq<Seq<u8>>)
    requires
        names.len() > 0,
        pathmap::all_names(names),
    ensures
        pathmap::graph_normal(pathmap::rooted(names)) == Some(pathmap::rooted(names)),
        !pathmap::rooted(names).contains(0),
        pathmap::rooted(names).len() > 0,
{
    pathmap::lemma_rooted_ends(names);
    pathmap::lemma_split_rooted(names);
    pathmap::lemma_contained_leading(names);
    pathmap::lemma_contained_ups(names, 0);
    assert(names + Seq::new(0, |i: int| pathmap::dot_dot()) =~= names);
    assert(names.take(names.len() as int) =~= names);
    pathmap::lemma_rooted(names);
    assert forall|i: int| 0 <= i < names.len() implies !(#[trigger] names[i]).contains(0) by {
        assert(pathmap::is_name(names[i]));
    }
    pathmap::lemma_join_without(names, 0);
    let path = pathmap::rooted(names);
    if path.contains(0) {
        let i = choose|i: int| 0 <= i < path.len() && path[i] == 0;
        assert(i > 0);
        assert(pathmap::join(names)[i - 1] == 0);
    }
}

/// A walk over a link ends where the link leads.
proof fn lemma_linked(
    graph: Graph,
    rs: Seq<Seq<u8>>,
    ds: Seq<Seq<u8>>,
    l: Seq<u8>,
    ms: Seq<Seq<u8>>,
    target: Seq<u8>,
    leads: Seq<Seq<u8>>,
    memory: statcache::Memory,
) -> (rounds: nat)
    requires
        rs.len() > 0,
        pathmap::all_names(rs),
        pathmap::all_names(ds),
        pathmap::is_name(l),
        pathmap::all_names(ms),
        leads.len() > 0,
        pathmap::all_names(leads),
        directories_above(graph, rs, ds.push(l)),
        link_at(graph, host(rs, ds.push(l)), target),
        link_key(pathmap::rooted(rs), host(rs, ds), target) == Ok::<Seq<u8>, GraphPathError>(
            pathmap::join(leads),
        ),
        ms.len() > 0 ==> (graph.stat)(host(rs, ds.push(l) + ms)) is Absent,
        directories_above(graph, rs, leads + ms),
        no_link_at(graph, host(rs, leads + ms)),
        memory.well_formed(),
        truthful(memory, graph, pathmap::rooted(rs)),
    ensures
        run(
            graph,
            starting(pathmap::rooted(rs), pathmap::join(ds.push(l) + ms)),
            memory,
            rounds,
        ) == Some(told_of(graph, host(rs, leads + ms))),
{
    let root = pathmap::rooted(rs);
    let xs = ds.push(l) + ms;
    let key = pathmap::join(xs);
    let none = Seq::<Seq<u8>>::empty();
    assert(none + ds =~= ds);
    assert(rs + none =~= rs);
    assert(seq![l] =~= Seq::<Seq<u8>>::empty().push(l));
    assert(ds.push(l) =~= ds + seq![l]);
    lemma_names_append(ds, seq![l]);
    lemma_names_append(ds.push(l), ms);
    lemma_names_append(leads, ms);
    lemma_join_names(xs);
    pathmap::lemma_joined_names(rs, xs);
    lemma_follow_to_link(graph, rs, none, ds, l, ms, target, leads, 0);
    lemma_follow_directories(graph, rs, none, leads + ms, 1);
    assert(none + (leads + ms) =~= leads + ms);
    assert(follow(graph, root, root, xs, 0) == told_of(graph, host(rs, leads + ms)));
    if ms.len() == 0 {
        assert(xs =~= ds.push(l));
    } else {
        let k = ds.len() as int + 1;
        assert(xs.take(k) =~= ds.push(l));
        assert forall|n: int| 0 < n < k implies directory_at(
            graph,
            #[trigger] host(rs, xs.take(n)),
        ) by {
            assert(xs.take(n) =~= ds.push(l).take(n));
            assert(directory_at(graph, host(rs, ds.push(l).take(n))));
        }
        lemma_classified_at_link(graph, rs, xs, 0, k);
    }
    assert(resolved(graph, root, key) == told_of(graph, host(rs, leads + ms)));
    law_a_walk_finds_what_the_path_resolves_to(graph, root, key, memory)
}

/// A link that leads out of the workspace resolves to nothing in it, one that is
/// empty or holds a NUL is no link, and neither is ever taken from raw disk.
pub proof fn law_a_link_never_leaves_the_workspace(
    graph: Graph,
    rs: Seq<Seq<u8>>,
    l: Seq<u8>,
    target: Seq<u8>,
    os: Seq<Seq<u8>>,
    memory: statcache::Memory,
) -> (rounds: nat)
    requires
        rs.len() > 0,
        pathmap::all_names(rs),
        pathmap::is_name(l),
        pathmap::all_names(os),
        os.len() > 0,
        link_at(graph, host(rs, seq![l]), target),
        memory.well_formed(),
        truthful(memory, graph, pathmap::rooted(rs)),
    ensures
        target == pathmap::rooted(os) && !rs.is_prefix_of(os) ==> run(
            graph,
            starting(pathmap::rooted(rs), l),
            memory,
            rounds,
        ) == Some(Err::<(Seq<u8>, VirtualStat), GraphPathError>(GraphPathError::OutsideWorkspace)),
        target.len() == 0 || target.contains(0) ==> run(
            graph,
            starting(pathmap::rooted(rs), l),
            memory,
            rounds,
        ) == Some(Err::<(Seq<u8>, VirtualStat), GraphPathError>(GraphPathError::InvalidSymlink)),
{
    let root = pathmap::rooted(rs);
    let one = seq![l];
    assert(pathmap::join(one) == l);
    lemma_join_names(one);
    pathmap::lemma_joined_names(rs, one);
    pathmap::lemma_joined_name(rs, l);
    lemma_absolute_normal(os);
    pathmap::lemma_rooted_ends(os);
    pathmap::law_containment_is_by_whole_names(os, rs);
    assert(vfs_path::key_components(l) == one);
    assert(one[0] == l);
    law_a_walk_finds_what_the_path_resolves_to(graph, root, l, memory)
}

/// A chain of links in one directory: each leads to the next by its name, and
/// forty are followed; one more is a loop.
pub proof fn law_forty_links_are_followed(
    graph: Graph,
    rs: Seq<Seq<u8>>,
    chain: Seq<Seq<u8>>,
    memory: statcache::Memory,
) -> (rounds: nat)
    requires
        rs.len() > 0,
        pathmap::all_names(rs),
        pathmap::all_names(chain),
        chain.len() > 1,
        forall|i: int|
            #![trigger chain[i]]
            0 <= i < chain.len() - 1 ==> link_at(graph, host(rs, seq![chain[i]]), chain[i + 1]),
        no_link_at(graph, host(rs, seq![chain.last()])),
        memory.well_formed(),
        truthful(memory, graph, pathmap::rooted(rs)),
    ensures
        run(graph, starting(pathmap::rooted(rs), chain[0]), memory, rounds) == Some(
            if chain.len() - 1 <= 40 {
                told_of(graph, host(rs, seq![chain.last()]))
            } else {
                Err(GraphPathError::SymlinkLoop)
            },
        ),
{
    let root = pathmap::rooted(rs);
    let one = seq![chain[0]];
    assert(pathmap::is_name(chain[0]));
    assert(pathmap::join(one) == chain[0]);
    lemma_join_names(one);
    pathmap::lemma_joined_names(rs, one);
    lemma_chain(graph, rs, chain, 0);
    assert(link_at(graph, host(rs, seq![chain[0]]), chain[1]));
    law_a_walk_finds_what_the_path_resolves_to(graph, root, chain[0], memory)
}

proof fn lemma_chain(graph: Graph, rs: Seq<Seq<u8>>, chain: Seq<Seq<u8>>, i: int)
    requires
        rs.len() > 0,
        pathmap::all_names(rs),
        pathmap::all_names(chain),
        0 <= i < chain.len(),
        i <= MAX_SYMLINKS,
        forall|i: int|
            #![trigger chain[i]]
            0 <= i < chain.len() - 1 ==> link_at(graph, host(rs, seq![chain[i]]), chain[i + 1]),
        no_link_at(graph, host(rs, seq![chain.last()])),
    ensures
        follow(graph, pathmap::rooted(rs), pathmap::rooted(rs), seq![chain[i]], i) == if chain.len()
            - 1 <= MAX_SYMLINKS {
            told_of(graph, host(rs, seq![chain.last()]))
        } else {
            Err(GraphPathError::SymlinkLoop)
        },
    decreases chain.len() - i,
{
    let root = pathmap::rooted(rs);
    let pending = seq![chain[i]];
    assert(pathmap::is_name(chain[i]));
    pathmap::lemma_joined_name(rs, chain[i]);
    assert(rs.push(chain[i]) =~= rs + seq![chain[i]]);
    assert(pending.drop_first() =~= Seq::<Seq<u8>>::empty());
    assert(pending[0] == chain[i]);
    if i < chain.len() - 1 {
        assert(link_at(graph, host(rs, seq![chain[i]]), chain[i + 1]));
        if i < MAX_SYMLINKS {
            let none = Seq::<Seq<u8>>::empty();
            let ts = seq![chain[i + 1]];
            assert(pathmap::is_name(chain[i + 1]));
            lemma_link_key(rs, none, 0, ts);
            assert(Seq::new(0, |i: int| pathmap::dot_dot()) + ts =~= ts);
            assert(none.take(0) + ts =~= ts);
            assert(rs + none =~= rs);
            assert(pathmap::join(ts) == chain[i + 1]);
            lemma_join_names(ts);
            assert(ts + none =~= ts);
            lemma_chain(graph, rs, chain, i + 1);
        }
    } else {
        assert(chain[i] == chain.last());
    }
}

/// What is missing is told apart: where everything above is a directory, the
/// last name is missing; where a name above is missing, the prefix is; and
/// where one above is neither directory nor link, it is no directory.
pub proof fn law_what_is_missing_is_told_apart(
    graph: Graph,
    rs: Seq<Seq<u8>>,
    xs: Seq<Seq<u8>>,
    k: int,
    memory: statcache::Memory,
) -> (rounds: nat)
    requires
        rs.len() > 0,
        pathmap::all_names(rs),
        pathmap::all_names(xs),
        0 < k <= xs.len(),
        (graph.stat)(host(rs, xs)) is Absent,
        forall|n: int| 0 < n < k ==> directory_at(graph, #[trigger] host(rs, xs.take(n))),
        k < xs.len() ==> no_link_at(graph, host(rs, xs.take(k))) && !directory_at(
            graph,
            host(rs, xs.take(k)),
        ),
        memory.well_formed(),
        truthful(memory, graph, pathmap::rooted(rs)),
    ensures
        run(graph, starting(pathmap::rooted(rs), pathmap::join(xs)), memory, rounds) == Some(
            Err::<(Seq<u8>, VirtualStat), GraphPathError>(
                if k == xs.len() {
                    GraphPathError::MissingFinal
                } else {
                    match (graph.stat)(host(rs, xs.take(k))) {
                        StatProbe::Absent { .. } => GraphPathError::MissingPrefix,
                        StatProbe::Present { .. } => GraphPathError::NotDirectory,
                        StatProbe::Unavailable => GraphPathError::Authority,
                    }
                },
            ),
        ),
{
    let root = pathmap::rooted(rs);
    lemma_join_names(xs);
    pathmap::lemma_joined_names(rs, xs);
    lemma_classified_missing(graph, rs, xs, 0, k);
    law_a_walk_finds_what_the_path_resolves_to(graph, root, pathmap::join(xs), memory)
}

proof fn lemma_classified_missing(
    graph: Graph,
    rs: Seq<Seq<u8>>,
    xs: Seq<Seq<u8>>,
    at: int,
    k: int,
)
    requires
        rs.len() > 0,
        pathmap::all_names(rs),
        pathmap::all_names(xs),
        0 <= at < k <= xs.len(),
        forall|n: int| at < n < k ==> directory_at(graph, #[trigger] host(rs, xs.take(n))),
        k < xs.len() ==> no_link_at(graph, host(rs, xs.take(k))) && !directory_at(
            graph,
            host(rs, xs.take(k)),
        ),
    ensures
        classified(graph, pathmap::rooted(rs), pathmap::join(xs), start_of(xs, at)) == Err::<
            (Seq<u8>, VirtualStat),
            GraphPathError,
        >(
            if k == xs.len() {
                GraphPathError::MissingFinal
            } else {
                match (graph.stat)(host(rs, xs.take(k))) {
                    StatProbe::Absent { .. } => GraphPathError::MissingPrefix,
                    StatProbe::Present { .. } => GraphPathError::NotDirectory,
                    StatProbe::Unavailable => GraphPathError::Authority,
                }
            },
        ),
    decreases k - at,
{
    lemma_cut(rs, xs, at);
    if at + 1 < k {
        assert(directory_at(graph, host(rs, xs.take(at + 1))));
        lemma_classified_missing(graph, rs, xs, at + 1, k);
    }
}

/// What a walk says it asks is the question it stands at, and a walk that says
/// it is done asks nothing more.
pub proof fn law_a_walk_asks_the_question_it_stands_at(
    walk: Walk,
    memory: statcache::Memory,
    answer: Answer,
)
    ensures
        next(walk, memory, answer).2 matches Progress::Ask(asked) ==> asked == question(
            next(walk, memory, answer).0,
        ) && !(next(walk, memory, answer).0.stage is Finished),
        next(walk, memory, answer).2 is Done ==> next(walk, memory, answer).0.stage is Finished,
        next(walk, memory, answer).0.root == walk.root,
        next(walk, memory, answer).0.key == walk.key,
{
}

} // verus!

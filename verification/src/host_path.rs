//! From an intercepted path argument to absolute host bytes.
//!
//! Containment in the workspace is decided on absolute bytes, so a relative
//! argument is joined to its directory first. Parent traversal is the dangerous
//! case: the kernel resolves symlinks before it applies a later `..`, while raw
//! disk must never answer for a graph-owned path. A leading relative parent is
//! exact against a resolved directory. A parent after a normal component is
//! ambiguous, and is refused wherever a graph-owned destination is reachable.

use vstd::prelude::*;

use crate::bytes;
use crate::bytes::{rfind_byte, split_bytes, sub_vec, to_vec, SLASH};
use crate::pathmap;
use crate::pathmap::{
    is_absolute, is_interpose_temp_artifact, join_at_path, noise, normalize_kernel_path, parent_dir,
    path_within_root,
};
use crate::fd_table::FdTable;
use crate::sys::{AT_FDCWD, EBADF, EIO, ENOENT, ENOTDIR, S_IFDIR, S_IFMT};

verus! {

/// What an intercepted path argument stands for.
#[derive(Debug)]
pub enum HostPathResolution {
    /// The absolute spelling to classify against graph authority.
    Resolved(Vec<u8>),
    /// The kernel must answer this path.
    Passthrough,
    /// The path may name graph-owned bytes but cannot be mapped without asking
    /// the host filesystem.
    Refused,
    /// The descriptor that the path is relative to is invalid.
    InvalidDescriptor,
}

/// What a path argument stands for, over byte sequences.
pub enum Resolution {
    Resolved(Seq<u8>),
    Passthrough,
    Refused,
    InvalidDescriptor,
}

impl View for HostPathResolution {
    type V = Resolution;

    open spec fn view(&self) -> Resolution {
        match self {
            HostPathResolution::Resolved(p) => Resolution::Resolved(p@),
            HostPathResolution::Passthrough => Resolution::Passthrough,
            HostPathResolution::Refused => Resolution::Refused,
            HostPathResolution::InvalidDescriptor => Resolution::InvalidDescriptor,
        }
    }
}

/// Whether graph authority owns a path: it lies in the workspace and is no
/// materialization temporary. Without a workspace nothing is owned.
pub open spec fn owned(path: Seq<u8>, root: Option<Seq<u8>>) -> bool {
    match root {
        Some(r) => !bytes::occurs(path, pathmap::temp_marker()) && pathmap::within_root(path, r),
        None => false,
    }
}

/// An optional slice, as an optional sequence.
pub open spec fn opt_slice(s: Option<&[u8]>) -> Option<Seq<u8>> {
    match s {
        Some(b) => Some(b@),
        None => None,
    }
}

/// Whether an absolute path lies in the workspace. Materialization temporaries
/// do not: writing one must not re-enter interception.
pub fn is_workspace_path(path: &[u8], root: Option<&[u8]>) -> (r: bool)
    ensures
        r == owned(path@, opt_slice(root)),
{
    match root {
        Some(root) => !is_interpose_temp_artifact(path) && path_within_root(path, root),
        None => false,
    }
}

/// The errno with which an unusable path argument fails.
pub open spec fn error_number(resolution: Resolution) -> Option<i32> {
    match resolution {
        Resolution::Refused => Some(EIO),
        Resolution::InvalidDescriptor => Some(EBADF),
        _ => None,
    }
}

/// The errno with which an unusable path argument fails.
pub fn host_path_error_errno(resolution: &HostPathResolution) -> (r: Option<i32>)
    ensures
        r == error_number(resolution@),
        r == match resolution@ {
            Resolution::Refused => Some(EIO),
            Resolution::InvalidDescriptor => Some(EBADF),
            _ => None,
        },
{
    match resolution {
        HostPathResolution::Refused => Some(EIO),
        HostPathResolution::InvalidDescriptor => Some(EBADF),
        HostPathResolution::Resolved(_) | HostPathResolution::Passthrough => None,
    }
}

/// Whether `..` occurs among the components of a path.
pub open spec fn has_parent(path: Seq<u8>) -> bool {
    bytes::split(path, SLASH).contains(pathmap::dot_dot())
}

/// Whether every `..` comes before every component that names an entry.
pub open spec fn parents_lead(path: Seq<u8>) -> bool {
    let cs = bytes::split(path, SLASH);
    forall|i: int, j: int|
        0 <= i < j < cs.len() && !pathmap::is_noise(#[trigger] cs[i]) && cs[i] != pathmap::dot_dot()
            ==> #[trigger] cs[j] != pathmap::dot_dot()
}

/// How far a path argument is settled without the kernel.
pub enum Start {
    /// All the way.
    Settled(Resolution),
    /// The kernel has to say where this absolute path leads.
    Ambiguous(Seq<u8>),
}

/// Settles `path`, relative to `base`, as far as its spelling allows.
pub open spec fn begin(path: Seq<u8>, base: Option<Seq<u8>>, root: Option<Seq<u8>>) -> Start {
    if !pathmap::absolute(path) && base is None {
        Start::Settled(Resolution::Refused)
    } else {
        let joined = if pathmap::absolute(path) {
            path
        } else {
            pathmap::joined_at(base->0, path)
        };
        let normal = pathmap::kernel_normal(joined);
        if !has_parent(joined) {
            Start::Settled(Resolution::Resolved(joined))
        } else if !pathmap::absolute(path) && parents_lead(path) {
            Start::Settled(
                match normal {
                    Some(n) => Resolution::Resolved(n),
                    None => Resolution::Refused,
                },
            )
        } else if (normal is Some && owned(normal->0, root)) || (base is Some && owned(
            base->0,
            root,
        )) {
            Start::Settled(Resolution::Refused)
        } else {
            Start::Ambiguous(joined)
        }
    }
}

/// Whether `..` occurs among `parts`.
fn any_parent(parts: &Vec<Vec<u8>>) -> (r: bool)
    ensures
        r == bytes::views(parts@).contains(pathmap::dot_dot()),
{
    let mut i: usize = 0;
    while i < parts.len()
        invariant
            0 <= i <= parts@.len(),
            forall|j: int| 0 <= j < i ==> bytes::views(parts@)[j] != pathmap::dot_dot(),
        decreases parts@.len() - i,
    {
        if parent_dir(parts[i].as_slice()) {
            assert(bytes::views(parts@)[i as int] == pathmap::dot_dot());
            return true;
        }
        i = i + 1;
    }
    false
}

/// Whether every `..` of a relative path comes first.
fn leading_parents(path: &[u8]) -> (r: bool)
    ensures
        r == parents_lead(path@),
{
    let parts = split_bytes(path, SLASH);
    let ghost cs = bytes::split(path@, SLASH);
    let mut saw_normal: bool = false;
    let ghost mut normal_at: int = 0;
    let mut i: usize = 0;
    while i < parts.len()
        invariant
            0 <= i <= parts@.len(),
            bytes::views(parts@) == cs,
            cs == bytes::split(path@, SLASH),
            saw_normal ==> 0 <= normal_at < i && !pathmap::is_noise(cs[normal_at]) && cs[normal_at]
                != pathmap::dot_dot(),
            !saw_normal ==> forall|k: int|
                0 <= k < i ==> pathmap::is_noise(#[trigger] cs[k]) || cs[k] == pathmap::dot_dot(),
            forall|a: int, b: int|
                0 <= a < b < i && !pathmap::is_noise(#[trigger] cs[a]) && cs[a]
                    != pathmap::dot_dot() ==> #[trigger] cs[b] != pathmap::dot_dot(),
        decreases parts@.len() - i,
    {
        let c = parts[i].as_slice();
        assert(cs[i as int] == c@);
        if noise(c) {
            assert(c@ != pathmap::dot_dot());
        } else if parent_dir(c) {
            if saw_normal {
                assert(!parents_lead(path@)) by {
                    assert(cs[i as int] == pathmap::dot_dot());
                    assert(!pathmap::is_noise(cs[normal_at]));
                }
                return false;
            }
        } else {
            if !saw_normal {
                proof {
                    normal_at = i as int;
                }
            }
            saw_normal = true;
        }
        i = i + 1;
    }
    true
}

/// What resolving a path argument has come to.
pub enum HostPathStart {
    /// It is settled.
    Settled(HostPathResolution),
    /// The kernel has to be asked: canonicalize `candidate`, and go on with
    /// the walk.
    Ask { walk: KernelWalk, step: KernelStep },
}

/// What a kernel walk needs next.
#[derive(Debug)]
pub enum KernelStep {
    /// The canonical form of this path, or the errno.
    Canonicalize(Vec<u8>),
    /// Whether an entry exists here, a dangling link included.
    CheckEntry(Vec<u8>),
    /// Nothing.
    Settled(HostPathResolution),
}

/// What a kernel walk needs next, over byte sequences.
pub enum Step {
    Canonicalize(Seq<u8>),
    CheckEntry(Seq<u8>),
    Settled(Resolution),
}

impl View for KernelStep {
    type V = Step;

    open spec fn view(&self) -> Step {
        match self {
            KernelStep::Canonicalize(p) => Step::Canonicalize(p@),
            KernelStep::CheckEntry(p) => Step::CheckEntry(p@),
            KernelStep::Settled(r) => Step::Settled(r@),
        }
    }
}

/// Finds where the kernel would arrive.
///
/// The deepest ancestor that the kernel can canonicalize gives exact symlink
/// and `..` resolution; what is below it does not exist, cannot redirect, and
/// is applied lexically. That a path cannot be found does not prove that it is
/// absent: a dangling link fails the same way and still redirects, so each such
/// ancestor is checked for an entry. Anything else leaves the destination
/// unknown, and the path is refused.
#[derive(Debug)]
pub struct KernelWalk {
    joined: Vec<u8>,
    root: Option<Vec<u8>>,
    cut: usize,
}

/// A kernel walk: the path, the workspace, and the separator that was reached.
pub struct Climb {
    pub joined: Seq<u8>,
    pub root: Option<Seq<u8>>,
    pub cut: int,
}

impl View for KernelWalk {
    type V = Climb;

    closed spec fn view(&self) -> Climb {
        Climb {
            joined: self.joined@,
            root: match self.root {
                Some(r) => Some(r@),
                None => None,
            },
            cut: self.cut as int,
        }
    }
}

/// The last separator before `end`, or -1.
pub open spec fn last_slash(path: Seq<u8>, end: int) -> int
    decreases end,
{
    if end <= 0 {
        -1
    } else if path[end - 1] == SLASH {
        end - 1
    } else {
        last_slash(path, end - 1)
    }
}

proof fn lemma_last_slash_is(path: Seq<u8>, end: int, i: int)
    requires
        0 <= end <= path.len(),
        -1 <= i < end || (i == -1 && end == 0),
        i >= 0 ==> path[i] == SLASH,
        forall|j: int| i < j < end && 0 <= j ==> path[j] != SLASH,
    ensures
        last_slash(path, end) == i,
    decreases end,
{
    if end > 0 && path[end - 1] != SLASH {
        lemma_last_slash_is(path, end - 1, i);
    }
}

/// The ancestor that ends at `cut`.
pub open spec fn ancestor(path: Seq<u8>, cut: int) -> Seq<u8> {
    if cut == 0 {
        seq![SLASH]
    } else {
        path.subrange(0, cut)
    }
}

/// What a destination means for the caller: outside every workspace it belongs
/// to the kernel, else it is refused.
pub open spec fn verdict(destination: Option<Seq<u8>>, root: Option<Seq<u8>>) -> Resolution {
    match destination {
        Some(d) => if owned(d, root) {
            Resolution::Refused
        } else {
            Resolution::Passthrough
        },
        None => Resolution::Refused,
    }
}

/// Going on with the next ancestor above `end`.
pub open spec fn climbing(climb: Climb, end: int) -> (Climb, Step) {
    let cut = last_slash(climb.joined, end);
    if cut < 0 {
        (climb, Step::Settled(Resolution::Refused))
    } else {
        (Climb { cut, ..climb }, Step::Canonicalize(ancestor(climb.joined, cut)))
    }
}

/// After the kernel said what the ancestor's canonical form is.
pub open spec fn canonicalized(climb: Climb, answer: Result<Seq<u8>, i32>) -> (Climb, Step) {
    match answer {
        Ok(anchor) => (
            climb,
            Step::Settled(
                verdict(
                    pathmap::kernel_normal(
                        pathmap::joined_at(
                            anchor,
                            climb.joined.subrange(climb.cut + 1, climb.joined.len() as int),
                        ),
                    ),
                    climb.root,
                ),
            ),
        ),
        Err(errno) => (
            climb,
            if errno == ENOENT || errno == ENOTDIR {
                Step::CheckEntry(ancestor(climb.joined, climb.cut))
            } else {
                Step::Settled(Resolution::Refused)
            },
        ),
    }
}

/// After the kernel said whether the ancestor has an entry.
pub open spec fn checked(climb: Climb, exists_there: bool) -> (Climb, Step) {
    if exists_there {
        (climb, Step::Settled(Resolution::Refused))
    } else {
        climbing(climb, climb.cut)
    }
}

/// The optional bytes that a slice holds.
fn copy_slice(s: Option<&[u8]>) -> (r: Option<Vec<u8>>)
    ensures
        pathmap::opt_bytes(r) == opt_slice(s),
{
    match s {
        Some(b) => Some(to_vec(b)),
        None => None,
    }
}

impl KernelWalk {
    /// What holds of a walk at every point.
    pub closed spec fn well_formed(&self) -> bool {
        self.cut < self.joined@.len()
    }

    fn climb(&mut self, end: usize) -> (r: KernelStep)
        requires
            end <= old(self)@.joined.len(),
        ensures
            (final(self)@, r@) == climbing(old(self)@, end as int),
            r@ !is Settled ==> final(self).well_formed(),
    {
        match rfind_byte(self.joined.as_slice(), SLASH, end) {
            None => {
                proof {
                    lemma_last_slash_is(self.joined@, end as int, -1);
                }
                KernelStep::Settled(HostPathResolution::Refused)
            },
            Some(cut) => {
                proof {
                    lemma_last_slash_is(self.joined@, end as int, cut as int);
                }
                self.cut = cut;
                KernelStep::Canonicalize(self.candidate())
            },
        }
    }

    fn candidate(&self) -> (r: Vec<u8>)
        requires
            self.well_formed(),
        ensures
            r@ == ancestor(self@.joined, self@.cut),
    {
        if self.cut == 0 {
            let mut root: Vec<u8> = Vec::new();
            root.push(SLASH);
            assert(root@ =~= seq![SLASH]);
            root
        } else {
            sub_vec(self.joined.as_slice(), 0, self.cut)
        }
    }

    /// Takes the canonical form of the ancestor that was asked about.
    pub fn canonical(&mut self, answer: Result<Vec<u8>, i32>) -> (r: KernelStep)
        requires
            old(self).well_formed(),
        ensures
            final(self).well_formed(),
            (final(self)@, r@) == canonicalized(
                old(self)@,
                match answer {
                    Ok(p) => Ok(p@),
                    Err(e) => Err(e),
                },
            ),
    {
        match answer {
            Ok(anchor) => {
                let length: usize = self.joined.len();
                assert(self.cut < length);
                let below = sub_vec(self.joined.as_slice(), self.cut + 1, length);
                let landed = join_at_path(anchor.as_slice(), below.as_slice());
                let destination = normalize_kernel_path(landed.as_slice());
                KernelStep::Settled(self.judge(destination))
            },
            Err(errno) => {
                if errno == ENOENT || errno == ENOTDIR {
                    KernelStep::CheckEntry(self.candidate())
                } else {
                    KernelStep::Settled(HostPathResolution::Refused)
                }
            },
        }
    }

    fn judge(&self, destination: Option<Vec<u8>>) -> (r: HostPathResolution)
        ensures
            r@ == verdict(pathmap::opt_bytes(destination), self@.root),
    {
        match destination {
            Some(d) => {
                let owned = match &self.root {
                    Some(root) => is_workspace_path(d.as_slice(), Some(root.as_slice())),
                    None => false,
                };
                if owned {
                    HostPathResolution::Refused
                } else {
                    HostPathResolution::Passthrough
                }
            },
            None => HostPathResolution::Refused,
        }
    }

    /// Takes whether the ancestor that was asked about has an entry.
    pub fn entry_checked(&mut self, exists_there: bool) -> (r: KernelStep)
        requires
            old(self).well_formed(),
        ensures
            (final(self)@, r@) == checked(old(self)@, exists_there),
            r@ !is Settled ==> final(self).well_formed(),
    {
        if exists_there {
            KernelStep::Settled(HostPathResolution::Refused)
        } else {
            let end = self.cut;
            self.climb(end)
        }
    }
}

/// Resolves one path argument from exact bytes and an optional absolute
/// directory, as far as that takes no kernel.
pub fn resolve_host_path_from(path: &[u8], base: Option<&[u8]>, root: Option<&[u8]>) -> (r:
    HostPathStart)
    ensures
        match begin(path@, opt_slice(base), opt_slice(root)) {
            Start::Settled(s) => r matches HostPathStart::Settled(res) && res@ == s,
            Start::Ambiguous(joined) => match r {
                HostPathStart::Settled(res) => climbing(
                    (Climb { joined, root: opt_slice(root), cut: 0 }),
                    joined.len() as int,
                ).1 == Step::Settled(res@),
                HostPathStart::Ask { walk, step } => {
                    &&& walk.well_formed()
                    &&& climbing(
                        (Climb { joined, root: opt_slice(root), cut: 0 }),
                        joined.len() as int,
                    ) == (walk@, step@)
                },
            },
        },
{
    let relative = !is_absolute(path);
    let joined = if !relative {
        to_vec(path)
    } else {
        match base {
            None => {
                return HostPathStart::Settled(HostPathResolution::Refused);
            },
            Some(base) => join_at_path(base, path),
        }
    };
    let parts = split_bytes(joined.as_slice(), SLASH);
    if !any_parent(&parts) {
        return HostPathStart::Settled(HostPathResolution::Resolved(joined));
    }
    let normal = normalize_kernel_path(joined.as_slice());
    if relative && leading_parents(path) {
        return HostPathStart::Settled(
            match normal {
                Some(n) => HostPathResolution::Resolved(n),
                None => HostPathResolution::Refused,
            },
        );
    }
    let lands_inside = match &normal {
        Some(n) => is_workspace_path(n.as_slice(), root),
        None => false,
    };
    let starts_inside = match base {
        Some(base) => is_workspace_path(base, root),
        None => false,
    };
    if lands_inside || starts_inside {
        return HostPathStart::Settled(HostPathResolution::Refused);
    }
    let end = joined.len();
    let mut walk = KernelWalk { joined, root: copy_slice(root), cut: 0 };
    match walk.climb(end) {
        KernelStep::Settled(resolution) => HostPathStart::Settled(resolution),
        step => HostPathStart::Ask { walk, step },
    }
}

/// What a kernel descriptor without a known path means for the caller.
pub open spec fn unplaced(fstat: Result<u32, i32>) -> Resolution {
    match fstat {
        Ok(mode) => if mode & S_IFMT == S_IFDIR {
            Resolution::Refused
        } else {
            Resolution::Passthrough
        },
        Err(errno) => if errno == EBADF {
            Resolution::InvalidDescriptor
        } else {
            Resolution::Refused
        },
    }
}

/// Classifies a kernel descriptor whose path could not be found, by what
/// `fstat` said: the mode, or the errno.
///
/// An invalid descriptor is reported as such. One that is no directory goes to
/// the kernel, which reports that. Only a directory whose place is unknown is
/// ambiguous, and refused.
pub fn unresolved_real_dirfd(fstat: Result<u32, i32>) -> (r: HostPathResolution)
    ensures
        r@ == unplaced(fstat),
        r@ == match fstat {
            Ok(mode) => if mode & S_IFMT == S_IFDIR {
                Resolution::Refused
            } else {
                Resolution::Passthrough
            },
            Err(errno) => if errno == EBADF {
                Resolution::InvalidDescriptor
            } else {
                Resolution::Refused
            },
        },
{
    match fstat {
        Err(errno) => {
            if errno == EBADF {
                HostPathResolution::InvalidDescriptor
            } else {
                HostPathResolution::Refused
            }
        },
        Ok(mode) => {
            if mode & S_IFMT == S_IFDIR {
                HostPathResolution::Refused
            } else {
                HostPathResolution::Passthrough
            }
        },
    }
}

/// What a path argument of an `*at` call is relative to.
#[derive(Debug)]
pub enum AtBase {
    /// There is no path: the kernel answers.
    Passthrough,
    /// Nothing: the path is absolute.
    Absolute,
    /// The working directory.
    WorkingDirectory,
    /// A graph-backed directory, which has this path.
    Virtual(Vec<u8>),
    /// A descriptor that is certainly invalid.
    InvalidDescriptor,
    /// A kernel descriptor whose path has to be read.
    KernelDescriptor,
}

/// What a path argument of an `*at` call is relative to, over byte sequences.
pub enum Relative {
    Passthrough,
    Absolute,
    WorkingDirectory,
    Virtual(Seq<u8>),
    InvalidDescriptor,
    KernelDescriptor,
}

impl View for AtBase {
    type V = Relative;

    open spec fn view(&self) -> Relative {
        match self {
            AtBase::Passthrough => Relative::Passthrough,
            AtBase::Absolute => Relative::Absolute,
            AtBase::WorkingDirectory => Relative::WorkingDirectory,
            AtBase::Virtual(path) => Relative::Virtual(path@),
            AtBase::InvalidDescriptor => Relative::InvalidDescriptor,
            AtBase::KernelDescriptor => Relative::KernelDescriptor,
        }
    }
}

/// What the path of an `*at` call is relative to.
pub open spec fn at_base(
    path: Option<Seq<u8>>,
    dirfd: i32,
    base: i32,
    table: Option<crate::fd_table::Table>,
) -> Relative {
    match path {
        None => Relative::Passthrough,
        Some(p) => if pathmap::absolute(p) {
            Relative::Absolute
        } else if dirfd == AT_FDCWD {
            Relative::WorkingDirectory
        } else if dirfd < base {
            Relative::KernelDescriptor
        } else if table is Some && table->0.handles.contains_key(dirfd) {
            Relative::Virtual(table->0.handles[dirfd].path)
        } else {
            Relative::InvalidDescriptor
        },
    }
}

/// Finds what the path of an `*at` call is relative to. A graph-backed
/// directory has no kernel descriptor to inspect: its path is in the table.
pub fn at_path_base(path: Option<&[u8]>, dirfd: i32, vfd_base: i32, table: Option<&FdTable>) -> (r:
    AtBase)
    ensures
        r@ == at_base(
            opt_slice(path),
            dirfd,
            vfd_base,
            match table {
                Some(t) => Some(t@),
                None => None,
            },
        ),
        match path {
            None => r is Passthrough,
            Some(p) => if pathmap::absolute(p@) {
                r is Absolute
            } else if dirfd == AT_FDCWD {
                r is WorkingDirectory
            } else if dirfd < vfd_base {
                r is KernelDescriptor
            } else {
                match table {
                    Some(t) => if t@.handles.contains_key(dirfd) {
                        r matches AtBase::Virtual(b) && b@ == t@.handles[dirfd].path
                    } else {
                        r is InvalidDescriptor
                    },
                    None => r is InvalidDescriptor,
                }
            },
        },
{
    match path {
        None => AtBase::Passthrough,
        Some(p) => {
            if is_absolute(p) {
                AtBase::Absolute
            } else if dirfd == AT_FDCWD {
                AtBase::WorkingDirectory
            } else if dirfd < vfd_base {
                AtBase::KernelDescriptor
            } else {
                match table {
                    Some(t) => match t.get(dirfd) {
                        Some(handle) => AtBase::Virtual(to_vec(handle.path.as_slice())),
                        None => AtBase::InvalidDescriptor,
                    },
                    None => AtBase::InvalidDescriptor,
                }
            }
        },
    }
}

/// What to do about a kernel descriptor whose path was looked up.
#[derive(Debug)]
pub enum Placement {
    /// The path is relative to this directory.
    At(Vec<u8>),
    /// Descriptors cannot be placed here at all: the kernel answers.
    Passthrough,
    /// This one cannot be placed: ask `fstat`, and go on with
    /// `unresolved_real_dirfd`.
    Inspect,
}

/// What to do about a kernel descriptor, over byte sequences.
pub enum Placed {
    At(Seq<u8>),
    Passthrough,
    Inspect,
}

impl View for Placement {
    type V = Placed;

    open spec fn view(&self) -> Placed {
        match self {
            Placement::At(directory) => Placed::At(directory@),
            Placement::Passthrough => Placed::Passthrough,
            Placement::Inspect => Placed::Inspect,
        }
    }
}

/// What to do about a kernel descriptor with this link, or without one.
pub open spec fn placing(link: Option<Seq<u8>>, links_available: bool) -> Placed {
    match link {
        Some(l) if l.len() > 0 => Placed::At(l),
        _ => if links_available {
            Placed::Inspect
        } else {
            Placed::Passthrough
        },
    }
}

/// Decides by the descriptor's link, and by whether such links exist in this
/// process: a container without them must not turn every `*at` call into an
/// error, and only the failure of one descriptor is an ambiguity.
pub fn place_dirfd(link: Option<Vec<u8>>, links_available: bool) -> (r: Placement)
    ensures
        r@ == placing(pathmap::opt_bytes(link), links_available),
        match link {
            Some(l) => if l@.len() > 0 {
                r matches Placement::At(b) && b@ == l@
            } else {
                r == if links_available {
                    Placement::Inspect
                } else {
                    Placement::Passthrough
                }
            },
            None => r == if links_available {
                Placement::Inspect
            } else {
                Placement::Passthrough
            },
        },
{
    match link {
        Some(l) => {
            if l.len() > 0 {
                return Placement::At(l);
            }
        },
        None => {},
    }
    if links_available {
        Placement::Inspect
    } else {
        Placement::Passthrough
    }
}

// ── What the kernel walk means ──────────────────────────────────────────

/// An unchanging host filesystem: canonical forms, and which paths have an
/// entry.
pub struct Kernel {
    pub canonical: spec_fn(Seq<u8>) -> Result<Seq<u8>, i32>,
    pub has_entry: spec_fn(Seq<u8>) -> bool,
}

/// Where the kernel would arrive, looking only at ancestors before `end`.
pub open spec fn destination(kernel: Kernel, path: Seq<u8>, end: int) -> Option<Seq<u8>>
    decreases end,
{
    let cut = last_slash(path, end);
    if !(0 <= cut < end) {
        None
    } else {
        match (kernel.canonical)(ancestor(path, cut)) {
            Ok(anchor) => pathmap::kernel_normal(
                pathmap::joined_at(anchor, path.subrange(cut + 1, path.len() as int)),
            ),
            Err(errno) => if (errno == ENOENT || errno == ENOTDIR) && !(kernel.has_entry)(
                ancestor(path, cut),
            ) {
                destination(kernel, path, cut)
            } else {
                None
            },
        }
    }
}

/// What a climb ends in against one kernel, within `rounds` questions.
pub open spec fn climb_run(kernel: Kernel, climb: Climb, step: Step, rounds: nat) -> Option<
    Resolution,
>
    decreases rounds,
{
    match step {
        Step::Settled(resolution) => Some(resolution),
        Step::Canonicalize(path) => if rounds == 0 {
            None
        } else {
            let (on, after) = canonicalized(climb, (kernel.canonical)(path));
            climb_run(kernel, on, after, (rounds - 1) as nat)
        },
        Step::CheckEntry(path) => if rounds == 0 {
            None
        } else {
            let (on, after) = checked(climb, (kernel.has_entry)(path));
            climb_run(kernel, on, after, (rounds - 1) as nat)
        },
    }
}

/// Against one unchanging host filesystem, a climb ends in what the kernel's
/// destination means: a path that the kernel would take into the workspace, or
/// whose destination cannot be told, is refused; only a path that provably
/// leads elsewhere goes to the kernel.
pub proof fn law_a_climb_finds_the_kernel_destination(kernel: Kernel, climb: Climb, end: int) -> (
    rounds: nat)
    requires
        0 <= end <= climb.joined.len(),
    ensures
        ({
            let (on, step) = climbing(climb, end);
            climb_run(kernel, on, step, rounds) == Some(
                verdict(destination(kernel, climb.joined, end), climb.root),
            )
        }),
    decreases end,
{
    let cut = last_slash(climb.joined, end);
    let (on, step) = climbing(climb, end);
    lemma_last_slash_range(climb.joined, end);
    if cut < 0 {
        0
    } else {
        let path = ancestor(climb.joined, cut);
        match (kernel.canonical)(path) {
            Ok(anchor) => {
                let (next, settled) = canonicalized(on, Ok(anchor));
                assert(climb_run(kernel, next, settled, 0) is Some);
                1
            },
            Err(errno) => {
                let (next, after) = canonicalized(on, Err(errno));
                if errno == ENOENT || errno == ENOTDIR {
                    let (further, last) = checked(next, (kernel.has_entry)(path));
                    if (kernel.has_entry)(path) {
                        assert(climb_run(kernel, further, last, 0) is Some);
                        assert(climb_run(kernel, next, after, 1) == climb_run(
                            kernel,
                            further,
                            last,
                            0,
                        ));
                        2
                    } else {
                        let rounds = law_a_climb_finds_the_kernel_destination(kernel, next, cut);
                        assert(climb_run(kernel, next, after, rounds + 1) == climb_run(
                            kernel,
                            further,
                            last,
                            rounds,
                        ));
                        rounds + 2
                    }
                } else {
                    assert(climb_run(kernel, next, after, 0) is Some);
                    1
                }
            },
        }
    }
}

proof fn lemma_last_slash_range(path: Seq<u8>, end: int)
    requires
        0 <= end <= path.len(),
    ensures
        -1 <= last_slash(path, end) < end || (end == 0 && last_slash(path, end) == -1),
    decreases end,
{
    if end > 0 && path[end - 1] != SLASH {
        lemma_last_slash_range(path, end - 1);
    }
}

/// A traversal that starts in the workspace, or whose spelling ends there, is
/// refused in every mode, whatever the kernel would say, unless its parents all
/// come first.
pub proof fn law_ambiguous_traversal_is_refused(
    path: Seq<u8>,
    base: Option<Seq<u8>>,
    root: Option<Seq<u8>>,
)
    requires
        pathmap::absolute(path) || base is Some,
        has_parent(
            if pathmap::absolute(path) {
                path
            } else {
                pathmap::joined_at(base->0, path)
            },
        ),
        pathmap::absolute(path) || !parents_lead(path),
        (base is Some && owned(base->0, root)) || ({
            let normal = pathmap::kernel_normal(
                if pathmap::absolute(path) {
                    path
                } else {
                    pathmap::joined_at(base->0, path)
                },
            );
            normal is Some && owned(normal->0, root)
        }),
    ensures
        begin(path, base, root) == Start::Settled(Resolution::Refused),
{
}

/// A path that is never settled without the kernel is never taken for a graph
/// path: the climb ends in a refusal or goes to the kernel.
pub proof fn law_the_kernel_never_makes_a_graph_path(
    destination: Option<Seq<u8>>,
    root: Option<Seq<u8>>,
)
    ensures
        verdict(destination, root) == Resolution::Refused || verdict(destination, root)
            == Resolution::Passthrough,
        verdict(destination, root) == Resolution::Passthrough ==> destination is Some && !owned(
            destination->0,
            root,
        ),
{
}

/// The fields of names and parents taken from a directory.
proof fn lemma_taken_from(bs: Seq<Seq<u8>>, parts: Seq<Seq<u8>>)
    requires
        bs.len() > 0,
        pathmap::all_names(bs),
        parts.len() > 0,
        forall|i: int|
            0 <= i < parts.len() ==> pathmap::is_name(#[trigger] parts[i]) || parts[i]
                == pathmap::dot_dot(),
    ensures
        ({
            let base = pathmap::rooted(bs);
            let rel = pathmap::join(parts);
            let joined = pathmap::joined_at(base, rel);
            &&& pathmap::absolute(base)
            &&& !pathmap::absolute(rel)
            &&& pathmap::absolute(joined)
            &&& joined == pathmap::rooted(bs + parts)
            &&& bytes::split(rel, SLASH) == parts
            &&& bytes::split(joined, SLASH) == seq![Seq::<u8>::empty()] + (bs + parts)
        }),
{
    let base = pathmap::rooted(bs);
    let rel = pathmap::join(parts);
    pathmap::lemma_rooted_ends(bs);
    assert(pathmap::dot_dot().len() == 2);
    assert(!pathmap::dot_dot().contains(SLASH));
    assert forall|i: int| 0 <= i < parts.len() implies !(#[trigger] parts[i]).contains(SLASH)
        && parts[i].len() > 0 by {}
    pathmap::lemma_join_first(parts);
    pathmap::lemma_split_join(parts);
    let joined = base + seq![SLASH] + rel;
    assert(pathmap::joined_at(base, rel) == joined);
    assert(joined[0] == base[0]);
    pathmap::lemma_rooted_append(bs, parts);
    pathmap::lemma_rooted(parts);
    assert(joined =~= pathmap::rooted(bs + parts));
    pathmap::lemma_split_at(base, rel, SLASH);
    pathmap::lemma_split_rooted(bs);
    assert((seq![Seq::<u8>::empty()] + bs) + parts =~= seq![Seq::<u8>::empty()] + (bs + parts));
}

/// A path without `..` is taken as it is spelled: an absolute one stands for
/// itself, wherever the caller is, and names are taken from the directory that
/// the path is relative to. Without such a directory a relative path is refused.
pub proof fn law_a_plain_path_is_taken_as_spelled(
    path: Seq<u8>,
    bs: Seq<Seq<u8>>,
    names: Seq<Seq<u8>>,
    base: Option<Seq<u8>>,
    root: Option<Seq<u8>>,
)
    requires
        bs.len() > 0,
        pathmap::all_names(bs),
        names.len() > 0,
        pathmap::all_names(names),
    ensures
        pathmap::absolute(path) && !has_parent(path) ==> begin(path, base, root) == Start::Settled(
            Resolution::Resolved(path),
        ),
        !pathmap::absolute(path) ==> begin(path, None, root) == Start::Settled(Resolution::Refused),
        begin(pathmap::join(names), Some(pathmap::rooted(bs)), root) == Start::Settled(
            Resolution::Resolved(pathmap::rooted(bs + names)),
        ),
        begin(pathmap::rooted(names), base, root) == Start::Settled(
            Resolution::Resolved(pathmap::rooted(names)),
        ),
{
    lemma_taken_from(bs, names);
    let fields = seq![Seq::<u8>::empty()] + (bs + names);
    assert(pathmap::dot_dot().len() == 2);
    assert forall|i: int| 0 <= i < fields.len() implies fields[i] != pathmap::dot_dot() by {
        if i > bs.len() {
            assert(fields[i] == names[i - 1 - bs.len()]);
        } else if i > 0 {
            assert(fields[i] == bs[i - 1]);
        }
    }
    pathmap::lemma_rooted_ends(names);
    pathmap::lemma_split_rooted(names);
    let own = seq![Seq::<u8>::empty()] + names;
    assert forall|i: int| 0 <= i < own.len() implies own[i] != pathmap::dot_dot() by {
        if i > 0 {
            assert(own[i] == names[i - 1]);
        }
    }
}

/// A relative path whose parents all come first leaves as many directories,
/// starting with the one that it is relative to, and goes on with its names from
/// there, in the workspace as elsewhere.
pub proof fn law_leading_parents_leave_directories(
    bs: Seq<Seq<u8>>,
    ups: nat,
    names: Seq<Seq<u8>>,
    root: Option<Seq<u8>>,
)
    requires
        pathmap::all_names(bs),
        pathmap::all_names(names),
        0 < ups <= bs.len(),
    ensures
        begin(
            pathmap::join(Seq::new(ups, |i: int| pathmap::dot_dot()) + names),
            Some(pathmap::rooted(bs)),
            root,
        ) == Start::Settled(
            Resolution::Resolved(pathmap::absolute_of(bs.take(bs.len() - ups) + names)),
        ),
{
    let above = Seq::new(ups, |i: int| pathmap::dot_dot());
    let parts = above + names;
    let rel = pathmap::join(parts);
    assert forall|i: int| 0 <= i < parts.len() implies pathmap::is_name(#[trigger] parts[i])
        || parts[i] == pathmap::dot_dot() by {
        if i >= ups {
            assert(parts[i] == names[i - ups]);
        }
    }
    lemma_taken_from(bs, parts);
    let joined = pathmap::joined_at(pathmap::rooted(bs), rel);
    let empty = Seq::<u8>::empty();
    let fields = seq![empty] + (bs + parts);
    assert(fields[1 + bs.len() as int] == pathmap::dot_dot());
    assert(fields.contains(pathmap::dot_dot()));
    assert(parents_lead(rel)) by {
        assert forall|i: int, j: int|
            0 <= i < j < parts.len() && !pathmap::is_noise(#[trigger] parts[i]) && parts[i]
                != pathmap::dot_dot() implies #[trigger] parts[j] != pathmap::dot_dot() by {
            assert(i >= ups);
            assert(parts[j] == names[j - ups]);
        }
    }
    pathmap::lemma_contained_leading(bs + parts);
    pathmap::lemma_contained_ups(bs, ups);
    pathmap::lemma_contained_names(bs + above, names);
    assert(bs + parts =~= (bs + above) + names);
    pathmap::law_graph_normalization_is_kernel_normalization(joined);
}

/// Where the kernel can place the directory before the last name of a path, the
/// path leads to that name in the directory's canonical place. Where that
/// directory is not there, and is no dangling link either, the one before it
/// counts, with both names below it. A directory that cannot be placed for
/// another reason leaves the destination unknown.
pub proof fn law_the_destination_is_the_name_in_its_canonical_directory(
    kernel: Kernel,
    above: Seq<u8>,
    middle: Seq<u8>,
    name: Seq<u8>,
    cs: Seq<Seq<u8>>,
    errno: i32,
)
    requires
        above.len() > 0,
        pathmap::is_name(middle),
        pathmap::is_name(name),
        cs.len() > 0,
        pathmap::all_names(cs),
    ensures
        ({
            let directory = above + seq![SLASH] + middle;
            let path = directory + seq![SLASH] + name;
            let found = destination(kernel, path, path.len() as int);
            &&& (kernel.canonical)(directory) == Ok::<Seq<u8>, i32>(pathmap::rooted(cs)) ==> found
                == Some(pathmap::rooted(cs.push(name)))
            &&& (kernel.canonical)(directory) == Err::<Seq<u8>, i32>(errno) && (errno == 2 || errno
                == 20) && !(kernel.has_entry)(directory) && (kernel.canonical)(above) == Ok::<
                Seq<u8>,
                i32,
            >(pathmap::rooted(cs)) ==> found == Some(pathmap::rooted(cs.push(middle).push(name)))
            &&& (kernel.canonical)(directory) == Err::<Seq<u8>, i32>(errno) && (!(errno == 2 || errno
                == 20) || (kernel.has_entry)(directory)) ==> found is None
        }),
{
    let directory = above + seq![SLASH] + middle;
    let path = directory + seq![SLASH] + name;
    let cut = directory.len() as int;
    let first = above.len() as int;
    assert(path[cut] == SLASH);
    assert forall|j: int| cut < j < path.len() implies path[j] != SLASH by {
        assert(path[j] == name[j - cut - 1]);
        assert(name.contains(name[j - cut - 1]));
    }
    lemma_last_slash_is(path, path.len() as int, cut);
    assert(path[first] == SLASH);
    assert forall|j: int| first < j < cut implies path[j] != SLASH by {
        assert(path[j] == middle[j - first - 1]);
        assert(middle.contains(middle[j - first - 1]));
    }
    lemma_last_slash_is(path, cut, first);
    assert(path.subrange(0, cut) =~= directory);
    assert(path.subrange(0, first) =~= above);
    assert(path.subrange(cut + 1, path.len() as int) =~= name);
    let both = path.subrange(first + 1, path.len() as int);
    assert(both =~= middle + seq![SLASH] + name);
    pathmap::lemma_joined_name(cs, name);
    lemma_names_stay(cs.push(name));
    let two = seq![middle, name];
    assert(two.drop_last() =~= seq![middle]);
    assert(pathmap::join(seq![middle]) =~= middle) by {
        assert(seq![middle].drop_last() =~= Seq::<Seq<u8>>::empty());
    }
    assert(pathmap::join(two) =~= both);
    pathmap::lemma_joined_names(cs, two);
    assert(cs + two =~= cs.push(middle).push(name));
    lemma_names_stay(cs + two);
    reveal_with_fuel(destination, 3);
}

/// A path made of names is its own normal form.
proof fn lemma_names_stay(names: Seq<Seq<u8>>)
    requires
        names.len() > 0,
        pathmap::all_names(names),
    ensures
        pathmap::kernel_normal(pathmap::rooted(names)) == Some(pathmap::rooted(names)),
{
    pathmap::lemma_rooted_ends(names);
    pathmap::lemma_split_rooted(names);
    pathmap::lemma_contained_leading(names);
    pathmap::lemma_contained_ups(names, 0);
    assert(names + Seq::new(0, |i: int| pathmap::dot_dot()) =~= names);
    assert(names.take(names.len() as int) =~= names);
    pathmap::law_graph_normalization_is_kernel_normalization(pathmap::rooted(names));
}

/// The path of an `*at` call is relative to what the caller said: to nothing
/// where it is absolute, to the working directory for the number that means it,
/// to the path of a directory of the table for its descriptor, and else to a
/// descriptor of the kernel's. A number above the virtual ones that the table
/// does not hold is invalid.
pub proof fn law_an_at_path_is_relative_to_its_descriptor(
    path: Seq<u8>,
    dirfd: i32,
    base: i32,
    table: crate::fd_table::Table,
)
    requires
        base >= 0,
    ensures
        at_base(None, dirfd, base, Some(table)) is Passthrough,
        pathmap::absolute(path) ==> at_base(Some(path), dirfd, base, Some(table)) is Absolute,
        !pathmap::absolute(path) ==> {
            &&& at_base(Some(path), -100i32, base, Some(table)) is WorkingDirectory
            &&& dirfd != -100 && dirfd < base ==> at_base(Some(path), dirfd, base, Some(table))
                is KernelDescriptor
            &&& dirfd >= base && table.handles.contains_key(dirfd) ==> at_base(
                Some(path),
                dirfd,
                base,
                Some(table),
            ) == Relative::Virtual(table.handles[dirfd].path)
            &&& dirfd >= base && !table.handles.contains_key(dirfd) ==> at_base(
                Some(path),
                dirfd,
                base,
                Some(table),
            ) is InvalidDescriptor
        },
{
}

/// A descriptor of the kernel's without a place is bad where the kernel calls it
/// bad, goes to the kernel where it is no directory, and is refused where it is
/// one, or nothing is known of it.
pub proof fn law_an_unplaced_directory_is_refused(mode: u32, errno: i32)
    ensures
        mode & 0o170000 == 0o040000 ==> unplaced(Ok(mode)) == Resolution::Refused,
        mode & 0o170000 != 0o040000 ==> unplaced(Ok(mode)) == Resolution::Passthrough,
        unplaced(Err(9)) == Resolution::InvalidDescriptor,
        errno != 9 ==> unplaced(Err(errno)) == Resolution::Refused,
{
}

/// A path argument that is refused fails as an I/O error, and one relative to a
/// bad descriptor as that; any other is no error.
pub proof fn law_only_unusable_paths_have_an_error(path: Seq<u8>)
    ensures
        error_number(Resolution::Refused) == Some(5i32),
        error_number(Resolution::InvalidDescriptor) == Some(9i32),
        error_number(Resolution::Passthrough) is None,
        error_number(Resolution::Resolved(path)) is None,
{
}

/// A descriptor of the kernel's is placed where its link leads. Without a link it
/// is inspected, unless no descriptor has one here: then the kernel answers.
pub proof fn law_a_descriptor_is_placed_by_its_link(link: Seq<u8>, available: bool)
    requires
        link.len() > 0,
    ensures
        placing(Some(link), available) == Placed::At(link),
        placing(None, true) == Placed::Inspect,
        placing(None, false) == Placed::Passthrough,
        placing(Some(Seq::empty()), true) == Placed::Inspect,
        placing(Some(Seq::empty()), false) == Placed::Passthrough,
{
}

/// What lies below the root belongs to the workspace, and the root itself does;
/// nothing else does, and a temporary of a write never does, wherever it lies.
pub proof fn law_the_workspace_is_what_lies_below_its_root(
    root: Seq<u8>,
    rest: Seq<u8>,
    target: Seq<u8>,
    pid: i32,
)
    requires
        root.len() > 0,
        root.last() != SLASH,
    ensures
        owned(root + seq![SLASH] + rest, Some(root)) <==> !bytes::occurs(
            root + seq![SLASH] + rest,
            bytes::ascii(".kin_tmp_"@),
        ),
        owned(root, Some(root)) <==> !bytes::occurs(root, bytes::ascii(".kin_tmp_"@)),
        forall|other: Seq<u8>|
            !root.is_prefix_of(other) ==> !#[trigger] owned(other, Some(root)),
        rest.len() > 0 && rest[0] != SLASH ==> !owned(root + rest, Some(root)),
        !owned(pathmap::temp_path_of(target, pid as int), Some(root)),
        !owned(target, None),
{
    let below = root + seq![SLASH] + rest;
    assert(below.subrange(0, root.len() as int) =~= root);
    assert(root.subrange(0, root.len() as int) =~= root);
    pathmap::law_a_sibling_lies_outside(root, SLASH, rest);
    if rest.len() > 0 {
        let more = rest.drop_first();
        pathmap::law_a_sibling_lies_outside(root, rest[0], more);
        assert(root + seq![rest[0]] + more =~= root + rest);
    }
    pathmap::law_atomic_temp_is_artifact(target, pid as int);
    assert forall|other: Seq<u8>| !root.is_prefix_of(other) implies !#[trigger] owned(
        other,
        Some(root),
    ) by {
        if pathmap::within_root(other, root) {
            assert(root =~= other.subrange(0, root.len() as int));
        }
    }
}

/// A destination outside the workspace belongs to the kernel, and only such a
/// one: one inside is refused, and so is one that cannot be told.
pub proof fn law_a_known_destination_elsewhere_goes_to_the_kernel(
    found: Seq<u8>,
    root: Option<Seq<u8>>,
)
    ensures
        verdict(Some(found), root) == Resolution::Passthrough <==> !owned(found, root),
        verdict(Some(found), root) == Resolution::Refused <==> owned(found, root),
        verdict(None, root) == Resolution::Refused,
        verdict(Some(found), None) == Resolution::Passthrough,
{
}

/// A `..` behind a name does not lead: from a directory of the workspace such a
/// path is refused, whatever stands between the two.
pub proof fn law_a_parent_behind_a_name_does_not_lead(
    bs: Seq<Seq<u8>>,
    parts: Seq<Seq<u8>>,
    i: int,
    j: int,
    root: Option<Seq<u8>>,
)
    requires
        bs.len() > 0,
        pathmap::all_names(bs),
        0 <= i < j < parts.len(),
        pathmap::is_name(parts[i]),
        parts[j] == pathmap::dot_dot(),
        forall|k: int|
            0 <= k < parts.len() ==> pathmap::is_name(#[trigger] parts[k]) || parts[k]
                == pathmap::dot_dot(),
    ensures
        !parents_lead(pathmap::join(parts)),
        owned(pathmap::rooted(bs), root) ==> begin(
            pathmap::join(parts),
            Some(pathmap::rooted(bs)),
            root,
        ) == Start::Settled(Resolution::Refused),
{
    lemma_taken_from(bs, parts);
    assert(pathmap::dot().len() == 1 && pathmap::dot_dot().len() == 2);
    let fields = seq![Seq::<u8>::empty()] + (bs + parts);
    assert(fields[1 + bs.len() + j] == parts[j]);
    assert(fields.contains(pathmap::dot_dot()));
    let cs = bytes::split(pathmap::join(parts), SLASH);
    assert(cs[i] == parts[i] && cs[j] == parts[j]);
}

} // verus!

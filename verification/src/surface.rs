//! Surfaces that interposition does not cover, and the guard that keeps a hook
//! from answering itself.
//!
//! `fopen`, `opendir` and their like open files inside the C library, where no
//! hook sees it. They are hooked only to be honest about it: a workspace path
//! that would be answered by raw disk is reported, and refused where the report
//! was not taken or strict mode is on.

use vstd::prelude::*;

use crate::bytes::starts_with;
use crate::host_path;
use crate::host_path::{host_path_error_errno, is_workspace_path, HostPathResolution};
use crate::pathmap;
use crate::pathmap::temp_prefix;
use crate::sys::{EBADF, EIO};

verus! {

// ── Re-entry ────────────────────────────────────────────────────────────

/// Whether a thread is inside a hook.
#[derive(Debug, Clone, Copy, PartialEq, Eq, Structural)]
pub struct Reentry {
    pub in_shim: bool,
}

/// An entered hook.
#[derive(Debug, PartialEq, Eq, Structural)]
pub struct ReentryGuard {
    /// `errno` as the host had it on entry.
    pub saved_errno: i32,
}

/// Whether a thread is inside a hook after it tried to enter one, and the number
/// that the host had, where it entered.
pub open spec fn entering(in_shim: bool, errno: i32) -> (bool, Option<i32>) {
    (
        true,
        if in_shim {
            None
        } else {
            Some(errno)
        },
    )
}

impl Reentry {
    /// A thread outside every hook.
    pub fn new() -> (r: Reentry)
        ensures
            !r.in_shim,
    {
        Reentry { in_shim: false }
    }

    /// Enters a hook; refused inside another one, whose call must go straight
    /// to the real function.
    pub fn enter(&mut self, errno: i32) -> (r: Option<ReentryGuard>)
        ensures
            final(self).in_shim,
            (
                final(self).in_shim,
                match r {
                    Some(guard) => Some(guard.saved_errno),
                    None => None,
                },
            ) == entering(old(self).in_shim, errno),
            r == if old(self).in_shim {
                None
            } else {
                Some(ReentryGuard { saved_errno: errno })
            },
    {
        if self.in_shim {
            None
        } else {
            self.in_shim = true;
            Some(ReentryGuard { saved_errno: errno })
        }
    }

    /// Leaves the hook that was entered.
    pub fn leave(&mut self, guard: ReentryGuard)
        ensures
            !final(self).in_shim,
    {
        self.in_shim = false;
    }
}

impl ReentryGuard {
    /// The `errno` that a synthesized success leaves behind: the host's own.
    pub fn ok(&self) -> (r: i32)
        ensures
            r == self.saved_errno,
    {
        self.saved_errno
    }
}

// ── Surfaces ────────────────────────────────────────────────────────────

/// One uninterposed surface, with its once-per-process latches.
#[derive(Debug, Clone, Copy, PartialEq, Eq, Structural)]
pub struct UninterposedSurface {
    /// The operator was warned.
    pub warned: bool,
    /// The daemon acknowledged the report.
    pub reported: bool,
}

/// What a hook over an uninterposed surface does with one path.
#[derive(Debug, Clone, Copy, PartialEq, Eq, Structural)]
pub enum SurfaceDisposition {
    /// The real entry point owns this call.
    Passthrough,
    /// Fail with this errno instead of letting raw disk answer.
    Refuse(i32),
}

/// What is due when raw disk is about to answer for a workspace path.
#[derive(Debug, Clone, Copy, PartialEq, Eq, Structural)]
pub struct BypassDue {
    /// Warn the operator.
    pub warn: bool,
    /// Report to the daemon, and hand the outcome to `acknowledge_report`.
    pub report: bool,
}

/// What is due when raw disk is about to answer: the operator is warned once;
/// the daemon is told where a launcher waits for it and it was not told yet.
pub open spec fn due(surface: UninterposedSurface, canary_token: bool) -> BypassDue {
    BypassDue { warn: !surface.warned, report: canary_token && !surface.reported }
}

/// Whether a bypass may go ahead. Strict mode refuses always; otherwise the
/// daemon must have taken the report, where one was due.
pub open spec fn disposition(strict: bool, acknowledged: bool) -> SurfaceDisposition {
    if strict || !acknowledged {
        SurfaceDisposition::Refuse(EIO)
    } else {
        SurfaceDisposition::Passthrough
    }
}

/// A surface through which a bypass was noticed: the operator was warned.
pub open spec fn noticed(surface: UninterposedSurface) -> UninterposedSurface {
    UninterposedSurface { warned: true, reported: surface.reported }
}

/// A surface whose report the daemon took, or did not.
pub open spec fn acknowledged(surface: UninterposedSurface, taken: bool) -> UninterposedSurface {
    UninterposedSurface { warned: surface.warned, reported: surface.reported || taken }
}

impl UninterposedSurface {
    /// A surface that nothing has gone through yet.
    pub fn new() -> (r: UninterposedSurface)
        ensures
            r == (UninterposedSurface { warned: false, reported: false }),
    {
        UninterposedSurface { warned: false, reported: false }
    }

    /// Latches the report once the daemon has taken it. A report that was lost
    /// leaves the next call free to try again.
    pub fn acknowledge_report(&mut self, acknowledged: bool) -> (r: bool)
        ensures
            r == acknowledged,
            *final(self) == self::acknowledged(*old(self), acknowledged),
            final(self).warned == old(self).warned,
            final(self).reported == (old(self).reported || acknowledged),
    {
        if acknowledged {
            self.reported = true;
        }
        acknowledged
    }

    /// Notes that raw disk is about to answer.
    pub fn report_workspace_bypass(&mut self, canary_token: bool) -> (r: BypassDue)
        ensures
            r == due(*old(self), canary_token),
            *final(self) == noticed(*old(self)),
            final(self).warned,
            final(self).reported == old(self).reported,
    {
        let warn: bool = !self.warned;
        self.warned = true;
        BypassDue { warn, report: canary_token && !self.reported }
    }
}

/// Whether a bypass may go ahead.
pub fn workspace_surface_disposition(strict: bool, bypass_report_acknowledged: bool) -> (r:
    SurfaceDisposition)
    ensures
        r == disposition(strict, bypass_report_acknowledged),
{
    if strict || !bypass_report_acknowledged {
        SurfaceDisposition::Refuse(EIO)
    } else {
        SurfaceDisposition::Passthrough
    }
}

/// What a path argument of an uninterposed surface calls for.
#[derive(Debug)]
pub enum SurfacePlan {
    /// This.
    Settled(SurfaceDisposition),
    /// The bypass of this workspace path has to be reported first.
    Report(Vec<u8>),
}

/// What a path argument of an uninterposed surface calls for, over bytes.
pub enum Planned {
    Settled(SurfaceDisposition),
    Report(Seq<u8>),
}

impl View for SurfacePlan {
    type V = Planned;

    open spec fn view(&self) -> Planned {
        match self {
            SurfacePlan::Settled(disposition) => Planned::Settled(*disposition),
            SurfacePlan::Report(path) => Planned::Report(path@),
        }
    }
}

/// What a path argument of an uninterposed surface calls for.
pub open spec fn surface_plan(resolution: host_path::Resolution, root: Option<Seq<u8>>) -> Planned {
    match resolution {
        host_path::Resolution::Passthrough => Planned::Settled(SurfaceDisposition::Passthrough),
        host_path::Resolution::Refused => Planned::Settled(SurfaceDisposition::Refuse(EIO)),
        host_path::Resolution::InvalidDescriptor => Planned::Settled(
            SurfaceDisposition::Refuse(EBADF),
        ),
        host_path::Resolution::Resolved(path) => if host_path::owned(path, root) {
            Planned::Report(path)
        } else {
            Planned::Settled(SurfaceDisposition::Passthrough)
        },
    }
}

/// Classifies a path argument of an uninterposed surface.
pub fn uninterposed_surface_disposition(resolution: HostPathResolution, root: Option<&[u8]>) -> (r:
    SurfacePlan)
    ensures
        r@ == surface_plan(resolution@, host_path::opt_slice(root)),
        match resolution@ {
            host_path::Resolution::Passthrough => r == SurfacePlan::Settled(
                SurfaceDisposition::Passthrough,
            ),
            host_path::Resolution::Refused => r == SurfacePlan::Settled(
                SurfaceDisposition::Refuse(EIO),
            ),
            host_path::Resolution::InvalidDescriptor => r == SurfacePlan::Settled(
                SurfaceDisposition::Refuse(EBADF),
            ),
            host_path::Resolution::Resolved(path) => if host_path::owned(
                path,
                host_path::opt_slice(root),
            ) {
                r matches SurfacePlan::Report(p) && p@ == path
            } else {
                r == SurfacePlan::Settled(SurfaceDisposition::Passthrough)
            },
        },
{
    let code = host_path_error_errno(&resolution);
    match resolution {
        HostPathResolution::Resolved(path) => {
            if is_workspace_path(path.as_slice(), root) {
                SurfacePlan::Report(path)
            } else {
                SurfacePlan::Settled(SurfaceDisposition::Passthrough)
            }
        },
        _ => match code {
            Some(code) => SurfacePlan::Settled(SurfaceDisposition::Refuse(code)),
            None => SurfacePlan::Settled(SurfaceDisposition::Passthrough),
        },
    }
}

/// The path of a descriptor with this link, or without one.
pub open spec fn descriptor_path(fd: i32, link: Option<Seq<u8>>) -> Option<Seq<u8>> {
    match link {
        Some(path) if fd >= 0 && path.len() > 0 => Some(path),
        _ => None,
    }
}

/// The path of a descriptor that a listing was started on, where the link that
/// names it could be read. An unplaced descriptor is a pipe or a socket far
/// more often than a projected directory, and is passed through.
pub fn host_path_for_descriptor(fd: i32, link: Option<Vec<u8>>) -> (r: Option<Vec<u8>>)
    ensures
        pathmap::opt_bytes(r) == descriptor_path(fd, pathmap::opt_bytes(link)),
        match link {
            Some(path) if fd >= 0 && path@.len() > 0 => r == Some(path),
            _ => r is None,
        },
{
    if fd < 0 {
        return None;
    }
    match link {
        Some(path) => {
            if path.len() == 0 {
                None
            } else {
                Some(path)
            }
        },
        None => None,
    }
}

/// The verdict on a walk over several roots: any refused one refuses the whole,
/// for a walk that drops a root would look complete and not be.
pub open spec fn walk_verdict(roots: Seq<SurfaceDisposition>) -> SurfaceDisposition
    decreases roots.len(),
{
    if roots.len() == 0 {
        SurfaceDisposition::Passthrough
    } else if roots[0] is Refuse {
        roots[0]
    } else {
        walk_verdict(roots.drop_first())
    }
}

/// The verdict on a walk over several roots.
pub fn walk_disposition(roots: &Vec<SurfaceDisposition>) -> (r: SurfaceDisposition)
    ensures
        r == walk_verdict(roots@),
{
    let mut i: usize = 0;
    assert(roots@.subrange(0, roots@.len() as int) =~= roots@);
    while i < roots.len()
        invariant
            i <= roots@.len(),
            walk_verdict(roots@) == walk_verdict(roots@.subrange(i as int, roots@.len() as int)),
        decreases roots@.len() - i,
    {
        assert(roots@.subrange(i as int, roots@.len() as int).drop_first() =~= roots@.subrange(
            i + 1,
            roots@.len() as int,
        ));
        match roots[i] {
            SurfaceDisposition::Refuse(code) => {
                return SurfaceDisposition::Refuse(code);
            },
            SurfaceDisposition::Passthrough => {},
        }
        i = i + 1;
    }
    SurfaceDisposition::Passthrough
}

// ── Stale temporaries ───────────────────────────────────────────────────

/// Whether a directory entry is a temporary of a file of this name.
pub open spec fn stale(entry: Seq<u8>, file_name: Seq<u8>) -> bool {
    (file_name + pathmap::temp_marker()).is_prefix_of(entry)
}

/// Whether a directory entry is a temporary left over from a write to a file of
/// this name.
pub fn is_stale_temp(entry: &[u8], file_name: &[u8]) -> (r: bool)
    ensures
        r == stale(entry@, file_name@),
        r == (file_name@ + pathmap::temp_marker()).is_prefix_of(entry@),
{
    let prefix = temp_prefix(file_name);
    starts_with(entry, prefix.as_slice())
}

// ── Laws ────────────────────────────────────────────────────────────────

/// Bytes of a workspace path come from raw disk only outside strict mode, and
/// where a launcher waits for the verdict only once the daemon has taken the
/// report.
pub proof fn law_no_silent_bypass(
    surface: UninterposedSurface,
    canary_token: bool,
    strict: bool,
    taken: bool,
)
    ensures
        disposition(strict, !due(surface, canary_token).report || taken) is Passthrough ==> !strict
            && (canary_token ==> surface.reported || taken),
        strict || due(surface, canary_token).report && !taken ==> disposition(
            strict,
            !due(surface, canary_token).report || taken,
        ) == SurfaceDisposition::Refuse(EIO),
{
}

/// A walk goes ahead only if every one of its roots may.
pub proof fn law_a_walk_needs_every_root(roots: Seq<SurfaceDisposition>)
    ensures
        walk_verdict(roots) is Passthrough <==> (forall|i: int|
            0 <= i < roots.len() ==> (#[trigger] roots[i]) is Passthrough),
    decreases roots.len(),
{
    if roots.len() > 0 && !(roots[0] is Refuse) {
        law_a_walk_needs_every_root(roots.drop_first());
        assert forall|i: int|
            walk_verdict(roots) is Passthrough && 0 <= i < roots.len() implies (
        #[trigger] roots[i]) is Passthrough by {
            if i > 0 {
                assert(roots.drop_first()[i - 1] == roots[i]);
            }
        }
        if forall|i: int| 0 <= i < roots.len() ==> (#[trigger] roots[i]) is Passthrough {
            assert forall|i: int| 0 <= i < roots.drop_first().len() implies (
            #[trigger] roots.drop_first()[i]) is Passthrough by {
                assert(roots.drop_first()[i] == roots[i + 1]);
            }
        }
    } else if roots.len() > 0 {
        assert(roots[0] is Refuse);
    }
}

/// Over all calls through one surface the operator is warned once, at the first;
/// the daemon is told again and again until it has taken a report, and then no
/// more.
pub proof fn law_a_surface_warns_once_and_reports_until_taken(
    surface: UninterposedSurface,
    token: bool,
    taken: bool,
)
    ensures
        ({
            let noted = UninterposedSurface { warned: true, ..surface };
            let after = UninterposedSurface { reported: surface.reported || taken, ..noted };
            &&& due(surface, token).warn <==> !surface.warned
            &&& !due(after, token).warn
            &&& due(surface, token).report <==> token && !surface.reported
            &&& due(after, token).report <==> token && !surface.reported && !taken
        }),
        disposition(true, taken) == SurfaceDisposition::Refuse(5),
        disposition(false, false) == SurfaceDisposition::Refuse(5),
        disposition(false, true) == SurfaceDisposition::Passthrough,
{
}

/// A workspace path is reported before an uninterposed surface may serve it; a
/// path elsewhere goes through; what could not be placed is refused, and a bad
/// descriptor is bad.
pub proof fn law_a_surface_reports_exactly_workspace_paths(path: Seq<u8>, root: Option<Seq<u8>>)
    ensures
        host_path::owned(path, root) ==> surface_plan(host_path::Resolution::Resolved(path), root)
            == Planned::Report(path),
        !host_path::owned(path, root) ==> surface_plan(
            host_path::Resolution::Resolved(path),
            root,
        ) == Planned::Settled(SurfaceDisposition::Passthrough),
        surface_plan(host_path::Resolution::Passthrough, root) == Planned::Settled(
            SurfaceDisposition::Passthrough,
        ),
        surface_plan(host_path::Resolution::Refused, root) == Planned::Settled(
            SurfaceDisposition::Refuse(5),
        ),
        surface_plan(host_path::Resolution::InvalidDescriptor, root) == Planned::Settled(
            SurfaceDisposition::Refuse(9),
        ),
{
}

/// The first root that is refused decides how a walk is refused.
pub proof fn law_a_walk_fails_as_its_first_refused_root(
    before: Seq<SurfaceDisposition>,
    errno: i32,
    after: Seq<SurfaceDisposition>,
)
    requires
        forall|i: int| 0 <= i < before.len() ==> (#[trigger] before[i]) is Passthrough,
    ensures
        walk_verdict(before + seq![SurfaceDisposition::Refuse(errno)] + after)
            == SurfaceDisposition::Refuse(errno),
    decreases before.len(),
{
    let roots = before + seq![SurfaceDisposition::Refuse(errno)] + after;
    if before.len() > 0 {
        assert(before[0] is Passthrough);
        assert(roots.drop_first() =~= before.drop_first() + seq![SurfaceDisposition::Refuse(errno)]
            + after);
        law_a_walk_fails_as_its_first_refused_root(before.drop_first(), errno, after);
    }
}

/// A temporary of a file is stale wherever it was left, whichever process made
/// it; a file of another name is none.
pub proof fn law_every_temporary_of_a_file_is_stale(name: Seq<u8>, pid: i32, other: Seq<u8>)
    ensures
        stale(pathmap::temp_path_of(name, pid as int), name),
        !name.is_prefix_of(other) ==> !stale(other, name),
        !stale(name, name),
{
    let temp = pathmap::temp_path_of(name, pid as int);
    let start = name + pathmap::temp_marker();
    assert(start =~= temp.subrange(0, start.len() as int));
    if start.is_prefix_of(other) {
        assert(name =~= other.subrange(0, name.len() as int)) by {
            assert forall|i: int| 0 <= i < name.len() implies name[i] == other[i] by {
                assert(start[i] == other.subrange(0, start.len() as int)[i]);
            }
        }
    }
    reveal_strlit(".kin_tmp_");
}

/// A hook inside a hook is not entered, so that its call goes straight to the
/// real function; once the outer one is left the next one is. What a success
/// leaves behind is the number that the host had on entry.
pub proof fn law_a_hook_does_not_answer_itself(errno: i32, inner: i32, later: i32)
    ensures
        entering(false, errno) == (true, Some(errno)),
        entering(entering(false, errno).0, inner) == (true, None::<i32>),
        entering(false, later).1 == Some(later),
{
}

/// A listing is placed by the link of its descriptor, where it has one.
pub proof fn law_a_listing_is_placed_by_its_link(fd: i32, path: Seq<u8>)
    requires
        path.len() > 0,
    ensures
        fd >= 0 ==> descriptor_path(fd, Some(path)) == Some(path),
        fd < 0 ==> descriptor_path(fd, Some(path)) is None,
        descriptor_path(fd, None) is None,
        descriptor_path(fd, Some(Seq::empty())) is None,
{
}

/// A report that was taken is latched, and one that was lost leaves the next
/// call free to try again; neither brings the warning back.
pub proof fn law_a_taken_report_is_not_repeated(surface: UninterposedSurface, token: bool)
    ensures
        due(acknowledged(noticed(surface), true), token).report == false,
        due(acknowledged(noticed(surface), false), token).report == due(surface, token).report,
        !due(acknowledged(noticed(surface), true), token).warn,
        !due(noticed(surface), token).warn,
        due(noticed(surface), token).report == due(surface, token).report,
{
}

} // verus!

//! What a failed graph answer is reported as.
//!
//! A graph-authority miss is never answered by the raw filesystem: every
//! failure class has an errno of its own.

use vstd::prelude::*;

use crate::client::ClientCallFailure;
use crate::graph_walk::GraphPathError;
use crate::sys::{
    EACCES, EINVAL, EIO, EISDIR, ELOOP, ENOENT, ENOTDIR, ENOTSUP, R_OK, W_OK, X_OK,
};
use crate::types::VirtualStat;

verus! {

/// The errno for "the graph does not hold this path": an absence, or under
/// strict mode a refusal.
pub open spec fn miss_errno(strict: bool) -> i32 {
    if strict {
        EIO
    } else {
        ENOENT
    }
}

/// The errno for a failed daemon call.
pub open spec fn failure_errno(failure: ClientCallFailure, strict: bool) -> i32 {
    match failure {
        ClientCallFailure::NoFailure | ClientCallFailure::NotFound => miss_errno(strict),
        ClientCallFailure::PermissionDenied => EACCES,
        ClientCallFailure::IsDirectory => EISDIR,
        ClientCallFailure::NotDirectory => ENOTDIR,
        ClientCallFailure::InvalidInput => EINVAL,
        ClientCallFailure::UnsupportedBoundary => ENOTSUP,
        ClientCallFailure::Unreachable | ClientCallFailure::Authority => EIO,
    }
}

/// The errno for a failed resolution.
pub open spec fn path_errno(error: GraphPathError, failure: ClientCallFailure, strict: bool) -> i32 {
    match error {
        GraphPathError::Authority => failure_errno(failure, strict),
        GraphPathError::MissingFinal | GraphPathError::MissingPrefix => miss_errno(strict),
        GraphPathError::InvalidSymlink => EINVAL,
        GraphPathError::SymlinkLoop => ELOOP,
        GraphPathError::OutsideWorkspace => EACCES,
        GraphPathError::NotDirectory => ENOTDIR,
    }
}

/// The errno for a definitive miss of a workspace path.
pub fn graph_miss_errno_in_mode(strict: bool) -> (r: i32)
    ensures
        r == miss_errno(strict),
{
    if strict {
        EIO
    } else {
        ENOENT
    }
}

/// The errno for a daemon call that failed.
pub fn graph_failure_errno_in_mode(failure: ClientCallFailure, strict: bool) -> (r: i32)
    ensures
        r == failure_errno(failure, strict),
{
    match failure {
        ClientCallFailure::NoFailure | ClientCallFailure::NotFound => graph_miss_errno_in_mode(strict),
        ClientCallFailure::PermissionDenied => EACCES,
        ClientCallFailure::IsDirectory => EISDIR,
        ClientCallFailure::NotDirectory => ENOTDIR,
        ClientCallFailure::InvalidInput => EINVAL,
        // The path exists, but its contents are not ours to serve.
        ClientCallFailure::UnsupportedBoundary => ENOTSUP,
        ClientCallFailure::Unreachable | ClientCallFailure::Authority => EIO,
    }
}

/// The errno for a resolution that failed; `failure` is that of the last
/// daemon call.
pub fn graph_path_errno(error: GraphPathError, failure: ClientCallFailure, strict: bool) -> (r: i32)
    ensures
        r == path_errno(error, failure, strict),
{
    match error {
        GraphPathError::Authority => graph_failure_errno_in_mode(failure, strict),
        GraphPathError::MissingFinal | GraphPathError::MissingPrefix => graph_miss_errno_in_mode(
            strict,
        ),
        GraphPathError::InvalidSymlink => EINVAL,
        GraphPathError::SymlinkLoop => ELOOP,
        GraphPathError::OutsideWorkspace => EACCES,
        GraphPathError::NotDirectory => ENOTDIR,
    }
}

/// Whether the permission bits grant what is requested to anyone.
pub open spec fn mode_allows(mode: u32, requested: i32) -> bool {
    &&& (requested & R_OK == 0 || mode & 0o444 != 0)
    &&& (requested & W_OK == 0 || mode & 0o222 != 0)
    &&& (requested & X_OK == 0 || mode & 0o111 != 0)
}

/// Whether an entry's permission bits grant what is requested.
pub fn graph_mode_allows(stat: &VirtualStat, requested: i32) -> (r: bool)
    ensures
        r == mode_allows(stat.mode, requested),
{
    (requested & R_OK == 0 || stat.mode & 0o444 != 0) && (requested & W_OK == 0 || stat.mode & 0o222
        != 0) && (requested & X_OK == 0 || stat.mode & 0o111 != 0)
}

/// No failed graph answer is success, and strict mode changes only what a
/// definitive miss is reported as.
pub proof fn law_strict_mode_hardens_only_the_miss(
    error: GraphPathError,
    failure: ClientCallFailure,
)
    ensures
        path_errno(error, failure, false) != 0 && path_errno(error, failure, true) != 0,
        failure_errno(failure, false) != 0 && failure_errno(failure, true) != 0,
        failure_errno(failure, true) != failure_errno(failure, false) ==> failure
            == ClientCallFailure::NoFailure || failure == ClientCallFailure::NotFound,
        path_errno(error, failure, true) != path_errno(error, failure, false) ==> {
            ||| error == GraphPathError::MissingFinal
            ||| error == GraphPathError::MissingPrefix
            ||| error == GraphPathError::Authority && (failure == ClientCallFailure::NoFailure || failure
                == ClientCallFailure::NotFound)
        },
        miss_errno(true) == EIO && miss_errno(false) == ENOENT,
{
}

/// A missing prefix and a missing last component are reported alike.
pub proof fn law_missing_prefix_reads_as_missing(failure: ClientCallFailure, strict: bool)
    ensures
        path_errno(GraphPathError::MissingPrefix, failure, strict) == path_errno(
            GraphPathError::MissingFinal,
            failure,
            strict,
        ),
        path_errno(GraphPathError::MissingFinal, failure, strict) == miss_errno(strict),
{
}

/// Every failure is reported with the number that the kernel gives it: what is
/// missing is missing, or an I/O error under strict mode; what is denied or
/// leads out of the workspace is denied; a directory, what is none, a loop of
/// links, what is invalid and what is unsupported each have their own; and what
/// was not answered at all is an I/O error, in either mode.
pub proof fn law_every_failure_has_its_number(failure: ClientCallFailure, strict: bool)
    ensures
        miss_errno(false) == 2 && miss_errno(true) == 5,
        failure_errno(ClientCallFailure::NotFound, strict) == miss_errno(strict),
        failure_errno(ClientCallFailure::NoFailure, strict) == miss_errno(strict),
        failure_errno(ClientCallFailure::PermissionDenied, strict) == 13,
        failure_errno(ClientCallFailure::IsDirectory, strict) == 21,
        failure_errno(ClientCallFailure::NotDirectory, strict) == 20,
        failure_errno(ClientCallFailure::InvalidInput, strict) == 22,
        failure_errno(ClientCallFailure::UnsupportedBoundary, strict) == 95,
        failure_errno(ClientCallFailure::Unreachable, strict) == 5,
        failure_errno(ClientCallFailure::Authority, strict) == 5,
        path_errno(GraphPathError::Authority, failure, strict) == failure_errno(failure, strict),
        path_errno(GraphPathError::MissingFinal, failure, strict) == miss_errno(strict),
        path_errno(GraphPathError::MissingPrefix, failure, strict) == miss_errno(strict),
        path_errno(GraphPathError::InvalidSymlink, failure, strict) == 22,
        path_errno(GraphPathError::SymlinkLoop, failure, strict) == 40,
        path_errno(GraphPathError::OutsideWorkspace, failure, strict) == 13,
        path_errno(GraphPathError::NotDirectory, failure, strict) == 20,
{
}

/// Access is granted where the owner, the group or others have the bit for each
/// permission that is asked for; existence alone is always granted.
pub proof fn law_access_is_granted_by_any_of_the_bits(mode: u32)
    ensures
        mode_allows(mode, 0),
        mode_allows(mode, 4) <==> mode & 0o400 != 0 || mode & 0o040 != 0 || mode & 0o004 != 0,
        mode_allows(mode, 2) <==> mode & 0o200 != 0 || mode & 0o020 != 0 || mode & 0o002 != 0,
        mode_allows(mode, 1) <==> mode & 0o100 != 0 || mode & 0o010 != 0 || mode & 0o001 != 0,
        mode_allows(mode, 6) <==> mode_allows(mode, 4) && mode_allows(mode, 2),
        mode_allows(mode, 5) <==> mode_allows(mode, 4) && mode_allows(mode, 1),
        mode_allows(mode, 3) <==> mode_allows(mode, 2) && mode_allows(mode, 1),
        mode_allows(mode, 7) <==> mode_allows(mode, 4) && mode_allows(mode, 2) && mode_allows(
            mode,
            1,
        ),
{
    assert(mode & 0o444 != 0 <==> mode & 0o400 != 0 || mode & 0o040 != 0 || mode & 0o004 != 0)
        by (bit_vector);
    assert(mode & 0o222 != 0 <==> mode & 0o200 != 0 || mode & 0o020 != 0 || mode & 0o002 != 0)
        by (bit_vector);
    assert(mode & 0o111 != 0 <==> mode & 0o100 != 0 || mode & 0o010 != 0 || mode & 0o001 != 0)
        by (bit_vector);
    assert(0i32 & 4i32 == 0 && 0i32 & 2i32 == 0 && 0i32 & 1i32 == 0 && 4i32 & 4i32 != 0 && 4i32
        & 2i32 == 0 && 4i32 & 1i32 == 0 && 2i32 & 4i32 == 0 && 2i32 & 2i32 != 0 && 2i32 & 1i32 == 0
        && 1i32 & 4i32 == 0 && 1i32 & 2i32 == 0 && 1i32 & 1i32 != 0) by (bit_vector);
    assert(6i32 & 4i32 != 0 && 6i32 & 2i32 != 0 && 6i32 & 1i32 == 0 && 5i32 & 4i32 != 0 && 5i32
        & 2i32 == 0 && 5i32 & 1i32 != 0 && 3i32 & 4i32 == 0 && 3i32 & 2i32 != 0 && 3i32 & 1i32 != 0
        && 7i32 & 4i32 != 0 && 7i32 & 2i32 != 0 && 7i32 & 1i32 != 0) by (bit_vector);
}

} // verus!

//! The export of one workspace: what each NFS operation asks of the workspace,
//! and what it answers.
//!
//! Each operation first decides, on the file numbers alone, what has to be asked
//! of the workspace's content; what comes back is then turned into the answer.
//! Without a write side every mutation is refused as on a read-only file system.

use vstd::prelude::*;

use crate::inodes;
use crate::inodes::{InodeTable, ROOT_ID};
use crate::pathmap;
use crate::pathmap::{noise, parent_dir};
use crate::readdir;
use crate::readdir::{list_directory, ListedEntry};
use crate::types::{DirEntry, VirtualStat};
use crate::vfs_path;
use crate::vfs_path::{VfsName, VfsPath};

verus! {

/// The status of a refused operation.
#[derive(Debug, Clone, Copy, PartialEq, Eq, Structural)]
pub enum NfsStatus {
    /// No such entry.
    NoEnt,
    /// I/O error.
    Io,
    /// Access denied.
    Acces,
    /// A move across workspaces.
    XDev,
    /// Not a directory.
    NotDir,
    /// A directory.
    IsDir,
    /// Invalid argument.
    Inval,
    /// Read-only.
    RoFs,
    /// The file number stands for nothing.
    Stale,
    /// Not supported.
    NotSupp,
}

/// Why the content of a workspace could not be had.
#[derive(Debug, Clone, Copy, PartialEq, Eq, Structural)]
pub enum VfsError {
    NotFound,
    IsDirectory,
    NotDirectory,
    PermissionDenied,
    InvalidInput,
    /// The working copy holds a link that leads out of the repository.
    EscapesRoot,
    /// A nested repository.
    UnsupportedRepositoryBoundary,
    Io,
    Provider,
}

/// The status that an error is answered with.
pub open spec fn status_of(error: VfsError) -> NfsStatus {
    match error {
        VfsError::NotFound => NfsStatus::NoEnt,
        VfsError::IsDirectory => NfsStatus::IsDir,
        VfsError::NotDirectory => NfsStatus::NotDir,
        VfsError::PermissionDenied => NfsStatus::Acces,
        VfsError::InvalidInput => NfsStatus::Inval,
        VfsError::EscapesRoot => NfsStatus::Acces,
        VfsError::UnsupportedRepositoryBoundary => NfsStatus::NotSupp,
        VfsError::Io => NfsStatus::Io,
        VfsError::Provider => NfsStatus::Io,
    }
}

/// The status that an error is answered with. A path that leads out of the
/// repository is denied: no other spelling of it would help. A nested
/// repository is there, but its contents are not ours to serve.
pub fn map_err(error: VfsError) -> (r: NfsStatus)
    ensures
        r == status_of(error),
{
    match error {
        VfsError::NotFound => NfsStatus::NoEnt,
        VfsError::IsDirectory => NfsStatus::IsDir,
        VfsError::NotDirectory => NfsStatus::NotDir,
        VfsError::PermissionDenied => NfsStatus::Acces,
        VfsError::InvalidInput => NfsStatus::Inval,
        VfsError::EscapesRoot => NfsStatus::Acces,
        VfsError::UnsupportedRepositoryBoundary => NfsStatus::NotSupp,
        VfsError::Io => NfsStatus::Io,
        VfsError::Provider => NfsStatus::Io,
    }
}

/// The kind of a file.
#[derive(Debug, Clone, Copy, PartialEq, Eq, Structural)]
pub enum FileKind {
    Regular,
    Directory,
    Link,
}

/// The attributes of a file.
#[derive(Debug, Clone, Copy, PartialEq, Eq, Structural)]
pub struct FileAttributes {
    pub kind: FileKind,
    pub mode: u32,
    pub nlink: u32,
    pub uid: u32,
    pub gid: u32,
    pub size: u64,
    pub used: u64,
    pub fsid: u64,
    pub fileid: u64,
    /// Seconds since the epoch.
    pub atime: u32,
    pub mtime: u32,
    pub ctime: u32,
}

/// The attributes of an entry.
pub open spec fn attributes_of(stat: VirtualStat, id: u64, uid: u32, gid: u32) -> FileAttributes {
    FileAttributes {
        kind: if stat.is_symlink {
            FileKind::Link
        } else if stat.is_dir {
            FileKind::Directory
        } else {
            FileKind::Regular
        },
        mode: stat.mode,
        nlink: stat.nlink as u32,
        uid,
        gid,
        size: stat.size,
        used: stat.size,
        fsid: 1,
        fileid: id,
        atime: stat.mtime as u32,
        mtime: stat.mtime as u32,
        ctime: stat.ctime as u32,
    }
}

/// The export of one workspace.
#[derive(Debug)]
pub struct KinNfsFs {
    inodes: InodeTable,
    writable: bool,
    uid: u32,
    gid: u32,
}

/// What a lookup needs next.
#[derive(Debug)]
pub enum LookupPlan {
    /// Nothing: this is the number.
    Found(u64),
    /// Whether there is an entry at this path.
    Exists(VfsPath),
}

/// What a change of attributes needs next.
#[derive(Debug)]
pub enum SetattrPlan {
    /// Set the length of this file.
    SetLen { path: VfsPath, size: u64 },
    /// The attributes as they are: nothing but the length is kept.
    Stat(VfsPath),
}

/// The path of `name` in a directory, where it can be a name.
pub open spec fn child_of(parent: Seq<u8>, name: Seq<u8>) -> Result<Seq<u8>, NfsStatus> {
    if pathmap::is_name(name) {
        Ok(vfs_path::child_key(parent, name))
    } else {
        Err(NfsStatus::Inval)
    }
}

/// A result with a path, over bytes.
pub open spec fn path_result(r: Result<VfsPath, NfsStatus>) -> Result<Seq<u8>, NfsStatus> {
    match r {
        Ok(p) => Ok(p@),
        Err(e) => Err(e),
    }
}

/// The path of `name` in a directory. The bytes that the client sent are never
/// re-encoded: another spelling would name another file.
pub fn child_path(parent: &VfsPath, name: &[u8]) -> (r: Result<VfsPath, NfsStatus>)
    ensures
        path_result(r) == child_of(parent@, name@),
{
    match VfsName::from_bytes(name) {
        Ok(component) => Ok(parent.join(&component)),
        Err(_) => Err(NfsStatus::Inval),
    }
}

/// The path that a number stands for.
pub open spec fn path_of(table: inodes::Inodes, id: u64) -> Result<Seq<u8>, NfsStatus> {
    if table.paths.contains_key(id) {
        Ok(table.paths[id])
    } else {
        Err(NfsStatus::Stale)
    }
}

/// The numbers, and that of the entry `name` in a directory, where there is such
/// an entry.
pub open spec fn looked_up(table: inodes::Inodes, dirid: u64, name: Seq<u8>) -> Result<
    (inodes::Inodes, u64),
    NfsStatus,
> {
    match path_of(table, dirid) {
        Err(e) => Err(e),
        Ok(directory) => if name == pathmap::dot() {
            Ok((table, dirid))
        } else if name == pathmap::dot_dot() {
            Ok(readdir::above(table, directory))
        } else {
            match child_of(directory, name) {
                Err(e) => Err(e),
                Ok(child) => Ok(inodes::assigning(table, child)),
            }
        },
    }
}

/// The path that a mutation in a directory is about.
pub open spec fn mutated(
    table: inodes::Inodes,
    writable: bool,
    dirid: u64,
    name: Seq<u8>,
) -> Result<Seq<u8>, NfsStatus> {
    if !writable {
        Err(NfsStatus::RoFs)
    } else {
        match path_of(table, dirid) {
            Ok(parent) => child_of(parent, name),
            Err(e) => Err(e),
        }
    }
}

/// The path that a write through a number is about.
pub open spec fn written(table: inodes::Inodes, writable: bool, id: u64) -> Result<
    Seq<u8>,
    NfsStatus,
> {
    if writable {
        path_of(table, id)
    } else {
        Err(NfsStatus::RoFs)
    }
}

/// The path whose attributes are changed through a number, and its new length,
/// where there is one.
pub open spec fn reshaped(table: inodes::Inodes, writable: bool, id: u64, size: Option<u64>) -> Result<
    (Seq<u8>, Option<u64>),
    NfsStatus,
> {
    match written(table, writable, id) {
        Ok(path) => Ok((path, size)),
        Err(e) => Err(e),
    }
}

/// A change of attributes, over bytes.
pub open spec fn reshape_result(r: Result<SetattrPlan, NfsStatus>) -> Result<
    (Seq<u8>, Option<u64>),
    NfsStatus,
> {
    match r {
        Ok(SetattrPlan::SetLen { path, size }) => Ok((path@, Some(size))),
        Ok(SetattrPlan::Stat(path)) => Ok((path@, None)),
        Err(e) => Err(e),
    }
}

/// The two paths that a rename is about.
pub open spec fn moved(
    table: inodes::Inodes,
    writable: bool,
    from_dirid: u64,
    from: Seq<u8>,
    to_dirid: u64,
    to: Seq<u8>,
) -> Result<(Seq<u8>, Seq<u8>), NfsStatus> {
    match (mutated(table, writable, from_dirid, from), mutated(table, writable, to_dirid, to)) {
        (Err(e), _) => Err(e),
        (_, Err(e)) => Err(e),
        (Ok(source), Ok(target)) => Ok((source, target)),
    }
}

/// A rename, over bytes.
pub open spec fn move_result(r: Result<(VfsPath, VfsPath), NfsStatus>) -> Result<
    (Seq<u8>, Seq<u8>),
    NfsStatus,
> {
    match r {
        Ok((source, target)) => Ok((source@, target@)),
        Err(e) => Err(e),
    }
}

/// The numbers after a lookup, and its answer.
pub open spec fn lookup_ended(
    table: inodes::Inodes,
    child: Seq<u8>,
    exists_there: Result<bool, VfsError>,
) -> (inodes::Inodes, Result<u64, NfsStatus>) {
    match exists_there {
        Ok(true) => {
            let (after, id) = inodes::assigning(table, child);
            (after, Ok(id))
        },
        Ok(false) => (table, Err(NfsStatus::NoEnt)),
        Err(e) => (table, Err(status_of(e))),
    }
}

/// The numbers after a creation, and its answer.
pub open spec fn creation_ended(
    table: inodes::Inodes,
    child: Seq<u8>,
    staged: Result<VirtualStat, VfsError>,
    uid: u32,
    gid: u32,
) -> (inodes::Inodes, Result<(u64, FileAttributes), NfsStatus>) {
    match staged {
        Ok(stat) => {
            let (after, id) = inodes::assigning(table, child);
            (after, Ok((id, attributes_of(stat, id, uid, gid))))
        },
        Err(e) => (table, Err(status_of(e))),
    }
}

/// The numbers after a rename, and its answer.
pub open spec fn move_ended(
    table: inodes::Inodes,
    from: Seq<u8>,
    to: Seq<u8>,
    renamed: Result<(), VfsError>,
) -> (inodes::Inodes, Result<(), NfsStatus>) {
    match renamed {
        Ok(_) => (inodes::renaming(table, from, to), Ok(())),
        Err(e) => (table, Err(status_of(e))),
    }
}

/// The answer to a read of `count` bytes, and whether it ends the file.
pub open spec fn read_answer(count: u32, data: Result<Seq<u8>, VfsError>) -> Result<
    (Seq<u8>, bool),
    NfsStatus,
> {
    match data {
        Ok(d) => Ok((d, d.len() < count)),
        Err(e) => Err(status_of(e)),
    }
}

impl KinNfsFs {
    /// The file numbers.
    pub closed spec fn numbers(&self) -> inodes::Inodes {
        self.inodes@
    }

    /// Whether there is a write side.
    pub closed spec fn takes_writes(&self) -> bool {
        self.writable
    }

    /// The owner that is reported.
    pub closed spec fn owner(&self) -> (u32, u32) {
        (self.uid, self.gid)
    }

    /// What holds of the export at every point: the numbers are in order, and
    /// the root has its own.
    pub closed spec fn well_formed(&self) -> bool {
        self.inodes.well_formed() && inodes::stands_for(self.inodes@, ROOT_ID, Seq::empty())
    }

    /// What the invariant says of the numbers.
    pub proof fn lemma_well_formed(&self)
        requires
            self.well_formed(),
        ensures
            inodes::well_formed(self.numbers()),
            inodes::stands_for(self.numbers(), ROOT_ID, Seq::empty()),
    {
        self.inodes.lemma_well_formed();
    }

    /// Whether everything but the numbers is as it was.
    pub open spec fn same_export(&self, other: &KinNfsFs) -> bool {
        self.takes_writes() == other.takes_writes() && self.owner() == other.owner()
    }

    /// An export with a write side, or without one.
    pub fn new(writable: bool, uid: u32, gid: u32) -> (r: KinNfsFs)
        ensures
            r.well_formed(),
            r.takes_writes() == writable,
            r.owner() == (uid, gid),
            r.numbers().next_id == 2,
            r.numbers().paths == Map::<u64, Seq<u8>>::empty().insert(
                ROOT_ID,
                Seq::<u8>::empty(),
            ),
    {
        KinNfsFs { inodes: InodeTable::new(), writable, uid, gid }
    }

    /// Whether the export takes writes: asked before each of them.
    pub fn capabilities(&self) -> (r: bool)
        ensures
            r == self.takes_writes(),
    {
        self.writable
    }

    /// The number of the root directory.
    pub fn root_dir(&self) -> (r: u64)
        ensures
            r == ROOT_ID,
    {
        ROOT_ID
    }

    /// The number that is assigned next.
    pub fn next_id(&self) -> (r: u64)
        ensures
            r == self.numbers().next_id,
    {
        self.inodes.next_id()
    }

    /// The number of a path; it gets the next one where it has none.
    fn number(&mut self, path: &VfsPath) -> (r: u64)
        requires
            old(self).well_formed(),
            inodes::number_of(old(self).numbers(), path@) is None ==> old(self).numbers().next_id
                < u64::MAX,
        ensures
            final(self).well_formed(),
            final(self).same_export(old(self)),
            (final(self).numbers(), r) == inodes::assigning(old(self).numbers(), path@),
    {
        proof {
            self.inodes.lemma_well_formed();
            inodes::law_numbers_are_stable(self.inodes@, path@, ROOT_ID);
        }
        self.inodes.get_or_assign(path)
    }

    /// Refuses a mutation where there is no write side.
    pub fn require_writer(&self) -> (r: Result<(), NfsStatus>)
        ensures
            r == if self.takes_writes() {
                Ok::<(), NfsStatus>(())
            } else {
                Err(NfsStatus::RoFs)
            },
    {
        if self.writable {
            Ok(())
        } else {
            Err(NfsStatus::RoFs)
        }
    }

    /// The path that a number stands for: to get attributes, to read, to read a
    /// link or to list.
    pub fn id_to_path(&self, id: u64) -> (r: Result<VfsPath, NfsStatus>)
        ensures
            path_result(r) == path_of(self.numbers(), id),
    {
        match self.inodes.get_path(id) {
            Some(path) => Ok(path),
            None => Err(NfsStatus::Stale),
        }
    }

    /// The attributes of an entry.
    pub fn stat_to_fattr(&self, stat: &VirtualStat, id: u64) -> (r: FileAttributes)
        ensures
            r == attributes_of(*stat, id, self.owner().0, self.owner().1),
    {
        FileAttributes {
            kind: if stat.is_symlink {
                FileKind::Link
            } else if stat.is_dir {
                FileKind::Directory
            } else {
                FileKind::Regular
            },
            mode: stat.mode,
            nlink: stat.nlink as u32,
            uid: self.uid,
            gid: self.gid,
            size: stat.size,
            used: stat.size,
            fsid: 1,
            fileid: id,
            atime: stat.mtime as u32,
            mtime: stat.mtime as u32,
            ctime: stat.ctime as u32,
        }
    }

    /// Begins a lookup of a name in a directory.
    pub fn begin_lookup(&mut self, dirid: u64, name: &[u8]) -> (r: Result<LookupPlan, NfsStatus>)
        requires
            old(self).well_formed(),
            old(self).numbers().next_id < u64::MAX,
        ensures
            final(self).well_formed(),
            final(self).same_export(old(self)),
            match path_of(old(self).numbers(), dirid) {
                Err(e) => r == Err::<LookupPlan, NfsStatus>(e)
                    && final(self).numbers() == old(self).numbers(),
                Ok(directory) => if name@ == pathmap::dot() {
                    r == Ok::<LookupPlan, NfsStatus>(LookupPlan::Found(dirid))
                        && final(self).numbers() == old(self).numbers()
                } else if name@ == pathmap::dot_dot() {
                    match vfs_path::parent_key(directory) {
                        None => r == Ok::<LookupPlan, NfsStatus>(LookupPlan::Found(ROOT_ID))
                            && final(self).numbers() == old(self).numbers(),
                        Some(parent) => {
                            let (numbers, id) = inodes::assigning(old(self).numbers(), parent);
                            r == Ok::<LookupPlan, NfsStatus>(LookupPlan::Found(id))
                                && final(self).numbers() == numbers
                        },
                    }
                } else {
                    &&& final(self).numbers() == old(self).numbers()
                    &&& match child_of(directory, name@) {
                        Err(e) => r == Err::<LookupPlan, NfsStatus>(e),
                        Ok(child) => r matches Ok(LookupPlan::Exists(p)) && p@ == child,
                    }
                },
            },
            looked_up(old(self).numbers(), dirid, name@) == match r {
                Ok(LookupPlan::Found(id)) => Ok((final(self).numbers(), id)),
                Ok(LookupPlan::Exists(child)) => Ok(
                    inodes::assigning(old(self).numbers(), child@),
                ),
                Err(e) => Err(e),
            },
    {
        let directory = match self.id_to_path(dirid) {
            Ok(path) => path,
            Err(e) => {
                return Err(e);
            },
        };
        if name.len() == 1 && noise(name) {
            return Ok(LookupPlan::Found(dirid));
        }
        if parent_dir(name) {
            return match directory.parent() {
                None => Ok(LookupPlan::Found(ROOT_ID)),
                Some(parent) => Ok(LookupPlan::Found(self.number(&parent))),
            };
        }
        match child_path(&directory, name) {
            Ok(child) => Ok(LookupPlan::Exists(child)),
            Err(e) => Err(e),
        }
    }

    /// Ends a lookup, now that it is known whether there is an entry.
    pub fn finish_lookup(&mut self, child: &VfsPath, exists_there: Result<bool, VfsError>) -> (r:
        Result<u64, NfsStatus>)
        requires
            old(self).well_formed(),
            old(self).numbers().next_id < u64::MAX,
        ensures
            final(self).well_formed(),
            final(self).same_export(old(self)),
            (final(self).numbers(), r) == lookup_ended(old(self).numbers(), child@, exists_there),
            match exists_there {
                Ok(true) => {
                    let (numbers, id) = inodes::assigning(old(self).numbers(), child@);
                    &&& r == Ok::<u64, NfsStatus>(id)
                    &&& final(self).numbers() == numbers
                },
                Ok(false) => r == Err::<u64, NfsStatus>(NfsStatus::NoEnt) && final(self).numbers()
                    == old(self).numbers(),
                Err(e) => r == Err::<u64, NfsStatus>(status_of(e))
                    && final(self).numbers() == old(self).numbers(),
            },
    {
        match exists_there {
            Ok(true) => Ok(self.number(child)),
            Ok(false) => Err(NfsStatus::NoEnt),
            Err(e) => Err(map_err(e)),
        }
    }

    /// Answers with the attributes of an entry.
    pub fn finish_attributes(&self, id: u64, stat: Result<VirtualStat, VfsError>) -> (r: Result<
        FileAttributes,
        NfsStatus,
    >)
        ensures
            r == match stat {
                Ok(s) => Ok::<FileAttributes, NfsStatus>(
                    attributes_of(s, id, self.owner().0, self.owner().1),
                ),
                Err(e) => Err(status_of(e)),
            },
    {
        match stat {
            Ok(s) => Ok(self.stat_to_fattr(&s, id)),
            Err(e) => Err(map_err(e)),
        }
    }

    /// Begins a change of attributes. Nothing but the length is a fact of the
    /// graph; anything else is answered with the attributes as they are.
    pub fn begin_setattr(&self, id: u64, size: Option<u64>) -> (r: Result<SetattrPlan, NfsStatus>)
        ensures
            reshape_result(r) == reshaped(self.numbers(), self.takes_writes(), id, size),
            if !self.takes_writes() {
                r == Err::<SetattrPlan, NfsStatus>(NfsStatus::RoFs)
            } else {
                match path_of(self.numbers(), id) {
                    Err(e) => r == Err::<SetattrPlan, NfsStatus>(e),
                    Ok(target) => match size {
                        Some(n) => r matches Ok(SetattrPlan::SetLen { path, size }) && path@
                            == target && size == n,
                        None => r matches Ok(SetattrPlan::Stat(path)) && path@ == target,
                    },
                }
            },
    {
        match self.require_writer() {
            Err(e) => {
                return Err(e);
            },
            Ok(_) => {},
        }
        match self.id_to_path(id) {
            Err(e) => Err(e),
            Ok(path) => match size {
                Some(size) => Ok(SetattrPlan::SetLen { path, size }),
                None => Ok(SetattrPlan::Stat(path)),
            },
        }
    }

    /// Answers a read: the data, and whether it ends the file. Less than was
    /// asked for means the end.
    pub fn finish_read(&self, count: u32, data: Result<Vec<u8>, VfsError>) -> (r: Result<
        (Vec<u8>, bool),
        NfsStatus,
    >)
        ensures
            match data {
                Ok(d) => r == Ok::<(Vec<u8>, bool), NfsStatus>((d, d@.len() < count)),
                Err(e) => r == Err::<(Vec<u8>, bool), NfsStatus>(status_of(e)),
            },
            (match r {
                Ok((d, end)) => Ok::<(Seq<u8>, bool), NfsStatus>((d@, end)),
                Err(e) => Err(e),
            }) == read_answer(
                count,
                match data {
                    Ok(d) => Ok(d@),
                    Err(e) => Err(e),
                },
            ),
    {
        match data {
            Ok(d) => {
                let end: bool = (d.len() as u64) < (count as u64);
                Ok((d, end))
            },
            Err(e) => Err(map_err(e)),
        }
    }

    /// Begins a write to a file: its path.
    pub fn begin_write(&self, id: u64) -> (r: Result<VfsPath, NfsStatus>)
        ensures
            path_result(r) == written(self.numbers(), self.takes_writes(), id),
            path_result(r) == if self.takes_writes() {
                path_of(self.numbers(), id)
            } else {
                Err(NfsStatus::RoFs)
            },
    {
        match self.require_writer() {
            Err(e) => Err(e),
            Ok(_) => self.id_to_path(id),
        }
    }

    /// Begins a mutation of a name in a directory: its path. For creating files
    /// and directories, and for removing them.
    pub fn begin_mutation(&self, dirid: u64, name: &[u8]) -> (r: Result<VfsPath, NfsStatus>)
        ensures
            path_result(r) == mutated(self.numbers(), self.takes_writes(), dirid, name@),
    {
        match self.require_writer() {
            Err(e) => {
                return Err(e);
            },
            Ok(_) => {},
        }
        match self.id_to_path(dirid) {
            Err(e) => Err(e),
            Ok(parent) => child_path(&parent, name),
        }
    }

    /// Ends the creation of a file or directory.
    pub fn finish_create(&mut self, child: &VfsPath, staged: Result<VirtualStat, VfsError>) -> (r:
        Result<(u64, FileAttributes), NfsStatus>)
        requires
            old(self).well_formed(),
            old(self).numbers().next_id < u64::MAX,
        ensures
            final(self).well_formed(),
            final(self).same_export(old(self)),
            (final(self).numbers(), r) == creation_ended(
                old(self).numbers(),
                child@,
                staged,
                old(self).owner().0,
                old(self).owner().1,
            ),
            match staged {
                Ok(stat) => {
                    let (numbers, id) = inodes::assigning(old(self).numbers(), child@);
                    &&& r == Ok::<(u64, FileAttributes), NfsStatus>(
                        (id, attributes_of(stat, id, old(self).owner().0, old(self).owner().1)),
                    )
                    &&& final(self).numbers() == numbers
                },
                Err(e) => r == Err::<(u64, FileAttributes), NfsStatus>(status_of(e))
                    && final(self).numbers() == old(self).numbers(),
            },
    {
        match staged {
            Ok(stat) => {
                let id: u64 = self.number(child);
                Ok((id, self.stat_to_fattr(&stat, id)))
            },
            Err(e) => Err(map_err(e)),
        }
    }

    /// Ends an exclusive creation.
    pub fn finish_create_exclusive(&mut self, child: &VfsPath, staged: Result<(), VfsError>) -> (r:
        Result<u64, NfsStatus>)
        requires
            old(self).well_formed(),
            old(self).numbers().next_id < u64::MAX,
        ensures
            final(self).well_formed(),
            final(self).same_export(old(self)),
            (final(self).numbers(), r) == lookup_ended(
                old(self).numbers(),
                child@,
                match staged {
                    Ok(_) => Ok(true),
                    Err(e) => Err(e),
                },
            ),
            match staged {
                Ok(_) => {
                    let (numbers, id) = inodes::assigning(old(self).numbers(), child@);
                    r == Ok::<u64, NfsStatus>(id) && final(self).numbers() == numbers
                },
                Err(e) => r == Err::<u64, NfsStatus>(status_of(e))
                    && final(self).numbers() == old(self).numbers(),
            },
    {
        match staged {
            Ok(_) => Ok(self.number(child)),
            Err(e) => Err(map_err(e)),
        }
    }

    /// Answers a removal. The number stays: whoever holds it learns from the
    /// content that nothing is there.
    pub fn finish_remove(&self, removed: Result<(), VfsError>) -> (r: Result<(), NfsStatus>)
        ensures
            r == match removed {
                Ok(_) => Ok::<(), NfsStatus>(()),
                Err(e) => Err(status_of(e)),
            },
    {
        match removed {
            Ok(_) => Ok(()),
            Err(e) => Err(map_err(e)),
        }
    }

    /// Begins a rename: both paths.
    pub fn begin_rename(&self, from_dirid: u64, from: &[u8], to_dirid: u64, to: &[u8]) -> (r: Result<
        (VfsPath, VfsPath),
        NfsStatus,
    >)
        ensures
            match mutated(self.numbers(), self.takes_writes(), from_dirid, from@) {
                Err(e) => r == Err::<(VfsPath, VfsPath), NfsStatus>(e),
                Ok(source) => match mutated(self.numbers(), self.takes_writes(), to_dirid, to@) {
                    Err(e) => r == Err::<(VfsPath, VfsPath), NfsStatus>(e),
                    Ok(target) => r matches Ok((a, b)) && a@ == source && b@ == target,
                },
            },
            r matches Ok((a, b)) ==> a@.len() > 0 && b@.len() > 0,
            move_result(r) == moved(
                self.numbers(),
                self.takes_writes(),
                from_dirid,
                from@,
                to_dirid,
                to@,
            ),
    {
        match self.begin_mutation(from_dirid, from) {
            Err(e) => Err(e),
            Ok(source) => match self.begin_mutation(to_dirid, to) {
                Err(e) => Err(e),
                Ok(target) => Ok((source, target)),
            },
        }
    }

    /// Ends a rename: the number moves with the file, so that a client that
    /// holds it finds the file where it now is. The root is no entry of a
    /// directory, so it is neither moved nor replaced.
    pub fn finish_rename(&mut self, from: &VfsPath, to: &VfsPath, renamed: Result<(), VfsError>) -> (r:
        Result<(), NfsStatus>)
        requires
            old(self).well_formed(),
            from@.len() > 0,
            to@.len() > 0,
        ensures
            final(self).well_formed(),
            final(self).same_export(old(self)),
            (final(self).numbers(), r) == move_ended(old(self).numbers(), from@, to@, renamed),
            match renamed {
                Ok(_) => r == Ok::<(), NfsStatus>(()) && final(self).numbers() == inodes::renaming(
                    old(self).numbers(),
                    from@,
                    to@,
                ),
                Err(e) => r == Err::<(), NfsStatus>(status_of(e))
                    && final(self).numbers() == old(self).numbers(),
            },
    {
        match renamed {
            Ok(_) => {
                proof {
                    let numbers = self.numbers();
                    self.inodes.lemma_well_formed();
                    inodes::law_a_rename_moves_the_number(numbers, from@, to@);
                    assert(numbers.paths[ROOT_ID] != from@ && numbers.paths[ROOT_ID] != to@);
                    assert(inodes::stands_for(numbers, ROOT_ID, Seq::empty()));
                    inodes::lemma_number_of(numbers, ROOT_ID, Seq::empty());
                }
                self.inodes.rename(from, to);
                Ok(())
            },
            Err(e) => Err(map_err(e)),
        }
    }

    /// Lists a directory, now that its children are known.
    pub fn list(&mut self, dirid: u64, directory: &VfsPath, entries: &Vec<DirEntry>) -> (r: Vec<
        ListedEntry,
    >)
        requires
            old(self).well_formed(),
            old(self).numbers().next_id + entries@.len() + 1 <= u64::MAX,
        ensures
            final(self).well_formed(),
            final(self).same_export(old(self)),
            (final(self).numbers(), readdir::listed_views(r@)) == readdir::listing(
                old(self).numbers(),
                dirid,
                directory@,
                readdir::names_of(entries@),
            ),
    {
        proof {
            self.inodes.lemma_well_formed();
            readdir::lemma_listing_keeps(
                self.numbers(),
                dirid,
                directory@,
                readdir::names_of(entries@),
                ROOT_ID,
                Seq::empty(),
            );
        }
        list_directory(&mut self.inodes, dirid, directory, entries)
    }

    /// Refuses to make a link: unsupported where there is a write side,
    /// read-only where there is none.
    pub fn symlink(&self) -> (r: NfsStatus)
        ensures
            r == if self.takes_writes() {
                NfsStatus::NotSupp
            } else {
                NfsStatus::RoFs
            },
    {
        if self.writable {
            NfsStatus::NotSupp
        } else {
            NfsStatus::RoFs
        }
    }

    /// Answers a readlink.
    pub fn finish_readlink(&self, target: Result<Vec<u8>, VfsError>) -> (r: Result<
        Vec<u8>,
        NfsStatus,
    >)
        ensures
            r == match target {
                Ok(t) => Ok::<Vec<u8>, NfsStatus>(t),
                Err(e) => Err(status_of(e)),
            },
    {
        match target {
            Ok(t) => Ok(t),
            Err(e) => Err(map_err(e)),
        }
    }
}

// ── Laws ────────────────────────────────────────────────────────────────

/// The first page of a known directory of an export, where the attributes of
/// every entry can be had: `.`, `..` and the children in order, as many as fit,
/// each with the number that a lookup of its name gives, also in its
/// attributes; `.` with that of the directory. Nothing is said to come behind
/// the page exactly where everything fits.
pub proof fn law_an_export_lists_a_directory_from_its_start(
    fs: &KinNfsFs,
    dirid: u64,
    directory: Seq<u8>,
    names: Seq<Seq<u8>>,
    max: nat,
    stats: spec_fn(Seq<u8>) -> VirtualStat,
)
    requires
        fs.well_formed(),
        fs.numbers().next_id + names.len() + 1 <= u64::MAX,
        path_of(fs.numbers(), dirid) == Ok::<Seq<u8>, NfsStatus>(directory),
        forall|i: int| 0 <= i < names.len() ==> pathmap::is_name(#[trigger] names[i]),
    ensures
        ({
            let (uid, gid) = fs.owner();
            let page = readdir::first_page(
                fs.numbers(),
                dirid,
                directory,
                names,
                max,
                stats,
                uid,
                gid,
            );
            &&& readdir::needed(page) is None
            &&& page.collected.len() == if max < names.len() + 2 {
                max
            } else {
                names.len() + 2
            }
            &&& max > 0 ==> page.collected[0].fileid == dirid
            &&& readdir::at_end(page) <==> max >= names.len() + 2
        }),
        forall|i: int|
            0 <= i < names.len() + 2 && i < max ==> #[trigger] readdir::rightly_listed(
                fs.numbers(),
                dirid,
                directory,
                names,
                max,
                stats,
                fs.owner().0,
                fs.owner().1,
                i,
            ),
{
    fs.lemma_well_formed();
    readdir::law_a_first_page_lists_the_directory(
        fs.numbers(),
        dirid,
        directory,
        names,
        max,
        stats,
        fs.owner().0,
        fs.owner().1,
    );
}

/// The attributes tell what the entry is: a link where it is one, a directory
/// where it is one and no link, else a regular file. They carry the number that
/// was asked about, the length both as size and as room in use, the reported
/// owner, and the times of the entry; it was last read when it was last
/// modified.
pub proof fn law_attributes_tell_what_the_entry_is(stat: VirtualStat, id: u64, uid: u32, gid: u32)
    ensures
        ({
            let a = attributes_of(stat, id, uid, gid);
            &&& a.kind == FileKind::Link <==> stat.is_symlink
            &&& a.kind == FileKind::Directory <==> stat.is_dir && !stat.is_symlink
            &&& a.kind == FileKind::Regular <==> !stat.is_dir && !stat.is_symlink
            &&& a.fileid == id && a.fsid == 1
            &&& a.size == stat.size && a.used == stat.size
            &&& a.uid == uid && a.gid == gid
            &&& a.mode == stat.mode
            &&& stat.nlink <= u32::MAX ==> a.nlink == stat.nlink
            &&& stat.mtime <= u32::MAX ==> a.mtime == stat.mtime && a.atime == stat.mtime
            &&& stat.ctime <= u32::MAX ==> a.ctime == stat.ctime
        }),
{
}

/// Every failure of the content is answered with a status that tells it apart:
/// what is missing, what is a directory, what is none, what is invalid, what is
/// denied, what is unsupported, and I/O for the rest. None of them is answered
/// as a read-only export or as a stale number.
pub proof fn law_every_failure_has_its_status(error: VfsError)
    ensures
        status_of(error) == NfsStatus::NoEnt <==> error == VfsError::NotFound,
        status_of(error) == NfsStatus::IsDir <==> error == VfsError::IsDirectory,
        status_of(error) == NfsStatus::NotDir <==> error == VfsError::NotDirectory,
        status_of(error) == NfsStatus::Inval <==> error == VfsError::InvalidInput,
        status_of(error) == NfsStatus::Acces <==> error == VfsError::PermissionDenied || error
            == VfsError::EscapesRoot,
        status_of(error) == NfsStatus::NotSupp <==> error
            == VfsError::UnsupportedRepositoryBoundary,
        status_of(error) == NfsStatus::Io <==> error == VfsError::Io || error
            == VfsError::Provider,
{
}

/// A lookup leads to the entry: the number that it gives stands for the path of
/// the name in the directory. `.` is the directory itself, `..` of what was
/// looked up is the directory again, and the root lies above itself. What can be
/// no name is invalid, and a number that stands for nothing is stale. Every
/// other number stands for what it stood for.
pub proof fn law_a_lookup_leads_to_the_entry(
    table: inodes::Inodes,
    dirid: u64,
    directory: Seq<u8>,
    name: Seq<u8>,
)
    requires
        inodes::well_formed(table),
        inodes::stands_for(table, ROOT_ID, Seq::empty()),
        table.next_id < u64::MAX,
        inodes::stands_for(table, dirid, directory),
        vfs_path::is_key(directory),
    ensures
        looked_up(table, dirid, seq![46u8]) == Ok::<(inodes::Inodes, u64), NfsStatus>(
            (table, dirid),
        ),
        looked_up(table, ROOT_ID, seq![46u8, 46u8]) == Ok::<(inodes::Inodes, u64), NfsStatus>(
            (table, ROOT_ID),
        ),
        name.len() == 0 || name.contains(47) || name.contains(0) ==> looked_up(table, dirid, name)
            == Err::<(inodes::Inodes, u64), NfsStatus>(NfsStatus::Inval),
        pathmap::is_name(name) ==> {
            let path = if directory.len() == 0 {
                name
            } else {
                directory + seq![47u8] + name
            };
            let (after, id) = looked_up(table, dirid, name)->Ok_0;
            &&& looked_up(table, dirid, name) is Ok
            &&& path_of(after, id) == Ok::<Seq<u8>, NfsStatus>(path)
            &&& looked_up(after, id, seq![46u8, 46u8]) == Ok::<(inodes::Inodes, u64), NfsStatus>(
                (after, dirid),
            )
            &&& looked_up(after, dirid, name) == Ok::<(inodes::Inodes, u64), NfsStatus>((after, id))
            &&& forall|other: u64|
                table.paths.contains_key(other) ==> #[trigger] path_of(after, other) == path_of(
                    table,
                    other,
                )
        },
        forall|stale: u64|
            !table.paths.contains_key(stale) ==> #[trigger] looked_up(table, stale, name) == Err::<
                (inodes::Inodes, u64),
                NfsStatus,
            >(NfsStatus::Stale),
{
    inodes::lemma_number_of(table, ROOT_ID, Seq::empty());
    inodes::lemma_number_of(table, dirid, directory);
    assert(pathmap::dot() =~= seq![46u8]);
    assert(pathmap::dot_dot() =~= seq![46u8, 46u8]);
    assert(seq![46u8][0] == 46u8);
    assert(seq![46u8, 46u8].len() == 2);
    if name.contains(47) || name.contains(0) {
        let i = choose|i: int| 0 <= i < name.len() && (name[i] == 47 || name[i] == 0);
        assert(name[i] != 46);
    }
    if pathmap::is_name(name) {
        let path = vfs_path::child_key(directory, name);
        assert(path =~= if directory.len() == 0 {
            name
        } else {
            directory + seq![47u8] + name
        });
        inodes::law_a_path_has_one_number(table, path);
        let (after, id) = inodes::assigning(table, path);
        assert(inodes::stands_for(after, id, path));
        vfs_path::lemma_child_key(directory, name);
        vfs_path::lemma_parent_key(path);
        assert(vfs_path::key_components(directory).push(name).drop_last()
            =~= vfs_path::key_components(directory));
        pathmap::lemma_join_split(directory);
        assert(pathmap::join(vfs_path::key_components(directory)) =~= directory);
        inodes::law_numbers_are_stable(table, path, dirid);
        inodes::lemma_number_of(after, dirid, directory);
        assert forall|other: u64| table.paths.contains_key(other) implies #[trigger] path_of(
            after,
            other,
        ) == path_of(table, other) by {
            inodes::law_numbers_are_stable(table, path, other);
        }
    }
}

/// Without a write side nothing is written, moved, made or removed: every such
/// operation is refused as on a read-only file system, before anything else is
/// looked at. With one, a mutation of a name in a directory is about the entry
/// that a lookup of the name leads to, a rename about the entries of both names
/// in their order, and a write or a change of attributes about the path of the
/// number.
pub proof fn law_a_mutation_is_about_the_entry_that_a_lookup_finds(
    table: inodes::Inodes,
    dirid: u64,
    name: Seq<u8>,
    other_dirid: u64,
    other: Seq<u8>,
    size: Option<u64>,
)
    requires
        inodes::well_formed(table),
        inodes::stands_for(table, ROOT_ID, Seq::empty()),
        table.next_id < u64::MAX,
        pathmap::is_name(name),
        pathmap::is_name(other),
    ensures
        mutated(table, false, dirid, name) == Err::<Seq<u8>, NfsStatus>(NfsStatus::RoFs),
        written(table, false, dirid) == Err::<Seq<u8>, NfsStatus>(NfsStatus::RoFs),
        reshaped(table, false, dirid, size) == Err::<(Seq<u8>, Option<u64>), NfsStatus>(
            NfsStatus::RoFs,
        ),
        moved(table, false, dirid, name, other_dirid, other) == Err::<
            (Seq<u8>, Seq<u8>),
            NfsStatus,
        >(NfsStatus::RoFs),
        match (looked_up(table, dirid, name), looked_up(table, other_dirid, other)) {
            (Ok((after, id)), Ok((others, other_id))) => {
                &&& mutated(table, true, dirid, name) == path_of(after, id)
                &&& moved(table, true, dirid, name, other_dirid, other) == Ok::<
                    (Seq<u8>, Seq<u8>),
                    NfsStatus,
                >((path_of(after, id)->Ok_0, path_of(others, other_id)->Ok_0))
            },
            (Err(e), _) => {
                &&& mutated(table, true, dirid, name) == Err::<Seq<u8>, NfsStatus>(e)
                &&& moved(table, true, dirid, name, other_dirid, other) == Err::<
                    (Seq<u8>, Seq<u8>),
                    NfsStatus,
                >(e)
            },
            (_, Err(e)) => moved(table, true, dirid, name, other_dirid, other) == Err::<
                (Seq<u8>, Seq<u8>),
                NfsStatus,
            >(e),
        },
        forall|id: u64, path: Seq<u8>| #[trigger]
            inodes::stands_for(table, id, path) ==> written(table, true, id) == Ok::<
                Seq<u8>,
                NfsStatus,
            >(path) && reshaped(table, true, id, size) == Ok::<
                (Seq<u8>, Option<u64>),
                NfsStatus,
            >((path, size)),
{
    if table.paths.contains_key(dirid) {
        let path = vfs_path::child_key(table.paths[dirid], name);
        inodes::law_a_path_has_one_number(table, path);
        let (after, id) = inodes::assigning(table, path);
        assert(inodes::stands_for(after, id, path));
    }
    if table.paths.contains_key(other_dirid) {
        let path = vfs_path::child_key(table.paths[other_dirid], other);
        inodes::law_a_path_has_one_number(table, path);
        let (after, id) = inodes::assigning(table, path);
        assert(inodes::stands_for(after, id, path));
    }
}

/// The bytes of a file that a read of `count` bytes at `offset` is given.
pub open spec fn bytes_at(content: Seq<u8>, offset: int, count: u32) -> Seq<u8> {
    content.subrange(
        offset,
        if offset + count <= content.len() {
            offset + count
        } else {
            content.len() as int
        },
    )
}

/// What comes of reading on from `offset` until an answer is said to end the
/// file, `count` bytes at a time.
pub open spec fn read_on(content: Seq<u8>, offset: int, count: u32) -> Seq<u8>
    decreases content.len() - offset,
{
    if 0 <= offset <= content.len() && count > 0 {
        match read_answer(count, Ok(bytes_at(content, offset, count))) {
            Ok((data, end)) => if end || offset + count > content.len() {
                data
            } else {
                data + read_on(content, offset + count, count)
            },
            Err(_) => Seq::empty(),
        }
    } else {
        Seq::empty()
    }
}

/// Reading a file on and on until it is said to end gives back the whole of it:
/// an answer ends the file exactly where less came than was asked for.
pub proof fn law_reading_to_the_end_gives_the_file(content: Seq<u8>, offset: int, count: u32)
    requires
        0 <= offset <= content.len(),
        count > 0,
    ensures
        read_on(content, offset, count) == content.subrange(offset, content.len() as int),
        read_answer(count, Ok(bytes_at(content, offset, count))) == Ok::<(Seq<u8>, bool), NfsStatus>(
            (bytes_at(content, offset, count), offset + count > content.len()),
        ),
    decreases content.len() - offset,
{
    if offset + count <= content.len() {
        law_reading_to_the_end_gives_the_file(content, offset + count, count);
        assert(bytes_at(content, offset, count) + content.subrange(
            offset + count,
            content.len() as int,
        ) =~= content.subrange(offset, content.len() as int));
    }
}

/// An entry that is there gets the number that stands for its path, and so does
/// one that was made, under whose number its attributes are then reported. What
/// is missing or failed changes no number, and is answered with its status.
pub proof fn law_an_entry_is_answered_under_its_own_number(
    table: inodes::Inodes,
    child: Seq<u8>,
    stat: VirtualStat,
    error: VfsError,
    uid: u32,
    gid: u32,
)
    requires
        inodes::well_formed(table),
        table.next_id < u64::MAX,
    ensures
        ({
            let (after, answer) = lookup_ended(table, child, Ok(true));
            answer is Ok && path_of(after, answer->Ok_0) == Ok::<Seq<u8>, NfsStatus>(child)
        }),
        lookup_ended(table, child, Ok(false)) == (table, Err::<u64, NfsStatus>(NfsStatus::NoEnt)),
        lookup_ended(table, child, Err(error)) == (table, Err::<u64, NfsStatus>(status_of(error))),
        ({
            let (after, answer) = creation_ended(table, child, Ok(stat), uid, gid);
            &&& answer is Ok
            &&& path_of(after, answer->Ok_0.0) == Ok::<Seq<u8>, NfsStatus>(child)
            &&& answer->Ok_0.1.fileid == answer->Ok_0.0
            &&& answer->Ok_0.1.size == stat.size
            &&& answer->Ok_0.1.uid == uid && answer->Ok_0.1.gid == gid
            &&& lookup_ended(after, child, Ok(true)) == (after, Ok::<u64, NfsStatus>(
                answer->Ok_0.0,
            ))
        }),
        creation_ended(table, child, Err(error), uid, gid) == (table, Err::<
            (u64, FileAttributes),
            NfsStatus,
        >(status_of(error))),
{
    inodes::law_a_path_has_one_number(table, child);
    let (after, id) = inodes::assigning(table, child);
    assert(inodes::stands_for(after, id, child));
}

/// A rename that went well moves the number with the file: whoever held the
/// number of the old path finds the new one. One that failed moves nothing.
pub proof fn law_a_rename_moves_the_number_only_where_it_went_well(
    table: inodes::Inodes,
    from: Seq<u8>,
    to: Seq<u8>,
    id: u64,
    error: VfsError,
)
    requires
        inodes::well_formed(table),
        inodes::stands_for(table, id, from),
    ensures
        move_ended(table, from, to, Ok(())).1 == Ok::<(), NfsStatus>(()),
        path_of(move_ended(table, from, to, Ok(())).0, id) == Ok::<Seq<u8>, NfsStatus>(to),
        move_ended(table, from, to, Err(error)) == (table, Err::<(), NfsStatus>(status_of(error))),
{
    inodes::lemma_number_of(table, id, from);
    inodes::law_a_rename_moves_the_number(table, from, to);
}

} // verus!

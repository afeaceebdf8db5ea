//! The export of every workspace: which workspace a file number belongs to, and
//! what the export's own root answers.
//!
//! Number 1 is the root, which lists the workspaces. The numbers from 2 on stand
//! for the workspaces in that listing. Each workspace that was opened has a
//! range of its own above those, so that its numbers are those of its own export
//! moved up by a fixed amount.

use vstd::prelude::*;
use vstd::string::StringSliceAdditionalSpecFns;

use crate::bytes::{bytes_eq, to_vec, DOT};
use crate::inodes;
use crate::nfs_fs::{FileAttributes, FileKind, KinNfsFs, NfsStatus};
use crate::pathmap;
use crate::pathmap::{noise, parent_dir};
use crate::readdir;
use crate::readdir::{ListedEntry, PageEntry};
use crate::registry;
use crate::registry::WorkspaceEntry;
use crate::text;
use crate::text::{chars_eq, chars_of};
use crate::vfs_path::VfsPath;

verus! {

/// How many numbers each workspace has.
pub const INODES_PER_WORKSPACE: u64 = 0x0000_0100_0000_0000;

/// The number of the export's root.
pub const ROOT_INODE: u64 = 1;

/// Where the range of the first workspace begins.
pub const WORKSPACE_BASE: u64 = 0x0010_0000;

/// How many ranges there are.
pub const MAX_SLOTS: u64 = 0x00ff_ffff;

/// Where the range of an opened workspace begins.
pub open spec fn offset_of(slot: int) -> int {
    WORKSPACE_BASE + slot * INODES_PER_WORKSPACE
}

/// What a number stands for.
#[derive(Debug, Clone, Copy, PartialEq, Eq, Structural)]
pub enum Place {
    /// The export's root.
    Root,
    /// A workspace in the root's listing.
    Workspace(usize),
    /// A number that is reserved for a workspace in the listing, and is not in
    /// use.
    Vacant,
    /// A file of an opened workspace, by its number there.
    Slot { slot: usize, local: u64 },
    /// Nothing.
    Stale,
}

/// What a number stands for, in an export of this many workspaces of which this
/// many were opened.
pub open spec fn place_of(workspaces: int, slots: int, id: u64) -> Place {
    if id == ROOT_INODE {
        Place::Root
    } else if 2 <= id < WORKSPACE_BASE {
        if id - 2 < workspaces {
            Place::Workspace((id - 2) as usize)
        } else {
            Place::Vacant
        }
    } else if id >= WORKSPACE_BASE && slots > (id - WORKSPACE_BASE) / (INODES_PER_WORKSPACE as int) {
        Place::Slot {
            slot: ((id - WORKSPACE_BASE) / INODES_PER_WORKSPACE as int) as usize,
            local: ((id - WORKSPACE_BASE) % INODES_PER_WORKSPACE as int) as u64,
        }
    } else {
        Place::Stale
    }
}

/// A directory in which something is to be changed.
#[derive(Debug, Clone, Copy, PartialEq, Eq, Structural)]
pub enum DirectoryRoute {
    /// The root of this workspace, which may have to be opened first.
    Workspace(usize),
    /// A directory of an opened workspace.
    Slot { slot: usize, local: u64 },
}

/// A file of an opened workspace.
#[derive(Debug, Clone, Copy, PartialEq, Eq, Structural)]
pub struct FileRoute {
    pub slot: usize,
    pub local: u64,
}

/// What a lookup is about.
#[derive(Debug, Clone, Copy, PartialEq, Eq, Structural)]
pub enum LookupRoute {
    /// This number.
    Found(u64),
    /// The root of this workspace, which may have to be opened first.
    WorkspaceRoot(usize),
    /// A name in the root of this workspace.
    InWorkspace(usize),
    /// A name in a directory of an opened workspace.
    InSlot { slot: usize, local: u64 },
}

/// Where attributes come from.
#[derive(Debug, Clone, Copy, PartialEq, Eq, Structural)]
pub enum AttributesRoute {
    /// The export's root.
    Root,
    /// The root of this workspace, reported under the number that was asked for.
    Workspace(usize),
    /// A file of an opened workspace.
    Slot { slot: usize, local: u64 },
}

/// Which directory is listed.
#[derive(Debug, Clone, Copy, PartialEq, Eq, Structural)]
pub enum ListRoute {
    /// The export's root.
    Root,
    /// The root of this workspace, as it stands below the export's root.
    Workspace(usize),
    /// A directory of an opened workspace.
    Slot { slot: usize, local: u64 },
}

/// Which directory is listed.
pub open spec fn list_route(place: Place) -> Result<ListRoute, NfsStatus> {
    match place {
        Place::Root => Ok(ListRoute::Root),
        Place::Workspace(index) => Ok(ListRoute::Workspace(index)),
        Place::Vacant => Err(NfsStatus::Stale),
        Place::Slot { slot, local } => Ok(ListRoute::Slot { slot, local }),
        Place::Stale => Err(NfsStatus::Stale),
    }
}

/// The same attributes under another number.
pub open spec fn renumbered(attributes: FileAttributes, id: u64) -> FileAttributes {
    FileAttributes { fileid: id, ..attributes }
}

/// What a file is read from.
pub open spec fn read_route(place: Place) -> Result<FileRoute, NfsStatus> {
    match place {
        Place::Slot { slot, local } => Ok(FileRoute { slot, local }),
        Place::Stale => Err(NfsStatus::Stale),
        _ => Err(NfsStatus::IsDir),
    }
}

/// What a file is written to. A read-only export says so before it looks at the
/// number.
pub open spec fn write_route(writable: bool, place: Place) -> Result<FileRoute, NfsStatus> {
    if !writable {
        Err(NfsStatus::RoFs)
    } else {
        read_route(place)
    }
}

/// Whose attributes are changed. The export's own directories have none that
/// could be.
pub open spec fn setattr_route(writable: bool, place: Place) -> Result<FileRoute, NfsStatus> {
    if !writable {
        Err(NfsStatus::RoFs)
    } else {
        match place {
            Place::Slot { slot, local } => Ok(FileRoute { slot, local }),
            Place::Stale => Err(NfsStatus::Stale),
            _ => Err(NfsStatus::RoFs),
        }
    }
}

/// Which link is read.
pub open spec fn readlink_route(place: Place) -> Result<FileRoute, NfsStatus> {
    match place {
        Place::Slot { slot, local } => Ok(FileRoute { slot, local }),
        Place::Stale => Err(NfsStatus::Stale),
        _ => Err(NfsStatus::Inval),
    }
}

/// In which directory something is changed. The root lists workspaces and holds
/// no files of its own.
pub open spec fn mutation_route(writable: bool, place: Place) -> Result<DirectoryRoute, NfsStatus> {
    if !writable {
        Err(NfsStatus::RoFs)
    } else {
        match place {
            Place::Root => Err(NfsStatus::RoFs),
            Place::Workspace(index) => Ok(DirectoryRoute::Workspace(index)),
            Place::Vacant => Err(NfsStatus::Stale),
            Place::Slot { slot, local } => Ok(DirectoryRoute::Slot { slot, local }),
            Place::Stale => Err(NfsStatus::Stale),
        }
    }
}

/// Where attributes come from.
pub open spec fn attributes_route(place: Place) -> Result<AttributesRoute, NfsStatus> {
    match place {
        Place::Root => Ok(AttributesRoute::Root),
        Place::Workspace(index) => Ok(AttributesRoute::Workspace(index)),
        Place::Vacant => Err(NfsStatus::Stale),
        Place::Slot { slot, local } => Ok(AttributesRoute::Slot { slot, local }),
        Place::Stale => Err(NfsStatus::Stale),
    }
}

/// The first workspace whose name is exactly these bytes; their number where
/// there is none. Names are compared as bytes: two names that differ only in
/// malformed text must not meet.
pub open spec fn workspace_named(entries: Seq<registry::Entry>, name: Seq<u8>) -> int
    decreases entries.len(),
{
    if entries.len() == 0 || vstd::utf8::encode_utf8(entries[0].name) == name {
        0
    } else {
        1 + workspace_named(entries.drop_first(), name)
    }
}

/// What a lookup is about.
pub open spec fn lookup_route(entries: Seq<registry::Entry>, place: Place, name: Seq<u8>) -> Result<
    LookupRoute,
    NfsStatus,
> {
    match place {
        Place::Root => if name == pathmap::dot() || name == pathmap::dot_dot() {
            Ok(LookupRoute::Found(ROOT_INODE))
        } else if workspace_named(entries, name) < entries.len() {
            Ok(LookupRoute::WorkspaceRoot(workspace_named(entries, name) as usize))
        } else {
            Err(NfsStatus::NoEnt)
        },
        Place::Workspace(index) => Ok(LookupRoute::InWorkspace(index)),
        Place::Vacant => Err(NfsStatus::Stale),
        Place::Slot { slot, local } => Ok(LookupRoute::InSlot { slot, local }),
        Place::Stale => Err(NfsStatus::Stale),
    }
}

/// An opened workspace.
#[derive(Debug)]
pub struct WorkspaceSlot {
    pub name: String,
    pub adapter: KinNfsFs,
}

/// An opened workspace: its name, and whether it takes writes.
pub struct Opened {
    pub name: Seq<char>,
    pub writes: bool,
}

/// How a workspace is reached.
#[derive(Debug, Clone, Copy, PartialEq, Eq, Structural)]
pub enum SlotPlan {
    /// It is open.
    Open(usize),
    /// This entry has to be opened.
    Create(usize),
}

/// The export of every workspace.
#[derive(Debug)]
pub struct KinNfsRouter {
    entries: Vec<WorkspaceEntry>,
    slots: Vec<WorkspaceSlot>,
    writable: bool,
    refusals: Vec<(String, String)>,
    uid: u32,
    gid: u32,
}

/// The position of the first opened workspace of this name; their number where
/// there is none.
pub open spec fn slot_named(slots: Seq<Opened>, name: Seq<char>) -> int
    decreases slots.len(),
{
    if slots.len() == 0 || slots[0].name == name {
        0
    } else {
        1 + slot_named(slots.drop_first(), name)
    }
}

/// The position of the first workspace of this name; their number where there
/// is none.
pub open spec fn entry_named(entries: Seq<registry::Entry>, name: Seq<char>) -> int
    decreases entries.len(),
{
    if entries.len() == 0 || entries[0].name == name {
        0
    } else {
        1 + entry_named(entries.drop_first(), name)
    }
}

/// The refusals, over character sequences.
pub open spec fn refusal_views(refusals: Seq<(String, String)>) -> Seq<(Seq<char>, Seq<char>)> {
    Seq::new(refusals.len(), |i: int| (refusals[i].0@, refusals[i].1@))
}

impl KinNfsRouter {
    /// The workspaces.
    pub closed spec fn workspaces(&self) -> Seq<registry::Entry> {
        registry::entry_views(self.entries@)
    }

    /// The opened workspaces.
    pub closed spec fn opened(&self) -> Seq<Opened> {
        Seq::new(
            self.slots@.len(),
            |i: int|
                Opened { name: self.slots@[i].name@, writes: self.slots@[i].adapter.takes_writes() },
        )
    }

    /// The file numbers of an opened workspace.
    pub closed spec fn numbers(&self, slot: int) -> inodes::Inodes {
        self.slots@[slot].adapter.numbers()
    }

    /// Whether the export takes writes.
    pub closed spec fn takes_writes(&self) -> bool {
        self.writable
    }

    /// Which workspaces could not be opened for writing, and why.
    pub closed spec fn refused(&self) -> Seq<(Seq<char>, Seq<char>)> {
        refusal_views(self.refusals@)
    }

    /// The owner that is reported.
    pub closed spec fn owner(&self) -> (u32, u32) {
        (self.uid, self.gid)
    }

    /// What holds of the export at every point.
    pub closed spec fn well_formed(&self) -> bool {
        &&& self.slots@.len() <= MAX_SLOTS
        &&& forall|i: int|
            0 <= i < self.slots@.len() ==> (#[trigger] self.slots@[i]).adapter.well_formed()
    }

    /// What a number stands for.
    pub open spec fn place(&self, id: u64) -> Place {
        place_of(self.workspaces().len() as int, self.opened().len() as int, id)
    }

    /// A read-only export.
    pub fn new(entries: Vec<WorkspaceEntry>, uid: u32, gid: u32) -> (r: KinNfsRouter)
        ensures
            r.well_formed(),
            r.workspaces() == registry::entry_views(entries@),
            r.opened().len() == 0,
            r.refused().len() == 0,
            !r.takes_writes(),
            r.owner() == (uid, gid),
    {
        KinNfsRouter::with_writes(entries, false, uid, gid)
    }

    /// An export that takes writes, or does not. Decided here and not by what
    /// is opened: the question comes before anything was.
    pub fn with_writes(entries: Vec<WorkspaceEntry>, writable: bool, uid: u32, gid: u32) -> (r:
        KinNfsRouter)
        ensures
            r.well_formed(),
            r.workspaces() == registry::entry_views(entries@),
            r.opened().len() == 0,
            r.refused().len() == 0,
            r.takes_writes() == writable,
            r.owner() == (uid, gid),
    {
        KinNfsRouter { entries, slots: Vec::new(), writable, refusals: Vec::new(), uid, gid }
    }

    /// Whether the export takes writes.
    pub fn is_writable(&self) -> (r: bool)
        ensures
            r == self.takes_writes(),
    {
        self.writable
    }

    /// The number of the root.
    pub fn root_dir(&self) -> (r: u64)
        ensures
            r == ROOT_INODE,
    {
        ROOT_INODE
    }

    /// The workspaces.
    pub fn entries(&self) -> (r: &Vec<WorkspaceEntry>)
        ensures
            registry::entry_views(r@) == self.workspaces(),
    {
        &self.entries
    }

    /// The workspaces that could not be opened for writing, and why.
    pub fn refusals(&self) -> (r: &Vec<(String, String)>)
        ensures
            refusal_views(r@) == self.refused(),
    {
        &self.refusals
    }

    /// The names of the opened workspaces that take writes.
    pub fn writing(&self) -> (r: Vec<String>)
        ensures
            text::texts(r@) == writing_names(self.opened()),
    {
        let ghost all = self.opened();
        let mut out: Vec<String> = Vec::new();
        let mut i: usize = 0;
        assert(text::texts(out@) =~= writing_names(all.subrange(0, 0)));
        while i < self.slots.len()
            invariant
                i <= self.slots@.len(),
                all == self.opened(),
                text::texts(out@) == writing_names(all.subrange(0, i as int)),
            decreases self.slots@.len() - i,
        {
            let ghost before = text::texts(out@);
            assert(all.subrange(0, i + 1).drop_last() =~= all.subrange(0, i as int));
            assert(all.subrange(0, i + 1).last() == all[i as int]);
            if self.slots[i].adapter.capabilities() {
                out.push(self.slots[i].name.clone());
                assert(text::texts(out@) =~= before.push(all[i as int].name));
            }
            i = i + 1;
        }
        assert(all.subrange(0, all.len() as int) =~= all);
        out
    }

    /// How many workspaces are open.
    pub fn slot_count(&self) -> (r: usize)
        ensures
            r == self.opened().len(),
    {
        self.slots.len()
    }

    /// The opened workspace of this name.
    pub fn find_slot(&self, name: &str) -> (r: Option<usize>)
        ensures
            match r {
                Some(i) => i == slot_named(self.opened(), name@) && i < self.opened().len(),
                None => slot_named(self.opened(), name@) >= self.opened().len(),
            },
    {
        let wanted = chars_of(name);
        let ghost all = self.opened();
        let mut i: usize = 0;
        assert(all.subrange(0, all.len() as int) =~= all);
        while i < self.slots.len()
            invariant
                i <= self.slots@.len(),
                all == self.opened(),
                wanted@ == name@,
                slot_named(all, name@) == i + slot_named(
                    all.subrange(i as int, all.len() as int),
                    name@,
                ),
            decreases self.slots@.len() - i,
        {
            let ghost rest = all.subrange(i as int, all.len() as int);
            let held = chars_of(self.slots[i].name.as_str());
            assert(rest[0] == all[i as int]);
            if chars_eq(held.as_slice(), wanted.as_slice()) {
                return Some(i);
            }
            assert(rest.drop_first() =~= all.subrange(i + 1, all.len() as int));
            i = i + 1;
        }
        None
    }

    /// How a workspace in the root's listing is reached: by name, so that
    /// entries of one name share what was opened.
    pub fn get_or_create_slot(&self, index: usize) -> (r: SlotPlan)
        requires
            index < self.workspaces().len(),
        ensures
            ({
                let name = self.workspaces()[index as int].name;
                if slot_named(self.opened(), name) < self.opened().len() {
                    r == SlotPlan::Open(slot_named(self.opened(), name) as usize)
                } else {
                    r == SlotPlan::Create(entry_named(self.workspaces(), name) as usize)
                }
            }),
            r == slot_plan(self.workspaces(), self.opened(), index as int),
            r matches SlotPlan::Open(slot) ==> slot < self.opened().len(),
            r matches SlotPlan::Create(entry) ==> entry < self.workspaces().len(),
    {
        let ghost all = self.workspaces();
        assert(all[index as int].name == self.entries@[index as int].name@);
        match self.find_slot(self.entries[index].name.as_str()) {
            Some(slot) => SlotPlan::Open(slot),
            None => {
                let wanted = chars_of(self.entries[index].name.as_str());
                let mut i: usize = 0;
                assert(all.subrange(0, all.len() as int) =~= all);
                while i < index
                    invariant
                        i <= index < self.entries@.len(),
                        all == self.workspaces(),
                        wanted@ == all[index as int].name,
                        entry_named(all, wanted@) == i + entry_named(
                            all.subrange(i as int, all.len() as int),
                            wanted@,
                        ),
                        slot_named(self.opened(), wanted@) >= self.opened().len(),
                    decreases index - i,
                {
                    let ghost rest = all.subrange(i as int, all.len() as int);
                    let held = chars_of(self.entries[i].name.as_str());
                    assert(rest[0] == all[i as int]);
                    assert(all[i as int].name == held@);
                    if chars_eq(held.as_slice(), wanted.as_slice()) {
                        return SlotPlan::Create(i);
                    }
                    assert(rest.drop_first() =~= all.subrange(i + 1, all.len() as int));
                    i = i + 1;
                }
                assert(all.subrange(i as int, all.len() as int)[0] == all[index as int]);
                SlotPlan::Create(index)
            },
        }
    }

    /// Opens the workspace of an entry that is not open yet. `writer` says
    /// whether a write side could be made, and why not; it is not looked at in
    /// a read-only export. Without a write side the workspace is served
    /// read-only: writes that could not be admitted must not be taken.
    pub fn create_slot(&mut self, index: usize, writer: Result<(), String>) -> (r: usize)
        requires
            old(self).well_formed(),
            index < old(self).workspaces().len(),
            old(self).opened().len() < MAX_SLOTS,
        ensures
            final(self).well_formed(),
            final(self).workspaces() == old(self).workspaces(),
            final(self).takes_writes() == old(self).takes_writes(),
            final(self).owner() == old(self).owner(),
            r == old(self).opened().len(),
            final(self).opened() == old(self).opened().push(
                Opened {
                    name: old(self).workspaces()[index as int].name,
                    writes: old(self).takes_writes() && writer is Ok,
                },
            ),
            final(self).numbers(r as int).next_id == 2,
            final(self).numbers(r as int).paths == Map::<u64, Seq<u8>>::empty().insert(
                inodes::ROOT_ID,
                Seq::<u8>::empty(),
            ),
            forall|i: int|
                0 <= i < old(self).opened().len() ==> #[trigger] final(self).numbers(i) == old(
                    self,
                ).numbers(i),
            final(self).refused() == match writer {
                Err(reason) if old(self).takes_writes() => noted(
                    old(self).refused(),
                    old(self).workspaces()[index as int].name,
                    reason@,
                ),
                _ => old(self).refused(),
            },
    {
        let name = self.entries[index].name.clone();
        assert(self.workspaces()[index as int].name == name@);
        let taken: bool = match writer {
            Ok(_) => self.writable,
            Err(reason) => {
                if self.writable {
                    self.note_refusal(name.clone(), reason);
                }
                false
            },
        };
        let adapter = KinNfsFs::new(taken, self.uid, self.gid);
        let ghost before = self.opened();
        let at: usize = self.slots.len();
        let ghost held = name@;
        self.slots.push(WorkspaceSlot { name, adapter });
        assert(self.opened() =~= before.push(Opened { name: held, writes: taken }));
        at
    }

    /// Notes why a workspace could not be opened for writing; the last reason
    /// stands.
    fn note_refusal(&mut self, name: String, reason: String)
        requires
            old(self).well_formed(),
        ensures
            final(self).well_formed(),
            final(self).workspaces() == old(self).workspaces(),
            final(self).takes_writes() == old(self).takes_writes(),
            final(self).owner() == old(self).owner(),
            final(self).opened() == old(self).opened(),
            final(self).entries@ == old(self).entries@,
            final(self).slots@ == old(self).slots@,
            final(self).refused() == noted(old(self).refused(), name@, reason@),
    {
        let wanted = chars_of(name.as_str());
        let ghost all = self.refused();
        let ghost why = reason@;
        let mut i: usize = 0;
        let mut kept: Vec<(String, String)> = Vec::new();
        assert(refusal_views(kept@) =~= unnamed(all.subrange(0, 0), name@));
        while i < self.refusals.len()
            invariant
                i <= self.refusals@.len(),
                all == self.refused(),
                *self == *old(self),
                wanted@ == name@,
                refusal_views(kept@) == unnamed(all.subrange(0, i as int), name@),
            decreases self.refusals@.len() - i,
        {
            let ghost before = refusal_views(kept@);
            assert(all.subrange(0, i + 1).drop_last() =~= all.subrange(0, i as int));
            assert(all.subrange(0, i + 1).last() == all[i as int]);
            let held = chars_of(self.refusals[i].0.as_str());
            if !chars_eq(held.as_slice(), wanted.as_slice()) {
                kept.push((self.refusals[i].0.clone(), self.refusals[i].1.clone()));
                assert(refusal_views(kept@) =~= before.push(all[i as int]));
            }
            i = i + 1;
        }
        assert(all.subrange(0, all.len() as int) =~= all);
        let ghost before = refusal_views(kept@);
        let ghost held = name@;
        kept.push((name, reason));
        assert(refusal_views(kept@) =~= before.push((held, why)));
        self.refusals = kept;
        assert(self.opened() =~= old(self).opened());
    }

    /// Where the range of an opened workspace begins.
    pub fn slot_offset(&self, slot: usize) -> (r: u64)
        requires
            self.well_formed(),
            slot < self.opened().len(),
        ensures
            r == offset_of(slot as int),
    {
        let n: u64 = slot as u64;
        assert(n * INODES_PER_WORKSPACE <= 0x00ff_ffff * 0x0000_0100_0000_0000) by (nonlinear_arith)
            requires
                n <= 0x00ff_ffff,
                INODES_PER_WORKSPACE == 0x0000_0100_0000_0000,
        ;
        WORKSPACE_BASE + n * INODES_PER_WORKSPACE
    }

    /// What a number stands for.
    pub fn classify(&self, id: u64) -> (r: Place)
        requires
            self.well_formed(),
        ensures
            r == self.place(id),
    {
        if id == ROOT_INODE {
            return Place::Root;
        }
        if 2 <= id && id < WORKSPACE_BASE {
            let index: usize = (id - 2) as usize;
            if index < self.entries.len() {
                return Place::Workspace(index);
            }
            return Place::Vacant;
        }
        if id < WORKSPACE_BASE {
            return Place::Stale;
        }
        let slot: u64 = (id - WORKSPACE_BASE) / INODES_PER_WORKSPACE;
        if slot < self.slots.len() as u64 {
            Place::Slot {
                slot: slot as usize,
                local: (id - WORKSPACE_BASE) % INODES_PER_WORKSPACE,
            }
        } else {
            Place::Stale
        }
    }

    /// Refuses a mutation of a read-only export, whatever it is about.
    pub fn refuse_when_read_only(&self) -> (r: Result<(), NfsStatus>)
        ensures
            r == if self.takes_writes() {
                Ok::<(), NfsStatus>(())
            } else {
                Err(NfsStatus::RoFs)
            },
    {
        if self.writable {
            Ok(())
        } else {
            Err(NfsStatus::RoFs)
        }
    }

    /// The directory in which something is changed.
    pub fn workspace_dir(&self, dirid: u64) -> (r: Result<DirectoryRoute, NfsStatus>)
        requires
            self.well_formed(),
        ensures
            r == mutation_route(self.takes_writes(), self.place(dirid)),
    {
        match self.refuse_when_read_only() {
            Err(e) => {
                return Err(e);
            },
            Ok(_) => {},
        }
        match self.classify(dirid) {
            Place::Root => Err(NfsStatus::RoFs),
            Place::Workspace(index) => Ok(DirectoryRoute::Workspace(index)),
            Place::Vacant => Err(NfsStatus::Stale),
            Place::Slot { slot, local } => Ok(DirectoryRoute::Slot { slot, local }),
            Place::Stale => Err(NfsStatus::Stale),
        }
    }

    /// What is read.
    pub fn read(&self, id: u64) -> (r: Result<FileRoute, NfsStatus>)
        requires
            self.well_formed(),
        ensures
            r == read_route(self.place(id)),
    {
        match self.classify(id) {
            Place::Slot { slot, local } => Ok(FileRoute { slot, local }),
            Place::Stale => Err(NfsStatus::Stale),
            _ => Err(NfsStatus::IsDir),
        }
    }

    /// What is written.
    pub fn write(&self, id: u64) -> (r: Result<FileRoute, NfsStatus>)
        requires
            self.well_formed(),
        ensures
            r == write_route(self.takes_writes(), self.place(id)),
    {
        match self.refuse_when_read_only() {
            Err(e) => Err(e),
            Ok(_) => self.read(id),
        }
    }

    /// Whose attributes are changed.
    pub fn setattr(&self, id: u64) -> (r: Result<FileRoute, NfsStatus>)
        requires
            self.well_formed(),
        ensures
            r == setattr_route(self.takes_writes(), self.place(id)),
    {
        match self.refuse_when_read_only() {
            Err(e) => {
                return Err(e);
            },
            Ok(_) => {},
        }
        match self.classify(id) {
            Place::Slot { slot, local } => Ok(FileRoute { slot, local }),
            Place::Stale => Err(NfsStatus::Stale),
            _ => Err(NfsStatus::RoFs),
        }
    }

    /// Which link is read.
    pub fn readlink(&self, id: u64) -> (r: Result<FileRoute, NfsStatus>)
        requires
            self.well_formed(),
        ensures
            r == readlink_route(self.place(id)),
    {
        match self.classify(id) {
            Place::Slot { slot, local } => Ok(FileRoute { slot, local }),
            Place::Stale => Err(NfsStatus::Stale),
            _ => Err(NfsStatus::Inval),
        }
    }

    /// Refuses to make a link: unsupported on an export that takes writes,
    /// read-only on one that does not.
    pub fn symlink(&self) -> (r: NfsStatus)
        ensures
            r == if self.takes_writes() {
                NfsStatus::NotSupp
            } else {
                NfsStatus::RoFs
            },
    {
        if self.writable {
            NfsStatus::NotSupp
        } else {
            NfsStatus::RoFs
        }
    }

    /// Which directory is listed.
    pub fn readdir(&self, dirid: u64) -> (r: Result<ListRoute, NfsStatus>)
        requires
            self.well_formed(),
        ensures
            r == list_route(self.place(dirid)),
    {
        match self.classify(dirid) {
            Place::Root => Ok(ListRoute::Root),
            Place::Workspace(index) => Ok(ListRoute::Workspace(index)),
            Place::Vacant => Err(NfsStatus::Stale),
            Place::Slot { slot, local } => Ok(ListRoute::Slot { slot, local }),
            Place::Stale => Err(NfsStatus::Stale),
        }
    }

    /// Where attributes come from.
    pub fn getattr(&self, id: u64) -> (r: Result<AttributesRoute, NfsStatus>)
        requires
            self.well_formed(),
        ensures
            r == attributes_route(self.place(id)),
    {
        match self.classify(id) {
            Place::Root => Ok(AttributesRoute::Root),
            Place::Workspace(index) => Ok(AttributesRoute::Workspace(index)),
            Place::Vacant => Err(NfsStatus::Stale),
            Place::Slot { slot, local } => Ok(AttributesRoute::Slot { slot, local }),
            Place::Stale => Err(NfsStatus::Stale),
        }
    }

    /// The first workspace whose name is exactly these bytes.
    fn find_named(&self, name: &[u8]) -> (r: Option<usize>)
        ensures
            match r {
                Some(i) => i == workspace_named(self.workspaces(), name@) && i
                    < self.workspaces().len(),
                None => workspace_named(self.workspaces(), name@) >= self.workspaces().len(),
            },
    {
        let ghost all = self.workspaces();
        let mut i: usize = 0;
        assert(all.subrange(0, all.len() as int) =~= all);
        while i < self.entries.len()
            invariant
                i <= self.entries@.len(),
                all == self.workspaces(),
                workspace_named(all, name@) == i + workspace_named(
                    all.subrange(i as int, all.len() as int),
                    name@,
                ),
            decreases self.entries@.len() - i,
        {
            let ghost rest = all.subrange(i as int, all.len() as int);
            assert(rest[0] == all[i as int]);
            assert(all[i as int].name == self.entries@[i as int].name@);
            if bytes_eq(self.entries[i].name.as_str().as_bytes(), name) {
                return Some(i);
            }
            assert(rest.drop_first() =~= all.subrange(i + 1, all.len() as int));
            i = i + 1;
        }
        None
    }

    /// What a lookup is about.
    pub fn lookup(&self, dirid: u64, name: &[u8]) -> (r: Result<LookupRoute, NfsStatus>)
        requires
            self.well_formed(),
        ensures
            r == lookup_route(self.workspaces(), self.place(dirid), name@),
    {
        match self.classify(dirid) {
            Place::Root => {
                if (name.len() == 1 && noise(name)) || parent_dir(name) {
                    return Ok(LookupRoute::Found(ROOT_INODE));
                }
                match self.find_named(name) {
                    Some(index) => Ok(LookupRoute::WorkspaceRoot(index)),
                    None => Err(NfsStatus::NoEnt),
                }
            },
            Place::Workspace(index) => Ok(LookupRoute::InWorkspace(index)),
            Place::Vacant => Err(NfsStatus::Stale),
            Place::Slot { slot, local } => Ok(LookupRoute::InSlot { slot, local }),
            Place::Stale => Err(NfsStatus::Stale),
        }
    }

    /// Lets a rename go ahead within one workspace only: two workspaces are two
    /// repositories.
    pub fn rename(&self, from_slot: usize, to_slot: usize) -> (r: Result<(), NfsStatus>)
        ensures
            r == moved_within(from_slot, to_slot),
            r == if from_slot == to_slot {
                Ok::<(), NfsStatus>(())
            } else {
                Err(NfsStatus::XDev)
            },
    {
        if from_slot == to_slot {
            Ok(())
        } else {
            Err(NfsStatus::XDev)
        }
    }

    /// The attributes of the export's root at a time in seconds since the
    /// epoch.
    pub open spec fn root_attributes(&self, now: u64) -> FileAttributes {
        FileAttributes {
            kind: FileKind::Directory,
            mode: 0o755,
            nlink: (2 + self.workspaces().len()) as u32,
            uid: self.owner().0,
            gid: self.owner().1,
            size: 0,
            used: 0,
            fsid: 1,
            fileid: ROOT_INODE,
            atime: now as u32,
            mtime: now as u32,
            ctime: now as u32,
        }
    }

    /// The attributes of the export's root.
    pub fn root_attr(&self, now: u64) -> (r: FileAttributes)
        requires
            self.workspaces().len() + 2 <= u32::MAX,
        ensures
            r == self.root_attributes(now),
    {
        assert(self.workspaces().len() == self.entries@.len());
        FileAttributes {
            kind: FileKind::Directory,
            mode: 0o755,
            nlink: 2 + self.entries.len() as u32,
            uid: self.uid,
            gid: self.gid,
            size: 0,
            used: 0,
            fsid: 1,
            fileid: ROOT_INODE,
            atime: now as u32,
            mtime: now as u32,
            ctime: now as u32,
        }
    }

    /// The attributes under which an entry of the root's listing is reported: a
    /// workspace has those of its own root, as far as they could be had, and
    /// keeps its number either way.
    pub fn listed_attributes(&self, id: u64, answer: Option<FileAttributes>, now: u64) -> (r:
        FileAttributes)
        requires
            self.workspaces().len() + 2 <= u32::MAX,
        ensures
            r == shown_attributes(self.root_attributes(now), id, answer),
            r == match answer {
                Some(attributes) if id != ROOT_INODE => renumbered(attributes, id),
                _ => renumbered(self.root_attributes(now), id),
            },
    {
        let mut attributes = self.root_attr(now);
        if id != ROOT_INODE {
            match answer {
                Some(own) => {
                    attributes = own;
                },
                None => {},
            }
        }
        attributes.fileid = id;
        attributes
    }

    /// The number of a workspace in the root's listing; zero where there is no
    /// such workspace.
    pub fn workspace_root_inode(&self, name: &str) -> (r: u64)
        requires
            self.workspaces().len() < WORKSPACE_BASE,
        ensures
            r == listed_number(self.workspaces(), name@),
    {
        let wanted = chars_of(name);
        let ghost all = self.workspaces();
        let mut i: usize = 0;
        assert(all.subrange(0, all.len() as int) =~= all);
        while i < self.entries.len()
            invariant
                i <= self.entries@.len(),
                all == self.workspaces(),
                wanted@ == name@,
                all.len() < WORKSPACE_BASE,
                entry_named(all, name@) == i + entry_named(
                    all.subrange(i as int, all.len() as int),
                    name@,
                ),
            decreases self.entries@.len() - i,
        {
            let ghost rest = all.subrange(i as int, all.len() as int);
            let held = chars_of(self.entries[i].name.as_str());
            assert(rest[0] == all[i as int]);
            assert(all[i as int].name == held@);
            if chars_eq(held.as_slice(), wanted.as_slice()) {
                return i as u64 + 2;
            }
            assert(rest.drop_first() =~= all.subrange(i + 1, all.len() as int));
            i = i + 1;
        }
        0
    }

    /// The listing of the export's root.
    pub fn root_listing(&self) -> (r: Vec<ListedEntry>)
        requires
            self.workspaces().len() < WORKSPACE_BASE,
        ensures
            readdir::listed_views(r@) == root_listed(self.workspaces()),
    {
        let ghost all = self.workspaces();
        let dot: Vec<u8> = vec![DOT];
        let dots: Vec<u8> = vec![DOT, DOT];
        assert(dot@ =~= pathmap::dot());
        assert(dots@ =~= pathmap::dot_dot());
        let mut out: Vec<ListedEntry> = Vec::new();
        out.push(ListedEntry { id: ROOT_INODE, name: dot, path: VfsPath::root() });
        out.push(ListedEntry { id: ROOT_INODE, name: dots, path: VfsPath::root() });
        let mut i: usize = 0;
        while i < self.entries.len()
            invariant
                i <= self.entries@.len(),
                all == self.workspaces(),
                all.len() < WORKSPACE_BASE,
                out@.len() == i + 2,
                forall|j: int|
                    0 <= j < out@.len() ==> (#[trigger] out@[j])@ == root_listed(all)[j],
            decreases self.entries@.len() - i,
        {
            assert(all[i as int].name == self.entries@[i as int].name@);
            let id: u64 = self.workspace_root_inode(self.entries[i].name.as_str());
            let name = to_vec(self.entries[i].name.as_str().as_bytes());
            out.push(ListedEntry { id, name, path: VfsPath::root() });
            i = i + 1;
        }
        assert(readdir::listed_views(out@) =~= root_listed(all));
        out
    }

    /// An opened workspace's own export.
    pub fn adapter(&self, slot: usize) -> (r: &KinNfsFs)
        requires
            self.well_formed(),
            slot < self.opened().len(),
        ensures
            r.well_formed(),
            r.takes_writes() == self.opened()[slot as int].writes,
            r.numbers() == self.numbers(slot as int),
    {
        &self.slots[slot].adapter
    }

    /// Takes an opened workspace's own export out, to work on it.
    pub fn take_adapter(&mut self, slot: usize) -> (r: KinNfsFs)
        requires
            old(self).well_formed(),
            slot < old(self).opened().len(),
        ensures
            final(self).well_formed(),
            r.well_formed(),
            r.takes_writes() == old(self).opened()[slot as int].writes,
            r.numbers() == old(self).numbers(slot as int),
            forall|i: int|
                0 <= i < old(self).opened().len() && i != slot ==> #[trigger] final(self).numbers(i)
                    == old(self).numbers(i),
            final(self).workspaces() == old(self).workspaces(),
            final(self).takes_writes() == old(self).takes_writes(),
            final(self).owner() == old(self).owner(),
            final(self).refused() == old(self).refused(),
            final(self).opened() == old(self).opened(),
    {
        let ghost before = self.opened();
        let writes: bool = self.slots[slot].adapter.capabilities();
        let name = self.slots[slot].name.clone();
        let place = WorkspaceSlot { name, adapter: KinNfsFs::new(writes, self.uid, self.gid) };
        let held = self.slots.remove(slot);
        self.slots.insert(slot, place);
        assert(self.opened() =~= before);
        held.adapter
    }

    /// Puts an opened workspace's own export back.
    pub fn put_adapter(&mut self, slot: usize, adapter: KinNfsFs)
        requires
            old(self).well_formed(),
            slot < old(self).opened().len(),
            adapter.well_formed(),
            adapter.takes_writes() == old(self).opened()[slot as int].writes,
        ensures
            final(self).well_formed(),
            final(self).numbers(slot as int) == adapter.numbers(),
            forall|i: int|
                0 <= i < old(self).opened().len() && i != slot ==> #[trigger] final(self).numbers(i)
                    == old(self).numbers(i),
            final(self).workspaces() == old(self).workspaces(),
            final(self).takes_writes() == old(self).takes_writes(),
            final(self).owner() == old(self).owner(),
            final(self).refused() == old(self).refused(),
            final(self).opened() == old(self).opened(),
    {
        let ghost before = self.opened();
        let name = self.slots[slot].name.clone();
        let _ = self.slots.remove(slot);
        self.slots.insert(slot, WorkspaceSlot { name, adapter });
        assert(self.opened() =~= before);
    }
}

/// Whether a rename goes ahead.
pub open spec fn moved_within(from_slot: usize, to_slot: usize) -> Result<(), NfsStatus> {
    if from_slot == to_slot {
        Ok(())
    } else {
        Err(NfsStatus::XDev)
    }
}

/// Attributes under the number that the export knows the file by.
pub open spec fn reported_as(answer: Result<FileAttributes, NfsStatus>, id: u64) -> Result<
    FileAttributes,
    NfsStatus,
> {
    match answer {
        Ok(attributes) => Ok(renumbered(attributes, id)),
        Err(status) => Err(status),
    }
}

/// How a workspace in the root's listing is reached.
pub open spec fn slot_plan(entries: Seq<registry::Entry>, opened: Seq<Opened>, index: int) -> SlotPlan {
    let name = entries[index].name;
    if slot_named(opened, name) < opened.len() {
        SlotPlan::Open(slot_named(opened, name) as usize)
    } else {
        SlotPlan::Create(entry_named(entries, name) as usize)
    }
}

/// The attributes under which an entry of the root's listing is reported.
pub open spec fn shown_attributes(
    root: FileAttributes,
    id: u64,
    answer: Option<FileAttributes>,
) -> FileAttributes {
    match answer {
        Some(attributes) if id != ROOT_INODE => renumbered(attributes, id),
        _ => renumbered(root, id),
    }
}

/// The number in a workspace that a listing goes on behind.
pub open spec fn behind(start_after: u64, offset: u64) -> int {
    if start_after >= offset {
        start_after - offset
    } else {
        0
    }
}

/// The names of the opened workspaces that take writes.
pub open spec fn writing_names(slots: Seq<Opened>) -> Seq<Seq<char>>
    decreases slots.len(),
{
    if slots.len() == 0 {
        Seq::empty()
    } else if slots.last().writes {
        writing_names(slots.drop_last()).push(slots.last().name)
    } else {
        writing_names(slots.drop_last())
    }
}

/// The refusals without those of a name.
pub open spec fn unnamed(refusals: Seq<(Seq<char>, Seq<char>)>, name: Seq<char>) -> Seq<
    (Seq<char>, Seq<char>),
>
    decreases refusals.len(),
{
    if refusals.len() == 0 {
        Seq::empty()
    } else if refusals.last().0 == name {
        unnamed(refusals.drop_last(), name)
    } else {
        unnamed(refusals.drop_last(), name).push(refusals.last())
    }
}

/// The refusals with one more; the last reason for a name stands.
pub open spec fn noted(
    refusals: Seq<(Seq<char>, Seq<char>)>,
    name: Seq<char>,
    reason: Seq<char>,
) -> Seq<(Seq<char>, Seq<char>)> {
    unnamed(refusals, name).push((name, reason))
}

/// The number of a workspace in the root's listing; zero where there is no such
/// workspace.
pub open spec fn listed_number(entries: Seq<registry::Entry>, name: Seq<char>) -> int {
    if entry_named(entries, name) < entries.len() {
        entry_named(entries, name) + 2
    } else {
        0
    }
}

/// The listing of the export's root.
pub open spec fn root_listed(entries: Seq<registry::Entry>) -> Seq<readdir::Listed> {
    Seq::new(
        entries.len() + 2,
        |i: int|
            if i == 0 {
                readdir::Listed { id: ROOT_INODE, name: pathmap::dot(), path: Seq::empty() }
            } else if i == 1 {
                readdir::Listed { id: ROOT_INODE, name: pathmap::dot_dot(), path: Seq::empty() }
            } else {
                readdir::Listed {
                    id: listed_number(entries, entries[i - 2].name) as u64,
                    name: vstd::utf8::encode_utf8(entries[i - 2].name),
                    path: Seq::empty(),
                }
            },
    )
}

// ── Numbers across workspaces ───────────────────────────────────────────

/// Attributes that a workspace answered, under the number that the export knows
/// the file by.
pub fn report_as(answer: Result<FileAttributes, NfsStatus>, id: u64) -> (r: Result<
    FileAttributes,
    NfsStatus,
>)
    ensures
        r == reported_as(answer, id),
        r == match answer {
            Ok(attributes) => Ok::<FileAttributes, NfsStatus>(renumbered(attributes, id)),
            Err(status) => Err(status),
        },
{
    match answer {
        Ok(mut attributes) => {
            attributes.fileid = id;
            Ok(attributes)
        },
        Err(status) => Err(status),
    }
}

/// The number in the whole export of a file of an opened workspace.
pub open spec fn global_number(local: u64, offset: int) -> int {
    local + offset
}

/// The number in the whole export of a file of an opened workspace.
pub fn global_id(local: u64, offset: u64) -> (r: u64)
    requires
        local + offset <= u64::MAX,
    ensures
        r == global_number(local, offset as int),
        r == local + offset,
{
    local + offset
}

/// The number in a workspace that a listing goes on behind.
pub fn local_start(start_after: u64, offset: u64) -> (r: u64)
    ensures
        r == behind(start_after, offset),
        r == if start_after >= offset {
            start_after - offset
        } else {
            0
        },
{
    if start_after >= offset {
        start_after - offset
    } else {
        0
    }
}

/// An entry of a page with the numbers of the whole export. Seen from the
/// root's listing, a workspace lies below the root.
pub open spec fn translated(entry: readdir::Paged, offset: u64, below_root: bool) -> readdir::Paged {
    let up = below_root && entry.name == pathmap::dot_dot();
    readdir::Paged {
        fileid: if up {
            ROOT_INODE
        } else {
            (entry.fileid + offset) as u64
        },
        name: entry.name,
        attributes: FileAttributes {
            fileid: if up {
                ROOT_INODE
            } else {
                (entry.attributes.fileid + offset) as u64
            },
            ..entry.attributes
        },
    }
}

/// Gives the entries of a page the numbers of the whole export.
pub fn translate_page(entries: &Vec<PageEntry>, offset: u64, below_root: bool) -> (r: Vec<PageEntry>)
    requires
        forall|i: int|
            0 <= i < entries@.len() ==> (#[trigger] entries@[i]).fileid + offset <= u64::MAX
                && entries@[i].attributes.fileid + offset <= u64::MAX,
    ensures
        readdir::paged_views(r@) == Seq::new(
            entries@.len(),
            |i: int| translated(entries@[i]@, offset, below_root),
        ),
{
    let mut out: Vec<PageEntry> = Vec::new();
    let mut i: usize = 0;
    while i < entries.len()
        invariant
            i <= entries@.len(),
            forall|j: int|
                0 <= j < entries@.len() ==> (#[trigger] entries@[j]).fileid + offset <= u64::MAX
                    && entries@[j].attributes.fileid + offset <= u64::MAX,
            out@.len() == i,
            forall|j: int|
                0 <= j < i ==> (#[trigger] out@[j])@ == translated(
                    entries@[j]@,
                    offset,
                    below_root,
                ),
        decreases entries@.len() - i,
    {
        let name = to_vec(entries[i].name.as_slice());
        let mut attributes: FileAttributes = entries[i].attributes;
        let fileid: u64 = if below_root && parent_dir(name.as_slice()) {
            attributes.fileid = ROOT_INODE;
            ROOT_INODE
        } else {
            attributes.fileid = attributes.fileid + offset;
            entries[i].fileid + offset
        };
        out.push(PageEntry { fileid, name, attributes });
        i = i + 1;
    }
    assert(readdir::paged_views(out@) =~= Seq::new(
        entries@.len(),
        |i: int| translated(entries@[i]@, offset, below_root),
    ));
    out
}

// ── Laws ────────────────────────────────────────────────────────────────

/// A file of an opened workspace is found again under its number in the whole
/// export, and no two files of opened workspaces share one.
pub proof fn law_numbers_lead_back_to_their_workspace(
    workspaces: int,
    slots: int,
    slot: int,
    local: u64,
)
    requires
        0 <= slot < slots <= MAX_SLOTS,
        local < INODES_PER_WORKSPACE,
    ensures
        offset_of(slot) + local <= u64::MAX,
        place_of(workspaces, slots, (offset_of(slot) + local) as u64) == (Place::Slot {
            slot: slot as usize,
            local,
        }),
{
    let per = INODES_PER_WORKSPACE as int;
    assert(slot * per <= 0x00ff_fffe * per) by (nonlinear_arith)
        requires
            slot <= 0x00ff_fffe,
            per > 0,
    ;
    let distance = slot * per + local;
    assert(distance / per == slot && distance % per == local as int) by (nonlinear_arith)
        requires
            distance == slot * per + local,
            0 <= local < per,
            per > 0,
    ;
}

/// A read-only export refuses every mutation as read-only, whatever the number
/// stands for: it speaks of the export and not of the object.
pub proof fn law_a_read_only_export_refuses_every_mutation(place: Place)
    ensures
        write_route(false, place) == Err::<FileRoute, NfsStatus>(NfsStatus::RoFs),
        setattr_route(false, place) == Err::<FileRoute, NfsStatus>(NfsStatus::RoFs),
        mutation_route(false, place) == Err::<DirectoryRoute, NfsStatus>(NfsStatus::RoFs),
{
}

/// What the root lists can be used: the number of a workspace in the listing
/// leads to a workspace of that name.
pub proof fn law_listed_workspaces_can_be_reached(
    entries: Seq<registry::Entry>,
    slots: int,
    index: int,
)
    requires
        0 <= index < entries.len(),
        entries.len() + 2 <= WORKSPACE_BASE,
    ensures
        ({
            let id = root_listed(entries)[index + 2].id;
            &&& place_of(entries.len() as int, slots, id) matches Place::Workspace(found)
            &&& found < entries.len()
            &&& entries[found as int].name == entries[index].name
        }),
{
    lemma_entry_named(entries, index);
}

proof fn lemma_entry_named(entries: Seq<registry::Entry>, index: int)
    requires
        0 <= index < entries.len(),
    ensures
        0 <= entry_named(entries, entries[index].name) <= index,
        entries[entry_named(entries, entries[index].name)].name == entries[index].name,
    decreases entries.len(),
{
    if entries[0].name != entries[index].name {
        lemma_entry_named(entries.drop_first(), index - 1);
    }
}

/// A number of an opened workspace leads to that workspace, by the number that
/// the file has there, for every operation that the export admits.
pub proof fn law_files_are_routed_to_their_workspace(
    workspaces: int,
    slots: int,
    slot: int,
    local: u64,
    entries: Seq<registry::Entry>,
    name: Seq<u8>,
)
    requires
        0 <= slot < slots <= MAX_SLOTS,
        local < 0x100_0000_0000,
    ensures
        ({
            let id = (0x10_0000 + slot * 0x100_0000_0000 + local) as u64;
            let place = place_of(workspaces, slots, id);
            let file = FileRoute { slot: slot as usize, local };
            &&& id == 0x10_0000 + slot * 0x100_0000_0000 + local
            &&& read_route(place) == Ok::<FileRoute, NfsStatus>(file)
            &&& write_route(true, place) == Ok::<FileRoute, NfsStatus>(file)
            &&& setattr_route(true, place) == Ok::<FileRoute, NfsStatus>(file)
            &&& readlink_route(place) == Ok::<FileRoute, NfsStatus>(file)
            &&& mutation_route(true, place) == Ok::<DirectoryRoute, NfsStatus>(
                DirectoryRoute::Slot { slot: slot as usize, local },
            )
            &&& attributes_route(place) == Ok::<AttributesRoute, NfsStatus>(
                AttributesRoute::Slot { slot: slot as usize, local },
            )
            &&& list_route(place) == Ok::<ListRoute, NfsStatus>(
                ListRoute::Slot { slot: slot as usize, local },
            )
            &&& lookup_route(entries, place, name) == Ok::<LookupRoute, NfsStatus>(
                LookupRoute::InSlot { slot: slot as usize, local },
            )
        }),
{
    law_numbers_lead_back_to_their_workspace(workspaces, slots, slot, local);
}

/// The numbers from 2 on stand for the workspaces in the order of the listing:
/// they are directories, in which names are looked up, listed and changed as in
/// the root of that workspace, but nothing is read from or written to them, and
/// their attributes are not changed. The export's root is a directory too, in
/// which nothing is changed. A number that stands for nothing is stale.
pub proof fn law_directories_of_the_export_hold_no_files(
    workspaces: int,
    slots: int,
    index: int,
    id: u64,
)
    requires
        0 <= index < workspaces,
        workspaces + 2 <= WORKSPACE_BASE,
        0 <= slots <= MAX_SLOTS,
    ensures
        ({
            let place = place_of(workspaces, slots, (index + 2) as u64);
            &&& attributes_route(place) == Ok::<AttributesRoute, NfsStatus>(
                AttributesRoute::Workspace(index as usize),
            )
            &&& list_route(place) == Ok::<ListRoute, NfsStatus>(
                ListRoute::Workspace(index as usize),
            )
            &&& mutation_route(true, place) == Ok::<DirectoryRoute, NfsStatus>(
                DirectoryRoute::Workspace(index as usize),
            )
            &&& read_route(place) == Err::<FileRoute, NfsStatus>(NfsStatus::IsDir)
            &&& write_route(true, place) == Err::<FileRoute, NfsStatus>(NfsStatus::IsDir)
            &&& setattr_route(true, place) == Err::<FileRoute, NfsStatus>(NfsStatus::RoFs)
            &&& readlink_route(place) == Err::<FileRoute, NfsStatus>(NfsStatus::Inval)
        }),
        ({
            let root = place_of(workspaces, slots, 1);
            &&& attributes_route(root) == Ok::<AttributesRoute, NfsStatus>(AttributesRoute::Root)
            &&& list_route(root) == Ok::<ListRoute, NfsStatus>(ListRoute::Root)
            &&& mutation_route(true, root) == Err::<DirectoryRoute, NfsStatus>(NfsStatus::RoFs)
            &&& read_route(root) == Err::<FileRoute, NfsStatus>(NfsStatus::IsDir)
            &&& setattr_route(true, root) == Err::<FileRoute, NfsStatus>(NfsStatus::RoFs)
            &&& readlink_route(root) == Err::<FileRoute, NfsStatus>(NfsStatus::Inval)
        }),
        id == 0 || id >= 0x10_0000 + slots * 0x100_0000_0000 ==> {
            let nothing = place_of(workspaces, slots, id);
            &&& read_route(nothing) == Err::<FileRoute, NfsStatus>(NfsStatus::Stale)
            &&& write_route(true, nothing) == Err::<FileRoute, NfsStatus>(NfsStatus::Stale)
            &&& setattr_route(true, nothing) == Err::<FileRoute, NfsStatus>(NfsStatus::Stale)
            &&& readlink_route(nothing) == Err::<FileRoute, NfsStatus>(NfsStatus::Stale)
            &&& attributes_route(nothing) == Err::<AttributesRoute, NfsStatus>(NfsStatus::Stale)
            &&& list_route(nothing) == Err::<ListRoute, NfsStatus>(NfsStatus::Stale)
            &&& mutation_route(true, nothing) == Err::<DirectoryRoute, NfsStatus>(NfsStatus::Stale)
        },
{
}

proof fn lemma_workspace_named(entries: Seq<registry::Entry>, name: Seq<u8>)
    ensures
        0 <= workspace_named(entries, name) <= entries.len(),
        workspace_named(entries, name) < entries.len() ==> vstd::utf8::encode_utf8(
            entries[workspace_named(entries, name)].name,
        ) == name,
        forall|i: int|
            0 <= i < workspace_named(entries, name) ==> vstd::utf8::encode_utf8(
                (#[trigger] entries[i]).name,
            ) != name,
    decreases entries.len(),
{
    if entries.len() > 0 && vstd::utf8::encode_utf8(entries[0].name) != name {
        let rest = entries.drop_first();
        lemma_workspace_named(rest, name);
        let n = workspace_named(rest, name);
        assert(n < rest.len() ==> rest[n] == entries[n + 1]);
        assert forall|i: int| 0 <= i < workspace_named(entries, name) implies
            vstd::utf8::encode_utf8((#[trigger] entries[i]).name) != name by {
            if i > 0 {
                assert(entries[i] == rest[i - 1]);
            }
        }
    }
}

/// In the export's root a workspace is found by the bytes of its name, the first
/// of that name where several have it; `.` and `..` are the root itself, and any
/// other name is missing.
pub proof fn law_a_workspace_is_found_by_its_name(
    entries: Seq<registry::Entry>,
    name: Seq<u8>,
    index: int,
)
    requires
        entries.len() <= usize::MAX,
        name != seq![46u8],
        name != seq![46u8, 46u8],
    ensures
        lookup_route(entries, Place::Root, seq![46u8]) == Ok::<LookupRoute, NfsStatus>(
            LookupRoute::Found(1),
        ),
        lookup_route(entries, Place::Root, seq![46u8, 46u8]) == Ok::<LookupRoute, NfsStatus>(
            LookupRoute::Found(1),
        ),
        0 <= index < entries.len() && vstd::utf8::encode_utf8(entries[index].name) == name && (
        forall|i: int|
            0 <= i < index ==> vstd::utf8::encode_utf8((#[trigger] entries[i]).name) != name)
            ==> lookup_route(entries, Place::Root, name) == Ok::<LookupRoute, NfsStatus>(
            LookupRoute::WorkspaceRoot(index as usize),
        ),
        (forall|i: int|
            0 <= i < entries.len() ==> vstd::utf8::encode_utf8((#[trigger] entries[i]).name) != name)
            ==> lookup_route(entries, Place::Root, name) == Err::<LookupRoute, NfsStatus>(
            NfsStatus::NoEnt,
        ),
{
    lemma_workspace_named(entries, name);
    assert(pathmap::dot() =~= seq![46u8]);
    assert(pathmap::dot_dot() =~= seq![46u8, 46u8]);
}

/// A workspace is opened once: entries of one name are reached through one
/// opened workspace, and what has been opened for a name is what is then reached
/// by it.
pub proof fn law_a_workspace_is_opened_once(
    entries: Seq<registry::Entry>,
    opened: Seq<Opened>,
    index: int,
    other: int,
    writes: bool,
)
    requires
        0 <= index < entries.len() <= usize::MAX,
        0 <= other < entries.len(),
        entries[index].name == entries[other].name,
        opened.len() < usize::MAX,
    ensures
        slot_plan(entries, opened, index) == slot_plan(entries, opened, other),
        slot_plan(entries, opened, index) matches SlotPlan::Open(slot) ==> slot < opened.len()
            && opened[slot as int].name == entries[index].name,
        slot_plan(entries, opened, index) matches SlotPlan::Create(entry) ==> {
            &&& entry < entries.len()
            &&& entries[entry as int].name == entries[index].name
            &&& slot_plan(
                entries,
                opened.push(Opened { name: entries[entry as int].name, writes }),
                index,
            ) == SlotPlan::Open(opened.len() as usize)
        },
{
    let name = entries[index].name;
    lemma_entry_named(entries, index);
    lemma_slot_named(opened, name);
    let more = opened.push(Opened { name, writes });
    lemma_slot_named(more, name);
    if slot_named(opened, name) >= opened.len() {
        let n = slot_named(more, name);
        if n < opened.len() {
            assert(more[n] == opened[n]);
        }
        if n == more.len() {
            assert(more[opened.len() as int].name == name);
        }
    }
}

proof fn lemma_slot_named(slots: Seq<Opened>, name: Seq<char>)
    ensures
        0 <= slot_named(slots, name) <= slots.len(),
        slot_named(slots, name) < slots.len() ==> slots[slot_named(slots, name)].name == name,
        forall|i: int| 0 <= i < slot_named(slots, name) ==> (#[trigger] slots[i]).name != name,
    decreases slots.len(),
{
    if slots.len() > 0 && slots[0].name != name {
        let rest = slots.drop_first();
        lemma_slot_named(rest, name);
        let n = slot_named(rest, name);
        assert(n < rest.len() ==> rest[n] == slots[n + 1]);
        assert forall|i: int| 0 <= i < slot_named(slots, name) implies (#[trigger] slots[i]).name
            != name by {
            if i > 0 {
                assert(slots[i] == rest[i - 1]);
            }
        }
    }
}

/// Of the reasons for which a workspace could not be opened for writing the last
/// one stands, once; those of other workspaces stay.
pub proof fn law_the_last_refusal_stands(
    refusals: Seq<(Seq<char>, Seq<char>)>,
    name: Seq<char>,
    reason: Seq<char>,
    other: (Seq<char>, Seq<char>),
)
    requires
        other.0 != name,
    ensures
        noted(refusals, name, reason).last() == (name, reason),
        forall|i: int|
            0 <= i < noted(refusals, name, reason).len() - 1 ==> (#[trigger] noted(
                refusals,
                name,
                reason,
            )[i]).0 != name,
        noted(refusals, name, reason).contains(other) <==> refusals.contains(other),
{
    lemma_unnamed(refusals, name, other);
    let kept = unnamed(refusals, name);
    let all = kept.push((name, reason));
    assert(all.last() == (name, reason));
    assert forall|i: int| 0 <= i < all.len() - 1 implies (#[trigger] all[i]).0 != name by {
        assert(all[i] == kept[i]);
    }
    if kept.contains(other) {
        let i = choose|i: int| 0 <= i < kept.len() && kept[i] == other;
        assert(all[i] == other);
    }
    if all.contains(other) {
        let i = choose|i: int| 0 <= i < all.len() && all[i] == other;
        assert(i < kept.len());
        assert(kept[i] == other);
    }
}

proof fn lemma_unnamed(
    refusals: Seq<(Seq<char>, Seq<char>)>,
    name: Seq<char>,
    other: (Seq<char>, Seq<char>),
)
    requires
        other.0 != name,
    ensures
        forall|i: int|
            0 <= i < unnamed(refusals, name).len() ==> (#[trigger] unnamed(refusals, name)[i]).0
                != name,
        unnamed(refusals, name).contains(other) <==> refusals.contains(other),
    decreases refusals.len(),
{
    if refusals.len() > 0 {
        let front = refusals.drop_last();
        lemma_unnamed(front, name, other);
        let kept = unnamed(front, name);
        let all = unnamed(refusals, name);
        if refusals.contains(other) {
            let i = choose|i: int| 0 <= i < refusals.len() && refusals[i] == other;
            if i < front.len() {
                assert(front[i] == other);
                let k = choose|k: int| 0 <= k < kept.len() && kept[k] == other;
                assert(all[k] == other);
            } else {
                assert(all[all.len() - 1] == other);
            }
        }
        if all.contains(other) {
            let k = choose|k: int| 0 <= k < all.len() && all[k] == other;
            if k < kept.len() {
                assert(kept[k] == other);
                let i = choose|i: int| 0 <= i < front.len() && front[i] == other;
                assert(refusals[i] == other);
            } else {
                assert(refusals[refusals.len() - 1] == other);
            }
        }
    }
}

/// A page of a workspace is shown under the numbers of the whole export, each
/// moved up by where the workspace's range begins, in the entry and in its
/// attributes alike; only the entry above a workspace that is listed below the
/// export's root is that root. Nothing else of an entry changes, and a number
/// that was shown leads back to the one that it was shown for.
pub proof fn law_a_page_is_moved_into_the_range_of_its_workspace(
    entry: readdir::Paged,
    offset: u64,
    below_root: bool,
)
    requires
        entry.fileid + offset <= u64::MAX,
        entry.attributes.fileid + offset <= u64::MAX,
    ensures
        ({
            let shown = translated(entry, offset, below_root);
            &&& shown.name == entry.name
            &&& below_root && entry.name == seq![46u8, 46u8] ==> shown.fileid == 1
                && shown.attributes.fileid == 1
            &&& !(below_root && entry.name == seq![46u8, 46u8]) ==> {
                &&& shown.fileid == entry.fileid + offset
                &&& shown.attributes.fileid == entry.attributes.fileid + offset
                &&& behind(shown.fileid, offset) == entry.fileid
            }
            &&& shown.attributes.kind == entry.attributes.kind
            &&& shown.attributes.size == entry.attributes.size
            &&& shown.attributes.mode == entry.attributes.mode
            &&& shown.attributes.mtime == entry.attributes.mtime
        }),
        behind(0, offset) == 0,
{
    assert(pathmap::dot_dot() =~= seq![46u8, 46u8]);
}

/// The export's root is a directory that anyone may read, with a link for each
/// workspace besides its own two. A workspace in its listing has the attributes
/// of its own root under its number in the listing; where those cannot be had it
/// has those of the export's root, under that number still.
pub proof fn law_the_root_is_a_directory_of_workspaces(
    router: &KinNfsRouter,
    id: u64,
    attributes: FileAttributes,
    now: u64,
)
    requires
        router.workspaces().len() + 2 <= u32::MAX,
        now <= u32::MAX,
        id != 1,
    ensures
        ({
            let root = router.root_attributes(now);
            &&& root.kind == FileKind::Directory && root.mode == 0o755 && root.fileid == 1
            &&& root.nlink == 2 + router.workspaces().len()
            &&& root.uid == router.owner().0 && root.gid == router.owner().1
            &&& root.mtime == now && root.atime == now && root.ctime == now
            &&& shown_attributes(router.root_attributes(now), id, Some(attributes))
                == renumbered(attributes, id)
            &&& shown_attributes(router.root_attributes(now), id, Some(attributes)).fileid == id
            &&& shown_attributes(router.root_attributes(now), id, Some(attributes)).size
                == attributes.size
            &&& shown_attributes(router.root_attributes(now), id, Some(attributes)).kind
                == attributes.kind
            &&& shown_attributes(router.root_attributes(now), id, None).fileid == id
            &&& shown_attributes(router.root_attributes(now), id, None).kind
                == FileKind::Directory
            &&& shown_attributes(router.root_attributes(now), 1, Some(attributes)) == root
        }),
{
}

/// A rename goes ahead within one workspace, and across two it is answered as a
/// move between file systems.
pub proof fn law_a_rename_stays_in_its_workspace(from: usize, to: usize)
    ensures
        moved_within(from, to) is Ok <==> from == to,
        from != to ==> moved_within(from, to) == Err::<(), NfsStatus>(NfsStatus::XDev),
{
}

/// Attributes that a workspace answered are reported under the number that was
/// asked about, and a refusal as it came.
pub proof fn law_attributes_are_reported_under_the_number_asked(
    attributes: FileAttributes,
    status: NfsStatus,
    id: u64,
)
    ensures
        reported_as(Ok(attributes), id) is Ok,
        reported_as(Ok(attributes), id)->Ok_0.fileid == id,
        reported_as(Ok(attributes), id)->Ok_0.kind == attributes.kind,
        reported_as(Ok(attributes), id)->Ok_0.size == attributes.size,
        reported_as(Ok(attributes), id)->Ok_0.mode == attributes.mode,
        reported_as(Ok(attributes), id)->Ok_0.mtime == attributes.mtime,
        reported_as(Err(status), id) == Err::<FileAttributes, NfsStatus>(status),
{
}

/// The workspaces that take writes are named in the order in which they were
/// opened, and no others.
pub proof fn law_writing_workspaces_are_named_in_order(slots: Seq<Opened>, slot: Opened)
    ensures
        writing_names(slots.push(slot)) == if slot.writes {
            writing_names(slots).push(slot.name)
        } else {
            writing_names(slots)
        },
        writing_names(Seq::empty()) == Seq::<Seq<char>>::empty(),
{
    assert(slots.push(slot).drop_last() =~= slots);
}

/// The root lists itself, itself again as what lies above it, and then every
/// workspace in order, under the bytes of its name.
pub proof fn law_the_root_lists_every_workspace(entries: Seq<registry::Entry>, i: int)
    ensures
        root_listed(entries).len() == entries.len() + 2,
        root_listed(entries)[0].name == seq![46u8] && root_listed(entries)[0].id == 1,
        root_listed(entries)[1].name == seq![46u8, 46u8] && root_listed(entries)[1].id == 1,
        0 <= i < entries.len() ==> root_listed(entries)[i + 2].name == vstd::utf8::encode_utf8(
            entries[i].name,
        ),
{
    assert(pathmap::dot() =~= seq![46u8]);
    assert(pathmap::dot_dot() =~= seq![46u8, 46u8]);
}

/// A file that a workspace numbers so is found again under its number in the
/// whole export.
pub proof fn law_a_number_leads_back(workspaces: int, slots: int, slot: int, local: u64)
    requires
        0 <= slot < slots <= MAX_SLOTS,
        local < INODES_PER_WORKSPACE,
    ensures
        place_of(workspaces, slots, global_number(local, offset_of(slot)) as u64) == (Place::Slot {
            slot: slot as usize,
            local,
        }),
        behind(global_number(local, offset_of(slot)) as u64, offset_of(slot) as u64) == local,
{
    law_numbers_lead_back_to_their_workspace(workspaces, slots, slot, local);
}

} // verus!

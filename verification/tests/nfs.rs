use kin_vfs::inodes::{InodeTable, ROOT_ID};
use kin_vfs::nfs_fs::{
    child_path, map_err, FileAttributes, FileKind, KinNfsFs, LookupPlan, NfsStatus, SetattrPlan,
    VfsError,
};
use kin_vfs::readdir::{DirectoryPage, PageEntry};
use kin_vfs::types::{DirEntry, FileType, VirtualStat};
use kin_vfs::vfs_path::{VfsName, VfsPath};
use std::collections::{BTreeMap, BTreeSet};

/// Non-UTF8 repository path: `logs/x-<0xFF><0xFE>.log`.
const RAW_NAME: &[u8] = b"logs/x-\xff\xfe.log";

fn vpath(path: &str) -> VfsPath {
    VfsPath::from_bytes(path.as_bytes()).expect("valid test path")
}

fn vname(name: &[u8]) -> VfsName {
    VfsName::from_bytes(name).expect("valid test name")
}

fn regular_file(size: u64, executable: bool, mtime: u64) -> VirtualStat {
    VirtualStat {
        size,
        is_file: true,
        is_dir: false,
        is_symlink: false,
        mode: if executable { 0o755 } else { 0o644 },
        mtime,
        ctime: mtime,
        nlink: 1,
        content_hash: Some([0; 32]),
        object_id: None,
    }
}

fn symlink(size: u64, mtime: u64) -> VirtualStat {
    VirtualStat { is_file: false, is_symlink: true, mode: 0o777, ..regular_file(size, false, mtime) }
}

fn directory(mtime: u64) -> VirtualStat {
    VirtualStat {
        is_file: false,
        is_dir: true,
        mode: 0o755,
        nlink: 2,
        content_hash: None,
        ..regular_file(0, false, mtime)
    }
}

/// Minimal in-memory provider covering every artifact kind the export must
/// carry: source, an opaque lockfile, an executable, a symlink, a
/// non-UTF8 name, and a nested-repository boundary.
struct MemProvider {
    files: BTreeMap<Vec<u8>, Vec<u8>>,
}

impl MemProvider {
    fn new() -> Self {
        let mut files = BTreeMap::new();
        files.insert(b"hello.txt".to_vec(), b"Hello, NFS!".to_vec());
        files.insert(b"src/main.rs".to_vec(), b"fn main() {}".to_vec());
        files.insert(b"vendor.lock".to_vec(), b"opaque\x00lock".to_vec());
        files.insert(b"scripts/run".to_vec(), b"#!/bin/sh\n".to_vec());
        files.insert(b"current".to_vec(), b"src/main.rs".to_vec());
        files.insert(RAW_NAME.to_vec(), b"raw bytes".to_vec());
        Self { files }
    }

    fn is_dir(&self, path: &[u8]) -> bool {
        let prefix = [path, b"/"].concat();
        path.is_empty()
            // `vendor` holds only the synthetic gitlink below, so it has no
            // file key to derive from.
            || path == b"vendor"
            || self.files.keys().any(|candidate| candidate.starts_with(&prefix))
    }

    fn is_gitlink(path: &[u8]) -> bool {
        path == b"vendor/dep"
    }

    fn read_file(&self, path: &VfsPath) -> Result<Vec<u8>, VfsError> {
        if Self::is_gitlink(path.as_bytes()) {
            return Err(VfsError::UnsupportedRepositoryBoundary);
        }
        self.files.get(path.as_bytes()).cloned().ok_or(VfsError::NotFound)
    }

    fn read_range(&self, path: &VfsPath, offset: u64, len: u64) -> Result<Vec<u8>, VfsError> {
        let data = self.read_file(path)?;
        let start = (offset as usize).min(data.len());
        let end = (start + len as usize).min(data.len());
        Ok(data[start..end].to_vec())
    }

    fn stat(&self, path: &VfsPath) -> Result<VirtualStat, VfsError> {
        let path = path.as_bytes();
        if Self::is_gitlink(path) {
            return Err(VfsError::UnsupportedRepositoryBoundary);
        }
        if let Some(data) = self.files.get(path) {
            if path == b"current" {
                return Ok(symlink(data.len() as u64, 1000));
            }
            return Ok(regular_file(data.len() as u64, path == b"scripts/run", 1000));
        }
        if self.is_dir(path) {
            return Ok(directory(1000));
        }
        Err(VfsError::NotFound)
    }

    fn read_dir(&self, path: &VfsPath) -> Vec<DirEntry> {
        let prefix = if path.is_root() { Vec::new() } else { [path.as_bytes(), b"/"].concat() };
        let mut entries: Vec<DirEntry> = Vec::new();
        let mut seen: BTreeSet<Vec<u8>> = BTreeSet::new();
        for key in self.files.keys() {
            let Some(rest) = key.strip_prefix(prefix.as_slice()) else {
                continue;
            };
            let (name, is_dir) = match rest.iter().position(|byte| *byte == b'/') {
                Some(position) => (&rest[..position], true),
                None => (rest, false),
            };
            if !seen.insert(name.to_vec()) {
                continue;
            }
            let file_type = if is_dir {
                FileType::Directory
            } else if name == b"current" {
                FileType::Symlink
            } else {
                FileType::File
            };
            entries.push(DirEntry { name: vname(name), file_type });
        }
        if path.is_root() && seen.insert(b"vendor".to_vec()) {
            entries.push(DirEntry { name: vname(b"vendor"), file_type: FileType::Directory });
        }
        if path.as_bytes() == b"vendor" {
            entries.push(DirEntry { name: vname(b"dep"), file_type: FileType::Gitlink });
        }
        entries
    }

    fn holds(&self, path: &VfsPath) -> Result<bool, VfsError> {
        let path = path.as_bytes();
        Ok(self.files.contains_key(path) || self.is_dir(path) || Self::is_gitlink(path))
    }

    fn read_link(&self, path: &VfsPath) -> Result<Vec<u8>, VfsError> {
        if path.as_bytes() == b"current" {
            return Ok(b"src/main.rs".to_vec());
        }
        Err(VfsError::InvalidInput)
    }
}

/// A writer that keeps everything in memory, so the adapter's write path
/// can be exercised without a repository or a daemon.
#[derive(Default)]
struct MemWriter {
    staged: BTreeMap<Vec<u8>, Vec<u8>>,
    removed: Vec<Vec<u8>>,
}

impl MemWriter {
    fn stat_of(bytes: usize) -> VirtualStat {
        VirtualStat { content_hash: None, ..regular_file(bytes as u64, false, 0) }
    }

    fn write_at(&mut self, path: &VfsPath, offset: u64, data: &[u8]) -> Result<VirtualStat, VfsError> {
        let buffer = self.staged.entry(path.as_bytes().to_vec()).or_default();
        let end = offset as usize + data.len();
        if buffer.len() < end {
            buffer.resize(end, 0);
        }
        buffer[offset as usize..end].copy_from_slice(data);
        Ok(Self::stat_of(buffer.len()))
    }

    fn create_file(&mut self, path: &VfsPath, exclusive: bool) -> Result<VirtualStat, VfsError> {
        if exclusive && self.staged.contains_key(path.as_bytes()) {
            return Err(VfsError::InvalidInput);
        }
        self.staged.insert(path.as_bytes().to_vec(), Vec::new());
        Ok(Self::stat_of(0))
    }

    fn set_len(&mut self, path: &VfsPath, size: u64) -> Result<VirtualStat, VfsError> {
        let buffer = self.staged.entry(path.as_bytes().to_vec()).or_default();
        buffer.resize(size as usize, 0);
        Ok(Self::stat_of(buffer.len()))
    }

    fn create_dir(&mut self, path: &VfsPath) -> Result<VirtualStat, VfsError> {
        self.staged.insert(path.as_bytes().to_vec(), Vec::new());
        Ok(VirtualStat { is_file: false, is_dir: true, ..Self::stat_of(0) })
    }

    fn remove(&mut self, path: &VfsPath) -> Result<(), VfsError> {
        self.staged.remove(path.as_bytes());
        self.removed.push(path.as_bytes().to_vec());
        Ok(())
    }

    fn rename(&mut self, from: &VfsPath, to: &VfsPath) -> Result<(), VfsError> {
        let bytes = self.staged.remove(from.as_bytes()).unwrap_or_default();
        self.staged.insert(to.as_bytes().to_vec(), bytes);
        Ok(())
    }
}

/// An adapter over the provider and the writer.
struct Mount {
    fs: KinNfsFs,
    provider: MemProvider,
    writer: MemWriter,
}

impl Mount {
    fn lookup(&mut self, dirid: u64, name: &[u8]) -> Result<u64, NfsStatus> {
        match self.fs.begin_lookup(dirid, name)? {
            LookupPlan::Found(id) => Ok(id),
            LookupPlan::Exists(child) => {
                let held = self.provider.holds(&child);
                self.fs.finish_lookup(&child, held)
            }
        }
    }

    fn getattr(&self, id: u64) -> Result<FileAttributes, NfsStatus> {
        let path = self.fs.id_to_path(id)?;
        self.fs.finish_attributes(id, self.provider.stat(&path))
    }

    fn setattr(&mut self, id: u64, size: Option<u64>) -> Result<FileAttributes, NfsStatus> {
        let stat = match self.fs.begin_setattr(id, size)? {
            SetattrPlan::SetLen { path, size } => self.writer.set_len(&path, size),
            SetattrPlan::Stat(path) => self.provider.stat(&path),
        };
        self.fs.finish_attributes(id, stat)
    }

    fn read(&self, id: u64, offset: u64, count: u32) -> Result<(Vec<u8>, bool), NfsStatus> {
        let path = self.fs.id_to_path(id)?;
        self.fs.finish_read(count, self.provider.read_range(&path, offset, count as u64))
    }

    fn write(&mut self, id: u64, offset: u64, data: &[u8]) -> Result<FileAttributes, NfsStatus> {
        let path = self.fs.begin_write(id)?;
        let staged = self.writer.write_at(&path, offset, data);
        self.fs.finish_attributes(id, staged)
    }

    fn create(&mut self, dirid: u64, name: &[u8]) -> Result<(u64, FileAttributes), NfsStatus> {
        let child = self.fs.begin_mutation(dirid, name)?;
        let staged = self.writer.create_file(&child, false);
        self.fs.finish_create(&child, staged)
    }

    fn create_exclusive(&mut self, dirid: u64, name: &[u8]) -> Result<u64, NfsStatus> {
        let child = self.fs.begin_mutation(dirid, name)?;
        let staged = self.writer.create_file(&child, true).map(|_| ());
        self.fs.finish_create_exclusive(&child, staged)
    }

    fn mkdir(&mut self, dirid: u64, name: &[u8]) -> Result<(u64, FileAttributes), NfsStatus> {
        let child = self.fs.begin_mutation(dirid, name)?;
        let staged = self.writer.create_dir(&child);
        self.fs.finish_create(&child, staged)
    }

    fn remove(&mut self, dirid: u64, name: &[u8]) -> Result<(), NfsStatus> {
        let child = self.fs.begin_mutation(dirid, name)?;
        let removed = self.writer.remove(&child);
        self.fs.finish_remove(removed)
    }

    fn rename(&mut self, dir: u64, from: &[u8], to_dir: u64, to: &[u8]) -> Result<(), NfsStatus> {
        let (from, to) = self.fs.begin_rename(dir, from, to_dir, to)?;
        let renamed = self.writer.rename(&from, &to);
        self.fs.finish_rename(&from, &to, renamed)
    }

    fn readdir(
        &mut self,
        dirid: u64,
        start_after: u64,
        max: usize,
    ) -> Result<(Vec<PageEntry>, bool), NfsStatus> {
        let directory = self.fs.id_to_path(dirid)?;
        let entries = self.provider.read_dir(&directory);
        let listed = self.fs.list(dirid, &directory, &entries);
        let mut page = DirectoryPage::begin(listed, start_after, max);
        loop {
            let attributes = match page.wanted() {
                None => break,
                Some(entry) => {
                    let stat = self.provider.stat(&entry.path);
                    self.fs.finish_attributes(entry.id, stat).ok()
                }
            };
            page.take(attributes);
        }
        Ok(page.finish())
    }

    fn readlink(&self, id: u64) -> Result<Vec<u8>, NfsStatus> {
        let path = self.fs.id_to_path(id)?;
        self.fs.finish_readlink(self.provider.read_link(&path))
    }
}

fn mount(writable: bool) -> Mount {
    Mount {
        fs: KinNfsFs::new(writable, 501, 20),
        provider: MemProvider::new(),
        writer: MemWriter::default(),
    }
}

fn fs() -> Mount {
    mount(false)
}

fn writable_fs() -> Mount {
    mount(true)
}

fn names_of(entries: &[PageEntry]) -> Vec<Vec<u8>> {
    entries.iter().map(|entry| entry.name.clone()).collect()
}

#[test]
fn test_root_dir() {
    assert_eq!(fs().fs.root_dir(), 1);
}

#[test]
fn test_lookup_and_getattr() {
    let mut fs = fs();
    let id = fs.lookup(1, b"hello.txt").unwrap();
    assert_ne!(id, 0);
    assert_ne!(id, 1);

    let attr = fs.getattr(id).unwrap();
    assert_eq!(attr.size, 11); // "Hello, NFS!" is 11 bytes
    assert_eq!(attr.kind, FileKind::Regular);
}

#[test]
fn test_lookup_not_found() {
    assert_eq!(fs().lookup(1, b"nonexistent"), Err(NfsStatus::NoEnt));
}

#[test]
fn lookup_preserves_non_utf8_names_exactly() {
    let mut fs = fs();
    let logs = fs.lookup(1, b"logs").unwrap();
    let raw = fs
        .lookup(logs, b"x-\xff\xfe.log")
        .expect("a non-UTF8 name must resolve, not be replaced");
    let attr = fs.getattr(raw).unwrap();
    assert_eq!(attr.size, 9); // "raw bytes"

    // A near-miss byte is a different artifact, not the same one.
    assert_eq!(fs.lookup(logs, b"x-\xff\xfd.log"), Err(NfsStatus::NoEnt));
}

#[test]
fn readdir_returns_raw_name_bytes() {
    let mut fs = fs();
    let logs = fs.lookup(1, b"logs").unwrap();
    let (entries, _) = fs.readdir(logs, 0, 100).unwrap();
    let names = names_of(&entries);
    assert!(
        names.contains(&b"x-\xff\xfe.log".to_vec()),
        "raw name bytes must survive readdir: {names:?}"
    );
}

#[test]
fn lookup_rejects_malformed_name_components() {
    let mut fs = fs();
    // A client cannot smuggle traversal or separators through a filename.
    for malformed in [&b"a/b"[..], b"\0bad"] {
        assert_eq!(
            fs.lookup(1, malformed),
            Err(NfsStatus::Inval),
            "{malformed:?} must be refused"
        );
    }
}

#[test]
fn gitlink_boundary_reports_notsupp() {
    let mut fs = fs();
    let vendor = fs.lookup(1, b"vendor").unwrap();
    let dep = fs.lookup(vendor, b"dep").unwrap();
    assert_eq!(fs.getattr(dep), Err(NfsStatus::NotSupp));
    assert_eq!(fs.read(dep, 0, 16), Err(NfsStatus::NotSupp));
}

#[test]
fn symlink_and_executable_kinds_are_preserved() {
    let mut fs = fs();
    let link = fs.lookup(1, b"current").unwrap();
    let attr = fs.getattr(link).unwrap();
    assert_eq!(attr.kind, FileKind::Link);
    assert_eq!(fs.readlink(link).unwrap(), b"src/main.rs");

    let scripts = fs.lookup(1, b"scripts").unwrap();
    let run = fs.lookup(scripts, b"run").unwrap();
    assert_eq!(fs.getattr(run).unwrap().mode, 0o755);
}

#[test]
fn opaque_lockfile_bytes_round_trip() {
    let mut fs = fs();
    let id = fs.lookup(1, b"vendor.lock").unwrap();
    let (data, _) = fs.read(id, 0, 1024).unwrap();
    assert_eq!(data, b"opaque\x00lock");
}

#[test]
fn test_read() {
    let mut fs = fs();
    let id = fs.lookup(1, b"hello.txt").unwrap();
    let (data, eof) = fs.read(id, 0, 1024).unwrap();
    assert_eq!(&data, b"Hello, NFS!");
    assert!(eof);
}

#[test]
fn test_read_partial() {
    let mut fs = fs();
    let id = fs.lookup(1, b"hello.txt").unwrap();
    let (data, eof) = fs.read(id, 0, 5).unwrap();
    assert_eq!(&data, b"Hello");
    assert!(!eof);
}

#[test]
fn test_readdir_root() {
    let (entries, end) = fs().readdir(1, 0, 100).unwrap();
    assert!(end);
    let names = names_of(&entries);
    for expected in [
        &b"."[..],
        b"..",
        b"hello.txt",
        b"src",
        b"vendor.lock",
        b"current",
    ] {
        assert!(names.contains(&expected.to_vec()), "missing {expected:?}");
    }
}

/// `nfsserve` refuses every write before dispatch when the export says
/// ReadOnly, so this is what makes the whole write path reachable.
#[test]
fn a_mount_with_a_writer_advertises_read_write() {
    assert!(writable_fs().fs.capabilities());
    assert!(!fs().fs.capabilities());
}

#[test]
fn a_write_through_the_mount_reaches_the_writer() {
    let mut fs = writable_fs();
    let id = fs.lookup(1, b"src").unwrap();
    let id = fs.lookup(id, b"main.rs").unwrap();

    let attr = fs.write(id, 0, b"hello there").unwrap();
    assert_eq!(attr.size, 11);
    assert_eq!(
        fs.writer.staged.get(b"src/main.rs".as_slice()).unwrap(),
        &b"hello there".to_vec()
    );
}

#[test]
fn creating_a_file_assigns_an_inode_that_resolves_back() {
    let mut fs = writable_fs();
    let (id, attr) = fs.create(1, b"fresh.rs").unwrap();
    assert_eq!(attr.fileid, id);
    assert!(fs.writer.staged.contains_key(b"fresh.rs".as_slice()));
    assert_eq!(fs.fs.id_to_path(id).unwrap().as_bytes(), b"fresh.rs");
}

#[test]
fn an_exclusive_create_refuses_a_second_time() {
    let mut fs = writable_fs();
    fs.create_exclusive(1, b"once.rs").unwrap();
    assert!(fs.create_exclusive(1, b"once.rs").is_err());
}

#[test]
fn setting_the_size_truncates_through_the_writer() {
    let mut fs = writable_fs();
    let id = fs.lookup(1, b"src").unwrap();
    let id = fs.lookup(id, b"main.rs").unwrap();
    fs.write(id, 0, b"0123456789").unwrap();

    let after = fs.setattr(id, Some(4)).unwrap();
    assert_eq!(after.size, 4);
    assert_eq!(fs.writer.staged.get(b"src/main.rs".as_slice()).unwrap().len(), 4);
}

/// A setattr carrying no size must not be an error: macOS sends one for
/// mode and times on almost every save, and refusing it fails the save.
#[test]
fn a_setattr_with_no_size_answers_the_current_attributes() {
    let mut fs = writable_fs();
    let id = fs.lookup(1, b"src").unwrap();
    let id = fs.lookup(id, b"main.rs").unwrap();
    let attr = fs.setattr(id, None).unwrap();
    assert_eq!(attr.fileid, id);
}

#[test]
fn removing_a_file_reaches_the_writer() {
    let mut fs = writable_fs();
    let dir = fs.lookup(1, b"src").unwrap();
    fs.remove(dir, b"main.rs").unwrap();
    assert_eq!(fs.writer.removed.as_slice(), &[b"src/main.rs".to_vec()]);
}

/// A client holding a file handle across a rename must keep resolving. The
/// inode moves with the path; leaving it behind answers STALE for a file
/// that is simply somewhere else.
#[test]
fn a_rename_moves_the_inode_with_the_path() {
    let mut fs = writable_fs();
    let dir = fs.lookup(1, b"src").unwrap();
    let held = fs.lookup(dir, b"main.rs").unwrap();

    fs.rename(dir, b"main.rs", dir, b"moved.rs").unwrap();
    assert_eq!(fs.fs.id_to_path(held).unwrap().as_bytes(), b"src/moved.rs");
}

/// ROFS would be false on a mount that accepts every other write. The
/// operation is unbuilt, not forbidden, and the status code should say so.
#[test]
fn a_symlink_on_a_writable_mount_reports_unsupported_not_read_only() {
    assert_eq!(writable_fs().fs.symlink(), NfsStatus::NotSupp);
    assert_eq!(fs().fs.symlink(), NfsStatus::RoFs);
}

#[test]
fn test_write_ops_return_rofs() {
    let mut fs = fs();
    assert_eq!(fs.setattr(1, None), Err(NfsStatus::RoFs));
    assert_eq!(fs.write(1, 0, b"data"), Err(NfsStatus::RoFs));
    assert_eq!(fs.create(1, b"x"), Err(NfsStatus::RoFs));
    assert_eq!(fs.mkdir(1, b"x"), Err(NfsStatus::RoFs));
    assert_eq!(fs.remove(1, b"x"), Err(NfsStatus::RoFs));
    assert_eq!(fs.rename(1, b"x", 1, b"y"), Err(NfsStatus::RoFs));
    assert_eq!(fs.create_exclusive(1, b"x"), Err(NfsStatus::RoFs));
}

#[test]
fn test_nested_lookup() {
    let mut fs = fs();
    let src_id = fs.lookup(1, b"src").unwrap();
    let main_id = fs.lookup(src_id, b"main.rs").unwrap();
    let attr = fs.getattr(main_id).unwrap();
    assert_eq!(attr.size, 12); // "fn main() {}" is 12 bytes
}

#[test]
fn a_failed_mutation_assigns_no_number_and_moves_none() {
    let mut fs = writable_fs();
    let dir = fs.lookup(1, b"src").unwrap();
    let held = fs.lookup(dir, b"main.rs").unwrap();
    let (from, to) = fs.fs.begin_rename(dir, b"main.rs", dir, b"moved.rs").unwrap();
    assert_eq!(
        fs.fs.finish_rename(&from, &to, Err(VfsError::PermissionDenied)),
        Err(NfsStatus::Acces)
    );
    assert_eq!(fs.fs.id_to_path(held).unwrap().as_bytes(), b"src/main.rs");
    let child = fs.fs.begin_mutation(1, b"new").unwrap();
    assert_eq!(fs.fs.finish_create(&child, Err(VfsError::Io)), Err(NfsStatus::Io));
    assert_eq!(fs.fs.finish_remove(Err(VfsError::NotFound)), Err(NfsStatus::NoEnt));
    let (next, _) = fs.create(1, b"other").unwrap();
    assert_eq!(next, held + 1);
}

#[test]
fn dots_lead_to_the_directory_and_its_parent() {
    let mut fs = fs();
    let src = fs.lookup(1, b"src").unwrap();
    assert_eq!(fs.lookup(src, b"."), Ok(src));
    assert_eq!(fs.lookup(src, b".."), Ok(1));
    assert_eq!(fs.lookup(1, b".."), Ok(1));
    assert_eq!(fs.lookup(99, b"."), Err(NfsStatus::Stale));
}

#[test]
fn every_provider_error_has_a_status() {
    let statuses = [
        (VfsError::NotFound, NfsStatus::NoEnt),
        (VfsError::IsDirectory, NfsStatus::IsDir),
        (VfsError::NotDirectory, NfsStatus::NotDir),
        (VfsError::PermissionDenied, NfsStatus::Acces),
        (VfsError::InvalidInput, NfsStatus::Inval),
        (VfsError::EscapesRoot, NfsStatus::Acces),
        (VfsError::UnsupportedRepositoryBoundary, NfsStatus::NotSupp),
        (VfsError::Io, NfsStatus::Io),
        (VfsError::Provider, NfsStatus::Io),
    ];
    for (error, status) in statuses {
        assert_eq!(map_err(error), status);
    }
    assert_eq!(child_path(&vpath("a"), b"b").unwrap().as_bytes(), b"a/b");
    assert_eq!(child_path(&vpath("a"), b"..").err(), Some(NfsStatus::Inval));
}

#[test]
fn attributes_carry_the_owner_and_clamp_what_is_narrower() {
    let fs = fs();
    let stat = VirtualStat { nlink: 1 << 40, mtime: 1 << 40, ..regular_file(5, false, 0) };
    let attr = fs.fs.stat_to_fattr(&stat, 9);
    assert_eq!((attr.uid, attr.gid, attr.fileid, attr.fsid), (501, 20, 9, 1));
    assert_eq!((attr.size, attr.used), (5, 5));
    assert_eq!(attr.kind, FileKind::Regular);
    assert_eq!(attr.mode, 0o644);
}

// ── Inode numbers ───────────────────────────────────────────────────

#[test]
fn numbers_are_stable_and_one_per_path() {
    let mut table = InodeTable::new();
    let a = table.get_or_assign(&vpath("a"));
    let b = table.get_or_assign(&vpath("b"));
    assert_eq!((a, b), (2, 3));
    assert_eq!(table.get_or_assign(&vpath("a")), a);
    assert_eq!(table.get_or_assign(&VfsPath::root()), ROOT_ID);
    assert_eq!(table.get_path(b).unwrap().as_bytes(), b"b");
    assert!(table.get_path(4).is_none());
}

#[test]
fn many_paths_keep_their_own_numbers() {
    let mut table = InodeTable::new();
    let ids: Vec<u64> =
        (0..500).map(|n| table.get_or_assign(&vpath(&format!("dir/file-{n}")))).collect();
    for (n, id) in ids.iter().enumerate() {
        assert_eq!(table.get_path(*id).unwrap().as_bytes(), format!("dir/file-{n}").as_bytes());
        assert_eq!(table.get_or_assign(&vpath(&format!("dir/file-{n}"))), *id);
    }
    assert_eq!(ids.iter().collect::<BTreeSet<_>>().len(), 500);
}

#[test]
fn a_rename_over_another_file_retires_its_number() {
    let mut table = InodeTable::new();
    let from = table.get_or_assign(&vpath("from"));
    let to = table.get_or_assign(&vpath("to"));
    table.rename(&vpath("from"), &vpath("to"));
    assert_eq!(table.get_path(from).unwrap().as_bytes(), b"to");
    assert_eq!(table.get_or_assign(&vpath("to")), from);
    assert!(table.get_path(to).is_none());
    let again = table.get_or_assign(&vpath("from"));
    assert!(again != from && again != to);
    table.rename(&vpath("unknown"), &vpath("elsewhere"));
    assert!(table.get_or_assign(&vpath("elsewhere")) > again);
}

#[test]
fn a_number_is_never_given_twice() {
    let mut table = InodeTable::new();
    let mut given = BTreeSet::from([ROOT_ID]);
    for n in 0..20 {
        let path = vpath(&format!("f{}", n % 3));
        assert!(given.insert(table.get_or_assign(&path)), "round {n}");
        table.rename(&path, &vpath("moved"));
    }
}

// ── Pages of a listing ──────────────────────────────────────────────

#[test]
fn a_first_page_holds_what_lookups_find() {
    let mut fs = fs();
    let logs = fs.lookup(1, b"logs").unwrap();
    for dirid in [1, logs] {
        let directory = fs.fs.id_to_path(dirid).unwrap();
        let mut all = vec![b".".to_vec(), b"..".to_vec()];
        all.extend(fs.provider.read_dir(&directory).iter().map(|e| e.name.as_bytes().to_vec()));
        for max in 0..all.len() + 2 {
            let (page, end) = fs.readdir(dirid, 0, max).unwrap();
            assert_eq!(names_of(&page), all[..max.min(all.len())]);
            assert_eq!(end, max >= all.len());
            for entry in &page {
                assert_eq!(fs.lookup(dirid, &entry.name), Ok(entry.fileid));
                assert_eq!(entry.attributes.fileid, entry.fileid);
            }
            assert!(page.first().is_none_or(|dot| dot.fileid == dirid));
        }
    }
}

#[test]
fn pages_continue_behind_the_last_entry() {
    let mut fs = fs();
    let (whole, _) = fs.readdir(1, 0, 100).unwrap();
    // A page resumes behind the number it is given; the root and its parent
    // share one, so a page of the root holds both of them.
    let mut names = Vec::new();
    let mut cookie = 0;
    loop {
        let (page, end) = fs.readdir(1, cookie, 3).unwrap();
        cookie = page.last().map(|entry| entry.fileid).unwrap_or(cookie);
        names.extend(names_of(&page));
        if end {
            break;
        }
    }
    assert_eq!(names, names_of(&whole));
    for entry in &whole {
        assert_eq!(entry.attributes.fileid, entry.fileid);
        assert!(fs.fs.id_to_path(entry.fileid).is_ok());
    }
}

#[test]
fn an_entry_without_attributes_is_left_out() {
    let mut fs = fs();
    let vendor = fs.lookup(1, b"vendor").unwrap();
    let (entries, end) = fs.readdir(vendor, 0, 100).unwrap();
    assert!(end);
    assert_eq!(names_of(&entries), vec![b".".to_vec(), b"..".to_vec()]);
}

//! The projected file system: what its callbacks answer from the graph.

use vstd::prelude::*;
use vstd::string::{StringExecFns, StringSliceAdditionalSpecFns};

use crate::bytes;
use crate::bytes::{contains_byte, push_bytes, to_vec, BACKSLASH, COLON, SLASH};
use crate::hashing;
use crate::hashing::hash_path;
use crate::pathmap;
use crate::pathmap::{is_interpose_temp_artifact, path_within_root};
use crate::text;
use crate::text::chars_of;
use crate::types::{DirEntry, FileType, VirtualStat};
use crate::vfs_path;
use crate::vfs_path::{workspace_graph_key, VfsPath, WorkspacePathError};

verus! {

// ── Result codes ────────────────────────────────────────────────────────

/// Success.
pub const S_OK: u32 = 0;

/// An argument makes no sense.
pub const E_INVALIDARG: u32 = 0x8007_0057;

/// There is no memory left.
pub const E_OUTOFMEMORY: u32 = 0x8007_000e;

/// There is no such file.
pub const FILE_NOT_FOUND: u32 = 0x8007_0002;

/// The listing buffer is full.
pub const INSUFFICIENT_BUFFER: u32 = 0x8007_007a;

/// A name cannot be represented.
pub const INVALID_NAME: u32 = 0x8007_007b;

/// The code that a callback returns for what a platform call returned.
pub open spec fn hresult(result: Result<(), u32>) -> u32 {
    match result {
        Ok(_) => S_OK,
        Err(code) => code,
    }
}

/// The code that a callback returns for what a platform call returned.
pub fn result_to_hresult(result: Result<(), u32>) -> (r: u32)
    ensures
        r == hresult(result),
        r == match result {
            Ok(_) => S_OK,
            Err(code) => code,
        },
{
    match result {
        Ok(_) => S_OK,
        Err(code) => code,
    }
}

/// Why the projection did not start.
#[derive(Debug)]
pub enum ProjFsError {
    /// The platform has no projected file system, or it is not enabled.
    Unavailable(String),
    Setup(String),
    Start(String),
}

impl ProjFsError {
    /// The error in words.
    pub fn message(&self) -> (r: String)
        ensures
            r@ == match self {
                ProjFsError::Unavailable(m) => "ProjFS unavailable: "@ + m@,
                ProjFsError::Setup(m) => "ProjFS setup error: "@ + m@,
                ProjFsError::Start(m) => "ProjFS start error: "@ + m@,
            },
    {
        match self {
            ProjFsError::Unavailable(m) => "ProjFS unavailable: ".to_owned().concat(m.as_str()),
            ProjFsError::Setup(m) => "ProjFS setup error: ".to_owned().concat(m.as_str()),
            ProjFsError::Start(m) => "ProjFS start error: ".to_owned().concat(m.as_str()),
        }
    }
}

/// How to get a projected file system where there is none.
pub open spec fn remedy() -> Seq<char> {
    "Windows Projected File System (ProjFS) is not available. ProjFS requires Windows 10 version 1803 or later with the optional feature enabled. To enable it, run as Administrator:\n  Enable-WindowsOptionalFeature -Online -FeatureName Client-ProjFS -NoRestart\nOr enable it via Settings > Apps > Optional Features > \"Windows Projected File System\"."@
}

/// Whether the projection can start, from whether the platform's library could
/// be loaded.
pub fn check_projfs_available(loaded: bool) -> (r: Result<(), ProjFsError>)
    ensures
        match r {
            Ok(_) => loaded,
            Err(ProjFsError::Unavailable(message)) => !loaded && message@ == remedy(),
            Err(_) => false,
        },
{
    if loaded {
        Ok(())
    } else {
        Err(
            ProjFsError::Unavailable(
                "Windows Projected File System (ProjFS) is not available. ProjFS requires Windows 10 version 1803 or later with the optional feature enabled. To enable it, run as Administrator:\n  Enable-WindowsOptionalFeature -Online -FeatureName Client-ProjFS -NoRestart\nOr enable it via Settings > Apps > Optional Features > \"Windows Projected File System\".".to_owned(),
            ),
        )
    }
}

// ── Paths ───────────────────────────────────────────────────────────────

/// A path with the separators of the graph.
pub open spec fn forward(path: Seq<u8>) -> Seq<u8> {
    Seq::new(
        path.len(),
        |i: int|
            if path[i] == BACKSLASH {
                SLASH
            } else {
                path[i]
            },
    )
}

/// A path with the separators of the graph.
fn forward_slashes(path: &[u8]) -> (r: Vec<u8>)
    ensures
        r@ == forward(path@),
{
    let mut out: Vec<u8> = Vec::new();
    let mut i: usize = 0;
    while i < path.len()
        invariant
            i <= path@.len(),
            out@ == forward(path@).subrange(0, i as int),
        decreases path@.len() - i,
    {
        let b: u8 = path[i];
        out.push(
            if b == BACKSLASH {
                SLASH
            } else {
                b
            },
        );
        assert(forward(path@).subrange(0, i + 1) =~= forward(path@).subrange(0, i as int).push(
            forward(path@)[i as int],
        ));
        i = i + 1;
    }
    assert(forward(path@).subrange(0, path@.len() as int) =~= forward(path@));
    out
}

/// The root that relative paths are taken to be under. No key ever holds it.
pub open spec fn synthetic_root() -> Seq<u8> {
    bytes::ascii("C:/__kin_vfs_projfs_root"@)
}

/// The graph key of a path below the virtualization root, or why it has none.
/// A path that is rooted or names a drive is not below it.
pub open spec fn daemon_key(relative: Seq<u8>) -> Result<Seq<u8>, WorkspacePathError> {
    let path = forward(relative);
    if path.len() > 0 && path[0] == SLASH || path.contains(COLON) {
        Err(WorkspacePathError::OutsideRoot)
    } else {
        vfs_path::graph_key(synthetic_root() + seq![SLASH] + path, synthetic_root())
    }
}

/// The graph key of a path below the virtualization root.
pub fn to_daemon_path(relative: &str) -> (r: Result<VfsPath, WorkspacePathError>)
    ensures
        vfs_path::key_result(r) == daemon_key(vstd::utf8::encode_utf8(relative@)),
{
    let normalized = forward_slashes(relative.as_bytes());
    if (normalized.len() > 0 && normalized[0] == SLASH) || contains_byte(
        normalized.as_slice(),
        COLON,
    ) {
        return Err(WorkspacePathError::OutsideRoot);
    }
    proof {
        reveal_strlit("C:/__kin_vfs_projfs_root");
    }
    let root_text = "C:/__kin_vfs_projfs_root";
    let root = to_vec(root_text.as_bytes());
    assert(root_text.is_ascii());
    assert(root@ =~= synthetic_root());
    let mut absolute = to_vec(root.as_slice());
    absolute.push(SLASH);
    push_bytes(&mut absolute, normalized.as_slice());
    assert(absolute@ =~= synthetic_root() + seq![SLASH] + normalized@);
    workspace_graph_key(absolute.as_slice(), root.as_slice())
}

/// `std::str::from_utf8`: the text of bytes that are well-formed UTF-8, and
/// nothing for others.
#[verifier::external_body]
fn decode_utf8_exact(name: &[u8]) -> (r: Option<String>)
    ensures
        match r {
            Some(s) => vstd::utf8::valid_utf8(name@) && s@ == vstd::utf8::decode_utf8(name@),
            None => !vstd::utf8::valid_utf8(name@),
        },
{
    match std::str::from_utf8(name) {
        Ok(text) => Some(text.to_owned()),
        Err(_) => None,
    }
}

/// The text of a graph name. The platform has no byte names: a name that is not
/// text is refused, for any other spelling would name another file.
pub fn graph_name_as_str(name: &[u8]) -> (r: Option<String>)
    ensures
        match r {
            Some(s) => vstd::utf8::valid_utf8(name@) && s@ == vstd::utf8::decode_utf8(name@),
            None => !vstd::utf8::valid_utf8(name@),
        },
{
    decode_utf8_exact(name)
}

/// Whether a path lies in the workspace, by the separators of the graph.
pub open spec fn windows_owned(path: Seq<u8>, root: Option<Seq<u8>>) -> bool {
    match root {
        Some(root) => !bytes::occurs(path, pathmap::temp_marker()) && pathmap::within_root(
            forward(path),
            forward(root),
        ),
        None => false,
    }
}

/// Whether a path lies in the workspace, whichever separators either is written
/// with. Materialization temporaries do not.
pub fn is_workspace_path_windows(path: &[u8], root: Option<&[u8]>) -> (r: bool)
    ensures
        r == windows_owned(
            path@,
            match root {
                Some(r) => Some(r@),
                None => None,
            },
        ),
        r == match root {
            Some(root) => !bytes::occurs(path@, pathmap::temp_marker())
                && pathmap::within_root(forward(path@), forward(root@)),
            None => false,
        },
{
    match root {
        Some(root) => {
            let normalized = forward_slashes(path);
            let under = forward_slashes(root);
            !is_interpose_temp_artifact(path) && path_within_root(
                normalized.as_slice(),
                under.as_slice(),
            )
        },
        None => false,
    }
}

// ── Wide text ───────────────────────────────────────────────────────────

/// The UTF-16 units of a character.
pub open spec fn wide_char(c: char) -> Seq<u16> {
    let n = c as int;
    if n < 0x10000 {
        seq![n as u16]
    } else {
        seq![(0xd800 + (n - 0x10000) / 0x400) as u16, (0xdc00 + (n - 0x10000) % 0x400) as u16]
    }
}

/// The UTF-16 units of a text.
pub open spec fn wide(s: Seq<char>) -> Seq<u16>
    decreases s.len(),
{
    if s.len() == 0 {
        Seq::empty()
    } else {
        wide(s.drop_last()) + wide_char(s.last())
    }
}

/// Appends the UTF-16 units of a character.
fn push_wide_char(out: &mut Vec<u16>, c: char)
    ensures
        final(out)@ == old(out)@ + wide_char(c),
{
    let n: u32 = c as u32;
    if n < 0x10000 {
        out.push(n as u16);
    } else {
        out.push((0xd800 + (n - 0x10000) / 0x400) as u16);
        out.push((0xdc00 + (n - 0x10000) % 0x400) as u16);
    }
    assert(out@ =~= old(out)@ + wide_char(c));
}

/// The UTF-16 units of a text, and a NUL behind them.
pub fn to_wide_str(s: &str) -> (r: Vec<u16>)
    ensures
        r@ == wide(s@).push(0),
{
    let cs = chars_of(s);
    let mut out: Vec<u16> = Vec::new();
    let mut i: usize = 0;
    while i < cs.len()
        invariant
            i <= cs@.len(),
            cs@ == s@,
            out@ == wide(cs@.subrange(0, i as int)),
        decreases cs@.len() - i,
    {
        let c: char = cs[i];
        push_wide_char(&mut out, c);
        assert(cs@.subrange(0, i + 1).drop_last() =~= cs@.subrange(0, i as int));
        assert(cs@.subrange(0, i + 1).last() == c);
        i = i + 1;
    }
    assert(cs@.subrange(0, cs@.len() as int) =~= cs@);
    out.push(0);
    out
}

/// `String::from_utf16`: the text with these units, and nothing where no text
/// has them.
#[verifier::external_body]
fn decode_utf16(units: &[u16]) -> (r: Option<String>)
    ensures
        match r {
            Some(s) => wide(s@) == units@,
            None => forall|s: Seq<char>| wide(s) != units@,
        },
{
    String::from_utf16(units).ok()
}

/// The path that a callback names below the virtualization root; without a name
/// it is the root itself.
pub fn get_relative_path(name: Option<&[u16]>) -> (r: Option<String>)
    ensures
        match name {
            None => r matches Some(s) && s@.len() == 0,
            Some(units) => match r {
                Some(s) => wide(s@) == units@,
                None => forall|s: Seq<char>| wide(s) != units@,
            },
        },
{
    match name {
        None => Some(String::new()),
        Some(units) => decode_utf16(units),
    }
}

// ── Metadata ────────────────────────────────────────────────────────────

/// The attribute of a directory.
pub const FILE_ATTRIBUTE_DIRECTORY: u32 = 0x10;

/// The attribute of anything else.
pub const FILE_ATTRIBUTE_NORMAL: u32 = 0x80;

/// The last second since the epoch that the platform's clock can express.
pub const LAST_SECOND: u64 = 1_833_029_933_770;

/// A second since the epoch by the platform's clock.
pub open spec fn filetime(epoch_secs: u64) -> int {
    (epoch_secs + 11_644_473_600) * 10_000_000
}

/// The platform's clock counts tenths of microseconds from 1601 on.
pub fn epoch_to_filetime(epoch_secs: u64) -> (r: u64)
    requires
        epoch_secs <= LAST_SECOND,
    ensures
        r == filetime(epoch_secs),
        r == (epoch_secs + 11_644_473_600) * 10_000_000,
{
    (epoch_secs + 11_644_473_600) * 10_000_000
}

/// What the platform is told of an entry.
#[derive(Debug, Clone, Copy, PartialEq, Eq, Structural)]
pub struct BasicInfo {
    pub is_directory: bool,
    pub file_size: i64,
    pub creation_time: i64,
    pub last_access_time: i64,
    pub last_write_time: i64,
    pub change_time: i64,
    pub file_attributes: u32,
}

/// What the platform is told of an entry with this metadata.
pub open spec fn info_of(stat: VirtualStat) -> BasicInfo {
    let ticks = (((stat.mtime + 11_644_473_600) * 10_000_000) as u64) as i64;
    BasicInfo {
        is_directory: stat.is_dir,
        file_size: stat.size as i64,
        creation_time: ticks,
        last_access_time: ticks,
        last_write_time: ticks,
        change_time: ticks,
        file_attributes: if stat.is_dir {
            FILE_ATTRIBUTE_DIRECTORY
        } else {
            FILE_ATTRIBUTE_NORMAL
        },
    }
}

/// What the platform is told of an entry: the same in a listing and when it is
/// opened.
pub fn basic_info_from_stat(vstat: &VirtualStat) -> (r: BasicInfo)
    requires
        vstat.mtime <= LAST_SECOND,
    ensures
        r == info_of(*vstat),
{
    let ticks: i64 = epoch_to_filetime(vstat.mtime) as i64;
    BasicInfo {
        is_directory: vstat.is_dir,
        file_size: vstat.size as i64,
        creation_time: ticks,
        last_access_time: ticks,
        last_write_time: ticks,
        change_time: ticks,
        file_attributes: if vstat.is_dir {
            FILE_ATTRIBUTE_DIRECTORY
        } else {
            FILE_ATTRIBUTE_NORMAL
        },
    }
}

/// What the platform is told of a nested repository: a directory, of which
/// nothing else is known.
pub open spec fn boundary_info() -> BasicInfo {
    BasicInfo {
        is_directory: true,
        file_size: 0,
        creation_time: 0,
        last_access_time: 0,
        last_write_time: 0,
        change_time: 0,
        file_attributes: FILE_ATTRIBUTE_DIRECTORY,
    }
}

/// The answer to a request for metadata.
pub open spec fn placeholder(vstat: Option<VirtualStat>) -> Result<BasicInfo, u32> {
    match vstat {
        Some(stat) => Ok(info_of(stat)),
        None => Err(FILE_NOT_FOUND),
    }
}

/// Answers a request for metadata.
pub fn placeholder_info(vstat: Option<VirtualStat>) -> (r: Result<BasicInfo, u32>)
    requires
        vstat matches Some(s) ==> s.mtime <= LAST_SECOND,
    ensures
        r == placeholder(vstat),
        r == match vstat {
            Some(s) => Ok::<BasicInfo, u32>(info_of(s)),
            None => Err(FILE_NOT_FOUND),
        },
{
    match vstat {
        Some(s) => Ok(basic_info_from_stat(&s)),
        None => Err(FILE_NOT_FOUND),
    }
}

/// The key that a callback is about.
pub fn callback_key(relative: Option<&str>) -> (r: Result<VfsPath, u32>)
    ensures
        match relative {
            None => r == Err::<VfsPath, u32>(E_INVALIDARG),
            Some(path) => match daemon_key(vstd::utf8::encode_utf8(path@)) {
                Ok(key) => r matches Ok(k) && k@ == key,
                Err(_) => r == Err::<VfsPath, u32>(E_INVALIDARG),
            },
        },
{
    match relative {
        None => Err(E_INVALIDARG),
        Some(path) => match to_daemon_path(path) {
            Ok(key) => Ok(key),
            Err(_) => Err(E_INVALIDARG),
        },
    }
}

// ── Listings ────────────────────────────────────────────────────────────

/// A listing under way.
#[derive(Debug)]
pub struct EnumSession {
    pub entries: Vec<DirEntry>,
    pub index: usize,
}

/// What a listing needs next.
#[derive(Debug)]
pub enum EnumStep {
    /// Nothing: it is at its end.
    Done,
    /// The metadata of this key, to list it under this name.
    Stat { key: VfsPath, name: String },
    /// List this name with this.
    Fill { name: String, info: BasicInfo },
    /// Return this code.
    Fail(u32),
}

/// What follows an attempt to list an entry.
#[derive(Debug, Clone, Copy, PartialEq, Eq, Structural)]
pub enum FillOutcome {
    /// The next entry.
    Next,
    /// Nothing: the buffer is full, and this entry comes first in the next one.
    Full,
    /// Return this code.
    Fail(u32),
}

/// The path of a child, as the platform writes it.
pub open spec fn child_relative(directory: Seq<char>, name: Seq<char>) -> Seq<char> {
    if directory.len() == 0 {
        name
    } else {
        directory + "\\"@ + name
    }
}

/// Where a batch begins.
pub open spec fn batch_start(index: nat, restart: bool) -> nat {
    if restart {
        0
    } else {
        index
    }
}

/// Where a listing stands after the platform took an entry, or did not.
pub open spec fn after_fill(index: nat, result: Result<(), u32>) -> (nat, FillOutcome) {
    match result {
        Ok(_) => ((index + 1) as nat, FillOutcome::Next),
        Err(code) => (
            index,
            if code == INSUFFICIENT_BUFFER {
                FillOutcome::Full
            } else {
                FillOutcome::Fail(code)
            },
        ),
    }
}

/// What a listing needs next, over sequences.
pub enum Listing {
    Done,
    Stat { key: Seq<u8>, name: Seq<char> },
    Fill { name: Seq<char>, info: BasicInfo },
    Fail(u32),
}

impl View for EnumStep {
    type V = Listing;

    open spec fn view(&self) -> Listing {
        match self {
            EnumStep::Done => Listing::Done,
            EnumStep::Stat { key, name } => Listing::Stat { key: key@, name: name@ },
            EnumStep::Fill { name, info } => Listing::Fill { name: name@, info: *info },
            EnumStep::Fail(code) => Listing::Fail(*code),
        }
    }
}

/// The names of children, as bytes.
pub open spec fn child_names(entries: Seq<DirEntry>) -> Seq<Seq<u8>> {
    Seq::new(entries.len(), |i: int| entries[i].name@)
}

/// What children are.
pub open spec fn child_types(entries: Seq<DirEntry>) -> Seq<FileType> {
    Seq::new(entries.len(), |i: int| entries[i].file_type)
}

/// What the listing of a directory needs next, at the child at `index`.
pub open spec fn listing_step(
    names: Seq<Seq<u8>>,
    types: Seq<FileType>,
    index: nat,
    directory: Option<Seq<char>>,
) -> Listing {
    if index >= names.len() {
        Listing::Done
    } else {
        let name = vstd::utf8::decode_utf8(names[index as int]);
        match directory {
            None => Listing::Fail(E_INVALIDARG),
            Some(d) => if !vstd::utf8::valid_utf8(names[index as int]) {
                Listing::Fail(INVALID_NAME)
            } else if types[index as int] is Gitlink {
                Listing::Fill { name, info: boundary_info() }
            } else {
                match daemon_key(vstd::utf8::encode_utf8(child_relative(d, name))) {
                    Ok(key) => Listing::Stat { key, name },
                    Err(_) => Listing::Fail(E_INVALIDARG),
                }
            },
        }
    }
}

impl EnumSession {
    /// Begins a listing, now that the graph gave the children, or did not.
    pub fn begin(entries: Option<Vec<DirEntry>>) -> (r: Result<EnumSession, u32>)
        ensures
            match entries {
                Some(e) => r == Ok::<EnumSession, u32>(EnumSession { entries: e, index: 0 }),
                None => r == Err::<EnumSession, u32>(FILE_NOT_FOUND),
            },
    {
        match entries {
            Some(entries) => Ok(EnumSession { entries, index: 0 }),
            None => Err(FILE_NOT_FOUND),
        }
    }

    /// Begins a batch, from the start where the caller starts over.
    pub fn begin_batch(&mut self, restart: bool)
        ensures
            final(self).entries == old(self).entries,
            final(self).index == batch_start(old(self).index as nat, restart),
            final(self).index == if restart {
                0
            } else {
                old(self).index
            },
    {
        if restart {
            self.index = 0;
        }
    }

    /// What the listing of a directory needs next.
    pub fn next(&self, directory: Option<&str>) -> (r: EnumStep)
        ensures
            r@ == listing_step(
                child_names(self.entries@),
                child_types(self.entries@),
                self.index as nat,
                text::opt_str(directory),
            ),
            if self.index >= self.entries@.len() {
                r is Done
            } else {
                let entry = self.entries@[self.index as int];
                let name = vstd::utf8::decode_utf8(entry.name@);
                match directory {
                    None => r == EnumStep::Fail(E_INVALIDARG),
                    Some(d) => if !vstd::utf8::valid_utf8(entry.name@) {
                        r == EnumStep::Fail(INVALID_NAME)
                    } else if entry.file_type is Gitlink {
                        r matches EnumStep::Fill { name: n, info } && n@ == name && info
                            == boundary_info()
                    } else {
                        match daemon_key(
                            vstd::utf8::encode_utf8(child_relative(d@, name)),
                        ) {
                            Ok(key) => r matches EnumStep::Stat { key: k, name: n } && k@ == key
                                && n@ == name,
                            Err(_) => r == EnumStep::Fail(E_INVALIDARG),
                        }
                    },
                }
            },
    {
        if self.index >= self.entries.len() {
            return EnumStep::Done;
        }
        let directory = match directory {
            Some(d) => d,
            None => {
                return EnumStep::Fail(E_INVALIDARG);
            },
        };
        let entry = &self.entries[self.index];
        let name = match graph_name_as_str(entry.name.as_bytes()) {
            Some(name) => name,
            None => {
                return EnumStep::Fail(INVALID_NAME);
            },
        };
        match entry.file_type {
            FileType::Gitlink => EnumStep::Fill {
                name,
                info: BasicInfo {
                    is_directory: true,
                    file_size: 0,
                    creation_time: 0,
                    last_access_time: 0,
                    last_write_time: 0,
                    change_time: 0,
                    file_attributes: FILE_ATTRIBUTE_DIRECTORY,
                },
            },
            _ => {
                let child = if directory.is_empty() {
                    name.clone()
                } else {
                    directory.to_owned().concat("\\").concat(name.as_str())
                };
                match to_daemon_path(child.as_str()) {
                    Ok(key) => EnumStep::Stat { key, name },
                    Err(_) => EnumStep::Fail(E_INVALIDARG),
                }
            },
        }
    }

    /// Goes on after the platform took an entry, or did not.
    pub fn filled(&mut self, result: Result<(), u32>) -> (r: FillOutcome)
        requires
            old(self).index < old(self).entries@.len(),
        ensures
            final(self).entries == old(self).entries,
            (final(self).index as nat, r) == after_fill(old(self).index as nat, result),
            match result {
                Ok(_) => r == FillOutcome::Next && final(self).index == old(self).index + 1,
                Err(code) => final(self).index == old(self).index && r == if code
                    == INSUFFICIENT_BUFFER {
                    FillOutcome::Full
                } else {
                    FillOutcome::Fail(code)
                },
            },
    {
        match result {
            Ok(_) => {
                let total: usize = self.entries.len();
                assert(self.index < total);
                self.index = self.index + 1;
                FillOutcome::Next
            },
            Err(code) => {
                if code == INSUFFICIENT_BUFFER {
                    FillOutcome::Full
                } else {
                    FillOutcome::Fail(code)
                }
            },
        }
    }
}

// ── Content ─────────────────────────────────────────────────────────────

/// Whether a request for content is for all of a file.
pub open spec fn whole_file(byte_offset: u64, length: u32) -> bool {
    byte_offset == 0 && length == 0
}

/// The answer to a request for content.
pub open spec fn data_answer(data: Option<Vec<u8>>) -> Result<Option<Vec<u8>>, u32> {
    match data {
        None => Err(FILE_NOT_FOUND),
        Some(d) => Ok(
            if d@.len() == 0 {
                None
            } else {
                Some(d)
            },
        ),
    }
}

/// Whether a request for content is for all of a file.
pub fn wants_whole_file(byte_offset: u64, length: u32) -> (r: bool)
    ensures
        r == whole_file(byte_offset, length),
        r == (byte_offset == 0 && length == 0),
{
    byte_offset == 0 && length == 0
}

/// Answers a request for content: the bytes to write, none for a range that is
/// empty.
pub fn file_data(data: Option<Vec<u8>>) -> (r: Result<Option<Vec<u8>>, u32>)
    ensures
        r == data_answer(data),
        match data {
            None => r == Err::<Option<Vec<u8>>, u32>(FILE_NOT_FOUND),
            Some(d) => r == Ok::<Option<Vec<u8>>, u32>(
                if d@.len() == 0 {
                    None
                } else {
                    Some(d)
                },
            ),
        },
{
    match data {
        None => Err(FILE_NOT_FOUND),
        Some(d) => {
            if d.len() == 0 {
                Ok(None)
            } else {
                Ok(Some(d))
            }
        },
    }
}

// ── Notifications ───────────────────────────────────────────────────────

/// What the platform says happened to a file.
#[derive(Debug, Clone, Copy, PartialEq, Eq, Structural)]
pub enum Notification {
    ClosedModified,
    ClosedDeleted,
    Overwritten,
    Renamed,
    Created,
    /// Anything that changed no content.
    Other,
}

/// The keys below the virtualization root that these texts stand for.
pub open spec fn keys_of(paths: Seq<Option<Seq<char>>>) -> Seq<Seq<u8>>
    decreases paths.len(),
{
    if paths.len() == 0 {
        Seq::empty()
    } else {
        let before = keys_of(paths.drop_last());
        match paths.last() {
            Some(path) => match daemon_key(vstd::utf8::encode_utf8(path)) {
                Ok(key) => before.push(key),
                Err(_) => before,
            },
            None => before,
        }
    }
}

/// The paths that a notification is about: both, for a rename.
pub open spec fn notified(
    notification: Notification,
    relative: Option<Seq<char>>,
    destination: Option<Option<Seq<char>>>,
) -> Seq<Option<Seq<char>>> {
    if notification is Other {
        Seq::empty()
    } else {
        match destination {
            Some(target) if notification is Renamed => seq![relative, target],
            _ => seq![relative],
        }
    }
}

/// The keys, over bytes.
pub open spec fn key_views(keys: Seq<VfsPath>) -> Seq<Seq<u8>> {
    Seq::new(keys.len(), |i: int| keys[i]@)
}

/// Adds the key of a path.
fn push_key(keys: &mut Vec<VfsPath>, path: Option<&str>)
    ensures
        key_views(final(keys)@) == match text::opt_str(path) {
            Some(p) => match daemon_key(vstd::utf8::encode_utf8(p)) {
                Ok(key) => key_views(old(keys)@).push(key),
                Err(_) => key_views(old(keys)@),
            },
            None => key_views(old(keys)@),
        },
{
    match path {
        Some(p) => match to_daemon_path(p) {
            Ok(key) => {
                let ghost added = key@;
                keys.push(key);
                assert(key_views(keys@) =~= key_views(old(keys)@).push(added));
            },
            Err(_) => {},
        },
        None => {},
    }
}

/// The keys whose content changed, in the order in which they are announced. A
/// destination that is there but is no text is not announced.
pub fn notified_keys(
    notification: Notification,
    relative: Option<&str>,
    destination: Option<Option<&str>>,
) -> (r: Vec<VfsPath>)
    ensures
        key_views(r@) == keys_of(
            notified(
                notification,
                text::opt_str(relative),
                match destination {
                    Some(target) => Some(text::opt_str(target)),
                    None => None,
                },
            ),
        ),
{
    let mut keys: Vec<VfsPath> = Vec::new();
    let ghost one = seq![text::opt_str(relative)];
    assert(key_views(keys@) =~= Seq::<Seq<u8>>::empty());
    assert(keys_of(Seq::<Option<Seq<char>>>::empty()) =~= Seq::<Seq<u8>>::empty());
    assert(one.drop_last() =~= Seq::<Option<Seq<char>>>::empty());
    match notification {
        Notification::Other => {
            return keys;
        },
        _ => {},
    }
    push_key(&mut keys, relative);
    assert(key_views(keys@) == keys_of(one));
    match (notification, destination) {
        (Notification::Renamed, Some(target)) => {
            push_key(&mut keys, target);
            let ghost two = seq![text::opt_str(relative), text::opt_str(target)];
            assert(two.drop_last() =~= one);
            assert(key_views(keys@) == keys_of(two));
        },
        _ => {},
    }
    keys
}

// ── Identity ────────────────────────────────────────────────────────────

/// The identity of a virtualization instance.
#[derive(Debug, Clone, Copy, PartialEq, Eq)]
pub struct Guid {
    pub data1: u32,
    pub data2: u16,
    pub data3: u16,
    pub data4: [u8; 8],
}

/// A byte of a number, from the least significant.
pub open spec fn byte_of(n: u64, k: int) -> u8 {
    if k == 0 {
        (n % 0x100) as u8
    } else if k == 1 {
        (n / 0x100 % 0x100) as u8
    } else if k == 2 {
        (n / 0x1_0000 % 0x100) as u8
    } else if k == 3 {
        (n / 0x100_0000 % 0x100) as u8
    } else if k == 4 {
        (n / 0x1_0000_0000 % 0x100) as u8
    } else if k == 5 {
        (n / 0x100_0000_0000 % 0x100) as u8
    } else if k == 6 {
        (n / 0x1_0000_0000_0000 % 0x100) as u8
    } else {
        (n / 0x100_0000_0000_0000) as u8
    }
}

/// Whether an identity is the one that a hash spreads to.
pub open spec fn spreads(guid: Guid, hash: u64) -> bool {
    &&& guid.data1 == hash % 0x1_0000_0000
    &&& guid.data2 == hash / 0x1_0000_0000 % 0x1_0000
    &&& guid.data3 == hash / 0x1_0000_0000_0000
    &&& forall|i: int|
        0 <= i < 8 ==> (#[trigger] guid.data4@[i]) == byte_of(hash, i) ^ byte_of(hash, 7 - i)
}

/// The identity that a hash spreads to.
pub fn guid_from_hash(hash: u64) -> (r: Guid)
    ensures
        spreads(r, hash),
{
    let b0: u8 = (hash % 0x100) as u8;
    let b1: u8 = (hash / 0x100 % 0x100) as u8;
    let b2: u8 = (hash / 0x1_0000 % 0x100) as u8;
    let b3: u8 = (hash / 0x100_0000 % 0x100) as u8;
    let b4: u8 = (hash / 0x1_0000_0000 % 0x100) as u8;
    let b5: u8 = (hash / 0x100_0000_0000 % 0x100) as u8;
    let b6: u8 = (hash / 0x1_0000_0000_0000 % 0x100) as u8;
    let b7: u8 = (hash / 0x100_0000_0000_0000) as u8;
    let data4: [u8; 8] = [
        b0 ^ b7,
        b1 ^ b6,
        b2 ^ b5,
        b3 ^ b4,
        b4 ^ b3,
        b5 ^ b2,
        b6 ^ b1,
        b7 ^ b0,
    ];
    Guid {
        data1: (hash % 0x1_0000_0000) as u32,
        data2: (hash / 0x1_0000_0000 % 0x1_0000) as u16,
        data3: (hash / 0x1_0000_0000_0000) as u16,
        data4,
    }
}

/// The identity of a workspace: the same whenever it is virtualized.
pub fn create_deterministic_guid(path: &str) -> (r: Guid)
    ensures
        spreads(r, hashing::path_hash(path@)),
{
    guid_from_hash(hash_path(path))
}

// ── Laws ────────────────────────────────────────────────────────────────

/// One hash spreads to one identity.
pub proof fn law_identities_are_stable(a: Guid, b: Guid, hash: u64)
    requires
        spreads(a, hash),
        spreads(b, hash),
    ensures
        a.data1 == b.data1 && a.data2 == b.data2 && a.data3 == b.data3,
        a.data4@ == b.data4@,
{
    assert(a.data4@ =~= b.data4@);
}

/// Different hashes spread to different identities.
pub proof fn law_identities_are_distinct(a: Guid, b: Guid, x: u64, y: u64)
    requires
        spreads(a, x),
        spreads(b, y),
        x != y,
    ensures
        a.data1 != b.data1 || a.data2 != b.data2 || a.data3 != b.data3,
{
}

/// A key that a callback hands to the graph is made of the components that the
/// path names below the virtualization root, and holds nothing of any host
/// root.
pub proof fn law_keys_hold_no_host_root(relative: Seq<u8>)
    requires
        daemon_key(relative) is Ok,
    ensures
        daemon_key(relative)->Ok_0 == pathmap::join(
            vfs_path::significant(bytes::split(forward(relative), SLASH)),
        ),
        !daemon_key(relative)->Ok_0.contains(COLON),
{
    let path = forward(relative);
    let root = synthetic_root();
    let absolute = root + seq![SLASH] + path;
    let rest = absolute.subrange(root.len() as int, absolute.len() as int);
    assert(rest =~= Seq::<u8>::empty() + seq![SLASH] + path);
    pathmap::lemma_split_at(Seq::<u8>::empty(), path, SLASH);
    pathmap::lemma_split_none(Seq::<u8>::empty(), SLASH);
    let fields = bytes::split(path, SLASH);
    assert(bytes::split(rest, SLASH) =~= seq![Seq::<u8>::empty()] + fields);
    lemma_significant_prefix(fields);
    let key = daemon_key(relative)->Ok_0;
    vfs_path::lemma_graph_key(absolute, root);
    let cs = vfs_path::significant(fields);
    assert(key == pathmap::join(cs));
    if key.contains(COLON) {
        lemma_join_bytes(cs, COLON);
        let i = choose|i: int| 0 <= i < cs.len() && (#[trigger] cs[i]).contains(COLON);
        vfs_path::lemma_significant(fields);
        assert(fields.contains(cs[i]));
        let k = choose|k: int| 0 <= k < fields.len() && fields[k] == cs[i];
        vfs_path::lemma_field_bytes(path, SLASH, k, COLON);
    }
}

proof fn lemma_significant_prefix(fields: Seq<Seq<u8>>)
    ensures
        vfs_path::significant(seq![Seq::<u8>::empty()] + fields) == vfs_path::significant(fields),
    decreases fields.len(),
{
    let all = seq![Seq::<u8>::empty()] + fields;
    if fields.len() == 0 {
        assert(all.drop_last() =~= Seq::<Seq<u8>>::empty());
        assert(vfs_path::significant(all.drop_last()) =~= Seq::<Seq<u8>>::empty());
        assert(all.last() == Seq::<u8>::empty());
    } else {
        assert(all.drop_last() =~= seq![Seq::<u8>::empty()] + fields.drop_last());
        assert(all.last() == fields.last());
        lemma_significant_prefix(fields.drop_last());
    }
}

proof fn lemma_join_bytes(cs: Seq<Seq<u8>>, b: u8)
    requires
        pathmap::join(cs).contains(b),
        b != SLASH,
    ensures
        exists|i: int| 0 <= i < cs.len() && (#[trigger] cs[i]).contains(b),
    decreases cs.len(),
{
    let joined = pathmap::join(cs);
    let at = choose|at: int| 0 <= at < joined.len() && joined[at] == b;
    if cs.len() == 1 {
        assert(cs[0].contains(b));
    } else if cs.len() > 1 {
        let front = pathmap::join(cs.drop_last());
        if at < front.len() {
            assert(front[at] == b);
            assert(front.contains(b));
            lemma_join_bytes(cs.drop_last(), b);
            let i = choose|i: int|
                0 <= i < cs.drop_last().len() && (#[trigger] cs.drop_last()[i]).contains(b);
            assert(cs[i] == cs.drop_last()[i]);
        } else {
            assert(at > front.len());
            assert(cs.last()[at - front.len() - 1] == b);
            assert(cs[cs.len() - 1].contains(b));
        }
    }
}

/// A path below the virtualization root has the key of its names, whichever
/// separators stand between them. A rooted path and one that names a drive lie
/// outside.
pub proof fn law_a_relative_path_has_the_key_of_its_names(relative: Seq<u8>, names: Seq<Seq<u8>>)
    requires
        pathmap::all_names(names),
        names.len() > 0,
        forall|i: int| 0 <= i < names.len() ==> !(#[trigger] names[i]).contains(0x3a),
        relative.len() == pathmap::join(names).len(),
        forall|k: int|
            0 <= k < relative.len() ==> (#[trigger] relative[k] == pathmap::join(names)[k] && (
            relative[k] != 0x5c)) || (relative[k] == 0x5c && pathmap::join(names)[k] == 0x2f),
    ensures
        daemon_key(relative) == Ok::<Seq<u8>, WorkspacePathError>(pathmap::join(names)),
        daemon_key(seq![0x5cu8] + relative) == Err::<Seq<u8>, WorkspacePathError>(
            WorkspacePathError::OutsideRoot,
        ),
        daemon_key(seq![0x2fu8] + relative) == Err::<Seq<u8>, WorkspacePathError>(
            WorkspacePathError::OutsideRoot,
        ),
        daemon_key(seq![0x3au8] + relative) == Err::<Seq<u8>, WorkspacePathError>(
            WorkspacePathError::OutsideRoot,
        ),
{
    let key = pathmap::join(names);
    assert(forward(relative) =~= key);
    assert forall|i: int| 0 <= i < names.len() implies !(#[trigger] names[i]).contains(SLASH)
        && names[i].len() > 0 by {
        assert(pathmap::is_name(names[i]));
    }
    pathmap::lemma_join_first(names);
    pathmap::lemma_join_without(names, COLON);
    pathmap::lemma_split_join(names);
    let root = synthetic_root();
    reveal_strlit("C:/__kin_vfs_projfs_root");
    assert(vfs_path::key_components(key) == names);
    vfs_path::law_key_round_trips_through_the_host(root, key);
    assert(pathmap::joined_at(root, key) =~= root + seq![SLASH] + key);
    assert(forward(seq![0x5cu8] + relative)[0] == SLASH);
    assert(forward(seq![0x2fu8] + relative)[0] == SLASH);
    assert(forward(seq![0x3au8] + relative)[0] == COLON);
}

/// The platform's clock stands at its own zero in 1601, counts ten million ticks
/// a second, and is told the last modification for every time of an entry. A
/// directory has the attribute of one, and anything else that of a file.
pub proof fn law_the_platform_is_told_what_the_graph_says(stat: VirtualStat, seconds: u64)
    requires
        stat.size <= i64::MAX,
        stat.mtime <= 900_000_000_000,
        seconds < LAST_SECOND,
    ensures
        filetime(0) == 116_444_736_000_000_000,
        filetime((seconds + 1) as u64) - filetime(seconds) == 10_000_000,
        ({
            let info = info_of(stat);
            &&& info.is_directory == stat.is_dir
            &&& info.file_size == stat.size
            &&& info.last_write_time == filetime(stat.mtime)
            &&& info.creation_time == filetime(stat.mtime)
            &&& info.last_access_time == filetime(stat.mtime)
            &&& info.change_time == filetime(stat.mtime)
            &&& info.file_attributes == if stat.is_dir {
                0x10u32
            } else {
                0x80
            }
        }),
        boundary_info().is_directory && boundary_info().file_attributes == 0x10
            && boundary_info().file_size == 0,
        boundary_info().last_write_time == 0 && boundary_info().creation_time == 0
            && boundary_info().last_access_time == 0 && boundary_info().change_time == 0,
{
}

/// A character is read back from its units: one unit that is its number, or two
/// surrogates that hold it together.
pub proof fn law_a_character_is_read_back_from_its_units(c: char)
    ensures
        (c as int) < 0x10000 ==> wide_char(c).len() == 1 && wide_char(c)[0] == c as int,
        (c as int) >= 0x10000 ==> {
            let units = wide_char(c);
            &&& units.len() == 2
            &&& 0xd800 <= units[0] < 0xdc00
            &&& 0xdc00 <= units[1] < 0xe000
            &&& 0x10000 + (units[0] - 0xd800) * 0x400 + (units[1] - 0xdc00) == c as int
        },
{
}

/// The units of a text are those of its characters, in order.
pub proof fn law_wide_text_keeps_every_character(s: Seq<char>, c: char)
    ensures
        wide(s.push(c)) == wide(s) + wide_char(c),
        wide(Seq::empty()) == Seq::<u16>::empty(),
{
    assert(s.push(c).drop_last() =~= s);
}

/// The identity of an instance holds its hash: the low half, then two quarters.
pub proof fn law_an_identity_holds_its_hash(guid: Guid, hash: u64)
    requires
        spreads(guid, hash),
    ensures
        guid.data1 + guid.data2 * 0x1_0000_0000 + guid.data3 * 0x1_0000_0000_0000 == hash,
        guid.data4@[0] == guid.data4@[7] && guid.data4@[1] == guid.data4@[6] && guid.data4@[2]
            == guid.data4@[5] && guid.data4@[3] == guid.data4@[4],
        guid.data4@[0] == byte_of(hash, 0) ^ byte_of(hash, 7),
        guid.data4@[3] == byte_of(hash, 3) ^ byte_of(hash, 4),
{
    let a = byte_of(hash, 0);
    let b = byte_of(hash, 7);
    let c = byte_of(hash, 1);
    let d = byte_of(hash, 6);
    let e = byte_of(hash, 2);
    let f = byte_of(hash, 5);
    let g = byte_of(hash, 3);
    let h = byte_of(hash, 4);
    assert(a ^ b == b ^ a && c ^ d == d ^ c && e ^ f == f ^ e && g ^ h == h ^ g) by (bit_vector);
    assert(guid.data4@[0] == a ^ b);
    assert(guid.data4@[7] == b ^ a);
    assert(guid.data4@[1] == c ^ d);
    assert(guid.data4@[6] == d ^ c);
    assert(guid.data4@[2] == e ^ f);
    assert(guid.data4@[5] == f ^ e);
    assert(guid.data4@[3] == g ^ h);
    assert(guid.data4@[4] == h ^ g);
}

/// A change is announced under its own path, and a rename under both, the old
/// one first. What changed no content is not announced, and a destination is
/// looked at for a rename alone.
pub proof fn law_a_rename_is_announced_under_both_paths(
    relative: Option<Seq<char>>,
    target: Option<Seq<char>>,
)
    ensures
        notified(Notification::Renamed, relative, Some(target)) == seq![relative, target],
        notified(Notification::Renamed, relative, None) == seq![relative],
        notified(Notification::ClosedModified, relative, Some(target)) == seq![relative],
        notified(Notification::ClosedDeleted, relative, Some(target)) == seq![relative],
        notified(Notification::Overwritten, relative, Some(target)) == seq![relative],
        notified(Notification::Created, relative, Some(target)) == seq![relative],
        notified(Notification::Other, relative, Some(target)).len() == 0,
{
}

/// A listing goes on with the next entry once the platform took one. A full
/// buffer, and any other refusal, leaves the entry for the next time.
pub proof fn law_no_entry_is_skipped(index: nat, code: u32)
    ensures
        after_fill(index, Ok(())) == ((index + 1) as nat, FillOutcome::Next),
        after_fill(index, Err(0x8007_007au32)) == (index, FillOutcome::Full),
        code != 0x8007_007a ==> after_fill(index, Err(code)) == (index, FillOutcome::Fail(code)),
{
}

/// A child is listed under its own name, and its metadata is that of the name in
/// the listed directory: the key of the directory with the name behind it. A
/// nested repository is listed as a directory without asking, and a name that is
/// no text is refused.
pub proof fn law_a_child_is_listed_under_its_own_name(
    names: Seq<Seq<u8>>,
    types: Seq<FileType>,
    index: nat,
    directory: Seq<char>,
)
    requires
        names.len() == types.len(),
    ensures
        index >= names.len() ==> listing_step(names, types, index, Some(directory)) == Listing::Done,
        index < names.len() ==> listing_step(names, types, index, None) == Listing::Fail(
            0x8007_0057,
        ),
        index < names.len() && !vstd::utf8::valid_utf8(names[index as int]) ==> listing_step(
            names,
            types,
            index,
            Some(directory),
        ) == Listing::Fail(0x8007_007b),
        index < names.len() && vstd::utf8::valid_utf8(names[index as int]) ==> {
            let name = vstd::utf8::decode_utf8(names[index as int]);
            let path = if directory.len() == 0 {
                name
            } else {
                directory + "\\"@ + name
            };
            let step = listing_step(names, types, index, Some(directory));
            &&& types[index as int] == FileType::Gitlink ==> step == (Listing::Fill {
                name,
                info: boundary_info(),
            })
            &&& types[index as int] != FileType::Gitlink ==> step == match daemon_key(
                vstd::utf8::encode_utf8(path),
            ) {
                Ok(key) => Listing::Stat { key, name },
                Err(_) => Listing::Fail(0x8007_0057),
            }
        },
{
}

/// The answers to the platform: what succeeded is zero and what failed its own
/// code; an entry that is not there is not found; content is written as it came,
/// and nothing is written for an empty range; all of a file is asked for by an
/// empty range at its start.
pub proof fn law_the_platform_is_answered_in_its_own_codes(
    code: u32,
    stat: VirtualStat,
    data: Vec<u8>,
    offset: u64,
    length: u32,
)
    ensures
        hresult(Ok(())) == 0 && hresult(Err(code)) == code,
        placeholder(Some(stat)) == Ok::<BasicInfo, u32>(info_of(stat)),
        placeholder(None) == Err::<BasicInfo, u32>(0x8007_0002),
        data_answer(None) == Err::<Option<Vec<u8>>, u32>(0x8007_0002),
        data@.len() == 0 ==> data_answer(Some(data)) == Ok::<Option<Vec<u8>>, u32>(None),
        data@.len() > 0 ==> data_answer(Some(data)) == Ok::<Option<Vec<u8>>, u32>(Some(data)),
        whole_file(offset, length) <==> offset == 0 && length == 0,
{
}

/// A path lies in the workspace whichever separators either is written with, by
/// whole names; a temporary of a write does not.
pub proof fn law_separators_do_not_matter(
    path: Seq<u8>,
    root: Seq<u8>,
    rest: Seq<u8>,
    separator: u8,
)
    requires
        separator == 0x2f || separator == 0x5c,
        root.len() > 0,
        forward(root).last() != 0x2f,
        !bytes::occurs(root + seq![separator] + rest, bytes::ascii(".kin_tmp_"@)),
    ensures
        windows_owned(root + seq![separator] + rest, Some(root)),
        windows_owned(root + seq![separator] + rest, Some(forward(root))),
        !windows_owned(path, None),
        bytes::occurs(path, bytes::ascii(".kin_tmp_"@)) ==> !windows_owned(path, Some(root)),
{
    let whole = root + seq![separator] + rest;
    let f = forward(root);
    assert(forward(whole) =~= f + seq![SLASH] + forward(rest));
    assert(forward(f) =~= f);
    assert(forward(whole).subrange(0, f.len() as int) =~= f);
    pathmap::law_a_sibling_lies_outside(f, SLASH, forward(rest));
}

/// A batch begins where the listing stands, or at its start where the caller
/// starts over.
pub proof fn law_a_listing_starts_over_only_when_asked(index: nat)
    ensures
        batch_start(index, true) == 0,
        batch_start(index, false) == index,
{
}

} // verus!

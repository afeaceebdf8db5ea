//! Mounting and unmounting the export: which tool runs, with which arguments,
//! and what its output means.

use vstd::prelude::*;
use vstd::string::StringExecFns;

use crate::bytes::bytes_eq;
use crate::text;
use crate::text::{
    chars_eq, chars_of, decode_lossy, find_char, find_last_text, find_text, push_digits,
    split_lines, split_words, string_of, sub_chars, trim,
};

verus! {

// ── Tools ───────────────────────────────────────────────────────────────

/// Where a system tool may come from: directories that only the system writes
/// to. The search path belongs to whoever started the process.
pub open spec fn tool_directories() -> Seq<Seq<char>> {
    seq!["/usr/bin"@, "/bin"@, "/usr/sbin"@, "/sbin"@]
}

/// Whether a text holds a character.
fn holds_char(s: &[char], c: char) -> (r: bool)
    ensures
        r == s@.contains(c),
{
    let mut i: usize = 0;
    while i < s.len()
        invariant
            i <= s@.len(),
            forall|j: int| 0 <= j < i ==> (#[trigger] s@[j]) != c,
        decreases s@.len() - i,
    {
        if s[i] == c {
            return true;
        }
        i = i + 1;
    }
    false
}

/// Whether a name names a file of a directory, and nothing outside it.
pub open spec fn plain_name(name: Seq<char>) -> bool {
    &&& name.len() > 0
    &&& !name.contains('/')
    &&& name != "."@
    &&& name != ".."@
}

/// Whether a name names a file of a directory, and nothing outside it.
fn is_plain_name(name: &str) -> (r: bool)
    ensures
        r == plain_name(name@),
{
    let cs = chars_of(name);
    let here = chars_of(".");
    let up = chars_of("..");
    if cs.len() == 0 || chars_eq(cs.as_slice(), here.as_slice()) || chars_eq(
        cs.as_slice(),
        up.as_slice(),
    ) {
        return false;
    }
    !holds_char(cs.as_slice(), '/')
}

/// A name below a directory.
pub open spec fn below(directory: Seq<char>, name: Seq<char>) -> Seq<char> {
    directory + "/"@ + name
}

/// A name below a directory.
fn join_name(directory: &str, name: &str) -> (r: String)
    ensures
        r@ == below(directory@, name@),
{
    directory.to_owned().concat("/").concat(name)
}

/// The places where a tool is looked for, in order.
pub open spec fn candidates(name: Seq<char>) -> Seq<Seq<char>> {
    Seq::new(4, |i: int| below(tool_directories()[i], name))
}

/// The places where a tool is looked for, in order.
pub fn tool_candidates(name: &str) -> (r: Vec<String>)
    ensures
        text::texts(r@) == candidates(name@),
{
    let mut out: Vec<String> = Vec::new();
    out.push(join_name("/usr/bin", name));
    out.push(join_name("/bin", name));
    out.push(join_name("/usr/sbin", name));
    out.push(join_name("/sbin", name));
    assert(text::texts(out@) =~= candidates(name@));
    out
}

/// Why a tool is refused.
pub open spec fn tool_refusal(name: Seq<char>) -> Seq<char> {
    name + " was not found in any of /usr/bin, /bin, /usr/sbin, /sbin; refusing to resolve it through PATH, where a planted binary would run in its place"@
}

/// The first place that holds the tool.
pub open spec fn first_present(places: Seq<Seq<char>>, present: Seq<bool>) -> Option<Seq<char>>
    decreases places.len(),
{
    if places.len() == 0 || present.len() == 0 {
        None
    } else if present[0] {
        Some(places[0])
    } else {
        first_present(places.drop_first(), present.drop_first())
    }
}

/// The tool that a name stands for, given which of the places hold a file. A
/// name that leads anywhere else stands for none.
pub open spec fn trusted_tool(name: Seq<char>, present: Seq<bool>) -> Option<Seq<char>> {
    if plain_name(name) {
        first_present(candidates(name), present)
    } else {
        None
    }
}

/// Why a tool is refused.
fn refuse_tool(name: &str) -> (r: String)
    ensures
        r@ == tool_refusal(name@),
{
    name.to_owned().concat(
        " was not found in any of /usr/bin, /bin, /usr/sbin, /sbin; refusing to resolve it through PATH, where a planted binary would run in its place",
    )
}

/// The absolute path of a system tool. `present` says of each place where it is
/// looked for whether a file is there. A tool that is in none is refused: it is
/// never left to the search path, nor to a path that the name spells out.
pub fn system_tool(name: &str, present: &Vec<bool>) -> (r: Result<String, String>)
    ensures
        match r {
            Ok(path) => trusted_tool(name@, present@) == Some(path@),
            Err(message) => trusted_tool(name@, present@) is None && message@ == tool_refusal(
                name@,
            ),
        },
        name@.contains('/') ==> r is Err,
{
    if !is_plain_name(name) {
        return Err(refuse_tool(name));
    }
    let places = tool_candidates(name);
    let ghost all = candidates(name@);
    let mut i: usize = 0;
    assert(all.subrange(0, 4) =~= all);
    assert(present@.subrange(0, present@.len() as int) =~= present@);
    while i < 4 && i < present.len()
        invariant
            i <= 4,
            i <= present@.len(),
            all == candidates(name@),
            plain_name(name@),
            text::texts(places@) == all,
            first_present(all, present@) == first_present(
                all.subrange(i as int, 4),
                present@.subrange(i as int, present@.len() as int),
            ),
        decreases 4 - i,
    {
        let ghost left = all.subrange(i as int, 4);
        let ghost marks = present@.subrange(i as int, present@.len() as int);
        assert(places@.len() == text::texts(places@).len());
        assert(left[0] == all[i as int] && all[i as int] == places@[i as int]@);
        if present[i] {
            return Ok(places[i].clone());
        }
        assert(left.drop_first() =~= all.subrange(i + 1, 4));
        assert(marks.drop_first() =~= present@.subrange(i + 1, present@.len() as int));
        i = i + 1;
    }
    Err(refuse_tool(name))
}

/// Whether a name follows a Windows directory with no separator between: after
/// nothing, after a separator, and after a bare drive.
pub open spec fn needs_no_separator(directory: Seq<char>) -> bool {
    ||| directory.len() == 0
    ||| directory.last() == '\\'
    ||| directory.last() == '/'
    ||| directory.len() == 2 && directory[1] == ':' && ('a' <= directory[0] <= 'z' || 'A'
        <= directory[0] <= 'Z')
}

/// Where Windows keeps its tools; `root` is its directory, where the
/// environment names it.
pub open spec fn windows_place(root: Option<Seq<char>>, name: Seq<char>) -> Seq<char> {
    let directory = match root {
        Some(named) => named,
        None => "C:\\Windows"@,
    };
    if needs_no_separator(directory) {
        directory + "System32\\"@ + name
    } else {
        directory + "\\"@ + "System32\\"@ + name
    }
}

/// Where Windows keeps a tool.
pub fn windows_tool(root: Option<&str>, name: &str) -> (r: String)
    ensures
        r@ == windows_place(text::opt_str(root), name@),
{
    let directory = match root {
        Some(named) => named,
        None => "C:\\Windows",
    };
    let cs = chars_of(directory);
    let n: usize = cs.len();
    let bare = n == 0 || cs[n - 1] == '\\' || cs[n - 1] == '/' || (n == 2 && cs[1] == ':' && (
    ('a' <= cs[0] && cs[0] <= 'z') || ('A' <= cs[0] && cs[0] <= 'Z')));
    let mut out = directory.to_owned();
    if !bare {
        out.append("\\");
    }
    out.append("System32\\");
    out.append(name);
    out
}

/// Whether a name names a file of a Windows directory, and nothing outside it.
pub open spec fn plain_windows_name(name: Seq<char>) -> bool {
    plain_name(name) && !name.contains('\\') && !name.contains(':')
}

/// Whether a name names a file of a Windows directory, and nothing outside it.
fn is_plain_windows_name(name: &str) -> (r: bool)
    ensures
        r == plain_windows_name(name@),
{
    if !is_plain_name(name) {
        return false;
    }
    let cs = chars_of(name);
    !holds_char(cs.as_slice(), '\\') && !holds_char(cs.as_slice(), ':')
}

/// The tool of Windows that a name stands for; `present` says whether a file is
/// where it belongs.
pub open spec fn windows_found(root: Option<Seq<char>>, name: Seq<char>, present: bool) -> Option<
    Seq<char>,
> {
    if present && plain_windows_name(name) {
        Some(windows_place(root, name))
    } else {
        None
    }
}

/// Why Windows refuses a tool.
pub open spec fn windows_refusal(name: Seq<char>, place: Seq<char>) -> Seq<char> {
    name + " was not found at "@ + place + "; refusing to resolve it through PATH"@
}

/// The absolute path of a tool of Windows. `present` says whether a file is
/// where it belongs; where none is, or the name leads anywhere else, the tool is
/// refused.
pub fn system_tool_windows(root: Option<&str>, name: &str, present: bool) -> (r: Result<
    String,
    String,
>)
    ensures
        windows_found(text::opt_str(root), name@, present) == match r {
            Ok(path) => Some(path@),
            Err(_) => None,
        },
        match r {
            Ok(path) => present && plain_windows_name(name@) && path@ == windows_place(
                text::opt_str(root),
                name@,
            ),
            Err(message) => !(present && plain_windows_name(name@)) && message@ == windows_refusal(
                name@,
                windows_place(text::opt_str(root), name@),
            ),
        },
{
    let place = windows_tool(root, name);
    if present && is_plain_windows_name(name) {
        Ok(place)
    } else {
        let mut out = name.to_owned();
        out.append(" was not found at ");
        out.append(place.as_str());
        out.append("; refusing to resolve it through PATH");
        Err(out)
    }
}

// ── Hosts ───────────────────────────────────────────────────────────────

/// The name under which the export shows up.
pub const NFS_HOSTNAME: &'static str = "kin.local";

/// An address that a name resolved to.
#[derive(Debug, Clone, Copy)]
pub enum IpAddress {
    V4([u8; 4]),
    V6([u8; 16]),
}

/// Whether an address is the machine itself: 127.0.0.0/8, or ::1.
pub open spec fn loopback(address: IpAddress) -> bool {
    match address {
        IpAddress::V4(octets) => octets@[0] == 127,
        IpAddress::V6(octets) => octets@[15] == 1 && forall|i: int|
            0 <= i < 15 ==> octets@[i] == 0,
    }
}

/// Whether an address is the machine itself.
pub fn is_loopback(address: &IpAddress) -> (r: bool)
    ensures
        r == loopback(*address),
{
    match address {
        IpAddress::V4(octets) => octets[0] == 127,
        IpAddress::V6(octets) => {
            let mut i: usize = 0;
            while i < 15
                invariant
                    i <= 15,
                    *address == IpAddress::V6(*octets),
                    forall|j: int| 0 <= j < i ==> octets@[j] == 0,
                decreases 15 - i,
            {
                if octets[i] != 0 {
                    assert(octets@[i as int] != 0);
                    return false;
                }
                i = i + 1;
            }
            octets[15] == 1
        },
    }
}

/// Whether a name resolved to the machine itself and to nothing else. A name
/// that resolved to nothing did not.
pub fn all_loopback(addresses: &Vec<IpAddress>) -> (r: bool)
    ensures
        r == (addresses@.len() > 0 && forall|i: int|
            0 <= i < addresses@.len() ==> loopback(#[trigger] addresses@[i])),
{
    let mut i: usize = 0;
    while i < addresses.len()
        invariant
            i <= addresses@.len(),
            forall|j: int| 0 <= j < i ==> loopback(#[trigger] addresses@[j]),
        decreases addresses@.len() - i,
    {
        if !is_loopback(&addresses[i]) {
            assert(!loopback(addresses@[i as int]));
            return false;
        }
        i = i + 1;
    }
    addresses.len() > 0
}

/// The host to mount.
pub open spec fn mounted_host(addresses: Seq<IpAddress>) -> Seq<char> {
    if addresses.len() > 0 && forall|i: int|
        0 <= i < addresses.len() ==> loopback(#[trigger] addresses[i]) {
        NFS_HOSTNAME@
    } else {
        "127.0.0.1"@
    }
}

/// The host to mount: the name only where it is the machine itself. Anyone on
/// the network can answer for the name, and would be sent every read and write.
pub fn nfs_host(addresses: &Vec<IpAddress>) -> (r: String)
    ensures
        r@ == mounted_host(addresses@),
        r@ == if addresses@.len() > 0 && forall|i: int|
            0 <= i < addresses@.len() ==> loopback(#[trigger] addresses@[i]) {
            NFS_HOSTNAME@
        } else {
            "127.0.0.1"@
        },
{
    if all_loopback(addresses) {
        NFS_HOSTNAME.to_owned()
    } else {
        "127.0.0.1".to_owned()
    }
}

/// A line up to its comment.
pub open spec fn uncommented(line: Seq<char>) -> Seq<char> {
    line.subrange(0, text::first_index(line, '#'))
}

/// Whether a line maps an address to `host`: one of the words after the first,
/// as a whole, before any comment.
pub open spec fn maps(line: Seq<char>, host: Seq<char>) -> bool {
    exists|i: int|
        1 <= i < text::words(uncommented(line)).len() && #[trigger] text::words(
            uncommented(line),
        )[i] == host
}

/// Whether a line maps an address to `host`.
fn line_maps(line: &str, host: &str) -> (r: bool)
    ensures
        r == maps(line@, host@),
{
    let cs = chars_of(line);
    let end: usize = find_char(cs.as_slice(), '#');
    let kept = sub_chars(cs.as_slice(), 0, end);
    let fields = split_words(kept.as_slice());
    let ghost names = text::words(uncommented(line@));
    let wanted = chars_of(host);
    assert(text::texts(fields@) == names);
    assert(text::texts(fields@).len() == fields@.len());
    let mut i: usize = 1;
    while i < fields.len()
        invariant
            1 <= i,
            wanted@ == host@,
            text::texts(fields@) == names,
            names.len() == fields@.len(),
            names == text::words(uncommented(line@)),
            forall|j: int| 1 <= j < i && j < names.len() ==> #[trigger] names[j] != host@,
        decreases fields@.len() - i,
    {
        let field = chars_of(fields[i].as_str());
        assert(names[i as int] == fields@[i as int]@);
        if chars_eq(field.as_slice(), wanted.as_slice()) {
            return true;
        }
        i = i + 1;
    }
    false
}

/// Whether a hosts file maps an address to `host`.
pub open spec fn names_host(hosts: Seq<char>, host: Seq<char>) -> bool {
    exists|i: int|
        0 <= i < text::lines(hosts).len() && maps(#[trigger] text::lines(hosts)[i], host)
}

/// The line that a hosts file lacks for the export to have its name.
pub open spec fn alias_for(hosts: Seq<char>) -> Option<Seq<char>> {
    if names_host(hosts, NFS_HOSTNAME@) {
        None
    } else {
        Some("127.0.0.1 "@ + NFS_HOSTNAME@)
    }
}

/// Whether a hosts file maps an address to `host`.
pub fn hosts_file_names(hosts: &str, host: &str) -> (r: bool)
    ensures
        r == names_host(hosts@, host@),
        r == exists|i: int|
            0 <= i < text::lines(hosts@).len() && maps(
                #[trigger] text::lines(hosts@)[i],
                host@,
            ),
{
    let all = split_lines(hosts);
    let ghost seen = text::lines(hosts@);
    assert(text::texts(all@).len() == all@.len());
    let mut i: usize = 0;
    while i < all.len()
        invariant
            i <= all@.len(),
            seen == text::lines(hosts@),
            text::texts(all@) == seen,
            seen.len() == all@.len(),
            forall|j: int| 0 <= j < i ==> !maps(#[trigger] seen[j], host@),
        decreases all@.len() - i,
    {
        assert(seen[i as int] == all@[i as int]@);
        if line_maps(all[i].as_str(), host) {
            return true;
        }
        i = i + 1;
    }
    false
}

/// The line that a hosts file lacks for the export to have its name: none where
/// it has one already.
pub fn ensure_hostname_alias(hosts: &str) -> (r: Option<String>)
    ensures
        text::opt_text(r) == alias_for(hosts@),
        match r {
            Some(entry) => entry@ == "127.0.0.1 "@ + NFS_HOSTNAME@ && !exists|i: int|
                0 <= i < text::lines(hosts@).len() && maps(
                    #[trigger] text::lines(hosts@)[i],
                    NFS_HOSTNAME@,
                ),
            None => exists|i: int|
                0 <= i < text::lines(hosts@).len() && maps(
                    #[trigger] text::lines(hosts@)[i],
                    NFS_HOSTNAME@,
                ),
        },
{
    if hosts_file_names(hosts, NFS_HOSTNAME) {
        None
    } else {
        Some("127.0.0.1 ".to_owned().concat(NFS_HOSTNAME))
    }
}

// ── Mounting ────────────────────────────────────────────────────────────

/// A platform that can mount the export.
#[derive(Debug, Clone, Copy, PartialEq, Eq, Structural)]
pub enum Platform {
    Linux,
    MacOs,
    Windows,
}

/// The options that the mount tool is given.
pub open spec fn mount_options(platform: Platform, port: u16) -> Seq<char> {
    let p = text::digits(port as nat);
    match platform {
        Platform::Linux => "nolock,tcp,port="@ + p + ",mountport="@ + p + ",vers=3"@,
        Platform::MacOs => "tcp,port="@ + p + ",mountport="@ + p + ",nolockd,noresvport,vers=3"@,
        Platform::Windows => "nolock,port="@ + p,
    }
}

/// What is mounted.
pub open spec fn mount_source(platform: Platform, host: Seq<char>) -> Seq<char> {
    match platform {
        Platform::Windows => "\\\\"@ + host + "\\kin"@,
        _ => host + ":/"@,
    }
}

/// The arguments of the mount tool.
pub open spec fn mount_args(
    platform: Platform,
    port: u16,
    host: Seq<char>,
    mount_point: Seq<char>,
) -> Seq<Seq<char>> {
    match platform {
        Platform::Windows => seq![
            "-o"@,
            mount_options(platform, port),
            mount_source(platform, host),
            mount_point,
        ],
        _ => seq![
            "-t"@,
            "nfs"@,
            "-o"@,
            mount_options(platform, port),
            mount_source(platform, host),
            mount_point,
        ],
    }
}

/// The options that the mount tool is given.
fn build_options(platform: Platform, port: u16) -> (r: String)
    ensures
        r@ == mount_options(platform, port),
{
    match platform {
        Platform::Linux => {
            let mut out = "nolock,tcp,port=".to_owned();
            push_digits(&mut out, port as u64);
            out.append(",mountport=");
            push_digits(&mut out, port as u64);
            out.append(",vers=3");
            out
        },
        Platform::MacOs => {
            let mut out = "tcp,port=".to_owned();
            push_digits(&mut out, port as u64);
            out.append(",mountport=");
            push_digits(&mut out, port as u64);
            out.append(",nolockd,noresvport,vers=3");
            out
        },
        Platform::Windows => {
            let mut out = "nolock,port=".to_owned();
            push_digits(&mut out, port as u64);
            out
        },
    }
}

/// The arguments of the mount tool.
pub fn mount_command(platform: Platform, port: u16, host: &str, mount_point: &str) -> (r: Vec<
    String,
>)
    ensures
        text::texts(r@) == mount_args(platform, port, host@, mount_point@),
{
    let mut out: Vec<String> = Vec::new();
    match platform {
        Platform::Windows => {
            out.push("-o".to_owned());
            out.push(build_options(platform, port));
            out.push("\\\\".to_owned().concat(host).concat("\\kin"));
            out.push(mount_point.to_owned());
        },
        _ => {
            out.push("-t".to_owned());
            out.push("nfs".to_owned());
            out.push("-o".to_owned());
            out.push(build_options(platform, port));
            out.push(host.to_owned().concat(":/"));
            out.push(mount_point.to_owned());
        },
    }
    assert(text::texts(out@) =~= mount_args(platform, port, host@, mount_point@));
    out
}

/// The tool that mounts.
pub open spec fn mounting_tool(platform: Platform) -> Seq<char> {
    match platform {
        Platform::Windows => "mount.exe"@,
        _ => "mount"@,
    }
}

/// The tool that takes a mount away.
pub open spec fn unmounting_tool(platform: Platform) -> Seq<char> {
    match platform {
        Platform::Linux => "umount"@,
        Platform::MacOs => "diskutil"@,
        Platform::Windows => "net.exe"@,
    }
}

/// The name of the tool that mounts.
pub fn mount_tool(platform: Platform) -> (r: &'static str)
    ensures
        r@ == mounting_tool(platform),
{
    match platform {
        Platform::Windows => "mount.exe",
        _ => "mount",
    }
}

/// The name of the tool that takes a mount away.
pub fn unmount_tool(platform: Platform) -> (r: &'static str)
    ensures
        r@ == unmounting_tool(platform),
{
    match platform {
        Platform::Linux => "umount",
        Platform::MacOs => "diskutil",
        Platform::Windows => "net.exe",
    }
}

/// The arguments of the unmount tool.
pub open spec fn unmount_args(platform: Platform, mount_point: Seq<char>) -> Seq<Seq<char>> {
    match platform {
        Platform::Linux => seq![mount_point],
        Platform::MacOs => seq!["unmount"@, mount_point],
        Platform::Windows => seq!["use"@, mount_point, "/delete"@],
    }
}

/// The arguments of the unmount tool.
pub fn unmount_command(platform: Platform, mount_point: &str) -> (r: Vec<String>)
    ensures
        text::texts(r@) == unmount_args(platform, mount_point@),
{
    let mut out: Vec<String> = Vec::new();
    match platform {
        Platform::Linux => {
            out.push(mount_point.to_owned());
        },
        Platform::MacOs => {
            out.push("unmount".to_owned());
            out.push(mount_point.to_owned());
        },
        Platform::Windows => {
            out.push("use".to_owned());
            out.push(mount_point.to_owned());
            out.push("/delete".to_owned());
        },
    }
    assert(text::texts(out@) =~= unmount_args(platform, mount_point@));
    out
}

/// How a tool ended.
#[derive(Debug)]
pub struct ToolOutput {
    pub success: bool,
    /// The exit code; there is none where a signal ended it.
    pub code: Option<i32>,
    pub stderr: Vec<u8>,
}

/// An integer as it is written.
pub open spec fn signed_digits(n: int) -> Seq<char> {
    if n < 0 {
        "-"@ + text::digits((-n) as nat)
    } else {
        text::digits(n as nat)
    }
}

/// Appends an integer.
fn push_signed(out: &mut String, n: i32)
    ensures
        final(out)@ == old(out)@ + signed_digits(n as int),
{
    if n < 0 {
        out.append("-");
        let magnitude: i64 = -(n as i64);
        push_digits(out, magnitude as u64);
        assert(out@ =~= old(out)@ + signed_digits(n as int));
    } else {
        push_digits(out, n as u64);
    }
}

/// What a failed tool is reported as; `complaint` is what it wrote.
pub open spec fn tool_failure(
    what: Seq<char>,
    code: Option<i32>,
    complaint: Seq<char>,
) -> Seq<char> {
    let exit = match code {
        Some(c) => c as int,
        None => -1,
    };
    what + " failed (exit "@ + signed_digits(exit) + "): "@ + text::trimmed(complaint)
}

/// What a failed tool is reported as.
pub fn describe_failure(what: &str, code: Option<i32>, complaint: &str) -> (r: String)
    ensures
        r@ == tool_failure(what@, code, complaint@),
{
    let exit: i32 = match code {
        Some(c) => c,
        None => -1,
    };
    let mut out = what.to_owned().concat(" failed (exit ");
    push_signed(&mut out, exit);
    out.append("): ");
    let cs = chars_of(complaint);
    let kept = trim(cs.as_slice());
    out.append(string_of(kept.as_slice()).as_str());
    out
}

/// What came of the mount tool.
pub fn mount_nfs(output: &ToolOutput) -> (r: Result<(), String>)
    ensures
        match r {
            Ok(_) => output.success,
            Err(message) => !output.success && message@ == tool_failure(
                "mount"@,
                output.code,
                text::lossy_text(output.stderr@),
            ),
        },
{
    if output.success {
        Ok(())
    } else {
        let complaint = decode_lossy(output.stderr.as_slice());
        Err(describe_failure("mount", output.code, complaint.as_str()))
    }
}

// ── The mount table ─────────────────────────────────────────────────────

/// The mount point that a line of the mount table names: what stands between
/// the first ` on ` and the last ` (`, for a name may itself hold a ` (`.
pub open spec fn mount_point_of(line: Seq<char>) -> Option<Seq<char>> {
    let cut = text::first_at(line, " on "@, 0);
    if cut >= line.len() {
        None
    } else {
        let after = line.subrange(cut + 4, line.len() as int);
        let end = text::last_at(after, " ("@, after.len() as int);
        if end < 0 {
            None
        } else {
            Some(text::trimmed(after.subrange(0, end)))
        }
    }
}

/// The mount point that a line of the mount table names.
pub fn mounted_path(line: &str) -> (r: Option<String>)
    ensures
        text::opt_text(r) == mount_point_of(line@),
{
    let cs = chars_of(line);
    let on = chars_of(" on ");
    proof {
        reveal_strlit(" on ");
        assert(on@.len() == 4);
    }
    let cut: usize = find_text(cs.as_slice(), on.as_slice(), 0);
    proof {
        text::lemma_first_at(cs@, on@, 0, cut as int);
    }
    if cut >= cs.len() {
        return None;
    }
    let after = sub_chars(cs.as_slice(), cut + 4, cs.len());
    let options = chars_of(" (");
    match find_last_text(after.as_slice(), options.as_slice()) {
        None => None,
        Some(end) => {
            let point = sub_chars(after.as_slice(), 0, end);
            let kept = trim(point.as_slice());
            Some(string_of(kept.as_slice()))
        },
    }
}

/// The mount points of a mount table.
pub open spec fn mount_points(table: Seq<Seq<char>>) -> Seq<Seq<char>>
    decreases table.len(),
{
    if table.len() == 0 {
        Seq::empty()
    } else {
        match mount_point_of(table.last()) {
            Some(p) => mount_points(table.drop_last()).push(p),
            None => mount_points(table.drop_last()),
        }
    }
}

/// The mount points that the output of the mount tool names.
pub fn mounted_paths(output: &str) -> (r: Vec<String>)
    ensures
        text::texts(r@) == mount_points(text::lines(output@)),
{
    let all = split_lines(output);
    let ghost table = text::lines(output@);
    let mut out: Vec<String> = Vec::new();
    let mut i: usize = 0;
    assert(text::texts(all@).len() == all@.len());
    assert(text::texts(out@) =~= mount_points(table.subrange(0, 0)));
    while i < all.len()
        invariant
            i <= all@.len(),
            text::texts(all@) == table,
            table.len() == all@.len(),
            text::texts(out@) == mount_points(table.subrange(0, i as int)),
        decreases all@.len() - i,
    {
        let ghost before = text::texts(out@);
        assert(table.subrange(0, i + 1).drop_last() =~= table.subrange(0, i as int));
        assert(table.subrange(0, i + 1).last() == table[i as int]);
        assert(table[i as int] == all@[i as int]@);
        match mounted_path(all[i].as_str()) {
            Some(point) => {
                let ghost text = point@;
                out.push(point);
                assert(text::texts(out@) =~= before.push(text));
            },
            None => {},
        }
        i = i + 1;
    }
    assert(table.subrange(0, table.len() as int) =~= table);
    out
}

/// Whether a place is among the mount points.
pub open spec fn found_mounted(place: Seq<u8>, mounted: Seq<Option<Vec<u8>>>) -> bool {
    exists|i: int|
        0 <= i < mounted.len() && (#[trigger] mounted[i]) is Some && mounted[i]->0@ == place
}

/// Whether a place is mounted: the real path of the place, and the real paths of
/// the mount points as far as they have one. A place without a real path is not
/// mounted.
pub fn is_mounted(target: Option<&[u8]>, mounted: &Vec<Option<Vec<u8>>>) -> (r: bool)
    ensures
        r == (target is Some && found_mounted(target->0@, mounted@)),
        r == (target is Some && exists|i: int|
            0 <= i < mounted@.len() && (#[trigger] mounted@[i]) is Some && mounted@[i]->0@
                == target->0@),
{
    let place = match target {
        Some(place) => place,
        None => {
            return false;
        },
    };
    let mut i: usize = 0;
    while i < mounted.len()
        invariant
            i <= mounted@.len(),
            target == Some(place),
            forall|j: int|
                0 <= j < i ==> !((#[trigger] mounted@[j]) is Some && mounted@[j]->0@ == place@),
        decreases mounted@.len() - i,
    {
        match &mounted[i] {
            Some(path) => {
                if bytes_eq(path.as_slice(), place) {
                    return true;
                }
            },
            None => {},
        }
        i = i + 1;
    }
    false
}

/// How many mounts are stacked at `place`, given where each mount is.
pub open spec fn stacked(place: Seq<u8>, mounted: Seq<Option<Vec<u8>>>) -> nat
    decreases mounted.len(),
{
    if mounted.len() == 0 {
        0
    } else {
        let before = stacked(place, mounted.drop_last());
        match mounted.last() {
            Some(path) if path@ == place => before + 1,
            _ => before,
        }
    }
}

/// How many mounts are stacked at a place: none where the place is not there.
/// `mounted` holds the resolved place of every mount, where it has one.
pub fn mount_layers(target: Option<&[u8]>, mounted: &Vec<Option<Vec<u8>>>) -> (r: usize)
    ensures
        r == match target {
            Some(place) => stacked(place@, mounted@),
            None => 0,
        },
        r <= mounted@.len(),
{
    let place = match target {
        Some(place) => place,
        None => {
            return 0;
        },
    };
    let mut layers: usize = 0;
    let mut i: usize = 0;
    while i < mounted.len()
        invariant
            i <= mounted@.len(),
            layers <= i,
            layers == stacked(place@, mounted@.subrange(0, i as int)),
        decreases mounted@.len() - i,
    {
        assert(mounted@.subrange(0, i + 1).drop_last() =~= mounted@.subrange(0, i as int));
        assert(mounted@.subrange(0, i + 1).last() == mounted@[i as int]);
        match &mounted[i] {
            Some(path) => {
                if bytes_eq(path.as_slice(), place) {
                    layers = layers + 1;
                }
            },
            None => {},
        }
        i = i + 1;
    }
    assert(mounted@.subrange(0, mounted@.len() as int) =~= mounted@);
    layers
}

// ── Mounting, step by step ──────────────────────────────────────────────

/// What a mount, or the removal of a mount that does not stack, needs next.
#[derive(Debug)]
pub enum ToolAction {
    /// Find out whether the export is mounted.
    Check,
    /// Run the tool.
    Run,
    /// Succeed.
    Done,
    /// Fail, and say this.
    Fail(String),
}

/// What came of it.
#[derive(Debug)]
pub enum ToolEvent {
    /// Whether the export is mounted.
    Mounted(bool),
    /// How the tool ended.
    Ran(ToolOutput),
}

/// Where it stands.
#[derive(Debug, Clone, Copy, PartialEq, Eq, Structural)]
pub enum ToolStage {
    /// Whether the export is mounted was asked.
    Asked,
    /// The tool runs.
    Running,
    /// Whether anything is left was asked.
    Verifying,
    Finished,
}

/// Whether an event is what the stage waits for.
pub open spec fn awaited(stage: ToolStage, event: ToolEvent) -> bool {
    match stage {
        ToolStage::Asked => event is Mounted,
        ToolStage::Running => event is Ran,
        ToolStage::Verifying => event is Mounted,
        ToolStage::Finished => false,
    }
}

/// What a mount or a removal needs next, over character sequences.
pub enum Did {
    Check,
    Run,
    Done,
    Fail(Seq<char>),
}

impl View for ToolAction {
    type V = Did;

    open spec fn view(&self) -> Did {
        match self {
            ToolAction::Check => Did::Check,
            ToolAction::Run => Did::Run,
            ToolAction::Done => Did::Done,
            ToolAction::Fail(message) => Did::Fail(message@),
        }
    }
}

/// How a mount goes on.
pub open spec fn mounting(stage: ToolStage, event: ToolEvent) -> (ToolStage, Did) {
    match event {
        ToolEvent::Mounted(true) => (ToolStage::Finished, Did::Done),
        ToolEvent::Mounted(false) => (ToolStage::Running, Did::Run),
        ToolEvent::Ran(output) => (
            ToolStage::Finished,
            if output.success {
                Did::Done
            } else {
                Did::Fail(
                    tool_failure("mount"@, output.code, text::lossy_text(output.stderr@)),
                )
            },
        ),
    }
}

/// How the removal of a mount that does not stack goes on.
pub open spec fn detaching(stage: ToolStage, event: ToolEvent, place: Seq<char>) -> (
    ToolStage,
    Did,
) {
    match (stage, event) {
        (ToolStage::Asked, ToolEvent::Mounted(true)) => (ToolStage::Running, Did::Run),
        (ToolStage::Verifying, ToolEvent::Mounted(true)) => (
            ToolStage::Finished,
            Did::Fail("failed to fully unmount "@ + place),
        ),
        (_, ToolEvent::Mounted(_)) => (ToolStage::Finished, Did::Done),
        (_, ToolEvent::Ran(output)) => if output.success {
            (ToolStage::Verifying, Did::Check)
        } else {
            (
                ToolStage::Finished,
                Did::Fail(
                    tool_failure("unmount"@, output.code, text::lossy_text(output.stderr@)),
                ),
            )
        },
    }
}

/// Goes on with a mount: a share that is mounted stays as it is, and what the
/// tool complained of is reported.
pub fn mount_step(stage: ToolStage, event: ToolEvent) -> (r: (ToolStage, ToolAction))
    requires
        awaited(stage, event),
        !(stage is Verifying),
    ensures
        (r.0, r.1@) == mounting(stage, event),
        match event {
            ToolEvent::Mounted(true) => r.0 is Finished && r.1 is Done,
            ToolEvent::Mounted(false) => r.0 is Running && r.1 is Run,
            ToolEvent::Ran(output) => r.0 is Finished && if output.success {
                r.1 is Done
            } else {
                r.1 matches ToolAction::Fail(message) && message@ == tool_failure(
                    "mount"@,
                    output.code,
                    text::lossy_text(output.stderr@),
                )
            },
        },
{
    match event {
        ToolEvent::Mounted(true) => (ToolStage::Finished, ToolAction::Done),
        ToolEvent::Mounted(false) => (ToolStage::Running, ToolAction::Run),
        ToolEvent::Ran(output) => match mount_nfs(&output) {
            Ok(()) => (ToolStage::Finished, ToolAction::Done),
            Err(message) => (ToolStage::Finished, ToolAction::Fail(message)),
        },
    }
}

/// Goes on with the removal of a mount that does not stack: what the tool
/// complained of is reported, and so is a share that is still mounted.
pub fn detach_step(stage: ToolStage, event: ToolEvent, mount_point: &str) -> (r: (
    ToolStage,
    ToolAction,
))
    requires
        awaited(stage, event),
    ensures
        (r.0, r.1@) == detaching(stage, event, mount_point@),
        match (stage, event) {
            (ToolStage::Asked, ToolEvent::Mounted(true)) => r.0 is Running && r.1 is Run,
            (ToolStage::Verifying, ToolEvent::Mounted(true)) => r.0 is Finished && (
            r.1 matches ToolAction::Fail(message) && message@ == "failed to fully unmount "@
                + mount_point@),
            (_, ToolEvent::Mounted(_)) => r.0 is Finished && r.1 is Done,
            (_, ToolEvent::Ran(output)) => if output.success {
                r.0 is Verifying && r.1 is Check
            } else {
                r.0 is Finished && (r.1 matches ToolAction::Fail(message) && message@
                    == tool_failure("unmount"@, output.code, text::lossy_text(output.stderr@)))
            },
        },
{
    match event {
        ToolEvent::Mounted(mounted) => {
            if !mounted {
                (ToolStage::Finished, ToolAction::Done)
            } else {
                match stage {
                    ToolStage::Asked => (ToolStage::Running, ToolAction::Run),
                    _ => (ToolStage::Finished, ToolAction::Fail(unmount_failure(mount_point))),
                }
            }
        },
        ToolEvent::Ran(output) => {
            if output.success {
                (ToolStage::Verifying, ToolAction::Check)
            } else {
                let complaint = decode_lossy(output.stderr.as_slice());
                let message = describe_failure("unmount", output.code, complaint.as_str());
                (ToolStage::Finished, ToolAction::Fail(message))
            }
        },
    }
}

// ── Unmounting ──────────────────────────────────────────────────────────

/// How many attempts in a row may take nothing off before an unmount gives up.
pub const MAX_IDLE_UNMOUNTS: u32 = 10;

/// What an unmount needs next.
#[derive(Debug, Clone, Copy, PartialEq, Eq, Structural)]
pub enum UnmountAction {
    /// Find out how many layers are mounted.
    Check,
    /// Run the unmount tool, wait, and find out how many layers are left.
    Unmount,
    /// Succeed.
    Done,
    /// Fail: the export is still mounted.
    Fail,
}

/// An unmount under way. Mounts stack when the tool was run more than once.
#[derive(Debug, Clone, Copy, PartialEq, Eq, Structural)]
pub enum Unmounting {
    /// How much there is to unmount was asked.
    First,
    /// No fewer than `left` layers were seen so far, and the last `idle`
    /// attempts took nothing off.
    Layers { left: usize, idle: u32 },
    Finished,
}

/// The unmount and what it needs, after it was found how many layers are
/// mounted. It goes on until none is, as long as the number falls.
pub open spec fn next(stage: Unmounting, layers: usize) -> (Unmounting, UnmountAction) {
    if layers == 0 {
        (Unmounting::Finished, UnmountAction::Done)
    } else {
        match stage {
            Unmounting::First => (
                Unmounting::Layers { left: layers, idle: 0 },
                UnmountAction::Unmount,
            ),
            Unmounting::Layers { left, idle } => if layers < left {
                (Unmounting::Layers { left: layers, idle: 0 }, UnmountAction::Unmount)
            } else if idle + 1 < MAX_IDLE_UNMOUNTS {
                (Unmounting::Layers { left, idle: (idle + 1) as u32 }, UnmountAction::Unmount)
            } else {
                (Unmounting::Finished, UnmountAction::Fail)
            },
            Unmounting::Finished => (Unmounting::Finished, UnmountAction::Fail),
        }
    }
}

impl Unmounting {
    /// Begins an unmount.
    pub fn begin() -> (r: (Unmounting, UnmountAction))
        ensures
            r == (Unmounting::First, UnmountAction::Check),
    {
        (Unmounting::First, UnmountAction::Check)
    }

    /// Goes on, now that it was found how many layers are mounted.
    pub fn unmount(&mut self, layers: usize) -> (r: UnmountAction)
        requires
            !(*old(self) is Finished),
        ensures
            (*final(self), r) == next(*old(self), layers),
    {
        if layers == 0 {
            *self = Unmounting::Finished;
            return UnmountAction::Done;
        }
        match *self {
            Unmounting::First => {
                *self = Unmounting::Layers { left: layers, idle: 0 };
                UnmountAction::Unmount
            },
            Unmounting::Layers { left, idle } => {
                if layers < left {
                    *self = Unmounting::Layers { left: layers, idle: 0 };
                    UnmountAction::Unmount
                } else if idle < MAX_IDLE_UNMOUNTS - 1 {
                    *self = Unmounting::Layers { left, idle: idle + 1 };
                    UnmountAction::Unmount
                } else {
                    *self = Unmounting::Finished;
                    UnmountAction::Fail
                }
            },
            Unmounting::Finished => UnmountAction::Fail,
        }
    }
}

/// What an unmount that left something mounted is reported as.
pub fn unmount_failure(mount_point: &str) -> (r: String)
    ensures
        r@ == "failed to fully unmount "@ + mount_point@,
{
    "failed to fully unmount ".to_owned().concat(mount_point)
}

// ── Laws ────────────────────────────────────────────────────────────────

/// A tool is a file of a trusted directory, or there is none: whatever the name
/// spells out, it leads nowhere else.
pub proof fn law_tools_come_from_trusted_directories(name: Seq<char>, present: Seq<bool>)
    ensures
        trusted_tool(name, present) matches Some(path) ==> !name.contains('/') && exists|i: int|
            0 <= i < tool_directories().len() && path == #[trigger] tool_directories()[i] + "/"@
                + name,
        name.contains('/') ==> trusted_tool(name, present) is None,
{
    let all = candidates(name);
    if trusted_tool(name, present) is Some {
        let i = lemma_first_present(all, present);
        assert(all[i] == below(tool_directories()[i], name));
        assert(tool_directories()[i] + "/"@ + name == all[i]);
    }
}

proof fn lemma_first_present(places: Seq<Seq<char>>, present: Seq<bool>) -> (i: int)
    requires
        first_present(places, present) is Some,
    ensures
        0 <= i < places.len(),
        first_present(places, present) == Some(places[i]),
    decreases places.len(),
{
    if present[0] {
        0
    } else {
        let j = lemma_first_present(places.drop_first(), present.drop_first());
        j + 1
    }
}

/// What an unmount comes to when `layers` are stacked and each run of the tool
/// takes one off.
pub open spec fn peeled(stage: Unmounting, layers: usize) -> (Unmounting, UnmountAction)
    decreases layers,
{
    let (on, action) = next(stage, layers);
    if action is Unmount && layers > 0 {
        peeled(on, (layers - 1) as usize)
    } else {
        (on, action)
    }
}

/// However many layers are stacked, where each run of the tool takes one off
/// the unmount goes on until none remains, and succeeds.
pub proof fn law_every_layer_is_taken_off(layers: usize)
    ensures
        peeled(Unmounting::First, layers) == (Unmounting::Finished, UnmountAction::Done),
{
    if layers > 0 {
        lemma_peeled(layers, (layers - 1) as usize);
    }
}

proof fn lemma_peeled(left: usize, layers: usize)
    requires
        layers < left,
    ensures
        peeled(Unmounting::Layers { left, idle: 0 }, layers) == (
            Unmounting::Finished,
            UnmountAction::Done,
        ),
    decreases layers,
{
    if layers > 0 {
        lemma_peeled(layers, (layers - 1) as usize);
    }
}

/// How far an unmount still is from its end: the layers that were seen last,
/// and the attempts that may still take nothing off.
pub open spec fn distance(stage: Unmounting) -> (int, int) {
    match stage {
        Unmounting::First => (usize::MAX + 1, 0),
        Unmounting::Layers { left, idle } => (left as int, MAX_IDLE_UNMOUNTS - idle),
        Unmounting::Finished => (0, 0),
    }
}

/// An unmount ends, succeeds exactly when the last look found nothing mounted,
/// and fails only after attempts in a row that took nothing off.
pub proof fn law_an_unmount_ends_honestly(stage: Unmounting, layers: usize)
    requires
        !(stage is Finished),
        stage matches Unmounting::Layers { left, idle } ==> left > 0 && idle < MAX_IDLE_UNMOUNTS,
    ensures
        ({
            let (on, action) = next(stage, layers);
            let (far, idle) = distance(stage);
            let (now_far, now_idle) = distance(on);
            &&& 0 <= now_far && 0 <= now_idle
            &&& now_far < far || now_far == far && now_idle < idle
            &&& on matches Unmounting::Layers { left, idle } ==> left > 0 && idle
                < MAX_IDLE_UNMOUNTS
            &&& action is Done <==> layers == 0
            &&& action is Fail ==> (stage matches Unmounting::Layers { left, idle } && layers
                >= left && idle == MAX_IDLE_UNMOUNTS - 1)
            &&& on is Finished <==> action is Done || action is Fail
        }),
{
}

/// The mount tool is told the port twice, the host, and where to mount; the
/// unmount tool is told where.
pub proof fn law_the_tools_are_told_what_to_mount(
    port: u16,
    host: Seq<char>,
    place: Seq<char>,
)
    ensures
        ({
            let p = text::digits(port as nat);
            &&& mount_args(Platform::Linux, port, host, place) == seq![
                "-t"@,
                "nfs"@,
                "-o"@,
                "nolock,tcp,port="@ + p + ",mountport="@ + p + ",vers=3"@,
                host + ":/"@,
                place,
            ]
            &&& mount_args(Platform::MacOs, port, host, place) == seq![
                "-t"@,
                "nfs"@,
                "-o"@,
                "tcp,port="@ + p + ",mountport="@ + p + ",nolockd,noresvport,vers=3"@,
                host + ":/"@,
                place,
            ]
            &&& mount_args(Platform::Windows, port, host, place) == seq![
                "-o"@,
                "nolock,port="@ + p,
                "\\\\"@ + host + "\\kin"@,
                place,
            ]
            &&& unmount_args(Platform::Linux, place) == seq![place]
            &&& unmount_args(Platform::MacOs, place) == seq!["unmount"@, place]
            &&& unmount_args(Platform::Windows, place) == seq!["use"@, place, "/delete"@]
            &&& mounting_tool(Platform::Linux) == "mount"@ && mounting_tool(Platform::MacOs)
                == "mount"@ && mounting_tool(Platform::Windows) == "mount.exe"@
            &&& unmounting_tool(Platform::Linux) == "umount"@ && unmounting_tool(Platform::MacOs)
                == "diskutil"@ && unmounting_tool(Platform::Windows) == "net.exe"@
        }),
{
}

/// A tool is taken from the first of the trusted directories that holds it.
pub proof fn law_the_first_trusted_directory_counts(name: Seq<char>, present: Seq<bool>, i: int)
    requires
        plain_name(name),
        present.len() == 4,
        0 <= i < 4,
        present[i],
        forall|j: int| 0 <= j < i ==> !present[j],
    ensures
        trusted_tool(name, present) == Some(
            seq!["/usr/bin"@, "/bin"@, "/usr/sbin"@, "/sbin"@][i] + "/"@ + name,
        ),
        trusted_tool(name, seq![false, false, false, false]) is None,
{
    lemma_first_at_index(candidates(name), present, i);
    let none = seq![false, false, false, false];
    if first_present(candidates(name), none) is Some {
        lemma_some_present(candidates(name), none);
    }
}

proof fn lemma_first_at_index(places: Seq<Seq<char>>, present: Seq<bool>, i: int)
    requires
        places.len() == present.len(),
        0 <= i < present.len(),
        present[i],
        forall|j: int| 0 <= j < i ==> !present[j],
    ensures
        first_present(places, present) == Some(places[i]),
    decreases places.len(),
{
    if !present[0] {
        lemma_first_at_index(places.drop_first(), present.drop_first(), i - 1);
    }
}

proof fn lemma_some_present(places: Seq<Seq<char>>, present: Seq<bool>)
    requires
        first_present(places, present) is Some,
    ensures
        exists|i: int| 0 <= i < present.len() && #[trigger] present[i],
    decreases places.len(),
{
    if !present[0] {
        lemma_some_present(places.drop_first(), present.drop_first());
        let i = choose|i: int|
            0 <= i < present.drop_first().len() && #[trigger] present.drop_first()[i];
        assert(present[i + 1]);
    } else {
        assert(present[0]);
    }
}

/// The mount point of a line of the mount table is what stands between the
/// device and the options, whatever its name holds.
pub proof fn law_a_mount_line_names_its_place(
    device: Seq<char>,
    place: Seq<char>,
    options: Seq<char>,
)
    requires
        place.len() > 0,
        !text::white_space(place[0]),
        !text::white_space(place.last()),
        !device.contains(' '),
        !options.contains('('),
    ensures
        mount_point_of(device + " on "@ + place + " ("@ + options) == Some(place),
        mount_point_of(device) is None,
{
    reveal_strlit(" on ");
    reveal_strlit(" (");
    let line = device + " on "@ + place + " ("@ + options;
    let cut = device.len() as int;
    assert(line.subrange(cut, cut + 4) =~= " on "@);
    assert forall|at: int| 0 <= at < cut implies !text::stands_at(line, " on "@, at) by {
        if text::stands_at(line, " on "@, at) {
            assert(line.subrange(at, at + 4)[0] == device[at]);
        }
    }
    text::lemma_first_at(line, " on "@, 0, cut);
    let after = line.subrange(cut + 4, line.len() as int);
    assert(after =~= place + " ("@ + options);
    let end = place.len() as int;
    assert(after.subrange(end, end + 2) =~= " ("@);
    assert forall|at: int| end < at < after.len() implies !text::stands_at(after, " ("@, at) by {
        if text::stands_at(after, " ("@, at) {
            assert(after.subrange(at, at + 2)[1] == after[at + 1]);
            if at == end + 1 {
                assert(after.subrange(at, at + 2)[0] == after[at]);
                assert(after[at] == '(');
            } else {
                assert(after[at + 1] == options[at + 1 - end - 2]);
            }
        }
    }
    lemma_last_at_is(after, " ("@, after.len() as int, end);
    assert(after.subrange(0, end) =~= place);
    text::law_only_surrounding_white_space_is_trimmed(Seq::empty(), place, Seq::empty());
    assert forall|at: int| 0 <= at < cut implies !text::stands_at(device, " on "@, at) by {
        if text::stands_at(device, " on "@, at) {
            assert(device.subrange(at, at + 4)[0] == device[at]);
        }
    }
    text::lemma_first_at(device, " on "@, 0, cut);
}

proof fn lemma_last_at_is(s: Seq<char>, needle: Seq<char>, end: int, found: int)
    requires
        0 <= found < end,
        text::stands_at(s, needle, found),
        forall|at: int| found < at < end ==> !text::stands_at(s, needle, at),
    ensures
        text::last_at(s, needle, end) == found,
    decreases end,
{
    if end - 1 > found {
        lemma_last_at_is(s, needle, end - 1, found);
    }
}

/// A line of a hosts file maps its address to the names behind it, and to
/// nothing in its comment; the address itself is no name.
pub proof fn law_a_hosts_line_maps_its_names(
    address: Seq<char>,
    name: Seq<char>,
    comment: Seq<char>,
)
    requires
        address.len() > 0,
        name.len() > 0,
        forall|i: int|
            0 <= i < address.len() ==> !text::white_space(#[trigger] address[i]) && address[i]
                != '#',
        forall|i: int|
            0 <= i < name.len() ==> !text::white_space(#[trigger] name[i]) && name[i] != '#',
    ensures
        maps(address + seq![' '] + name, name),
        maps(address + seq![' '] + name + seq!['#'] + comment, name),
        address != name ==> !maps(address + seq![' '] + name + seq!['#'] + comment, address),
        !maps(address, address),
        !maps(seq!['#'] + comment, name),
        forall|other: Seq<char>|
            other != name ==> !#[trigger] maps(
                address + seq![' '] + name + seq!['#'] + comment,
                other,
            ),
{
    let space = seq![' '];
    let line = address + space + name;
    let empty = Seq::<char>::empty();
    assert(text::white_space(' '));
    text::law_words_are_separated_by_white_space(empty, address, space + name);
    assert(empty + address + (space + name) =~= line);
    text::law_words_are_separated_by_white_space(space, name, empty);
    assert(space + name + empty =~= space + name);
    assert(text::words(empty) =~= Seq::<Seq<char>>::empty());
    let both = text::words(line);
    assert(both =~= seq![address, name]);
    assert forall|i: int| 0 <= i < line.len() implies line[i] != '#' by {
        if i < address.len() {
            assert(line[i] == address[i]);
        } else if i > address.len() {
            assert(line[i] == name[i - address.len() - 1]);
        }
    }
    text::lemma_first_index_is(line, '#', line.len() as int);
    assert(uncommented(line) =~= line);
    let long = line + seq!['#'] + comment;
    text::lemma_first_index_is(long, '#', line.len() as int);
    assert(uncommented(long) =~= line);
    assert(both[1] == name);
    text::lemma_first_index_is(address, '#', address.len() as int);
    assert(uncommented(address) =~= address);
    text::law_words_are_separated_by_white_space(empty, address, empty);
    assert(empty + address + empty =~= address);
    assert(text::words(address).len() == 1);
    let only = seq!['#'] + comment;
    text::lemma_first_index_is(only, '#', 0);
    assert(uncommented(only) =~= empty);
}

/// The name of the export is mounted only where it resolved to the machine
/// itself and to nothing else; else the machine's own address is.
pub proof fn law_only_the_machine_itself_is_mounted(addresses: Seq<IpAddress>, i: int)
    ensures
        addresses.len() == 0 ==> mounted_host(addresses) == "127.0.0.1"@,
        0 <= i < addresses.len() && !loopback(addresses[i]) ==> mounted_host(addresses)
            == "127.0.0.1"@,
        addresses.len() > 0 && (forall|k: int|
            0 <= k < addresses.len() ==> loopback(#[trigger] addresses[k])) ==> mounted_host(
            addresses,
        ) == "kin.local"@,
{
}

/// A place is mounted exactly where at least one mount is stacked on it, and
/// every mount on it is counted once.
pub proof fn law_every_mount_of_a_place_is_counted(
    place: Seq<u8>,
    mounted: Seq<Option<Vec<u8>>>,
    more: Option<Vec<u8>>,
)
    ensures
        stacked(place, mounted.push(more)) == if more is Some && more->0@ == place {
            stacked(place, mounted) + 1
        } else {
            stacked(place, mounted)
        },
        stacked(place, Seq::empty()) == 0,
        stacked(place, mounted) > 0 <==> found_mounted(place, mounted),
    decreases mounted.len(),
{
    assert(mounted.push(more).drop_last() =~= mounted);
    if mounted.len() > 0 {
        let front = mounted.drop_last();
        law_every_mount_of_a_place_is_counted(place, front, mounted.last());
        assert(front.push(mounted.last()) =~= mounted);
        if found_mounted(place, mounted) {
            let i = choose|i: int|
                0 <= i < mounted.len() && (#[trigger] mounted[i]) is Some && mounted[i]->0@
                    == place;
            if i < front.len() {
                assert(front[i] == mounted[i]);
            }
        }
        if found_mounted(place, front) {
            let i = choose|i: int|
                0 <= i < front.len() && (#[trigger] front[i]) is Some && front[i]->0@ == place;
            assert(mounted[i] == front[i]);
        }
        if mounted.last() is Some && mounted.last()->0@ == place {
            assert(mounted[mounted.len() - 1] == mounted.last());
        }
    }
}

/// A mount that is there is left alone; else the tool runs once, and what it
/// complained of is reported.
pub proof fn law_a_mount_runs_the_tool_at_most_once(output: ToolOutput)
    ensures
        mounting(ToolStage::Asked, ToolEvent::Mounted(true)) == (ToolStage::Finished, Did::Done),
        mounting(ToolStage::Asked, ToolEvent::Mounted(false)) == (ToolStage::Running, Did::Run),
        output.success ==> mounting(ToolStage::Running, ToolEvent::Ran(output)) == (
            ToolStage::Finished,
            Did::Done,
        ),
        !output.success ==> mounting(ToolStage::Running, ToolEvent::Ran(output)) == (
            ToolStage::Finished,
            Did::Fail(
                "mount failed (exit "@ + signed_digits(
                    match output.code {
                        Some(code) => code as int,
                        None => -1,
                    },
                ) + "): "@ + text::trimmed(text::lossy_text(output.stderr@)),
            ),
        ),
{
    reveal_strlit("mount");
    reveal_strlit(" failed (exit ");
    reveal_strlit("mount failed (exit ");
    assert("mount"@ + " failed (exit "@ =~= "mount failed (exit "@);
}

/// A share that is not mounted needs no removal; else the tool runs, and the
/// removal succeeds only where nothing is mounted afterwards.
pub proof fn law_a_removal_is_checked(output: ToolOutput, place: Seq<char>)
    ensures
        detaching(ToolStage::Asked, ToolEvent::Mounted(false), place) == (
            ToolStage::Finished,
            Did::Done,
        ),
        detaching(ToolStage::Asked, ToolEvent::Mounted(true), place) == (
            ToolStage::Running,
            Did::Run,
        ),
        output.success ==> detaching(ToolStage::Running, ToolEvent::Ran(output), place) == (
            ToolStage::Verifying,
            Did::Check,
        ),
        !output.success ==> detaching(ToolStage::Running, ToolEvent::Ran(output), place) == (
            ToolStage::Finished,
            Did::Fail(tool_failure("unmount"@, output.code, text::lossy_text(output.stderr@))),
        ),
        detaching(ToolStage::Verifying, ToolEvent::Mounted(false), place) == (
            ToolStage::Finished,
            Did::Done,
        ),
        detaching(ToolStage::Verifying, ToolEvent::Mounted(true), place) == (
            ToolStage::Finished,
            Did::Fail("failed to fully unmount "@ + place),
        ),
{
}

/// How often the unmount tool runs from `stage` on where it never takes anything
/// off, within `rounds` looks.
pub open spec fn idle_runs(stage: Unmounting, layers: usize, rounds: nat) -> nat
    decreases rounds,
{
    let (on, action) = next(stage, layers);
    if rounds == 0 || !(action is Unmount) {
        0
    } else {
        1 + idle_runs(on, layers, (rounds - 1) as nat)
    }
}

/// A mount that cannot be taken off is given up after the tool ran ten times for
/// nothing.
pub proof fn law_a_stuck_mount_is_given_up(layers: usize, rounds: nat)
    requires
        layers > 0,
        rounds >= 11,
    ensures
        idle_runs(Unmounting::First, layers, rounds) == 10,
{
    reveal_with_fuel(idle_runs, 12);
}

/// A tool of Windows lies in the system directory below the directory that the
/// environment names, or below the usual one.
pub proof fn law_windows_tools_lie_in_the_system_directory(root: Seq<char>, name: Seq<char>)
    requires
        root.len() > 2,
        root.last() != '\\' && root.last() != '/',
    ensures
        windows_place(Some(root), name) == root + "\\System32\\"@ + name,
        windows_place(None, name) == "C:\\Windows\\System32\\"@ + name,
        windows_place(Some(root + seq!['\\']), name) == root + "\\System32\\"@ + name,
{
    reveal_strlit("C:\\Windows");
    reveal_strlit("\\");
    reveal_strlit("System32\\");
    reveal_strlit("\\System32\\");
    reveal_strlit("C:\\Windows\\System32\\");
    assert(root + "\\"@ + "System32\\"@ + name =~= root + "\\System32\\"@ + name);
    assert("C:\\Windows"@ + "\\"@ + "System32\\"@ + name =~= "C:\\Windows\\System32\\"@ + name);
    let slashed = root + seq!['\\'];
    assert(slashed + "System32\\"@ + name =~= root + "\\System32\\"@ + name);
}

/// A hosts file names a host exactly where one of its lines maps to it, and the
/// line that it lacks is asked for exactly where none does.
pub proof fn law_the_alias_is_asked_for_where_it_is_missing(
    before: Seq<char>,
    line: Seq<char>,
    after: Seq<char>,
    host: Seq<char>,
)
    requires
        !line.contains('\n') && !line.contains('\r'),
    ensures
        names_host(line + seq!['\n'] + after, host) <==> maps(line, host) || names_host(after, host),
        !names_host(Seq::empty(), host),
        alias_for(Seq::empty()) == Some("127.0.0.1 kin.local"@),
        names_host(after, "kin.local"@) <==> alias_for(after) is None,
        alias_for(after) is Some ==> alias_for(after) == Some("127.0.0.1 kin.local"@),
{
    text::law_lines_are_separated_by_line_feeds(line, after);
    let all = text::lines(line + seq!['\n'] + after);
    let rest = text::lines(after);
    assert(all == seq![line] + rest);
    if maps(line, host) {
        assert(maps(all[0], host));
    }
    if names_host(after, host) {
        let i = choose|i: int| 0 <= i < rest.len() && maps(#[trigger] rest[i], host);
        assert(all[i + 1] == rest[i]);
    }
    if names_host(line + seq!['\n'] + after, host) {
        let i = choose|i: int| 0 <= i < all.len() && maps(#[trigger] all[i], host);
        if i > 0 {
            assert(all[i] == rest[i - 1]);
        }
    }
    reveal_strlit("127.0.0.1 ");
    reveal_strlit("kin.local");
    reveal_strlit("127.0.0.1 kin.local");
    assert("127.0.0.1 "@ + "kin.local"@ =~= "127.0.0.1 kin.local"@);
}

/// The mount points of a table are those of its lines, in order; a line that
/// names none is passed over.
pub proof fn law_every_mount_line_is_read(table: Seq<Seq<char>>, line: Seq<char>)
    ensures
        mount_points(table.push(line)) == match mount_point_of(line) {
            Some(place) => mount_points(table).push(place),
            None => mount_points(table),
        },
        mount_points(Seq::empty()) == Seq::<Seq<char>>::empty(),
{
    assert(table.push(line).drop_last() =~= table);
}

/// The machine itself is every address that begins with 127, and the one that is
/// one alone; no other is.
pub proof fn law_loopback_addresses(v4: [u8; 4], v6: [u8; 16])
    ensures
        loopback(IpAddress::V4(v4)) <==> v4@[0] == 127,
        loopback(IpAddress::V6(v6)) <==> v6@ == seq![
            0u8, 0, 0, 0, 0, 0, 0, 0, 0, 0, 0, 0, 0, 0, 0, 1,
        ],
{
    let one = seq![0u8, 0, 0, 0, 0, 0, 0, 0, 0, 0, 0, 0, 0, 0, 0, 1];
    if loopback(IpAddress::V6(v6)) {
        assert(v6@ =~= one);
    }
    if v6@ == one {
        assert forall|i: int| 0 <= i < 15 implies v6@[i] == 0 by {
            assert(one[i] == 0);
        }
    }
}

/// A tool of Windows is one that lies where it belongs; a name that leads
/// anywhere else stands for none.
pub proof fn law_windows_tools_are_plain_names(root: Option<Seq<char>>, name: Seq<char>)
    ensures
        name.contains('\\') || name.contains('/') || name.contains(':') || name.len() == 0
            ==> windows_found(root, name, true) is None,
        windows_found(root, name, false) is None,
        windows_found(root, name, true) is Some ==> windows_found(root, name, true) == Some(
            windows_place(root, name),
        ),
        plain_name(name) && !name.contains('\\') && !name.contains(':') ==> windows_found(
            root,
            name,
            true,
        ) is Some,
{
}

/// An exit code is written in decimal digits, behind a minus sign where it is
/// negative; a tool that was ended by a signal has minus one.
pub proof fn law_an_exit_code_is_written_with_its_sign(
    what: Seq<char>,
    n: nat,
    complaint: Seq<char>,
)
    requires
        n > 0,
    ensures
        signed_digits(n as int) == text::digits(n),
        signed_digits(-(n as int)) == seq!['-'] + text::digits(n),
        signed_digits(0) == text::digits(0),
        tool_failure(what, None, complaint) == tool_failure(what, Some(-1i32), complaint),
{
    reveal_strlit("-");
    assert("-"@ =~= seq!['-']);
}

} // verus!

//! The workspaces that are known on this machine.
//!
//! Each is exported under a name of its own: names are distinct however many
//! workspaces share a directory name.

use vstd::prelude::*;
use vstd::string::StringExecFns;

use crate::bytes;
use crate::bytes::{bytes_eq, split_bytes, to_vec, SLASH};
use crate::pathmap;
use crate::pathmap::{is_absolute, join_at_path, noise, parent_dir};
use crate::text;
use crate::text::{chars_eq, chars_of, decode_lossy, push_digits};
use crate::vfs_path;

verus! {

/// A registered workspace.
#[derive(Debug)]
pub struct WorkspaceEntry {
    /// The name it is exported under.
    pub name: String,
    /// Absolute path of the workspace root.
    pub path: Vec<u8>,
    /// Where its daemon listens.
    pub daemon_url: String,
}

/// A registered workspace, over sequences.
pub struct Entry {
    pub name: Seq<char>,
    pub path: Seq<u8>,
    pub daemon_url: Seq<char>,
}

impl View for WorkspaceEntry {
    type V = Entry;

    open spec fn view(&self) -> Entry {
        Entry { name: self.name@, path: self.path@, daemon_url: self.daemon_url@ }
    }
}

impl Clone for WorkspaceEntry {
    fn clone(&self) -> (r: WorkspaceEntry)
        ensures
            r@ == self@,
    {
        WorkspaceEntry {
            name: self.name.clone(),
            path: to_vec(self.path.as_slice()),
            daemon_url: self.daemon_url.clone(),
        }
    }
}

/// The registered workspaces, over sequences.
pub open spec fn entry_views(entries: Seq<WorkspaceEntry>) -> Seq<Entry> {
    Seq::new(entries.len(), |i: int| entries[i]@)
}

// ── Paths ───────────────────────────────────────────────────────────────

/// The components of a path that name something.
fn named_components(path: &[u8]) -> (r: Vec<Vec<u8>>)
    ensures
        bytes::views(r@) == vfs_path::significant(bytes::split(path@, SLASH)),
{
    let fields = split_bytes(path, SLASH);
    let ghost all = bytes::split(path@, SLASH);
    let mut out: Vec<Vec<u8>> = Vec::new();
    let mut i: usize = 0;
    assert(bytes::views(fields@).len() == fields@.len());
    assert(bytes::views(out@) =~= vfs_path::significant(all.subrange(0, 0)));
    while i < fields.len()
        invariant
            i <= fields@.len(),
            bytes::views(fields@) == all,
            all.len() == fields@.len(),
            bytes::views(out@) == vfs_path::significant(all.subrange(0, i as int)),
        decreases fields@.len() - i,
    {
        let ghost before = bytes::views(out@);
        assert(all.subrange(0, i + 1).drop_last() =~= all.subrange(0, i as int));
        assert(all.subrange(0, i + 1).last() == all[i as int]);
        assert(all[i as int] == fields@[i as int]@);
        if !noise(fields[i].as_slice()) {
            out.push(to_vec(fields[i].as_slice()));
            assert(bytes::views(out@) =~= before.push(all[i as int]));
        }
        i = i + 1;
    }
    assert(all.subrange(0, all.len() as int) =~= all);
    out
}

/// The last component of a path, where it names something.
pub open spec fn file_name_of(path: Seq<u8>) -> Option<Seq<u8>> {
    let cs = vfs_path::significant(bytes::split(path, SLASH));
    if cs.len() == 0 || cs.last() == pathmap::dot_dot() {
        None
    } else {
        Some(cs.last())
    }
}

/// The last component of a path, where it names something.
pub fn file_name(path: &[u8]) -> (r: Option<Vec<u8>>)
    ensures
        pathmap::opt_bytes(r) == file_name_of(path@),
{
    let cs = named_components(path);
    let ghost all = vfs_path::significant(bytes::split(path@, SLASH));
    assert(bytes::views(cs@).len() == cs@.len());
    if cs.len() == 0 {
        return None;
    }
    let at: usize = cs.len() - 1;
    assert(all.last() == cs@[at as int]@);
    let last = to_vec(cs[at].as_slice());
    if parent_dir(last.as_slice()) {
        None
    } else {
        Some(last)
    }
}

/// Whether a relative path begins with `.`.
pub open spec fn dotted(path: Seq<u8>) -> bool {
    bytes::split(path, SLASH)[0] == pathmap::dot()
}

/// Whether two paths are spelled alike but for separators and `.`s that change
/// nothing.
pub open spec fn same_path(a: Seq<u8>, b: Seq<u8>) -> bool {
    &&& pathmap::absolute(a) == pathmap::absolute(b)
    &&& dotted(a) == dotted(b)
    &&& vfs_path::significant(bytes::split(a, SLASH)) == vfs_path::significant(
        bytes::split(b, SLASH),
    )
}

/// Whether a path begins with the component `.`.
fn begins_with_dot(path: &[u8]) -> (r: bool)
    ensures
        r == dotted(path@),
{
    proof {
        pathmap::lemma_split_fields(path@, SLASH);
    }
    let fields = split_bytes(path, SLASH);
    assert(bytes::views(fields@).len() == fields@.len());
    assert(bytes::views(fields@)[0] == fields@[0]@);
    fields[0].len() > 0 && noise(fields[0].as_slice())
}

/// Whether two paths are spelled alike.
pub fn paths_equal(a: &[u8], b: &[u8]) -> (r: bool)
    ensures
        r == same_path(a@, b@),
{
    if is_absolute(a) != is_absolute(b) || begins_with_dot(a) != begins_with_dot(b) {
        return false;
    }
    let x = named_components(a);
    let y = named_components(b);
    let ghost xs = bytes::views(x@);
    let ghost ys = bytes::views(y@);
    assert(xs.len() == x@.len() && ys.len() == y@.len());
    if x.len() != y.len() {
        return false;
    }
    let mut i: usize = 0;
    while i < x.len()
        invariant
            i <= x@.len(),
            x@.len() == y@.len(),
            xs == bytes::views(x@),
            ys == bytes::views(y@),
            xs == vfs_path::significant(bytes::split(a@, SLASH)),
            ys == vfs_path::significant(bytes::split(b@, SLASH)),
            forall|j: int| 0 <= j < i ==> xs[j] == ys[j],
        decreases x@.len() - i,
    {
        assert(xs[i as int] == x@[i as int]@ && ys[i as int] == y@[i as int]@);
        if !bytes_eq(x[i].as_slice(), y[i].as_slice()) {
            return false;
        }
        i = i + 1;
    }
    assert(xs =~= ys);
    true
}

// ── Names ───────────────────────────────────────────────────────────────

/// Whether a name is taken.
pub open spec fn taken(entries: Seq<Entry>, name: Seq<char>) -> bool {
    exists|i: int| 0 <= i < entries.len() && (#[trigger] entries[i]).name == name
}

/// A name with a number behind it.
pub open spec fn numbered(base: Seq<char>, n: nat) -> Seq<char> {
    base + "-"@ + text::digits(n)
}

/// The name under which a workspace is exported, from its directory name.
pub open spec fn base_name(path: Seq<u8>) -> Seq<char> {
    match file_name_of(path) {
        Some(name) => text::lossy_text(name),
        None => "workspace"@,
    }
}

/// Whether `name` is what a new workspace is called: the base name where it is
/// free, else with the first number from 2 on that makes it free.
pub open spec fn called(entries: Seq<Entry>, base: Seq<char>, name: Seq<char>) -> bool {
    if !taken(entries, base) {
        name == base
    } else {
        exists|n: nat| #[trigger] numbered_first(entries, base, n) && name == numbered(base, n)
    }
}

/// Whether `n` is the first number from 2 on that makes the name free.
pub open spec fn numbered_first(entries: Seq<Entry>, base: Seq<char>, n: nat) -> bool {
    &&& n >= 2
    &&& !taken(entries, numbered(base, n))
    &&& forall|m: nat| 2 <= m < n ==> taken(entries, #[trigger] numbered(base, m))
}

/// Different numbers make different names.
proof fn lemma_numbered(base: Seq<char>, m: nat, n: nat)
    requires
        numbered(base, m) == numbered(base, n),
    ensures
        m == n,
{
    let cut = (base + "-"@).len() as int;
    assert(numbered(base, m).subrange(cut, numbered(base, m).len() as int) =~= text::digits(m));
    assert(numbered(base, n).subrange(cut, numbered(base, n).len() as int) =~= text::digits(n));
    let most = if m <= n {
        n
    } else {
        m
    };
    text::law_rendered_numbers_parse_back(m, most);
    text::law_rendered_numbers_parse_back(n, most);
}

// ── The registry ────────────────────────────────────────────────────────

/// The registry.
#[derive(Debug)]
pub struct WorkspaceRegistry {
    entries: Vec<WorkspaceEntry>,
    config_path: Vec<u8>,
}

impl View for WorkspaceRegistry {
    type V = Seq<Entry>;

    closed spec fn view(&self) -> Seq<Entry> {
        entry_views(self.entries@)
    }
}

impl WorkspaceRegistry {
    /// Where the registry is kept.
    pub closed spec fn kept_at(&self) -> Seq<u8> {
        self.config_path@
    }

    /// A registry of the entries that were read; none where there is no file.
    pub fn with_entries(entries: Vec<WorkspaceEntry>, config_path: Vec<u8>) -> (r:
        WorkspaceRegistry)
        ensures
            r@ == entry_views(entries@),
            r.kept_at() == config_path@,
    {
        WorkspaceRegistry { entries, config_path }
    }

    /// Where the registry is kept.
    pub fn config_path(&self) -> (r: &[u8])
        ensures
            r@ == self.kept_at(),
    {
        self.config_path.as_slice()
    }

    /// The position of the first workspace with this name.
    fn find(&self, name: &str) -> (r: Option<usize>)
        ensures
            match r {
                Some(i) => {
                    &&& i < self@.len()
                    &&& self@[i as int].name == name@
                    &&& forall|j: int| 0 <= j < i ==> (#[trigger] self@[j]).name != name@
                },
                None => !taken(self@, name@),
            },
    {
        let wanted = chars_of(name);
        let mut i: usize = 0;
        while i < self.entries.len()
            invariant
                i <= self.entries@.len(),
                wanted@ == name@,
                forall|j: int| 0 <= j < i ==> (#[trigger] self@[j]).name != name@,
            decreases self.entries@.len() - i,
        {
            let held = chars_of(self.entries[i].name.as_str());
            assert(self@[i as int].name == held@);
            if chars_eq(held.as_slice(), wanted.as_slice()) {
                return Some(i);
            }
            i = i + 1;
        }
        None
    }

    /// The name under which a new workspace is exported.
    fn choose_name(&self, base: &str) -> (r: String)
        requires
            self@.len() < u32::MAX,
        ensures
            called(self@, base@, r@),
    {
        if self.find(base).is_none() {
            return base.to_owned();
        }
        let ghost count = self@.len();
        let ghost used: Set<int> = Set::empty();
        let mut n: u64 = 2;
        let total: usize = self.entries.len();
        proof {
            vstd::set_lib::lemma_int_range(0, count as int);
            vstd::set_lib::lemma_len_subset(used, vstd::set_lib::set_int_range(0, count as int));
        }
        loop
            invariant
                2 <= n <= count + 2,
                count == self@.len(),
                count == total,
                count < u32::MAX,
                taken(self@, base@),
                used.finite(),
                used.len() == n - 2,
                used.subset_of(vstd::set_lib::set_int_range(0, count as int)),
                forall|m: nat| 2 <= m < n ==> taken(self@, #[trigger] numbered(base@, m)),
                forall|i: int|
                    used.contains(i) ==> exists|m: nat|
                        2 <= m < n && (#[trigger] numbered(base@, m)) == self@[i].name,
            decreases count + 2 - n,
        {
            let mut candidate = base.to_owned().concat("-");
            push_digits(&mut candidate, n);
            assert(candidate@ == numbered(base@, n as nat));
            match self.find(candidate.as_str()) {
                None => {
                    assert(numbered_first(self@, base@, n as nat));
                    return candidate;
                },
                Some(at) => {
                    proof {
                        let i = at as int;
                        assert(self@[i].name == candidate@);
                        if used.contains(i) {
                            let m = choose|m: nat|
                                2 <= m < n && (#[trigger] numbered(base@, m)) == self@[i].name;
                            lemma_numbered(base@, m, n as nat);
                        }
                        assert(taken(self@, numbered(base@, n as nat)));
                        let more = used.insert(i);
                        assert forall|j: int| more.contains(j) implies exists|m: nat|
                            2 <= m < n + 1 && (#[trigger] numbered(base@, m)) == self@[j].name by {
                            if j == i {
                                assert(numbered(base@, n as nat) == self@[j].name);
                            } else {
                                let m = choose|m: nat|
                                    2 <= m < n && (#[trigger] numbered(base@, m)) == self@[j].name;
                                assert(numbered(base@, m) == self@[j].name);
                            }
                        }
                        vstd::set_lib::lemma_int_range(0, count as int);
                        vstd::set_lib::lemma_len_subset(
                            more,
                            vstd::set_lib::set_int_range(0, count as int),
                        );
                        used = more;
                    }
                    n = n + 1;
                },
            }
        }
    }

    /// Registers a workspace under a name made from its directory name.
    pub fn register(&mut self, path: Vec<u8>, daemon_url: String) -> (r: WorkspaceEntry)
        requires
            old(self)@.len() < u32::MAX,
        ensures
            final(self)@ == old(self)@.push(r@),
            final(self).kept_at() == old(self).kept_at(),
            r.path@ == path@,
            r.daemon_url@ == daemon_url@,
            called(old(self)@, base_name(path@), r.name@),
    {
        let base = match file_name(path.as_slice()) {
            Some(name) => decode_lossy(name.as_slice()),
            None => "workspace".to_owned(),
        };
        let name = self.choose_name(base.as_str());
        let entry = WorkspaceEntry { name, path, daemon_url };
        let copy = entry.clone();
        self.entries.push(entry);
        assert(self@ =~= old(self)@.push(copy@));
        copy
    }

    /// Removes every workspace with this name; says whether there was one.
    pub fn deregister(&mut self, name: &str) -> (r: bool)
        ensures
            final(self)@ == without_name(old(self)@, name@),
            final(self).kept_at() == old(self).kept_at(),
            r == taken(old(self)@, name@),
    {
        let wanted = chars_of(name);
        let ghost before = self@;
        let found: bool = self.find(name).is_some();
        let mut kept: Vec<WorkspaceEntry> = Vec::new();
        let mut i: usize = 0;
        assert(entry_views(kept@) =~= without_name(before.subrange(0, 0), name@));
        while i < self.entries.len()
            invariant
                i <= self.entries@.len(),
                wanted@ == name@,
                before == self@,
                self.config_path@ == old(self).config_path@,
                entry_views(kept@) == without_name(before.subrange(0, i as int), name@),
            decreases self.entries@.len() - i,
        {
            let ghost so_far = entry_views(kept@);
            let held = chars_of(self.entries[i].name.as_str());
            assert(before.subrange(0, i + 1).drop_last() =~= before.subrange(0, i as int));
            assert(before.subrange(0, i + 1).last() == before[i as int]);
            assert(before[i as int] == self.entries@[i as int]@);
            if !chars_eq(held.as_slice(), wanted.as_slice()) {
                kept.push(self.entries[i].clone());
                assert(entry_views(kept@) =~= so_far.push(before[i as int]));
            }
            i = i + 1;
        }
        assert(before.subrange(0, before.len() as int) =~= before);
        self.entries = kept;
        found
    }

    /// The first workspace with this name.
    pub fn get(&self, name: &str) -> (r: Option<&WorkspaceEntry>)
        ensures
            first_named(self@, name@) == match r {
                Some(entry) => Some(entry@),
                None => None,
            },
            match r {
                Some(entry) => exists|i: int|
                    {
                        &&& 0 <= i < self@.len()
                        &&& entry@ == #[trigger] self@[i]
                        &&& entry@.name == name@
                        &&& forall|j: int| 0 <= j < i ==> (#[trigger] self@[j]).name != name@
                    },
                None => !taken(self@, name@),
            },
    {
        match self.find(name) {
            Some(i) => {
                assert(self@[i as int] == self.entries@[i as int]@);
                proof {
                    lemma_first_named(self@, name@, i as int);
                }
                Some(&self.entries[i])
            },
            None => {
                proof {
                    lemma_none_named(self@, name@);
                }
                None
            },
        }
    }

    /// Whether a workspace at this path is registered.
    pub fn is_registered_path(&self, path: &[u8]) -> (r: bool)
        ensures
            r == registered(self@, path@),
    {
        let mut i: usize = 0;
        while i < self.entries.len()
            invariant
                i <= self.entries@.len(),
                forall|j: int| 0 <= j < i ==> !same_path((#[trigger] self@[j]).path, path@),
            decreases self.entries@.len() - i,
        {
            assert(self@[i as int].path == self.entries@[i as int].path@);
            if paths_equal(self.entries[i].path.as_slice(), path) {
                return true;
            }
            i = i + 1;
        }
        false
    }

    /// The registered workspaces, in the order in which they were registered.
    pub fn list(&self) -> (r: &Vec<WorkspaceEntry>)
        ensures
            entry_views(r@) == self@,
    {
        &self.entries
    }

    /// Registers every candidate that is a workspace and is not registered yet,
    /// in the order in which they were found; says what the new ones are called.
    pub fn discover(&mut self, candidates: &Vec<Candidate>) -> (r: Vec<String>)
        requires
            old(self)@.len() + marked(candidates@).len() <= u32::MAX,
        ensures
            discovered(old(self)@, marked(candidates@), final(self)@, text::texts(r@)),
            final(self).kept_at() == old(self).kept_at(),
    {
        let found = marked_paths(candidates);
        self.register_found(&found)
    }

    /// Registers the workspaces that are not registered yet.
    fn register_found(&mut self, found: &Vec<Vec<u8>>) -> (r: Vec<String>)
        requires
            old(self)@.len() + found@.len() <= u32::MAX,
        ensures
            discovered(old(self)@, bytes::views(found@), final(self)@, text::texts(r@)),
            final(self).kept_at() == old(self).kept_at(),
    {
        let mut names: Vec<String> = Vec::new();
        let ghost all = bytes::views(found@);
        let ghost start = self@;
        let mut i: usize = 0;
        assert(text::texts(names@) =~= Seq::<Seq<char>>::empty());
        assert(all.subrange(0, 0) =~= Seq::<Seq<u8>>::empty());
        while i < found.len()
            invariant
                i <= found@.len(),
                all == bytes::views(found@),
                start == old(self)@,
                start.len() + found@.len() <= u32::MAX,
                self@.len() <= start.len() + i,
                self.config_path@ == old(self).config_path@,
                discovered(start, all.subrange(0, i as int), self@, text::texts(names@)),
            decreases found@.len() - i,
        {
            let ghost before = self@;
            let ghost so_far = text::texts(names@);
            let ghost front = all.subrange(0, i + 1);
            assert(front.drop_last() =~= all.subrange(0, i as int));
            assert(front.last() == all[i as int]);
            assert(all[i as int] == found@[i as int]@);
            if !self.is_registered_path(found[i].as_slice()) {
                let mut url = "http://127.0.0.1:".to_owned();
                let number: usize = self.entries.len();
                push_digits(&mut url, 4219 + number as u64);
                let entry = self.register(to_vec(found[i].as_slice()), url);
                let ghost name = entry.name@;
                names.push(entry.name);
                assert(text::texts(names@) =~= so_far.push(name));
                assert(self@ =~= before.push(self@.last()));
                assert(text::texts(names@).drop_last() =~= so_far);
                assert(self@.drop_last() =~= before);
            }
            i = i + 1;
        }
        assert(all.subrange(0, all.len() as int) =~= all);
        names
    }
}

/// The first entry of this name.
pub open spec fn first_named(entries: Seq<Entry>, name: Seq<char>) -> Option<Entry>
    decreases entries.len(),
{
    if entries.len() == 0 {
        None
    } else if entries[0].name == name {
        Some(entries[0])
    } else {
        first_named(entries.drop_first(), name)
    }
}

/// The entries without those of this name.
pub open spec fn without_name(entries: Seq<Entry>, name: Seq<char>) -> Seq<Entry>
    decreases entries.len(),
{
    if entries.len() == 0 {
        Seq::empty()
    } else if entries.last().name == name {
        without_name(entries.drop_last(), name)
    } else {
        without_name(entries.drop_last(), name).push(entries.last())
    }
}

/// What lies in a directory that is searched for workspaces.
#[derive(Debug)]
pub struct Candidate {
    pub path: Vec<u8>,
    /// Whether there is a directory at its marker path.
    pub holds_marker: bool,
}

/// Where a workspace keeps what marks it as one.
pub open spec fn marker_of(path: Seq<u8>) -> Seq<u8> {
    pathmap::joined_at(path, bytes::ascii(".kin"@))
}

/// The directories whose children are looked at, in order.
pub open spec fn searched(home: Seq<u8>) -> Seq<Seq<u8>> {
    Seq::new(7, |i: int| pathmap::joined_at(home, bytes::ascii(search_names()[i]))).push(home)
}

/// Where the registry is kept unless told otherwise.
pub open spec fn config_of(home: Option<Seq<u8>>) -> Seq<u8> {
    pathmap::joined_at(
        pathmap::joined_at(
            match home {
                Some(h) => h,
                None => bytes::ascii("."@),
            },
            bytes::ascii(".kin"@),
        ),
        bytes::ascii("vfs-workspaces.json"@),
    )
}

/// Where a workspace keeps what marks it as one.
pub fn marker_path(path: &[u8]) -> (r: Vec<u8>)
    ensures
        r@ == marker_of(path@),
        r@ == pathmap::joined_at(path@, bytes::ascii(".kin"@)),
{
    proof {
        reveal_strlit(".kin");
    }
    below(path, ".kin")
}

/// The candidates that are workspaces, in order.
pub open spec fn marked(candidates: Seq<Candidate>) -> Seq<Seq<u8>>
    decreases candidates.len(),
{
    if candidates.len() == 0 {
        Seq::empty()
    } else {
        let before = marked(candidates.drop_last());
        if candidates.last().holds_marker {
            before.push(candidates.last().path@)
        } else {
            before
        }
    }
}

/// The candidates that are workspaces, in order.
fn marked_paths(candidates: &Vec<Candidate>) -> (r: Vec<Vec<u8>>)
    ensures
        bytes::views(r@) == marked(candidates@),
        r@.len() == marked(candidates@).len(),
{
    let mut out: Vec<Vec<u8>> = Vec::new();
    let mut i: usize = 0;
    assert(candidates@.subrange(0, 0) =~= Seq::<Candidate>::empty());
    assert(bytes::views(out@) =~= Seq::<Seq<u8>>::empty());
    while i < candidates.len()
        invariant
            i <= candidates@.len(),
            bytes::views(out@) == marked(candidates@.subrange(0, i as int)),
        decreases candidates@.len() - i,
    {
        let ghost before = bytes::views(out@);
        let ghost front = candidates@.subrange(0, i + 1);
        assert(front.drop_last() =~= candidates@.subrange(0, i as int));
        assert(front.last() == candidates@[i as int]);
        if candidates[i].holds_marker {
            out.push(to_vec(candidates[i].path.as_slice()));
            assert(bytes::views(out@) =~= before.push(candidates@[i as int].path@));
        }
        i = i + 1;
    }
    assert(candidates@.subrange(0, candidates@.len() as int) =~= candidates@);
    assert(bytes::views(out@).len() == out@.len());
    out
}

/// Whether a workspace at this path is among the entries.
pub open spec fn registered(entries: Seq<Entry>, path: Seq<u8>) -> bool {
    exists|i: int| 0 <= i < entries.len() && same_path((#[trigger] entries[i]).path, path)
}

/// Where the daemon of a newly found workspace is expected: each has a port of
/// its own.
pub open spec fn expected_url(registered: nat) -> Seq<char> {
    "http://127.0.0.1:"@ + text::digits(4219 + registered)
}

/// What a discovery makes of `before`: each path that was found and is not
/// registered at that point is registered, and its name is reported.
pub open spec fn discovered(
    before: Seq<Entry>,
    found: Seq<Seq<u8>>,
    after: Seq<Entry>,
    names: Seq<Seq<char>>,
) -> bool
    decreases found.len(),
{
    if found.len() == 0 {
        after == before && names.len() == 0
    } else {
        ||| {
            &&& discovered(before, found.drop_last(), after, names)
            &&& registered(after, found.last())
        }
        ||| {
            &&& after.len() > 0
            &&& names.len() > 0
            &&& discovered(before, found.drop_last(), after.drop_last(), names.drop_last())
            &&& !registered(after.drop_last(), found.last())
            &&& after.last().path == found.last()
            &&& after.last().name == names.last()
            &&& after.last().daemon_url == expected_url(after.drop_last().len())
            &&& called(after.drop_last(), base_name(found.last()), names.last())
        }
    }
}

// ── Where to look ───────────────────────────────────────────────────────

/// A literal name below a directory.
fn below(directory: &[u8], name: &str) -> (r: Vec<u8>)
    requires
        name.is_ascii(),
    ensures
        r@ == pathmap::joined_at(directory@, bytes::ascii(name@)),
{
    let part = to_vec(name.as_bytes());
    assert(part@ =~= bytes::ascii(name@));
    join_at_path(directory, part.as_slice())
}

/// The directories whose children are looked at, below the home directory.
pub open spec fn search_names() -> Seq<Seq<char>> {
    seq!["GitHub"@, "Projects"@, "Developer"@, "repos"@, "src"@, "code"@, "work"@]
}

/// The directories whose children are looked at, in order: the usual ones, then
/// the home directory itself.
pub fn search_dirs(home: &[u8]) -> (r: Vec<Vec<u8>>)
    ensures
        bytes::views(r@) == searched(home@),
        bytes::views(r@) == Seq::new(
            7,
            |i: int| pathmap::joined_at(home@, bytes::ascii(search_names()[i])),
        ).push(home@),
{
    proof {
        reveal_strlit("GitHub");
        reveal_strlit("Projects");
        reveal_strlit("Developer");
        reveal_strlit("repos");
        reveal_strlit("src");
        reveal_strlit("code");
        reveal_strlit("work");
    }
    let mut out: Vec<Vec<u8>> = Vec::new();
    out.push(below(home, "GitHub"));
    out.push(below(home, "Projects"));
    out.push(below(home, "Developer"));
    out.push(below(home, "repos"));
    out.push(below(home, "src"));
    out.push(below(home, "code"));
    out.push(below(home, "work"));
    out.push(to_vec(home));
    assert(bytes::views(out@) =~= Seq::new(
        7,
        |i: int| pathmap::joined_at(home@, bytes::ascii(search_names()[i])),
    ).push(home@));
    out
}

/// Where the registry is kept unless told otherwise.
pub fn default_config_path(home: Option<&[u8]>) -> (r: Vec<u8>)
    ensures
        r@ == config_of(
            match home {
                Some(h) => Some(h@),
                None => None,
            },
        ),
        r@ == pathmap::joined_at(
            pathmap::joined_at(
                match home {
                    Some(h) => h@,
                    None => bytes::ascii("."@),
                },
                bytes::ascii(".kin"@),
            ),
            bytes::ascii("vfs-workspaces.json"@),
        ),
{
    proof {
        reveal_strlit(".");
        reveal_strlit(".kin");
        reveal_strlit("vfs-workspaces.json");
    }
    let directory = match home {
        Some(h) => to_vec(h),
        None => {
            let here = to_vec(".".as_bytes());
            assert(".".is_ascii());
            assert(here@ =~= bytes::ascii("."@));
            here
        },
    };
    let kin = below(directory.as_slice(), ".kin");
    below(kin.as_slice(), "vfs-workspaces.json")
}

// ── Laws ────────────────────────────────────────────────────────────────

/// Whether no two entries share a name.
pub open spec fn distinct_names(entries: Seq<Entry>) -> bool {
    forall|i: int, j: int|
        0 <= i < j < entries.len() ==> (#[trigger] entries[i]).name != (#[trigger] entries[j]).name
}

/// Registering keeps names distinct, and what was registered can be looked up
/// under the name it was given.
pub proof fn law_registration_keeps_names_distinct(entries: Seq<Entry>, added: Entry)
    requires
        distinct_names(entries),
        called(entries, base_name(added.path), added.name),
    ensures
        distinct_names(entries.push(added)),
        taken(entries.push(added), added.name),
        !taken(entries, added.name),
{
    let after = entries.push(added);
    assert(!taken(entries, added.name));
    assert forall|i: int, j: int| 0 <= i < j < after.len() implies (#[trigger] after[i]).name != (
    #[trigger] after[j]).name by {
        assert(after[i] == entries[i]);
        if j == entries.len() {
            assert(after[j] == added);
        } else {
            assert(after[j] == entries[j]);
        }
    }
    assert(after[entries.len() as int] == added);
}

/// What was removed cannot be looked up, and nothing else was removed.
pub proof fn law_deregistration_removes_exactly_that_name(
    entries: Seq<Entry>,
    name: Seq<char>,
    other: Entry,
)
    ensures
        !taken(without_name(entries, name), name),
        other.name != name ==> (without_name(entries, name).contains(other) <==> entries.contains(
            other,
        )),
    decreases entries.len(),
{
    if entries.len() > 0 {
        let front = entries.drop_last();
        law_deregistration_removes_exactly_that_name(front, name, other);
        let left = without_name(entries, name);
        assert(!taken(left, name)) by {
            if taken(left, name) {
                let i = choose|i: int| 0 <= i < left.len() && (#[trigger] left[i]).name == name;
                if i < without_name(front, name).len() {
                    assert(without_name(front, name)[i].name == name);
                }
            }
        }
        if other.name != name {
            assert(entries =~= front.push(entries.last()));
            if entries.contains(other) {
                let k = choose|k: int| 0 <= k < entries.len() && entries[k] == other;
                if k < front.len() {
                    assert(front[k] == other);
                    let m = choose|m: int|
                        0 <= m < without_name(front, name).len() && without_name(front, name)[m]
                            == other;
                    assert(left[m] == other);
                } else {
                    assert(left[left.len() - 1] == other);
                }
            }
            if left.contains(other) {
                let m = choose|m: int| 0 <= m < left.len() && left[m] == other;
                if m < without_name(front, name).len() {
                    assert(without_name(front, name)[m] == other);
                    let k = choose|k: int| 0 <= k < front.len() && front[k] == other;
                    assert(entries[k] == other);
                } else {
                    assert(entries[entries.len() - 1] == other);
                }
            }
        }
    }
}

/// A second discovery over the same directories finds nothing new.
pub proof fn law_rediscovery_finds_nothing(
    before: Seq<Entry>,
    found: Seq<Seq<u8>>,
    after: Seq<Entry>,
    names: Seq<Seq<char>>,
)
    requires
        forall|i: int| 0 <= i < found.len() ==> registered(before, #[trigger] found[i]),
        discovered(before, found, after, names),
    ensures
        after == before,
        names.len() == 0,
    decreases found.len(),
{
    if found.len() > 0 {
        let front = found.drop_last();
        assert forall|i: int| 0 <= i < front.len() implies registered(
            before,
            #[trigger] front[i],
        ) by {
            assert(front[i] == found[i]);
        }
        assert(registered(before, found[found.len() - 1]));
        if discovered(before, front, after, names) && registered(after, found.last()) {
            law_rediscovery_finds_nothing(before, front, after, names);
        } else {
            law_rediscovery_finds_nothing(before, front, after.drop_last(), names.drop_last());
        }
    }
}

/// After a discovery everything that was found is registered.
pub proof fn law_discovery_registers_everything(
    before: Seq<Entry>,
    found: Seq<Seq<u8>>,
    after: Seq<Entry>,
    names: Seq<Seq<char>>,
)
    requires
        discovered(before, found, after, names),
    ensures
        forall|i: int| 0 <= i < found.len() ==> registered(after, #[trigger] found[i]),
    decreases found.len(),
{
    if found.len() > 0 {
        let front = found.drop_last();
        if discovered(before, front, after, names) && registered(after, found.last()) {
            law_discovery_registers_everything(before, front, after, names);
            assert forall|i: int| 0 <= i < found.len() implies registered(
                after,
                #[trigger] found[i],
            ) by {
                if i < front.len() {
                    assert(front[i] == found[i]);
                }
            }
        } else {
            let rest = after.drop_last();
            law_discovery_registers_everything(before, front, rest, names.drop_last());
            assert forall|i: int| 0 <= i < found.len() implies registered(
                after,
                #[trigger] found[i],
            ) by {
                if i < front.len() {
                    assert(front[i] == found[i]);
                    let k = choose|k: int|
                        0 <= k < rest.len() && same_path((#[trigger] rest[k]).path, front[i]);
                    assert(after[k] == rest[k]);
                } else {
                    assert(after[after.len() - 1].path == found[i]);
                    assert(same_path(after[after.len() - 1].path, found[i]));
                }
            }
        }
    }
}

/// Whether `path` is that of a candidate with a marker directory.
pub open spec fn is_workspace(candidates: Seq<Candidate>, path: Seq<u8>) -> bool {
    exists|i: int|
        0 <= i < candidates.len() && (#[trigger] candidates[i]).holds_marker && candidates[i].path@
            == path
}

/// A discovery adds to the end of the list, and nothing else: the names it
/// reports are those of the workspaces it added, in order. What it added holds
/// a marker directory, was not registered before, and no two of it are at one
/// path. Every candidate with a marker directory is registered afterwards, and
/// a second discovery of the same finds nothing and adds nothing.
pub proof fn law_a_discovery_adds_what_is_new(
    before: Seq<Entry>,
    candidates: Seq<Candidate>,
    after: Seq<Entry>,
    names: Seq<Seq<char>>,
)
    requires
        discovered(before, marked(candidates), after, names),
    ensures
        after.len() == before.len() + names.len(),
        after.subrange(0, before.len() as int) == before,
        forall|k: int|
            0 <= k < names.len() ==> (#[trigger] names[k]) == after[before.len() + k].name,
        forall|k: int|
            before.len() <= k < after.len() ==> is_workspace(
                candidates,
                (#[trigger] after[k]).path,
            ) && !registered(before, after[k].path),
        forall|a: int, b: int|
            before.len() <= a < b < after.len() ==> !same_path(
                (#[trigger] after[a]).path,
                (#[trigger] after[b]).path,
            ),
        forall|i: int|
            0 <= i < candidates.len() && (#[trigger] candidates[i]).holds_marker ==> registered(
                after,
                candidates[i].path@,
            ),
        forall|again: Seq<Entry>, more: Seq<Seq<char>>| #[trigger]
            discovered(after, marked(candidates), again, more) ==> again == after && more.len()
                == 0,
{
    let found = marked(candidates);
    law_discovery_registers_everything(before, found, after, names);
    lemma_added(before, found, after, names);
    assert forall|again: Seq<Entry>, more: Seq<Seq<char>>| #[trigger]
        discovered(after, found, again, more) implies again == after && more.len() == 0 by {
        law_rediscovery_finds_nothing(after, found, again, more);
    }
    assert forall|k: int| before.len() <= k < after.len() implies is_workspace(
        candidates,
        (#[trigger] after[k]).path,
    ) && !registered(before, after[k].path) by {
        lemma_marked(candidates, after[k].path);
        if registered(before, after[k].path) {
            let j = choose|j: int|
                0 <= j < before.len() && same_path((#[trigger] before[j]).path, after[k].path);
            assert(after.subrange(0, before.len() as int)[j] == after[j]);
        }
    }
    assert forall|i: int|
        0 <= i < candidates.len() && (#[trigger] candidates[i]).holds_marker implies registered(
        after,
        candidates[i].path@,
    ) by {
        lemma_marked(candidates, candidates[i].path@);
        let j = choose|j: int| 0 <= j < found.len() && found[j] == candidates[i].path@;
        assert(registered(after, found[j]));
    }
}

proof fn lemma_marked(candidates: Seq<Candidate>, path: Seq<u8>)
    ensures
        marked(candidates).contains(path) <==> is_workspace(candidates, path),
    decreases candidates.len(),
{
    if candidates.len() > 0 {
        let front = candidates.drop_last();
        let last = candidates.len() - 1;
        let all = marked(candidates);
        let before = marked(front);
        lemma_marked(front, path);
        if all.contains(path) {
            let i = choose|i: int| 0 <= i < all.len() && all[i] == path;
            if i < before.len() {
                assert(before[i] == path);
                let j = choose|j: int|
                    0 <= j < front.len() && (#[trigger] front[j]).holds_marker && front[j].path@
                        == path;
                assert(candidates[j] == front[j]);
            } else {
                assert(candidates[last].holds_marker && candidates[last].path@ == path);
            }
        }
        if is_workspace(candidates, path) {
            let j = choose|j: int|
                0 <= j < candidates.len() && (#[trigger] candidates[j]).holds_marker
                    && candidates[j].path@ == path;
            if j < last {
                assert(front[j] == candidates[j]);
                let i = choose|i: int| 0 <= i < before.len() && before[i] == path;
                assert(all[i] == path);
            } else {
                assert(all[before.len() as int] == path);
            }
        }
    }
}

proof fn lemma_added(
    before: Seq<Entry>,
    found: Seq<Seq<u8>>,
    after: Seq<Entry>,
    names: Seq<Seq<char>>,
)
    requires
        discovered(before, found, after, names),
    ensures
        after.len() == before.len() + names.len(),
        after.subrange(0, before.len() as int) == before,
        forall|k: int|
            0 <= k < names.len() ==> (#[trigger] names[k]) == after[before.len() + k].name,
        forall|k: int|
            before.len() <= k < after.len() ==> found.contains((#[trigger] after[k]).path),
        forall|a: int, b: int|
            0 <= a < b < after.len() && before.len() <= b ==> !same_path(
                (#[trigger] after[a]).path,
                (#[trigger] after[b]).path,
            ),
    decreases found.len(),
{
    if found.len() == 0 {
        assert(after.subrange(0, before.len() as int) =~= before);
    } else {
        let front = found.drop_last();
        let last = found.len() - 1;
        if discovered(before, front, after, names) && registered(after, found.last()) {
            lemma_added(before, front, after, names);
            assert forall|k: int| before.len() <= k < after.len() implies found.contains(
                (#[trigger] after[k]).path,
            ) by {
                let i = choose|i: int| 0 <= i < front.len() && front[i] == after[k].path;
                assert(found[i] == after[k].path);
            }
        } else {
            let rest = after.drop_last();
            let fewer = names.drop_last();
            lemma_added(before, front, rest, fewer);
            assert(after.subrange(0, before.len() as int) =~= rest.subrange(
                0,
                before.len() as int,
            ));
            assert forall|k: int| 0 <= k < names.len() implies (#[trigger] names[k])
                == after[before.len() + k].name by {
                if k < fewer.len() {
                    assert(fewer[k] == names[k]);
                    assert(rest[before.len() + k] == after[before.len() + k]);
                }
            }
            assert forall|k: int| before.len() <= k < after.len() implies found.contains(
                (#[trigger] after[k]).path,
            ) by {
                if k < rest.len() {
                    assert(rest[k] == after[k]);
                    let i = choose|i: int| 0 <= i < front.len() && front[i] == after[k].path;
                    assert(found[i] == after[k].path);
                } else {
                    assert(found[last] == after[k].path);
                }
            }
            assert forall|a: int, b: int|
                0 <= a < b < after.len() && before.len() <= b implies !same_path(
                (#[trigger] after[a]).path,
                (#[trigger] after[b]).path,
            ) by {
                assert(rest[a] == after[a]);
                if b < rest.len() {
                    assert(rest[b] == after[b]);
                } else {
                    assert(!registered(rest, found.last()));
                }
            }
        }
    }
}

/// A workspace is called after its directory: the last name of its path, behind
/// whatever lies above it, also where separators follow. The root of the file
/// system has no name, and is called a workspace.
pub proof fn law_a_workspace_is_called_after_its_directory(above: Seq<u8>, name: Seq<u8>)
    requires
        pathmap::is_name(name),
    ensures
        file_name_of(above + seq![47u8] + name) == Some(name),
        file_name_of(above + seq![47u8] + name + seq![47u8]) == Some(name),
        base_name(above + seq![47u8] + name) == text::lossy_text(name),
        file_name_of(above + seq![47u8, 46u8, 46u8]) is None,
        base_name(seq![47u8]) == "workspace"@,
{
    let empty = Seq::<u8>::empty();
    let path = above + seq![SLASH] + name;
    let cs = bytes::split(above, SLASH);
    pathmap::lemma_split_at(above, name, SLASH);
    pathmap::lemma_split_none(name, SLASH);
    assert(bytes::split(path, SLASH) =~= cs.push(name));
    assert(cs.push(name).drop_last() =~= cs);
    pathmap::lemma_split_at(path, empty, SLASH);
    pathmap::lemma_split_none(empty, SLASH);
    assert(path + seq![SLASH] =~= path + seq![SLASH] + empty);
    assert(bytes::split(path + seq![SLASH], SLASH) =~= cs.push(name).push(empty));
    assert(cs.push(name).push(empty).drop_last() =~= cs.push(name));
    let up = pathmap::dot_dot();
    assert(up.len() == 2);
    assert(above + seq![47u8, 46u8, 46u8] =~= above + seq![SLASH] + up);
    pathmap::lemma_split_at(above, up, SLASH);
    pathmap::lemma_split_none(up, SLASH);
    assert(bytes::split(above + seq![SLASH] + up, SLASH) =~= cs.push(up));
    assert(cs.push(up).drop_last() =~= cs);
    assert(seq![47u8] =~= empty + seq![SLASH] + empty);
    pathmap::lemma_split_at(empty, empty, SLASH);
    let none = bytes::split(seq![47u8], SLASH);
    assert(none =~= seq![empty, empty]);
    assert(none.drop_last() =~= seq![empty]);
    assert(seq![empty].drop_last() =~= Seq::<Seq<u8>>::empty());
    assert(vfs_path::significant(Seq::<Seq<u8>>::empty()) =~= Seq::<Seq<u8>>::empty());
    assert(seq![empty].last() == empty);
    assert(vfs_path::significant(seq![empty]) =~= Seq::<Seq<u8>>::empty());
    assert(none.last() == empty);
    assert(vfs_path::significant(none) =~= Seq::<Seq<u8>>::empty());
}

/// Where the name of a directory is taken, the workspace is called by it with a
/// number behind, counting from two: the first that is free.
pub proof fn law_taken_names_are_numbered_from_two(
    entries: Seq<Entry>,
    base: Seq<char>,
    name: Seq<char>,
    n: nat,
)
    requires
        called(entries, base, name),
        n >= 2,
    ensures
        !taken(entries, base) ==> name == base,
        taken(entries, base) && !taken(entries, base + "-"@ + text::digits(2)) ==> name == base
            + "-"@ + text::digits(2),
        taken(entries, base) && !taken(entries, base + "-"@ + text::digits(n)) && (forall|m: nat|
            2 <= m < n ==> taken(entries, base + "-"@ + #[trigger] text::digits(m))) ==> name
            == base + "-"@ + text::digits(n),
        !taken(entries, name),
{
    if taken(entries, base) {
        let k = choose|k: nat| #[trigger] numbered_first(entries, base, k) && name == numbered(base, k);
        if k > 2 {
            assert(taken(entries, numbered(base, 2)));
        }
        if !taken(entries, base + "-"@ + text::digits(n)) && (forall|m: nat|
            2 <= m < n ==> taken(entries, base + "-"@ + #[trigger] text::digits(m))) {
            if k < n {
                assert(taken(entries, base + "-"@ + text::digits(k)));
            }
            if k > n {
                assert(taken(entries, numbered(base, n)));
            }
        }
    }
}

/// Paths made of names are the same exactly where their names are; a separator
/// behind a path changes nothing.
pub proof fn law_paths_are_told_by_their_names(a: Seq<Seq<u8>>, b: Seq<Seq<u8>>)
    requires
        a.len() > 0,
        b.len() > 0,
        pathmap::all_names(a),
        pathmap::all_names(b),
    ensures
        same_path(pathmap::rooted(a), pathmap::rooted(b)) <==> a == b,
        same_path(pathmap::rooted(a), pathmap::rooted(a) + seq![47u8]),
{
    let empty = Seq::<u8>::empty();
    pathmap::lemma_rooted_ends(a);
    pathmap::lemma_rooted_ends(b);
    pathmap::lemma_split_rooted(a);
    pathmap::lemma_split_rooted(b);
    vfs_path::lemma_significant_names(a);
    vfs_path::lemma_significant_names(b);
    let path = pathmap::rooted(a);
    let fields = seq![empty] + a;
    pathmap::lemma_split_at(path, empty, SLASH);
    pathmap::lemma_split_none(empty, SLASH);
    assert(path + seq![47u8] =~= path + seq![SLASH] + empty);
    assert(bytes::split(path + seq![47u8], SLASH) =~= fields.push(empty));
    assert(fields.push(empty).drop_last() =~= fields);
    assert(pathmap::dot().len() == 1);
    assert((path + seq![47u8])[0] == path[0]);
}

/// A workspace is marked by the directory `.kin` in its root; the registry is
/// kept below the home directory, and workspaces are looked for in the usual
/// directories below it and then in it. A newly found one is expected at a port
/// of its own, counting from the daemon's.
pub proof fn law_places_lie_below_home(home: Seq<Seq<u8>>, i: int, n: nat)
    requires
        home.len() > 0,
        pathmap::all_names(home),
    ensures
        marker_of(pathmap::rooted(home)) == pathmap::rooted(
            home.push(bytes::ascii(".kin"@)),
        ),
        config_of(Some(pathmap::rooted(home))) == pathmap::rooted(
            home.push(bytes::ascii(".kin"@)).push(bytes::ascii("vfs-workspaces.json"@)),
        ),
        searched(pathmap::rooted(home)).len() == 8,
        searched(pathmap::rooted(home))[7] == pathmap::rooted(home),
        0 <= i < 7 ==> searched(pathmap::rooted(home))[i] == pathmap::rooted(
            home.push(bytes::ascii(
                seq![
                    "GitHub"@,
                    "Projects"@,
                    "Developer"@,
                    "repos"@,
                    "src"@,
                    "code"@,
                    "work"@,
                ][i],
            )),
        ),
        expected_url(n) == "http://127.0.0.1:"@ + text::digits(4219 + n),
{
    lemma_plain_names();
    pathmap::lemma_joined_name(home, bytes::ascii(".kin"@));
    pathmap::lemma_joined_name(
        home.push(bytes::ascii(".kin"@)),
        bytes::ascii("vfs-workspaces.json"@),
    );
    if 0 <= i < 7 {
        pathmap::lemma_joined_name(home, bytes::ascii(search_names()[i]));
    }
}

proof fn lemma_plain_names()
    ensures
        pathmap::is_name(bytes::ascii(".kin"@)),
        pathmap::is_name(bytes::ascii("vfs-workspaces.json"@)),
        forall|i: int| 0 <= i < 7 ==> pathmap::is_name(bytes::ascii(#[trigger] search_names()[i])),
{
    reveal_strlit(".kin");
    reveal_strlit("vfs-workspaces.json");
    reveal_strlit("GitHub");
    reveal_strlit("Projects");
    reveal_strlit("Developer");
    reveal_strlit("repos");
    reveal_strlit("src");
    reveal_strlit("code");
    reveal_strlit("work");
    assert(pathmap::dot().len() == 1 && pathmap::dot_dot().len() == 2);
}

proof fn lemma_first_named(entries: Seq<Entry>, name: Seq<char>, i: int)
    requires
        0 <= i < entries.len(),
        entries[i].name == name,
        forall|j: int| 0 <= j < i ==> (#[trigger] entries[j]).name != name,
    ensures
        first_named(entries, name) == Some(entries[i]),
    decreases entries.len(),
{
    if i > 0 {
        assert(entries[0].name != name);
        let rest = entries.drop_first();
        assert forall|j: int| 0 <= j < i - 1 implies (#[trigger] rest[j]).name != name by {
            assert(rest[j] == entries[j + 1]);
        }
        lemma_first_named(rest, name, i - 1);
    }
}

proof fn lemma_none_named(entries: Seq<Entry>, name: Seq<char>)
    requires
        !taken(entries, name),
    ensures
        first_named(entries, name) is None,
    decreases entries.len(),
{
    if entries.len() > 0 {
        assert(entries[0].name != name);
        let rest = entries.drop_first();
        if taken(rest, name) {
            let i = choose|i: int| 0 <= i < rest.len() && (#[trigger] rest[i]).name == name;
            assert(entries[i + 1].name == name);
        }
        lemma_none_named(rest, name);
    }
}

/// A workspace is found under the name that it was registered under, as it was
/// registered, as long as it was not removed; once removed it is not found.
pub proof fn law_a_registered_workspace_is_found(entries: Seq<Entry>, added: Entry)
    requires
        !taken(entries, added.name),
    ensures
        first_named(entries.push(added), added.name) == Some(added),
        first_named(without_name(entries.push(added), added.name), added.name) is None,
        first_named(entries, added.name) is None,
{
    let all = entries.push(added);
    assert forall|j: int| 0 <= j < entries.len() implies (#[trigger] all[j]).name != added.name by {
        assert(all[j] == entries[j]);
    }
    lemma_first_named(all, added.name, entries.len() as int);
    law_deregistration_removes_exactly_that_name(all, added.name, added);
    lemma_none_named(without_name(all, added.name), added.name);
    lemma_none_named(entries, added.name);
}

/// Every workspace that a discovery adds is called after its own directory, by
/// the names that were taken when it was found, and is expected at a port of its
/// own: the daemon's plus the number of workspaces registered before it.
pub proof fn law_a_found_workspace_has_its_own_name_and_port(
    before: Seq<Entry>,
    found: Seq<Seq<u8>>,
    after: Seq<Entry>,
    names: Seq<Seq<char>>,
    k: int,
)
    requires
        discovered(before, found, after, names),
        before.len() <= k < after.len(),
    ensures
        called(after.subrange(0, k), base_name(after[k].path), after[k].name),
        after[k].daemon_url == "http://127.0.0.1:"@ + text::digits((4219 + k) as nat),
        !registered(after.subrange(0, k), after[k].path),
    decreases found.len(),
{
    if found.len() > 0 {
        if discovered(before, found.drop_last(), after, names) && registered(after, found.last()) {
            law_a_found_workspace_has_its_own_name_and_port(
                before,
                found.drop_last(),
                after,
                names,
                k,
            );
        } else {
            let front = after.drop_last();
            if k == after.len() - 1 {
                assert(after.subrange(0, k) =~= front);
                assert(after[k] == after.last());
            } else {
                law_a_found_workspace_has_its_own_name_and_port(
                    before,
                    found.drop_last(),
                    front,
                    names.drop_last(),
                    k,
                );
                assert(front.subrange(0, k) =~= after.subrange(0, k));
                assert(front[k] == after[k]);
            }
        }
    }
}

} // verus!

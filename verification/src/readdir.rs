//! Listing a directory of an export, a page at a time.
//!
//! A listing is `.`, `..` and the children, each with its file number. A page
//! goes on behind the number that the client saw last, and leaves out entries
//! whose attributes cannot be had.

use vstd::prelude::*;

use crate::bytes::{to_vec, DOT};
use crate::inodes;
use crate::inodes::{InodeTable, ROOT_ID};
use crate::nfs_fs;
use crate::nfs_fs::{FileAttributes, NfsStatus};
use crate::pathmap;
use crate::types::{DirEntry, VirtualStat};
use crate::vfs_path;
use crate::vfs_path::VfsPath;

verus! {

// ── The listing ─────────────────────────────────────────────────────────

/// An entry of a listing.
#[derive(Debug)]
pub struct ListedEntry {
    pub id: u64,
    pub name: Vec<u8>,
    /// The path that its attributes are those of.
    pub path: VfsPath,
}

/// An entry of a listing, over bytes.
pub struct Listed {
    pub id: u64,
    pub name: Seq<u8>,
    pub path: Seq<u8>,
}

impl View for ListedEntry {
    type V = Listed;

    open spec fn view(&self) -> Listed {
        Listed { id: self.id, name: self.name@, path: self.path@ }
    }
}

/// A listing, over bytes.
pub open spec fn listed_views(entries: Seq<ListedEntry>) -> Seq<Listed> {
    Seq::new(entries.len(), |i: int| entries[i]@)
}

/// The names of children.
pub open spec fn names_of(entries: Seq<DirEntry>) -> Seq<Seq<u8>> {
    Seq::new(entries.len(), |i: int| entries[i].name@)
}

/// The numbers after the children of a directory got theirs, and the children.
pub open spec fn children_listed(
    table: inodes::Inodes,
    directory: Seq<u8>,
    names: Seq<Seq<u8>>,
) -> (inodes::Inodes, Seq<Listed>)
    decreases names.len(),
{
    if names.len() == 0 {
        (table, Seq::empty())
    } else {
        let (before, listed) = children_listed(table, directory, names.drop_last());
        let path = vfs_path::child_key(directory, names.last());
        let (after, id) = inodes::assigning(before, path);
        (after, listed.push(Listed { id, name: names.last(), path }))
    }
}

/// The numbers after the directory above got one, and that number. Above the
/// root is the root.
pub open spec fn above(table: inodes::Inodes, directory: Seq<u8>) -> (inodes::Inodes, u64) {
    match vfs_path::parent_key(directory) {
        Some(parent) => inodes::assigning(table, parent),
        None => (table, ROOT_ID),
    }
}

/// The path of the directory above.
pub open spec fn path_above(directory: Seq<u8>) -> Seq<u8> {
    match vfs_path::parent_key(directory) {
        Some(parent) => parent,
        None => Seq::empty(),
    }
}

/// The numbers after a directory was listed, and the listing.
pub open spec fn listing(
    table: inodes::Inodes,
    dirid: u64,
    directory: Seq<u8>,
    names: Seq<Seq<u8>>,
) -> (inodes::Inodes, Seq<Listed>) {
    let (with_parent, up) = above(table, directory);
    let (after, children) = children_listed(with_parent, directory, names);
    (
        after,
        seq![
            Listed { id: dirid, name: pathmap::dot(), path: directory },
            Listed { id: up, name: pathmap::dot_dot(), path: path_above(directory) },
        ] + children,
    )
}

/// Lists a directory: every entry gets a number that stands for its path.
pub fn list_directory(
    table: &mut InodeTable,
    dirid: u64,
    directory: &VfsPath,
    entries: &Vec<DirEntry>,
) -> (r: Vec<ListedEntry>)
    requires
        old(table).well_formed(),
        old(table)@.next_id + entries@.len() + 1 <= u64::MAX,
    ensures
        final(table).well_formed(),
        (final(table)@, listed_views(r@)) == listing(
            old(table)@,
            dirid,
            directory@,
            names_of(entries@),
        ),
{
    let ghost start = table@;
    let ghost names = names_of(entries@);
    let mut out: Vec<ListedEntry> = Vec::new();
    let dot: Vec<u8> = vec![DOT];
    let dots: Vec<u8> = vec![DOT, DOT];
    assert(dot@ =~= pathmap::dot());
    assert(dots@ =~= pathmap::dot_dot());
    let (up, parent): (u64, VfsPath) = match directory.parent() {
        Some(parent) => (table.get_or_assign(&parent), parent),
        None => (ROOT_ID, VfsPath::root()),
    };
    let ghost head = seq![
        Listed { id: dirid, name: pathmap::dot(), path: directory@ },
        Listed { id: up, name: pathmap::dot_dot(), path: path_above(directory@) },
    ];
    let ghost with_parent = table@;
    assert((with_parent, up) == above(start, directory@));
    out.push(ListedEntry { id: dirid, name: dot, path: directory.clone() });
    out.push(ListedEntry { id: up, name: dots, path: parent });
    assert(listed_views(out@) =~= head + children_listed(
        with_parent,
        directory@,
        names.subrange(0, 0),
    ).1);
    let mut i: usize = 0;
    while i < entries.len()
        invariant
            i <= entries@.len(),
            names == names_of(entries@),
            table.well_formed(),
            table@.next_id + (entries@.len() - i) <= u64::MAX,
            table@ == children_listed(with_parent, directory@, names.subrange(0, i as int)).0,
            listed_views(out@) == head + children_listed(
                with_parent,
                directory@,
                names.subrange(0, i as int),
            ).1,
        decreases entries@.len() - i,
    {
        let ghost before = listed_views(out@);
        assert(names.subrange(0, i + 1).drop_last() =~= names.subrange(0, i as int));
        assert(names.subrange(0, i + 1).last() == names[i as int]);
        let path = directory.join(&entries[i].name);
        let id: u64 = table.get_or_assign(&path);
        let ghost item = Listed { id, name: names[i as int], path: path@ };
        out.push(ListedEntry { id, name: to_vec(entries[i].name.as_bytes()), path });
        assert(listed_views(out@) =~= before.push(item));
        assert(listed_views(out@) =~= head + children_listed(
            with_parent,
            directory@,
            names.subrange(0, i + 1),
        ).1);
        i = i + 1;
    }
    assert(names.subrange(0, names.len() as int) =~= names);
    out
}

// ── The page ────────────────────────────────────────────────────────────

/// An entry of a page.
#[derive(Debug)]
pub struct PageEntry {
    pub fileid: u64,
    pub name: Vec<u8>,
    pub attributes: FileAttributes,
}

/// An entry of a page, over bytes.
pub struct Paged {
    pub fileid: u64,
    pub name: Seq<u8>,
    pub attributes: FileAttributes,
}

impl View for PageEntry {
    type V = Paged;

    open spec fn view(&self) -> Paged {
        Paged { fileid: self.fileid, name: self.name@, attributes: self.attributes }
    }
}

/// A page, over bytes.
pub open spec fn paged_views(entries: Seq<PageEntry>) -> Seq<Paged> {
    Seq::new(entries.len(), |i: int| entries[i]@)
}

/// The position of the first entry with this number; the length of the listing
/// where there is none.
pub open spec fn position(entries: Seq<Listed>, id: u64) -> int
    decreases entries.len(),
{
    if entries.len() == 0 || entries[0].id == id {
        0
    } else {
        1 + position(entries.drop_first(), id)
    }
}

/// Where a page goes on: behind the entry that was seen last, at the start where
/// none was, at the end where it is not there any more.
pub open spec fn resume_at(entries: Seq<Listed>, start_after: u64) -> int {
    if start_after == 0 {
        0
    } else if position(entries, start_after) >= entries.len() {
        entries.len() as int
    } else {
        position(entries, start_after) + 1
    }
}

/// How many entries count as seen before the page.
pub open spec fn seen_before(entries: Seq<Listed>, start_after: u64) -> int {
    if start_after == 0 || position(entries, start_after) >= entries.len() {
        0
    } else {
        position(entries, start_after) + 1
    }
}

/// A page being filled.
pub struct Paging {
    pub entries: Seq<Listed>,
    pub start_after: u64,
    pub max: int,
    pub cursor: int,
    pub collected: Seq<Paged>,
}

/// A page as it begins.
pub open spec fn beginning(entries: Seq<Listed>, start_after: u64, max: int) -> Paging {
    Paging {
        entries,
        start_after,
        max,
        cursor: resume_at(entries, start_after),
        collected: Seq::empty(),
    }
}

/// The entry whose attributes are needed next, where the page is not full and
/// the listing not at its end.
pub open spec fn needed(page: Paging) -> Option<Listed> {
    if page.collected.len() < page.max && page.cursor < page.entries.len() {
        Some(page.entries[page.cursor])
    } else {
        None
    }
}

/// The page once the attributes of the next entry were had, or were not.
pub open spec fn taking(page: Paging, attributes: Option<FileAttributes>) -> Paging {
    let entry = page.entries[page.cursor];
    Paging {
        entries: page.entries,
        start_after: page.start_after,
        max: page.max,
        cursor: page.cursor + 1,
        collected: match attributes {
            Some(a) => page.collected.push(
                Paged { fileid: entry.id, name: entry.name, attributes: a },
            ),
            None => page.collected,
        },
    }
}

/// Whether nothing comes behind a page.
pub open spec fn at_end(page: Paging) -> bool {
    page.collected.len() < page.max || seen_before(page.entries, page.start_after)
        + page.collected.len() >= page.entries.len()
}

/// A page being filled.
#[derive(Debug)]
pub struct DirectoryPage {
    entries: Vec<ListedEntry>,
    start_after: u64,
    max: usize,
    seen: usize,
    cursor: usize,
    collected: Vec<PageEntry>,
}

impl View for DirectoryPage {
    type V = Paging;

    closed spec fn view(&self) -> Paging {
        Paging {
            entries: listed_views(self.entries@),
            start_after: self.start_after,
            max: self.max as int,
            cursor: self.cursor as int,
            collected: paged_views(self.collected@),
        }
    }
}

impl DirectoryPage {
    /// What holds of a page at every point.
    pub closed spec fn well_formed(&self) -> bool {
        &&& self.cursor <= self.entries@.len()
        &&& self.seen == seen_before(self@.entries, self.start_after)
        &&& self.collected@.len() <= self.entries@.len()
        &&& self.seen <= self.entries@.len()
        &&& self.collected@.len() <= self.cursor
    }

    /// Begins a page of at most `max` entries behind the number `start_after`.
    pub fn begin(entries: Vec<ListedEntry>, start_after: u64, max: usize) -> (r: DirectoryPage)
        ensures
            r.well_formed(),
            r@ == beginning(listed_views(entries@), start_after, max as int),
    {
        let ghost all = listed_views(entries@);
        let mut at: usize = 0;
        assert(all.subrange(0, all.len() as int) =~= all);
        while at < entries.len() && entries[at].id != start_after
            invariant
                at <= entries@.len(),
                all == listed_views(entries@),
                position(all, start_after) == at + position(
                    all.subrange(at as int, all.len() as int),
                    start_after,
                ),
            decreases entries@.len() - at,
        {
            let ghost rest = all.subrange(at as int, all.len() as int);
            assert(rest[0] == all[at as int]);
            assert(rest.drop_first() =~= all.subrange(at + 1, all.len() as int));
            at = at + 1;
        }
        assert(at < all.len() ==> all.subrange(at as int, all.len() as int)[0] == all[at as int]);
        assert(position(all, start_after) == at);
        let (cursor, seen): (usize, usize) = if start_after == 0 {
            (0, 0)
        } else if at < entries.len() {
            (at + 1, at + 1)
        } else {
            (at, 0)
        };
        let collected: Vec<PageEntry> = Vec::new();
        assert(paged_views(collected@) =~= Seq::<Paged>::empty());
        DirectoryPage { entries, start_after, max, seen, cursor, collected }
    }

    /// The entry whose attributes are needed next.
    pub fn wanted(&self) -> (r: Option<&ListedEntry>)
        requires
            self.well_formed(),
        ensures
            match r {
                Some(entry) => needed(self@) == Some(entry@),
                None => needed(self@) is None,
            },
    {
        if self.collected.len() < self.max && self.cursor < self.entries.len() {
            assert(self@.entries[self.cursor as int] == self.entries@[self.cursor as int]@);
            Some(&self.entries[self.cursor])
        } else {
            None
        }
    }

    /// Takes the attributes of the next entry; without them it is left out.
    pub fn take(&mut self, attributes: Option<FileAttributes>)
        requires
            old(self).well_formed(),
            needed(old(self)@) is Some,
        ensures
            final(self).well_formed(),
            final(self)@ == taking(old(self)@, attributes),
    {
        let ghost before = self@;
        let total: usize = self.entries.len();
        assert(self.cursor < total);
        assert(before.entries[self.cursor as int] == self.entries@[self.cursor as int]@);
        match attributes {
            Some(attributes) => {
                let fileid: u64 = self.entries[self.cursor].id;
                let name = to_vec(self.entries[self.cursor].name.as_slice());
                self.collected.push(PageEntry { fileid, name, attributes });
                assert(paged_views(self.collected@) =~= before.collected.push(
                    Paged {
                        fileid,
                        name: before.entries[before.cursor].name,
                        attributes,
                    },
                ));
            },
            None => {},
        }
        self.cursor = self.cursor + 1;
        assert(self@ =~= taking(before, attributes));
    }

    /// Ends the page: its entries, and whether nothing comes behind them.
    pub fn finish(self) -> (r: (Vec<PageEntry>, bool))
        requires
            self.well_formed(),
        ensures
            paged_views(r.0@) == self@.collected,
            r.1 == at_end(self@),
    {
        let collected: usize = self.collected.len();
        let total: usize = self.entries.len();
        let end: bool = collected < self.max || total - self.seen <= collected;
        (self.collected, end)
    }
}

// ── Laws ────────────────────────────────────────────────────────────────

/// Every number in a listing stands for the path it is listed with, as long as
/// that of the directory itself does.
pub proof fn law_listed_numbers_resolve(
    table: inodes::Inodes,
    dirid: u64,
    directory: Seq<u8>,
    names: Seq<Seq<u8>>,
    i: int,
)
    requires
        inodes::well_formed(table),
        table.next_id + names.len() + 1 <= u64::MAX,
        inodes::stands_for(table, dirid, directory),
        inodes::stands_for(table, ROOT_ID, Seq::empty()),
        0 <= i < listing(table, dirid, directory, names).1.len(),
    ensures
        ({
            let (after, listed) = listing(table, dirid, directory, names);
            inodes::stands_for(after, listed[i].id, listed[i].path)
        }),
{
    let (with_parent, up) = above(table, directory);
    lemma_assigning(table, path_above(directory));
    assert(inodes::well_formed(with_parent));
    assert(with_parent.next_id <= table.next_id + 1);
    assert(inodes::stands_for(with_parent, up, path_above(directory)));
    assert(inodes::stands_for(with_parent, dirid, directory));
    lemma_children(with_parent, directory, names, dirid, directory);
    lemma_children(with_parent, directory, names, up, path_above(directory));
    let (after, children) = children_listed(with_parent, directory, names);
    if i >= 2 {
        assert(listing(table, dirid, directory, names).1[i] == children[i - 2]);
    }
}

proof fn lemma_assigning(table: inodes::Inodes, path: Seq<u8>)
    requires
        inodes::well_formed(table),
        table.next_id < u64::MAX,
    ensures
        inodes::well_formed(inodes::assigning(table, path).0),
        inodes::stands_for(
            inodes::assigning(table, path).0,
            inodes::assigning(table, path).1,
            path,
        ),
        table.next_id <= inodes::assigning(table, path).0.next_id <= table.next_id + 1,
        forall|id: u64, other: Seq<u8>|
            inodes::stands_for(table, id, other) ==> #[trigger] inodes::stands_for(
                inodes::assigning(table, path).0,
                id,
                other,
            ),
{
    inodes::law_a_path_has_one_number(table, path);
    match inodes::number_of(table, path) {
        Some(id) => {
            assert(inodes::stands_for(table, id, path));
        },
        None => {},
    }
}

proof fn lemma_children(
    table: inodes::Inodes,
    directory: Seq<u8>,
    names: Seq<Seq<u8>>,
    kept: u64,
    kept_path: Seq<u8>,
)
    requires
        inodes::well_formed(table),
        table.next_id + names.len() <= u64::MAX,
        inodes::stands_for(table, kept, kept_path),
    ensures
        ({
            let (after, listed) = children_listed(table, directory, names);
            &&& inodes::well_formed(after)
            &&& after.next_id <= table.next_id + names.len()
            &&& listed.len() == names.len()
            &&& inodes::stands_for(after, kept, kept_path)
            &&& forall|j: int|
                0 <= j < listed.len() ==> inodes::stands_for(
                    after,
                    (#[trigger] listed[j]).id,
                    listed[j].path,
                ) && listed[j].name == names[j] && listed[j].path == vfs_path::child_key(
                    directory,
                    names[j],
                )
        }),
    decreases names.len(),
{
    if names.len() > 0 {
        let front = names.drop_last();
        lemma_children(table, directory, front, kept, kept_path);
        let (before, listed) = children_listed(table, directory, front);
        let path = vfs_path::child_key(directory, names.last());
        lemma_assigning(before, path);
        let (after, all) = children_listed(table, directory, names);
        assert forall|j: int| 0 <= j < all.len() implies inodes::stands_for(
            after,
            (#[trigger] all[j]).id,
            all[j].path,
        ) && all[j].name == names[j] && all[j].path == vfs_path::child_key(
            directory,
            names[j],
        ) by {
            if j < listed.len() {
                assert(all[j] == listed[j]);
                assert(front[j] == names[j]);
                assert(inodes::stands_for(before, listed[j].id, listed[j].path));
            }
        }
    }
}

/// The page after `n` entries were taken, when the attributes of each were had.
pub open spec fn filled(page: Paging, attributes: spec_fn(Listed) -> FileAttributes, n: nat) -> Paging
    decreases n,
{
    if n == 0 {
        page
    } else {
        let before = filled(page, attributes, (n - 1) as nat);
        taking(before, Some(attributes(before.entries[before.cursor])))
    }
}

/// When the attributes of every entry can be had, a page holds the entries that
/// follow the one seen last, without a gap, as many as fit; and it says that
/// nothing comes behind it exactly when that is so.
pub proof fn law_a_page_is_contiguous(
    entries: Seq<Listed>,
    start_after: u64,
    max: int,
    attributes: spec_fn(Listed) -> FileAttributes,
    n: nat,
)
    requires
        resume_at(entries, start_after) + n <= entries.len(),
        n <= max,
        max > 0,
    ensures
        ({
            let page = filled(beginning(entries, start_after, max), attributes, n);
            let from = resume_at(entries, start_after);
            &&& page.entries == entries
            &&& page.start_after == start_after
            &&& page.max == max
            &&& page.cursor == from + n
            &&& page.collected.len() == n
            &&& forall|i: int|
                0 <= i < n ==> (#[trigger] page.collected[i]) == (Paged {
                    fileid: entries[from + i].id,
                    name: entries[from + i].name,
                    attributes: attributes(entries[from + i]),
                })
            &&& needed(page) is None ==> (at_end(page) <==> from + n >= entries.len())
        }),
    decreases n,
{
    lemma_position(entries, start_after);
    if n > 0 {
        law_a_page_is_contiguous(entries, start_after, max, attributes, (n - 1) as nat);
    }
}

/// The path that an entry of a listing is about: that of the directory, of the
/// one above it, and of its children in order.
pub open spec fn listed_path(directory: Seq<u8>, names: Seq<Seq<u8>>, i: int) -> Seq<u8> {
    if i == 0 {
        directory
    } else if i == 1 {
        path_above(directory)
    } else {
        vfs_path::child_key(directory, names[i - 2])
    }
}

/// The first page of a directory of which every entry has attributes: at most
/// `max` entries, as they are listed.
pub open spec fn first_page(
    table: inodes::Inodes,
    dirid: u64,
    directory: Seq<u8>,
    names: Seq<Seq<u8>>,
    max: nat,
    stats: spec_fn(Seq<u8>) -> VirtualStat,
    uid: u32,
    gid: u32,
) -> Paging {
    let listed = listing(table, dirid, directory, names).1;
    filled(
        beginning(listed, 0, max as int),
        |l: Listed| nfs_fs::attributes_of(stats(l.path), l.id, uid, gid),
        if max < listed.len() {
            max
        } else {
            listed.len()
        },
    )
}

/// Whether the entry at `i` of a first page is right: it has the `i`th of the
/// names `.`, `..` and those of the children, and the number that a lookup of
/// that name gives, also in its attributes.
pub open spec fn rightly_listed(
    table: inodes::Inodes,
    dirid: u64,
    directory: Seq<u8>,
    names: Seq<Seq<u8>>,
    max: nat,
    stats: spec_fn(Seq<u8>) -> VirtualStat,
    uid: u32,
    gid: u32,
    i: int,
) -> bool {
    let after = listing(table, dirid, directory, names).0;
    let name = (seq![pathmap::dot(), pathmap::dot_dot()] + names)[i];
    let entry = first_page(table, dirid, directory, names, max, stats, uid, gid).collected[i];
    &&& entry.name == name
    &&& nfs_fs::looked_up(after, dirid, name) == Ok::<(inodes::Inodes, u64), NfsStatus>(
        (after, entry.fileid),
    )
    &&& entry.attributes == nfs_fs::attributes_of(
        stats(listed_path(directory, names, i)),
        entry.fileid,
        uid,
        gid,
    )
    &&& entry.attributes.fileid == entry.fileid
}

/// The first page of a directory whose entries all have attributes: `.`, `..`
/// and the children in order, as many as fit. `.` has the number of the
/// directory, and every entry the number that a lookup of its name gives; its
/// attributes carry that number too. The page says that nothing comes behind it
/// exactly where everything fits.
pub proof fn law_a_first_page_lists_the_directory(
    table: inodes::Inodes,
    dirid: u64,
    directory: Seq<u8>,
    names: Seq<Seq<u8>>,
    max: nat,
    stats: spec_fn(Seq<u8>) -> VirtualStat,
    uid: u32,
    gid: u32,
)
    requires
        inodes::well_formed(table),
        table.next_id + names.len() + 1 <= u64::MAX,
        inodes::stands_for(table, dirid, directory),
        inodes::stands_for(table, ROOT_ID, Seq::empty()),
        forall|i: int| 0 <= i < names.len() ==> pathmap::is_name(#[trigger] names[i]),
    ensures
        inodes::well_formed(listing(table, dirid, directory, names).0),
        needed(first_page(table, dirid, directory, names, max, stats, uid, gid)) is None,
        first_page(table, dirid, directory, names, max, stats, uid, gid).collected.len() == if max
            < names.len() + 2 {
            max
        } else {
            names.len() + 2
        },
        max > 0 ==> first_page(
            table,
            dirid,
            directory,
            names,
            max,
            stats,
            uid,
            gid,
        ).collected[0].fileid == dirid,
        forall|i: int|
            0 <= i < names.len() + 2 && i < max ==> #[trigger] rightly_listed(
                table,
                dirid,
                directory,
                names,
                max,
                stats,
                uid,
                gid,
                i,
            ),
        at_end(first_page(table, dirid, directory, names, max, stats, uid, gid)) <==> max
            >= names.len() + 2,
{
    let (after, listed) = listing(table, dirid, directory, names);
    let all = seq![pathmap::dot(), pathmap::dot_dot()] + names;
    let attributes = |l: Listed| nfs_fs::attributes_of(stats(l.path), l.id, uid, gid);
    let n = if max < listed.len() {
        max
    } else {
        listed.len()
    };
    let page = first_page(table, dirid, directory, names, max, stats, uid, gid);
    assert(page == filled(beginning(listed, 0, max as int), attributes, n));
    let (with_parent, up) = above(table, directory);
    lemma_assigning(table, path_above(directory));
    lemma_children(with_parent, directory, names, dirid, directory);
    lemma_children(with_parent, directory, names, up, path_above(directory));
    let children = children_listed(with_parent, directory, names).1;
    assert(listed.len() == all.len());
    if max > 0 {
        law_a_page_is_contiguous(listed, 0, max as int, attributes, n);
    }
    assert forall|i: int| 0 <= i < names.len() + 2 && i < max implies #[trigger] rightly_listed(
        table,
        dirid,
        directory,
        names,
        max,
        stats,
        uid,
        gid,
        i,
    ) by {
        let path = listed_path(directory, names, i);
        if i >= 2 {
            assert(listed[i] == children[i - 2]);
        }
        assert(listed[i].name == all[i]);
        assert(listed[i].path == path);
        assert(inodes::stands_for(after, listed[i].id, path));
        inodes::lemma_number_of(after, listed[i].id, path);
        assert(pathmap::dot().len() == 1 && pathmap::dot_dot().len() == 2);
        assert(inodes::stands_for(after, dirid, directory));
        assert(page.collected[i] == (Paged {
            fileid: listed[i].id,
            name: listed[i].name,
            attributes: attributes(listed[i]),
        }));
    }
    if max > 0 {
        assert(rightly_listed(table, dirid, directory, names, max, stats, uid, gid, 0));
    }
}

/// A listing takes no number away.
pub proof fn lemma_listing_keeps(
    table: inodes::Inodes,
    dirid: u64,
    directory: Seq<u8>,
    names: Seq<Seq<u8>>,
    kept: u64,
    kept_path: Seq<u8>,
)
    requires
        inodes::well_formed(table),
        table.next_id + names.len() + 1 <= u64::MAX,
        inodes::stands_for(table, kept, kept_path),
    ensures
        inodes::stands_for(listing(table, dirid, directory, names).0, kept, kept_path),
{
    let (with_parent, _) = above(table, directory);
    lemma_assigning(table, path_above(directory));
    assert(inodes::stands_for(with_parent, kept, kept_path));
    lemma_children(with_parent, directory, names, kept, kept_path);
}

proof fn lemma_position(entries: Seq<Listed>, id: u64)
    ensures
        0 <= position(entries, id) <= entries.len(),
        position(entries, id) < entries.len() ==> entries[position(entries, id)].id == id,
    decreases entries.len(),
{
    if entries.len() > 0 && entries[0].id != id {
        lemma_position(entries.drop_first(), id);
    }
}

/// The next page goes on right behind an entry, where no entry before it has its
/// number.
pub proof fn law_pages_resume_behind_the_last_entry(entries: Seq<Listed>, last: int)
    requires
        0 <= last < entries.len(),
        entries[last].id != 0,
        forall|i: int| 0 <= i < last ==> (#[trigger] entries[i]).id != entries[last].id,
    ensures
        resume_at(entries, entries[last].id) == last + 1,
{
    lemma_first_position(entries, last);
}

proof fn lemma_first_position(entries: Seq<Listed>, last: int)
    requires
        0 <= last < entries.len(),
        forall|i: int| 0 <= i < last ==> (#[trigger] entries[i]).id != entries[last].id,
    ensures
        position(entries, entries[last].id) == last,
    decreases entries.len(),
{
    if last > 0 {
        let rest = entries.drop_first();
        assert(entries[0].id != entries[last].id);
        assert(rest[last - 1] == entries[last]);
        assert forall|i: int| 0 <= i < last - 1 implies (#[trigger] rest[i]).id != rest[last
            - 1].id by {
            assert(rest[i] == entries[i + 1]);
        }
        lemma_first_position(rest, last - 1);
    }
}

/// An entry whose attributes cannot be had is left out, and the page goes on with
/// the next one; one whose attributes were had comes behind those before it,
/// under its own name and number.
pub proof fn law_only_entries_with_attributes_are_listed(page: Paging, attributes: FileAttributes)
    requires
        0 <= page.cursor < page.entries.len(),
        page.collected.len() < page.max,
    ensures
        needed(page) == Some(page.entries[page.cursor]),
        taking(page, None).collected == page.collected,
        taking(page, None).cursor == page.cursor + 1,
        taking(page, Some(attributes)).collected.len() == page.collected.len() + 1,
        taking(page, Some(attributes)).collected.drop_last() == page.collected,
        ({
            let added = taking(page, Some(attributes)).collected.last();
            &&& added.fileid == page.entries[page.cursor].id
            &&& added.name == page.entries[page.cursor].name
            &&& added.attributes == attributes
        }),
        taking(page, Some(attributes)).cursor == page.cursor + 1,
        needed(taking(page, None)) is Some ==> needed(taking(page, None)) == Some(
            page.entries[page.cursor + 1],
        ),
{
    assert(taking(page, Some(attributes)).collected.drop_last() =~= page.collected);
}

/// A listing starts at its first entry, and there is nothing behind an entry
/// that is not there any more.
pub proof fn law_a_lost_place_is_the_end(entries: Seq<Listed>, gone: u64)
    requires
        gone != 0,
        forall|i: int| 0 <= i < entries.len() ==> (#[trigger] entries[i]).id != gone,
    ensures
        resume_at(entries, 0) == 0,
        resume_at(entries, gone) == entries.len(),
        needed(beginning(entries, gone, 1)) is None,
{
    lemma_position(entries, gone);
}

} // verus!

//! File numbers of an export: which path each stands for, and back.

use vstd::prelude::*;

use std::collections::HashMap;

use crate::bytes::bytes_eq;
use crate::hashing;
use crate::hashing::hash_bytes;
use crate::vfs_path::VfsPath;

verus! {

broadcast use vstd::std_specs::hash::group_hash_axioms;

/// The number of the root directory. Zero is reserved by the protocol.
pub const ROOT_ID: u64 = 1;

/// The numbers in use, and the next one. No two stand for one path.
pub struct Inodes {
    pub paths: Map<u64, Seq<u8>>,
    pub next_id: int,
}

/// What holds of the numbers at every point.
pub open spec fn well_formed(table: Inodes) -> bool {
    &&& 2 <= table.next_id <= u64::MAX
    &&& forall|id: u64| #[trigger] table.paths.contains_key(id) ==> 1 <= id < table.next_id
    &&& forall|a: u64, b: u64|
        #![trigger table.paths[a], table.paths[b]]
        table.paths.contains_key(a) && table.paths.contains_key(b) && table.paths[a]
            == table.paths[b] ==> a == b
}

/// Whether `id` is the number of `path`.
pub open spec fn stands_for(table: Inodes, id: u64, path: Seq<u8>) -> bool {
    table.paths.contains_key(id) && table.paths[id] == path
}

/// The number of a path, where it has one.
pub open spec fn number_of(table: Inodes, path: Seq<u8>) -> Option<u64> {
    if exists|id: u64| stands_for(table, id, path) {
        Some(choose|id: u64| stands_for(table, id, path))
    } else {
        None
    }
}

/// The numbers, and that of `path`: its own where it has one, else the next.
pub open spec fn assigning(table: Inodes, path: Seq<u8>) -> (Inodes, u64) {
    match number_of(table, path) {
        Some(id) => (table, id),
        None => {
            let id = table.next_id as u64;
            (Inodes { paths: table.paths.insert(id, path), next_id: table.next_id + 1 }, id)
        },
    }
}

/// The numbers after `from` was moved to `to`: whoever holds the number of
/// `from` finds `to`, and whatever `to` was before is gone.
pub open spec fn renaming(table: Inodes, from: Seq<u8>, to: Seq<u8>) -> Inodes {
    match number_of(table, from) {
        None => table,
        Some(id) => Inodes {
            paths: match number_of(table, to) {
                Some(displaced) => table.paths.remove(displaced).insert(id, to),
                None => table.paths.insert(id, to),
            },
            next_id: table.next_id,
        },
    }
}

/// A path has no number but its own.
pub proof fn lemma_number_of(table: Inodes, id: u64, path: Seq<u8>)
    requires
        well_formed(table),
        stands_for(table, id, path),
    ensures
        number_of(table, path) == Some(id),
{
    let other = choose|other: u64| stands_for(table, other, path);
    assert(stands_for(table, other, path));
    assert(table.paths[other] == table.paths[id]);
}

/// Whether a number is in a bucket.
spec fn in_bucket(buckets: Map<u64, Vec<u64>>, h: u64, id: u64) -> bool {
    buckets.contains_key(h) && buckets[h]@.contains(id)
}

/// Every number is in the bucket of its path, and nothing else is in one.
spec fn indexes(buckets: Map<u64, Vec<u64>>, paths: Map<u64, VfsPath>) -> bool {
    &&& forall|id: u64| #[trigger]
        paths.contains_key(id) ==> in_bucket(buckets, hashing::byte_hash(paths[id]@), id)
    &&& forall|h: u64, id: u64| #[trigger]
        in_bucket(buckets, h, id) ==> paths.contains_key(id) && hashing::byte_hash(paths[id]@) == h
}

/// The table of file numbers. Paths are found by hash.
#[derive(Debug)]
pub struct InodeTable {
    id_to_path: HashMap<u64, VfsPath>,
    by_hash: HashMap<u64, Vec<u64>>,
    next_id: u64,
}

impl View for InodeTable {
    type V = Inodes;

    closed spec fn view(&self) -> Inodes {
        Inodes {
            paths: Map::new(
                |id: u64| self.id_to_path@.contains_key(id),
                |id: u64| self.id_to_path@[id]@,
            ),
            next_id: self.next_id as int,
        }
    }
}

impl InodeTable {
    /// What holds of the table at every point.
    pub closed spec fn well_formed(&self) -> bool {
        well_formed(self@) && self.indexed()
    }

    /// What the invariant says of the numbers.
    pub proof fn lemma_well_formed(&self)
        requires
            self.well_formed(),
        ensures
            well_formed(self@),
    {
    }

    /// The index is that of the numbers in use.
    spec fn indexed(&self) -> bool {
        indexes(self.by_hash@, self.id_to_path@)
    }

    /// The table of an export in which nothing but the root has been seen.
    pub fn new() -> (r: InodeTable)
        ensures
            r.well_formed(),
            r@.next_id == 2,
            r@.paths == Map::<u64, Seq<u8>>::empty().insert(ROOT_ID, Seq::<u8>::empty()),
    {
        let mut table = InodeTable {
            id_to_path: HashMap::new(),
            by_hash: HashMap::new(),
            next_id: 2,
        };
        table.put(ROOT_ID, VfsPath::root());
        assert(table@.paths =~= Map::<u64, Seq<u8>>::empty().insert(ROOT_ID, Seq::<u8>::empty()));
        table
    }

    /// The number that is assigned next.
    pub fn next_id(&self) -> (r: u64)
        ensures
            r == self@.next_id,
    {
        self.next_id
    }

    /// Gives a free number to a path.
    fn put(&mut self, id: u64, path: VfsPath)
        requires
            old(self).indexed(),
            !old(self).id_to_path@.contains_key(id),
        ensures
            final(self).indexed(),
            final(self)@.paths == old(self)@.paths.insert(id, path@),
            final(self).next_id == old(self).next_id,
    {
        let h: u64 = hash_bytes(path.as_bytes());
        let mut bucket: Vec<u64> = match self.by_hash.remove(&h) {
            Some(bucket) => bucket,
            None => Vec::new(),
        };
        let ghost before = bucket@;
        bucket.push(id);
        proof {
            assert(bucket@.contains(id)) by {
                assert(bucket@[before.len() as int] == id);
            }
            assert forall|x: u64| before.contains(x) implies bucket@.contains(x) by {
                let i = choose|i: int| 0 <= i < before.len() && before[i] == x;
                assert(bucket@[i] == x);
            }
            assert forall|x: u64| bucket@.contains(x) implies before.contains(x) || x == id by {
                let i = choose|i: int| 0 <= i < bucket@.len() && bucket@[i] == x;
                if i < before.len() {
                    assert(before[i] == x);
                }
            }
        }
        self.by_hash.insert(h, bucket);
        self.id_to_path.insert(id, path);
        proof {
            assert forall|x: u64| #[trigger] self.id_to_path@.contains_key(x) implies in_bucket(
                self.by_hash@,
                hashing::byte_hash(self.id_to_path@[x]@),
                x,
            ) by {
                if x != id {
                    assert(old(self).id_to_path@.contains_key(x));
                    assert(in_bucket(
                        old(self).by_hash@,
                        hashing::byte_hash(old(self).id_to_path@[x]@),
                        x,
                    ));
                }
            }
            assert forall|g: u64, x: u64| #[trigger] in_bucket(self.by_hash@, g, x) implies
                self.id_to_path@.contains_key(x) && hashing::byte_hash(self.id_to_path@[x]@) == g by {
                if !(g == h && x == id) {
                    assert(in_bucket(old(self).by_hash@, g, x));
                }
            }
            assert(self@.paths =~= old(self)@.paths.insert(id, path@));
        }
    }

    /// Takes a number away from its path.
    fn drop_id(&mut self, id: u64)
        requires
            old(self).indexed(),
            old(self).id_to_path@.contains_key(id),
        ensures
            final(self).indexed(),
            final(self)@.paths == old(self)@.paths.remove(id),
            final(self).next_id == old(self).next_id,
    {
        assert(in_bucket(old(self).by_hash@, hashing::byte_hash(old(self).id_to_path@[id]@), id));
        match self.id_to_path.remove(&id) {
            Some(path) => {
                let h: u64 = hash_bytes(path.as_bytes());
                let bucket: Vec<u64> = match self.by_hash.remove(&h) {
                    Some(bucket) => bucket,
                    None => Vec::new(),
                };
                let kept = without(&bucket, id);
                self.by_hash.insert(h, kept);
                proof {
                    assert forall|x: u64| #[trigger] self.id_to_path@.contains_key(x) implies
                        in_bucket(self.by_hash@, hashing::byte_hash(self.id_to_path@[x]@), x) by {
                        assert(old(self).id_to_path@.contains_key(x));
                        assert(in_bucket(
                            old(self).by_hash@,
                            hashing::byte_hash(old(self).id_to_path@[x]@),
                            x,
                        ));
                    }
                    assert forall|g: u64, x: u64| #[trigger] in_bucket(self.by_hash@, g, x) implies
                        self.id_to_path@.contains_key(x) && hashing::byte_hash(
                        self.id_to_path@[x]@,
                    ) == g by {
                        assert(in_bucket(old(self).by_hash@, g, x));
                        if x == id {
                            assert(g == h);
                        }
                    }
                }
            },
            None => {},
        }
        assert(self@.paths =~= old(self)@.paths.remove(id));
    }

    /// The number of a path, where it has one.
    fn find(&self, path: &VfsPath) -> (r: Option<u64>)
        requires
            self.well_formed(),
        ensures
            r == number_of(self@, path@),
    {
        let h: u64 = hash_bytes(path.as_bytes());
        match self.by_hash.get(&h) {
            Some(bucket) => {
                let mut i: usize = 0;
                while i < bucket.len()
                    invariant
                        i <= bucket@.len(),
                        self.well_formed(),
                        h == hashing::byte_hash(path@),
                        self.by_hash@.contains_key(h),
                        self.by_hash@[h]@ == bucket@,
                        forall|j: int|
                            0 <= j < i ==> !stands_for(self@, #[trigger] bucket@[j], path@),
                    decreases bucket@.len() - i,
                {
                    let id: u64 = bucket[i];
                    assert(in_bucket(self.by_hash@, h, id));
                    match self.id_to_path.get(&id) {
                        Some(held) => {
                            if bytes_eq(held.as_bytes(), path.as_bytes()) {
                                proof {
                                    assert(self@.paths[id] == held@);
                                    lemma_number_of(self@, id, path@);
                                }
                                return Some(id);
                            }
                            assert(self@.paths[id] == held@);
                        },
                        None => {},
                    }
                    i = i + 1;
                }
                proof {
                    assert forall|id: u64| !stands_for(self@, id, path@) by {
                        if stands_for(self@, id, path@) {
                            assert(self.id_to_path@.contains_key(id));
                            assert(in_bucket(self.by_hash@, h, id));
                            let j = choose|j: int| 0 <= j < bucket@.len() && bucket@[j] == id;
                            assert(!stands_for(self@, bucket@[j], path@));
                        }
                    }
                }
                None
            },
            None => {
                proof {
                    assert forall|id: u64| !stands_for(self@, id, path@) by {
                        if stands_for(self@, id, path@) {
                            assert(self.id_to_path@.contains_key(id));
                            assert(in_bucket(self.by_hash@, h, id));
                        }
                    }
                }
                None
            },
        }
    }

    /// The number of a path; it gets the next one where it has none.
    pub fn get_or_assign(&mut self, path: &VfsPath) -> (r: u64)
        requires
            old(self).well_formed(),
            number_of(old(self)@, path@) is None ==> old(self)@.next_id < u64::MAX,
        ensures
            final(self).well_formed(),
            (final(self)@, r) == assigning(old(self)@, path@),
            stands_for(final(self)@, r, path@),
    {
        match self.find(path) {
            Some(id) => {
                assert(exists|id: u64| stands_for(old(self)@, id, path@));
                id
            },
            None => {
                let id: u64 = self.next_id;
                assert(!self@.paths.contains_key(id));
                self.put(id, path.clone());
                self.next_id = id + 1;
                proof {
                    let now = self@;
                    assert(now.paths =~= old(self)@.paths.insert(id, path@));
                    assert forall|a: u64, b: u64|
                        #![trigger now.paths[a], now.paths[b]]
                        now.paths.contains_key(a) && now.paths.contains_key(b) && now.paths[a]
                            == now.paths[b] implies a == b by {
                        if a != b {
                            if a == id {
                                assert(stands_for(old(self)@, b, path@));
                            } else if b == id {
                                assert(stands_for(old(self)@, a, path@));
                            }
                        }
                    }
                }
                id
            },
        }
    }

    /// The path that a number stands for.
    pub fn get_path(&self, id: u64) -> (r: Option<VfsPath>)
        ensures
            match r {
                Some(path) => self@.paths.contains_key(id) && self@.paths[id] == path@,
                None => !self@.paths.contains_key(id),
            },
    {
        match self.id_to_path.get(&id) {
            Some(path) => Some(path.clone()),
            None => None,
        }
    }

    /// Moves the number of `from` to `to`.
    pub fn rename(&mut self, from: &VfsPath, to: &VfsPath)
        requires
            old(self).well_formed(),
        ensures
            final(self).well_formed(),
            final(self)@ == renaming(old(self)@, from@, to@),
    {
        let ghost start = self@;
        match self.find(from) {
            None => {},
            Some(id) => {
                assert(stands_for(start, id, from@));
                match self.find(to) {
                    Some(displaced) => {
                        assert(stands_for(start, displaced, to@));
                        self.drop_id(displaced);
                        if displaced != id {
                            assert(self@.paths.contains_key(id));
                            self.drop_id(id);
                        }
                        assert(!self@.paths.contains_key(id));
                        self.put(id, to.clone());
                        assert(self@.paths =~= start.paths.remove(displaced).insert(id, to@));
                    },
                    None => {
                        self.drop_id(id);
                        assert(!self@.paths.contains_key(id));
                        self.put(id, to.clone());
                        assert(self@.paths =~= start.paths.insert(id, to@));
                    },
                }
                proof {
                    lemma_renaming(start, from@, to@);
                }
            },
        }
    }
}

/// A list of numbers without one of them.
fn without(bucket: &Vec<u64>, id: u64) -> (r: Vec<u64>)
    ensures
        forall|x: u64| r@.contains(x) <==> bucket@.contains(x) && x != id,
{
    let mut out: Vec<u64> = Vec::new();
    let mut i: usize = 0;
    while i < bucket.len()
        invariant
            i <= bucket@.len(),
            forall|x: u64| out@.contains(x) <==> bucket@.subrange(0, i as int).contains(x) && x != id,
        decreases bucket@.len() - i,
    {
        let ghost before = out@;
        let ghost front = bucket@.subrange(0, i as int);
        let ghost longer = bucket@.subrange(0, i + 1);
        if bucket[i] != id {
            out.push(bucket[i]);
        }
        proof {
            let last = bucket@[i as int];
            assert(longer =~= front.push(last));
            assert forall|x: u64| out@.contains(x) <==> longer.contains(x) && x != id by {
                if out@.contains(x) {
                    let k = choose|k: int| 0 <= k < out@.len() && out@[k] == x;
                    if k < before.len() {
                        assert(before[k] == x);
                        assert(before.contains(x));
                        let m = choose|m: int| 0 <= m < front.len() && front[m] == x;
                        assert(longer[m] == x);
                    } else {
                        assert(longer[i as int] == x);
                    }
                }
                if longer.contains(x) && x != id {
                    let m = choose|m: int| 0 <= m < longer.len() && longer[m] == x;
                    if m < front.len() {
                        assert(front[m] == x);
                        assert(before.contains(x));
                        let k = choose|k: int| 0 <= k < before.len() && before[k] == x;
                        assert(out@[k] == x);
                    } else {
                        assert(out@[out@.len() - 1] == x);
                    }
                }
            }
        }
        i = i + 1;
    }
    assert(bucket@.subrange(0, bucket@.len() as int) =~= bucket@);
    out
}

// ── Laws ────────────────────────────────────────────────────────────────

/// A number that was given out stands for its path until the path is moved or
/// replaced: giving out numbers changes none that is in use.
pub proof fn law_numbers_are_stable(table: Inodes, path: Seq<u8>, id: u64)
    requires
        well_formed(table),
        table.paths.contains_key(id),
    ensures
        assigning(table, path).0.paths.contains_key(id),
        assigning(table, path).0.paths[id] == table.paths[id],
{
}

/// Asking for the number of a path twice gives one number.
pub proof fn law_a_path_has_one_number(table: Inodes, path: Seq<u8>)
    requires
        well_formed(table),
        number_of(table, path) is None ==> table.next_id < u64::MAX,
    ensures
        ({
            let (once, id) = assigning(table, path);
            well_formed(once) && assigning(once, path) == (once, id)
        }),
{
    let (once, id) = assigning(table, path);
    match number_of(table, path) {
        Some(_) => {},
        None => {
            assert forall|a: u64, b: u64|
                #![trigger once.paths[a], once.paths[b]]
                once.paths.contains_key(a) && once.paths.contains_key(b) && once.paths[a]
                    == once.paths[b] implies a == b by {
                if a != b {
                    if a == id {
                        assert(stands_for(table, b, path));
                    } else if b == id {
                        assert(stands_for(table, a, path));
                    }
                }
            }
            assert(stands_for(once, id, path));
            lemma_number_of(once, id, path);
        },
    }
}

/// A rename moves the number of the source: whoever holds it finds the
/// destination, which is now known by that number alone. The number that the
/// destination had before stands for nothing; every other number stands for
/// what it stood for. The source has no number any more, and gets one that is
/// above all those in use when it is asked for again. A source that was never
/// given a number leaves everything as it was.
pub proof fn law_a_rename_moves_the_number(table: Inodes, from: Seq<u8>, to: Seq<u8>)
    requires
        well_formed(table),
    ensures
        well_formed(renaming(table, from, to)),
        match number_of(table, from) {
            None => renaming(table, from, to) == table,
            Some(id) => {
                let after = renaming(table, from, to);
                &&& after.paths.contains_key(id) && after.paths[id] == to
                &&& assigning(after, to) == (after, id)
                &&& forall|displaced: u64|
                    displaced != id && #[trigger] stands_for(table, displaced, to)
                        ==> !after.paths.contains_key(displaced)
                &&& forall|other: u64|
                    other != id && table.paths.contains_key(other) && table.paths[other] != to
                        ==> #[trigger] after.paths.contains_key(other) && after.paths[other]
                        == table.paths[other]
                &&& forall|other: u64| #[trigger]
                    after.paths.contains_key(other) ==> table.paths.contains_key(other)
                &&& from != to ==> number_of(after, from) is None && assigning(after, from).1
                    == table.next_id as u64
            },
        },
        forall|used: u64| #[trigger] table.paths.contains_key(used) ==> used < table.next_id,
{
    lemma_renaming(table, from, to);
    match number_of(table, from) {
        None => {},
        Some(id) => {
            let after = renaming(table, from, to);
            assert(stands_for(table, id, from));
            assert(stands_for(after, id, to));
            lemma_number_of(after, id, to);
            assert forall|displaced: u64|
                displaced != id && #[trigger] stands_for(table, displaced, to) implies
                !after.paths.contains_key(displaced) by {
                lemma_number_of(table, displaced, to);
            }
            match number_of(table, to) {
                Some(displaced) => {
                    assert(stands_for(table, displaced, to));
                },
                None => {},
            }
            if from != to {
                assert forall|other: u64| !stands_for(after, other, from) by {
                    if stands_for(after, other, from) && other != id {
                        assert(stands_for(table, other, from));
                        assert(table.paths[other] == table.paths[id]);
                    }
                }
            }
        },
    }
}

proof fn lemma_renaming(table: Inodes, from: Seq<u8>, to: Seq<u8>)
    requires
        well_formed(table),
    ensures
        well_formed(renaming(table, from, to)),
{
    let now = renaming(table, from, to);
    match number_of(table, from) {
        None => {},
        Some(id) => {
            assert(stands_for(table, id, from));
            assert forall|a: u64, b: u64|
                #![trigger now.paths[a], now.paths[b]]
                now.paths.contains_key(a) && now.paths.contains_key(b) && now.paths[a]
                    == now.paths[b] implies a == b by {
                if a != b {
                    if a == id {
                        assert(stands_for(table, b, to));
                        lemma_number_of(table, b, to);
                    } else if b == id {
                        assert(stands_for(table, a, to));
                        lemma_number_of(table, a, to);
                    } else {
                        assert(table.paths[a] == table.paths[b]);
                    }
                }
            }
        },
    }
}

/// One call that changes the numbers.
pub enum InodeCall {
    Assign(Seq<u8>),
    Rename(Seq<u8>, Seq<u8>),
}

/// The numbers after these calls on a new table.
pub open spec fn numbered(calls: Seq<InodeCall>) -> Inodes
    decreases calls.len(),
{
    if calls.len() == 0 {
        Inodes { paths: Map::empty().insert(ROOT_ID, Seq::empty()), next_id: 2 }
    } else {
        let before = numbered(calls.drop_last());
        match calls.last() {
            InodeCall::Assign(path) => assigning(before, path).0,
            InodeCall::Rename(from, to) => renaming(before, from, to),
        }
    }
}

/// Whatever was called before, a path that has no number gets one that stood
/// for nothing at any earlier point.
pub proof fn law_a_new_number_was_never_in_use(calls: Seq<InodeCall>, path: Seq<u8>)
    requires
        calls.len() <= u64::MAX - 2,
        number_of(numbered(calls), path) is None,
    ensures
        well_formed(numbered(calls)),
        forall|k: int|
            0 <= k <= calls.len() ==> !(#[trigger] numbered(calls.subrange(0, k))).paths.contains_key(
                assigning(numbered(calls), path).1,
            ),
{
    lemma_numbered(calls);
    assert forall|k: int| 0 <= k <= calls.len() implies !(#[trigger] numbered(
        calls.subrange(0, k),
    )).paths.contains_key(assigning(numbered(calls), path).1) by {
        lemma_numbered(calls.subrange(0, k));
        lemma_numbers_grow(calls, k);
    }
}

proof fn lemma_numbered(calls: Seq<InodeCall>)
    requires
        calls.len() <= u64::MAX - 2,
    ensures
        well_formed(numbered(calls)),
        numbered(calls).next_id <= 2 + calls.len(),
    decreases calls.len(),
{
    if calls.len() > 0 {
        let before = numbered(calls.drop_last());
        lemma_numbered(calls.drop_last());
        match calls.last() {
            InodeCall::Assign(path) => {
                law_a_path_has_one_number(before, path);
            },
            InodeCall::Rename(from, to) => {
                lemma_renaming(before, from, to);
            },
        }
    }
}

proof fn lemma_numbers_grow(calls: Seq<InodeCall>, k: int)
    requires
        0 <= k <= calls.len(),
    ensures
        numbered(calls.subrange(0, k)).next_id <= numbered(calls).next_id,
    decreases calls.len(),
{
    if k < calls.len() {
        let front = calls.drop_last();
        assert(front.subrange(0, k) =~= calls.subrange(0, k));
        lemma_numbers_grow(front, k);
    } else {
        assert(calls.subrange(0, k) =~= calls);
    }
}

} // verus!

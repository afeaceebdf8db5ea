//! Per-process memory of path facts that the daemon has already told.
//!
//! Only facts about the components before the last one are ever consulted, so
//! no caller can observe a remembered answer. Every entry carries the
//! generation that produced it, and a higher generation clears everything: a
//! remembered fact outlives a publication by zero calls. Generation `0` is the
//! protocol's "no snapshot answered" and is neither stored nor observed.

use vstd::prelude::*;

use crate::bytes::to_vec;
use crate::vfs_path::VfsPath;

verus! {

/// Entries retained per process.
pub const DEFAULT_CAPACITY: usize = 8192;

/// Whether the table that a cache of this capacity reserves can be addressed.
/// It has a power of two of buckets, of which seven in eight are used; a bucket
/// takes two words and a byte.
pub open spec fn addressable(capacity: usize) -> bool {
    4 * (capacity * usize::BITS) <= 7 * (isize::MAX + 1)
}

/// A fact about one path: exactly what path resolution reads.
#[derive(Debug, Clone, Copy, PartialEq, Eq, Structural)]
pub enum PathFact {
    /// The graph holds this path.
    Present { is_dir: bool, is_symlink: bool },
    /// The graph definitively does not hold this path.
    Absent,
}

/// What one cache entry holds: the generation, and what the fact says of a
/// path that is present (whether a directory, whether a symlink).
pub type Stamp = (u64, Option<(bool, bool)>);

/// The least-recently-used cache of the `lru` crate.
#[verifier::external_type_specification]
#[verifier::external_body]
#[verifier::reject_recursive_types(K)]
#[verifier::reject_recursive_types(V)]
#[verifier::reject_recursive_types(S)]
pub struct ExLruCache<K, V, S>(lru::LruCache<K, V, S>);

/// The hasher that an `lru` cache has where none is named.
#[verifier::external_type_specification]
#[verifier::external_body]
pub struct ExDefaultHasher(lru::DefaultHasher);

/// What a cache holds, the most recently used entry first.
pub uninterp spec fn cache_entries(cache: lru::LruCache<Vec<u8>, Stamp>) -> Seq<(Seq<u8>, Stamp)>;

/// How many entries a cache was made for.
pub uninterp spec fn cache_capacity(cache: lru::LruCache<Vec<u8>, Stamp>) -> nat;

/// The value of the first entry for `key`.
pub open spec fn value_of(entries: Seq<(Seq<u8>, Stamp)>, key: Seq<u8>) -> Option<Stamp>
    decreases entries.len(),
{
    if entries.len() == 0 {
        None
    } else if entries[0].0 == key {
        Some(entries[0].1)
    } else {
        value_of(entries.drop_first(), key)
    }
}

/// The entries other than those for `key`, in the same order.
pub open spec fn without(entries: Seq<(Seq<u8>, Stamp)>, key: Seq<u8>) -> Seq<(Seq<u8>, Stamp)>
    decreases entries.len(),
{
    if entries.len() == 0 {
        Seq::empty()
    } else {
        let before = without(entries.drop_last(), key);
        if entries.last().0 == key {
            before
        } else {
            before.push(entries.last())
        }
    }
}

/// The entries after `key` was stored: it comes first, and where it is new and
/// there is no room the entry used longest ago leaves.
pub open spec fn stored(
    entries: Seq<(Seq<u8>, Stamp)>,
    capacity: nat,
    key: Seq<u8>,
    value: Stamp,
) -> Seq<(Seq<u8>, Stamp)> {
    let rest = if value_of(entries, key) is None && entries.len() == capacity {
        entries.drop_last()
    } else {
        without(entries, key)
    };
    seq![(key, value)] + rest
}

/// The entries after `key` was looked up: it comes first, where it is held.
pub open spec fn touched(entries: Seq<(Seq<u8>, Stamp)>, key: Seq<u8>) -> Seq<(Seq<u8>, Stamp)> {
    match value_of(entries, key) {
        Some(value) => seq![(key, value)] + without(entries, key),
        None => entries,
    }
}

/// `lru::LruCache::new`: an empty cache for `capacity` entries. It reserves its
/// table at once, and panics where the table cannot be addressed, so such a
/// capacity is left out.
#[verifier::external_body]
fn lru_new(capacity: usize) -> (r: lru::LruCache<Vec<u8>, Stamp>)
    requires
        0 < capacity,
        addressable(capacity),
    ensures
        cache_entries(r) == Seq::<(Seq<u8>, Stamp)>::empty(),
        cache_capacity(r) == capacity,
{
    lru::LruCache::new(std::num::NonZeroUsize::new(capacity).unwrap())
}

/// `lru::LruCache::put`: stores an entry as the most recently used one; where
/// the key is new and the cache is full, the entry used longest ago leaves.
#[verifier::external_body]
fn lru_put(cache: &mut lru::LruCache<Vec<u8>, Stamp>, key: Vec<u8>, value: Stamp)
    ensures
        cache_entries(*final(cache)) == stored(
            cache_entries(*old(cache)),
            cache_capacity(*old(cache)),
            key@,
            value,
        ),
        cache_capacity(*final(cache)) == cache_capacity(*old(cache)),
{
    cache.put(key, value);
}

/// `lru::LruCache::get`: the value for the key, which becomes the most recently
/// used one where it is held.
#[verifier::external_body]
fn lru_get(cache: &mut lru::LruCache<Vec<u8>, Stamp>, key: &[u8]) -> (r: Option<Stamp>)
    ensures
        r == value_of(cache_entries(*old(cache)), key@),
        cache_entries(*final(cache)) == touched(cache_entries(*old(cache)), key@),
        cache_capacity(*final(cache)) == cache_capacity(*old(cache)),
{
    cache.get(key).copied()
}

/// `lru::LruCache::pop`: removes the entry for the key, where it is held.
#[verifier::external_body]
fn lru_pop(cache: &mut lru::LruCache<Vec<u8>, Stamp>, key: &[u8])
    ensures
        cache_entries(*final(cache)) == without(cache_entries(*old(cache)), key@),
        cache_capacity(*final(cache)) == cache_capacity(*old(cache)),
{
    cache.pop(key);
}

/// `lru::LruCache::clear`: removes every entry.
#[verifier::external_body]
fn lru_clear(cache: &mut lru::LruCache<Vec<u8>, Stamp>)
    ensures
        cache_entries(*final(cache)) == Seq::<(Seq<u8>, Stamp)>::empty(),
        cache_capacity(*final(cache)) == cache_capacity(*old(cache)),
{
    cache.clear();
}

// ── What the entries keep ───────────────────────────────────────────────

/// No key has two entries.
pub open spec fn distinct_keys(entries: Seq<(Seq<u8>, Stamp)>) -> bool {
    forall|i: int, j: int|
        0 <= i < j < entries.len() ==> (#[trigger] entries[i]).0 != (#[trigger] entries[j]).0
}

/// Every entry was recorded under `generation`.
pub open spec fn all_of_generation(entries: Seq<(Seq<u8>, Stamp)>, generation: u64) -> bool {
    forall|i: int| 0 <= i < entries.len() ==> (#[trigger] entries[i]).1.0 == generation
}

/// What `value_of` finds is an entry.
pub proof fn lemma_value_of(entries: Seq<(Seq<u8>, Stamp)>, key: Seq<u8>)
    ensures
        match value_of(entries, key) {
            Some(v) => exists|i: int| 0 <= i < entries.len() && #[trigger] entries[i] == (key, v),
            None => forall|i: int| 0 <= i < entries.len() ==> (#[trigger] entries[i]).0 != key,
        },
    decreases entries.len(),
{
    if entries.len() > 0 {
        let rest = entries.drop_first();
        if entries[0].0 != key {
            lemma_value_of(rest, key);
            match value_of(rest, key) {
                Some(v) => {
                    let i = choose|i: int| 0 <= i < rest.len() && #[trigger] rest[i] == (key, v);
                    assert(entries[i + 1] == (key, v));
                },
                None => {
                    assert forall|i: int| 0 <= i < entries.len() implies (#[trigger] entries[i]).0
                        != key by {
                        if i > 0 {
                            assert(rest[i - 1] == entries[i]);
                        }
                    }
                },
            }
        } else {
            assert(entries[0] == (key, entries[0].1));
        }
    }
}

/// With distinct keys, an entry is what `value_of` finds for its key.
pub proof fn lemma_value_of_is(entries: Seq<(Seq<u8>, Stamp)>, i: int)
    requires
        distinct_keys(entries),
        0 <= i < entries.len(),
    ensures
        value_of(entries, entries[i].0) == Some(entries[i].1),
{
    let key = entries[i].0;
    lemma_value_of(entries, key);
    match value_of(entries, key) {
        Some(v) => {
            let j = choose|j: int| 0 <= j < entries.len() && #[trigger] entries[j] == (key, v);
            if j < i {
                assert(entries[j].0 != entries[i].0);
            } else if i < j {
                assert(entries[i].0 != entries[j].0);
            }
        },
        None => {
            assert(entries[i].0 != key);
        },
    }
}

/// What `without` keeps.
pub proof fn lemma_without(entries: Seq<(Seq<u8>, Stamp)>, key: Seq<u8>)
    ensures
        without(entries, key).len() <= entries.len(),
        value_of(entries, key) is Some ==> without(entries, key).len() < entries.len(),
        distinct_keys(entries) ==> distinct_keys(without(entries, key)),
        forall|i: int|
            0 <= i < without(entries, key).len() ==> entries.contains(
                #[trigger] without(entries, key)[i],
            ) && without(entries, key)[i].0 != key,
        forall|i: int|
            0 <= i < entries.len() && entries[i].0 != key ==> without(entries, key).contains(
                #[trigger] entries[i],
            ),
    decreases entries.len(),
{
    lemma_value_of(entries, key);
    if entries.len() > 0 {
        let front = entries.drop_last();
        lemma_without(front, key);
        lemma_value_of(front, key);
        let kept = without(entries, key);
        let before = without(front, key);
        assert forall|i: int| 0 <= i < kept.len() implies entries.contains(#[trigger] kept[i])
            && kept[i].0 != key by {
            if i < before.len() {
                assert(front.contains(before[i]));
                let k = choose|k: int| 0 <= k < front.len() && front[k] == before[i];
                assert(entries[k] == kept[i]);
            } else {
                assert(entries[entries.len() - 1] == kept[i]);
            }
        }
        assert forall|i: int| 0 <= i < entries.len() && entries[i].0 != key implies kept.contains(
            #[trigger] entries[i],
        ) by {
            if i < front.len() {
                assert(front[i] == entries[i]);
                let k = choose|k: int| 0 <= k < before.len() && before[k] == entries[i];
                assert(kept[k] == entries[i]);
            } else {
                assert(kept[kept.len() - 1] == entries[i]);
            }
        }
        if distinct_keys(entries) {
            assert(distinct_keys(front)) by {
                assert forall|i: int, j: int| 0 <= i < j < front.len() implies (
                #[trigger] front[i]).0 != (#[trigger] front[j]).0 by {
                    assert(entries[i] == front[i] && entries[j] == front[j]);
                }
            }
            assert forall|i: int, j: int| 0 <= i < j < kept.len() implies (#[trigger] kept[i]).0
                != (#[trigger] kept[j]).0 by {
                if j < before.len() {
                    assert(before[i] == kept[i] && before[j] == kept[j]);
                } else {
                    assert(front.contains(before[i]));
                    let k = choose|k: int| 0 <= k < front.len() && front[k] == before[i];
                    assert(entries[k].0 != entries[entries.len() - 1].0);
                }
            }
        }
        if value_of(entries, key) is Some && entries.last().0 != key {
            let i = choose|i: int| 0 <= i < entries.len() && (#[trigger] entries[i]).0 == key;
            assert(front[i] == entries[i]);
        }
    }
}

/// Storing keeps the keys distinct and the bound; the stored key has the
/// stored value, and every other key has the value that it had, or none.
pub proof fn lemma_stored(
    entries: Seq<(Seq<u8>, Stamp)>,
    capacity: nat,
    key: Seq<u8>,
    value: Stamp,
)
    requires
        distinct_keys(entries),
        entries.len() <= capacity,
        capacity > 0,
    ensures
        distinct_keys(stored(entries, capacity, key, value)),
        stored(entries, capacity, key, value).len() <= capacity,
        value_of(stored(entries, capacity, key, value), key) == Some(value),
        forall|other: Seq<u8>|
            other != key && (#[trigger] value_of(stored(entries, capacity, key, value), other)) is Some
                ==> value_of(stored(entries, capacity, key, value), other) == value_of(
                entries,
                other,
            ),
        forall|g: u64|
            all_of_generation(entries, g) && value.0 == g ==> #[trigger] all_of_generation(
                stored(entries, capacity, key, value),
                g,
            ),
{
    lemma_without(entries, key);
    lemma_value_of(entries, key);
    let now = stored(entries, capacity, key, value);
    let rest = now.drop_first();
    let evicts = value_of(entries, key) is None && entries.len() == capacity;
    assert(rest =~= if evicts {
        entries.drop_last()
    } else {
        without(entries, key)
    });
    assert forall|i: int| 0 <= i < rest.len() implies entries.contains(#[trigger] rest[i])
        && rest[i].0 != key by {
        if evicts {
            assert(entries[i] == rest[i]);
        }
    }
    assert(distinct_keys(rest)) by {
        if evicts {
            assert forall|i: int, j: int| 0 <= i < j < rest.len() implies (#[trigger] rest[i]).0 != (
            #[trigger] rest[j]).0 by {
                assert(entries[i] == rest[i] && entries[j] == rest[j]);
            }
        }
    }
    assert forall|i: int, j: int| 0 <= i < j < now.len() implies (#[trigger] now[i]).0 != (
    #[trigger] now[j]).0 by {
        assert(now[j] == rest[j - 1]);
        if i > 0 {
            assert(now[i] == rest[i - 1]);
        }
    }
    assert forall|other: Seq<u8>|
        other != key && (#[trigger] value_of(now, other)) is Some implies value_of(now, other)
        == value_of(entries, other) by {
        lemma_value_of(now, other);
        let v = value_of(now, other)->0;
        let i = choose|i: int| 0 <= i < now.len() && #[trigger] now[i] == (other, v);
        assert(rest[i - 1] == (other, v));
        let k = choose|k: int| 0 <= k < entries.len() && entries[k] == (other, v);
        lemma_value_of_is(entries, k);
    }
    assert forall|g: u64| all_of_generation(entries, g) && value.0 == g implies
        #[trigger] all_of_generation(now, g) by {
        assert forall|i: int| 0 <= i < now.len() implies (#[trigger] now[i]).1.0 == g by {
            if i > 0 {
                assert(now[i] == rest[i - 1]);
                let k = choose|k: int| 0 <= k < entries.len() && entries[k] == rest[i - 1];
                assert(entries[k].1.0 == g);
            }
        }
    }
}

/// Looking a key up changes no value.
pub proof fn lemma_touched(entries: Seq<(Seq<u8>, Stamp)>, key: Seq<u8>)
    requires
        distinct_keys(entries),
    ensures
        distinct_keys(touched(entries, key)),
        touched(entries, key).len() <= entries.len(),
        forall|other: Seq<u8>| #[trigger]
            value_of(touched(entries, key), other) == value_of(entries, other),
        forall|g: u64|
            all_of_generation(entries, g) ==> #[trigger] all_of_generation(
                touched(entries, key),
                g,
            ),
{
    lemma_value_of(entries, key);
    match value_of(entries, key) {
        None => {},
        Some(value) => {
            lemma_without(entries, key);
            let rest = without(entries, key);
            let now = touched(entries, key);
            let at = choose|at: int| 0 <= at < entries.len() && #[trigger] entries[at] == (key, value);
            assert forall|i: int, j: int| 0 <= i < j < now.len() implies (#[trigger] now[i]).0 != (
            #[trigger] now[j]).0 by {
                assert(now[j] == rest[j - 1]);
                if i > 0 {
                    assert(now[i] == rest[i - 1]);
                }
            }
            assert forall|other: Seq<u8>| #[trigger]
                value_of(now, other) == value_of(entries, other) by {
                if other == key {
                    assert(now[0].0 == key);
                } else {
                    lemma_value_of(now, other);
                    lemma_value_of(entries, other);
                    if value_of(now, other) is Some {
                        let v = value_of(now, other)->0;
                        let i = choose|i: int| 0 <= i < now.len() && #[trigger] now[i] == (other, v);
                        assert(rest[i - 1] == (other, v));
                        let k = choose|k: int| 0 <= k < entries.len() && entries[k] == (other, v);
                        lemma_value_of_is(entries, k);
                    } else if value_of(entries, other) is Some {
                        let v = value_of(entries, other)->0;
                        let k = choose|k: int|
                            0 <= k < entries.len() && #[trigger] entries[k] == (other, v);
                        assert(rest.contains(entries[k]));
                        let i = choose|i: int| 0 <= i < rest.len() && rest[i] == entries[k];
                        assert(now[i + 1].0 == other);
                    }
                }
            }
            assert forall|g: u64| all_of_generation(entries, g) implies #[trigger] all_of_generation(
                now,
                g,
            ) by {
                assert forall|i: int| 0 <= i < now.len() implies (#[trigger] now[i]).1.0 == g by {
                    if i > 0 {
                        assert(now[i] == rest[i - 1]);
                        let k = choose|k: int| 0 <= k < entries.len() && entries[k] == rest[i - 1];
                        assert(entries[k].1.0 == g);
                    } else {
                        assert(entries[at].1.0 == g);
                    }
                }
            }
        },
    }
}

// ── The cache ───────────────────────────────────────────────────────────

/// The fact that a stamp records.
pub open spec fn stamp_fact(stamp: Stamp) -> PathFact {
    match stamp.1 {
        Some((is_dir, is_symlink)) => PathFact::Present { is_dir, is_symlink },
        None => PathFact::Absent,
    }
}

/// The stamp of a fact told by `generation`.
pub open spec fn fact_stamp(generation: u64, fact: PathFact) -> Stamp {
    (
        generation,
        match fact {
            PathFact::Present { is_dir, is_symlink } => Some((is_dir, is_symlink)),
            PathFact::Absent => None,
        },
    )
}

/// What a cache amounts to. Capacity zero is the disabled cache.
#[verifier::ext_equal]
pub struct Memory {
    pub observed: u64,
    pub capacity: nat,
    pub entries: Seq<(Seq<u8>, Stamp)>,
}

impl Memory {
    /// Distinct keys within the bound, all told by the observed generation.
    pub open spec fn well_formed(self) -> bool {
        &&& distinct_keys(self.entries)
        &&& self.entries.len() <= self.capacity
        &&& all_of_generation(self.entries, self.observed)
    }

    /// The fact remembered about `key`, if any.
    pub open spec fn fact(self, key: Seq<u8>) -> Option<PathFact> {
        match value_of(self.entries, key) {
            Some(stamp) => Some(stamp_fact(stamp)),
            None => None,
        }
    }

    /// The memory after an answer of `generation` was seen.
    pub open spec fn observing(self, generation: u64) -> Memory {
        if generation > self.observed {
            Memory { observed: generation, capacity: self.capacity, entries: Seq::empty() }
        } else {
            self
        }
    }

    /// The memory after a fact was offered.
    pub open spec fn remembering(self, key: Seq<u8>, generation: u64, fact: PathFact) -> Memory {
        if generation == 0 || generation != self.observed || self.capacity == 0 {
            self
        } else {
            Memory {
                observed: self.observed,
                capacity: self.capacity,
                entries: stored(self.entries, self.capacity, key, fact_stamp(generation, fact)),
            }
        }
    }

    /// The memory after `key` was looked up.
    pub open spec fn recalling(self, key: Seq<u8>) -> Memory {
        Memory {
            observed: self.observed,
            capacity: self.capacity,
            entries: touched(self.entries, key),
        }
    }
}

/// Generation-stamped memory of path facts, bounded and evicting.
pub struct StatCache {
    /// The newest generation any answer has reported to this process.
    observed: u64,
    /// `None` disables the cache outright.
    entries: Option<lru::LruCache<Vec<u8>, Stamp>>,
}

impl View for StatCache {
    type V = Memory;

    closed spec fn view(&self) -> Memory {
        match self.entries {
            Some(cache) => Memory {
                observed: self.observed,
                capacity: cache_capacity(cache),
                entries: cache_entries(cache),
            },
            None => Memory { observed: self.observed, capacity: 0, entries: Seq::empty() },
        }
    }
}

impl StatCache {
    /// The invariant of every cache: `Memory::well_formed`, and a disabled
    /// cache is the one of capacity zero.
    pub closed spec fn well_formed(&self) -> bool {
        &&& self@.well_formed()
        &&& self.entries is Some ==> self@.capacity > 0
    }

    /// What the invariant says of the view.
    pub proof fn lemma_well_formed(&self)
        requires
            self.well_formed(),
        ensures
            self@.well_formed(),
    {
    }

    /// Builds a cache that holds at most `capacity` entries. Zero disables it.
    pub fn new(capacity: usize) -> (r: StatCache)
        requires
            addressable(capacity),
        ensures
            r.well_formed(),
            r@ == (Memory { observed: 0, capacity: capacity as nat, entries: Seq::empty() }),
    {
        let entries = if capacity == 0 {
            None
        } else {
            Some(lru_new(capacity))
        };
        StatCache { observed: 0, entries }
    }

    /// Records the generation that an answer carried, and returns the one now
    /// observed.
    ///
    /// A higher generation is the publication boundary: everything remembered
    /// belongs to a superseded snapshot and is dropped. A lower one is neither
    /// observed nor stored.
    pub fn observe(&mut self, generation: u64) -> (r: u64)
        requires
            old(self).well_formed(),
        ensures
            final(self).well_formed(),
            final(self)@ == old(self)@.observing(generation),
            r == final(self)@.observed,
    {
        if generation > self.observed {
            self.observed = generation;
            self.clear();
        }
        assert(self@ =~= old(self)@.observing(generation));
        self.observed
    }

    /// The generation that entries must carry to be consulted.
    pub fn observed(&self) -> (r: u64)
        ensures
            r == self@.observed,
    {
        self.observed
    }

    /// Remembers one fact, if it belongs to the generation now observed.
    pub fn remember(&mut self, path: &VfsPath, generation: u64, fact: PathFact)
        requires
            old(self).well_formed(),
        ensures
            final(self).well_formed(),
            final(self)@ == old(self)@.remembering(path@, generation, fact),
    {
        if generation == 0 || generation != self.observed {
            return;
        }
        let held = match fact {
            PathFact::Present { is_dir, is_symlink } => Some((is_dir, is_symlink)),
            PathFact::Absent => None,
        };
        match &mut self.entries {
            Some(cache) => {
                proof {
                    lemma_stored(
                        cache_entries(*cache),
                        cache_capacity(*cache),
                        path@,
                        (generation, held),
                    );
                }
                lru_put(cache, to_vec(path.as_bytes()), (generation, held));
            },
            None => {},
        }
        assert(self@ =~= old(self)@.remembering(path@, generation, fact));
    }

    /// Recalls one fact, if it was recorded under the generation now observed.
    ///
    /// An entry of a superseded generation is dropped on sight.
    pub fn recall(&mut self, path: &VfsPath) -> (r: Option<PathFact>)
        requires
            old(self).well_formed(),
        ensures
            final(self).well_formed(),
            r == old(self)@.fact(path@),
            final(self)@ == old(self)@.recalling(path@),
    {
        let observed: u64 = self.observed;
        let mut found: Option<PathFact> = None;
        match &mut self.entries {
            Some(cache) => {
                proof {
                    lemma_touched(cache_entries(*cache), path@);
                    lemma_value_of(cache_entries(*cache), path@);
                }
                match lru_get(cache, path.as_bytes()) {
                    Some((generation, held)) => {
                        if generation == observed {
                            found = Some(
                                match held {
                                    Some((is_dir, is_symlink)) => PathFact::Present {
                                        is_dir,
                                        is_symlink,
                                    },
                                    None => PathFact::Absent,
                                },
                            );
                        } else {
                            lru_pop(cache, path.as_bytes());
                        }
                    },
                    None => {},
                }
            },
            None => {},
        }
        assert(self@ =~= old(self)@.recalling(path@));
        found
    }

    fn clear(&mut self)
        ensures
            final(self)@ == (Memory { entries: Seq::empty(), ..old(self)@ }),
            final(self).entries is Some == old(self).entries is Some,
    {
        match &mut self.entries {
            Some(cache) => {
                lru_clear(cache);
            },
            None => {},
        }
    }
}

// ── Laws ────────────────────────────────────────────────────────────────

/// Seeing, remembering and recalling keep a memory well formed: bounded by its
/// capacity, one entry per key, every entry told by the observed generation.
pub proof fn law_memory_stays_well_formed(
    memory: Memory,
    key: Seq<u8>,
    generation: u64,
    fact: PathFact,
)
    requires
        memory.well_formed(),
    ensures
        memory.observing(generation).well_formed(),
        memory.remembering(key, generation, fact).well_formed(),
        memory.recalling(key).well_formed(),
{
    lemma_touched(memory.entries, key);
    if memory.capacity > 0 {
        lemma_stored(memory.entries, memory.capacity, key, fact_stamp(generation, fact));
    }
}

/// A publication discards every remembered fact before the next one is asked
/// for.
pub proof fn law_a_publication_forgets_everything(memory: Memory, generation: u64, key: Seq<u8>)
    requires
        generation > memory.observed,
    ensures
        memory.observing(generation).fact(key) is None,
        memory.observing(generation).observed == generation,
{
}

/// A fact told by the observed generation is recalled as it was told, and
/// recalling any path changes no remembered fact.
pub proof fn law_a_remembered_fact_is_recalled(
    memory: Memory,
    key: Seq<u8>,
    fact: PathFact,
    other: Seq<u8>,
)
    requires
        memory.well_formed(),
        memory.observed != 0,
        memory.capacity > 0,
    ensures
        memory.remembering(key, memory.observed, fact).fact(key) == Some(fact),
        memory.recalling(other).fact(key) == memory.fact(key),
{
    lemma_stored(memory.entries, memory.capacity, key, fact_stamp(memory.observed, fact));
    lemma_touched(memory.entries, other);
}

/// An answer of a superseded snapshot, and one that no snapshot gave, are
/// neither observed nor remembered.
pub proof fn law_other_generations_are_ignored(
    memory: Memory,
    key: Seq<u8>,
    generation: u64,
    fact: PathFact,
)
    requires
        generation == 0 || generation < memory.observed,
    ensures
        memory.observing(generation) == memory,
        memory.remembering(key, generation, fact) == memory,
{
}

/// A disabled cache remembers nothing.
pub proof fn law_capacity_zero_disables(
    memory: Memory,
    key: Seq<u8>,
    generation: u64,
    fact: PathFact,
)
    requires
        memory.well_formed(),
        memory.capacity == 0,
    ensures
        memory.fact(key) is None,
        memory.remembering(key, generation, fact) == memory,
{
}

// ── Whole histories ─────────────────────────────────────────────────────

/// One call on a cache.
pub enum CacheCall {
    Observe(u64),
    Remember(Seq<u8>, u64, PathFact),
    Recall(Seq<u8>),
}

/// The memory after one call.
pub open spec fn called(memory: Memory, call: CacheCall) -> Memory {
    match call {
        CacheCall::Observe(generation) => memory.observing(generation),
        CacheCall::Remember(key, generation, fact) => memory.remembering(key, generation, fact),
        CacheCall::Recall(key) => memory.recalling(key),
    }
}

/// The memory of a new cache after these calls.
pub open spec fn replayed(capacity: nat, calls: Seq<CacheCall>) -> Memory
    decreases calls.len(),
{
    if calls.len() == 0 {
        Memory { observed: 0, capacity, entries: Seq::empty() }
    } else {
        called(replayed(capacity, calls.drop_last()), calls.last())
    }
}

/// The greatest generation that was observed; zero where none was.
pub open spec fn greatest(calls: Seq<CacheCall>) -> u64
    decreases calls.len(),
{
    if calls.len() == 0 {
        0
    } else {
        let before = greatest(calls.drop_last());
        match calls.last() {
            CacheCall::Observe(generation) if generation > before => generation,
            _ => before,
        }
    }
}

/// Whether `generation` was observed before the call at `i`.
pub open spec fn observed_before(calls: Seq<CacheCall>, i: int, generation: u64) -> bool {
    exists|j: int| 0 <= j < i && #[trigger] calls[j] == CacheCall::Observe(generation)
}

/// Whether the call at `i` is the latest that told a fact of `key` under
/// `generation`, it told `fact`, and the generation had been observed.
pub open spec fn told_last(
    calls: Seq<CacheCall>,
    i: int,
    key: Seq<u8>,
    generation: u64,
    fact: PathFact,
) -> bool {
    &&& 0 <= i < calls.len()
    &&& calls[i] == CacheCall::Remember(key, generation, fact)
    &&& observed_before(calls, i, generation)
    &&& forall|k: int|
        i < k < calls.len() ==> !((#[trigger] calls[k]) matches CacheCall::Remember(other, g, _)
            && other == key && g == generation)
}

/// The paths of which anything is recalled.
pub open spec fn known(memory: Memory) -> Set<Seq<u8>> {
    Set::new(|key: Seq<u8>| memory.fact(key) is Some)
}

/// What a cache recalls after any history of calls: only the fact that was told
/// last of that path under the greatest generation observed so far, told after
/// that generation was observed. Nothing is recalled under generation zero or
/// by a disabled cache, and no more paths are recalled than the cache has room
/// for.
pub proof fn law_a_recalled_fact_was_told_last(
    capacity: nat,
    calls: Seq<CacheCall>,
    key: Seq<u8>,
)
    ensures
        ({
            let memory = replayed(capacity, calls);
            &&& memory.well_formed()
            &&& memory.capacity == capacity
            &&& memory.observed == greatest(calls)
            &&& memory.fact(key) matches Some(fact) ==> {
                &&& capacity > 0
                &&& greatest(calls) != 0
                &&& exists|i: int| #[trigger] told_last(calls, i, key, greatest(calls), fact)
            }
            &&& known(memory).finite()
            &&& known(memory).len() <= capacity
        }),
{
    lemma_replayed(capacity, calls, key);
    lemma_known(replayed(capacity, calls));
}

/// A publication starts afresh: once a generation above every earlier one was
/// observed, nothing is recalled of a path until it is told again under the
/// greatest generation.
pub proof fn law_a_publication_starts_afresh(
    capacity: nat,
    calls: Seq<CacheCall>,
    at: int,
    key: Seq<u8>,
)
    requires
        0 <= at < calls.len(),
        calls[at] is Observe,
        calls[at]->Observe_0 > greatest(calls.subrange(0, at)),
        forall|k: int|
            at < k < calls.len() ==> !((#[trigger] calls[k]) matches CacheCall::Remember(other, g, _)
                && other == key && g == greatest(calls)),
    ensures
        replayed(capacity, calls).fact(key) is None,
{
    let generation = calls[at]->Observe_0;
    lemma_replayed(capacity, calls, key);
    lemma_greatest(calls, at);
    match replayed(capacity, calls).fact(key) {
        None => {},
        Some(fact) => {
            let g = greatest(calls);
            let i = choose|i: int| #[trigger] told_last(calls, i, key, g, fact);
            let j = choose|j: int| 0 <= j < i && #[trigger] calls[j] == CacheCall::Observe(g);
            assert(i <= at);
            assert(j < at);
            let before = calls.subrange(0, at);
            assert(before[j] == calls[j]);
            lemma_greatest(before, j);
        },
    }
}

/// A fact that was told last is recalled as long as fewer calls came after it
/// than the cache has room for: the path used longest ago is forgotten first.
pub proof fn law_a_told_fact_stays_while_there_is_room(
    capacity: nat,
    calls: Seq<CacheCall>,
    i: int,
    key: Seq<u8>,
    fact: PathFact,
)
    requires
        told_last(calls, i, key, greatest(calls), fact),
        greatest(calls) != 0,
        calls.len() - i <= capacity,
    ensures
        replayed(capacity, calls).fact(key) == Some(fact),
{
    lemma_kept(capacity, calls, i, key, fact);
    lemma_replayed(capacity, calls, key);
    let memory = replayed(capacity, calls);
    let j = choose|j: int|
        0 <= j < memory.entries.len() && j <= calls.len() - 1 - i && #[trigger] memory.entries[j]
            == (key, fact_stamp(greatest(calls), fact));
    lemma_value_of_is(memory.entries, j);
}

proof fn lemma_kept(
    capacity: nat,
    calls: Seq<CacheCall>,
    i: int,
    key: Seq<u8>,
    fact: PathFact,
)
    requires
        told_last(calls, i, key, greatest(calls), fact),
        greatest(calls) != 0,
        calls.len() - i <= capacity,
    ensures
        exists|j: int|
            0 <= j < replayed(capacity, calls).entries.len() && j <= calls.len() - 1 - i
                && #[trigger] replayed(capacity, calls).entries[j] == (
                key,
                fact_stamp(greatest(calls), fact),
            ),
    decreases calls.len(),
{
    let g = greatest(calls);
    let front = calls.drop_last();
    let before = replayed(capacity, front);
    let now = replayed(capacity, calls);
    let entry = (key, fact_stamp(g, fact));
    lemma_replayed(capacity, front, key);
    let seen = choose|seen: int|
        0 <= seen < i && #[trigger] calls[seen] == CacheCall::Observe(g);
    assert(front[seen] == calls[seen]);
    lemma_greatest(front, seen);
    assert(greatest(front) == g);
    if i == calls.len() - 1 {
        assert(now.entries[0] == entry);
    } else {
        assert(front[i] == calls[i]);
        assert(observed_before(front, i, g));
        assert forall|k: int| i < k < front.len() implies !((
        #[trigger] front[k]) matches CacheCall::Remember(other, h, _) && other == key && h
            == g) by {
            assert(front[k] == calls[k]);
        }
        lemma_kept(capacity, front, i, key, fact);
        let j = choose|j: int|
            0 <= j < before.entries.len() && j <= front.len() - 1 - i
                && #[trigger] before.entries[j] == entry;
        match calls.last() {
            CacheCall::Observe(_) => {
                assert(now.entries[j] == entry);
            },
            CacheCall::Remember(other, h, told) => {
                assert(calls[calls.len() - 1] == calls.last());
                if h != g {
                    assert(now.entries[j] == entry);
                } else {
                    let stamp = fact_stamp(h, told);
                    lemma_stored_position(before.entries, capacity, other, stamp, j);
                    let k = choose|k: int|
                        0 <= k < stored(before.entries, capacity, other, stamp).len() && k <= j + 1
                            && #[trigger] stored(before.entries, capacity, other, stamp)[k] == entry;
                    assert(now.entries[k] == entry);
                }
            },
            CacheCall::Recall(other) => {
                lemma_touched_position(before.entries, other, j);
                let k = choose|k: int|
                    0 <= k < touched(before.entries, other).len() && k <= j + 1
                        && #[trigger] touched(before.entries, other)[k] == entry;
                assert(now.entries[k] == entry);
            },
        }
    }
}

proof fn lemma_without_position(entries: Seq<(Seq<u8>, Stamp)>, key: Seq<u8>, i: int)
    requires
        0 <= i < entries.len(),
        entries[i].0 != key,
    ensures
        exists|j: int|
            0 <= j < without(entries, key).len() && j <= i && #[trigger] without(entries, key)[j]
                == entries[i],
    decreases entries.len(),
{
    let front = entries.drop_last();
    let kept = without(front, key);
    lemma_without(front, key);
    if i < front.len() {
        assert(front[i] == entries[i]);
        lemma_without_position(front, key, i);
        let j = choose|j: int| 0 <= j < kept.len() && j <= i && #[trigger] kept[j] == front[i];
        assert(without(entries, key)[j] == entries[i]);
    } else {
        assert(without(entries, key)[kept.len() as int] == entries[i]);
    }
}

proof fn lemma_stored_position(
    entries: Seq<(Seq<u8>, Stamp)>,
    capacity: nat,
    key: Seq<u8>,
    value: Stamp,
    i: int,
)
    requires
        0 <= i < entries.len() <= capacity,
        i + 1 < capacity,
        entries[i].0 != key,
    ensures
        exists|j: int|
            0 <= j < stored(entries, capacity, key, value).len() && j <= i + 1
                && #[trigger] stored(entries, capacity, key, value)[j] == entries[i],
{
    let now = stored(entries, capacity, key, value);
    if value_of(entries, key) is None && entries.len() == capacity {
        assert(now[i + 1] == entries.drop_last()[i]);
    } else {
        lemma_without_position(entries, key, i);
        let kept = without(entries, key);
        let j = choose|j: int| 0 <= j < kept.len() && j <= i && #[trigger] kept[j] == entries[i];
        assert(now[j + 1] == kept[j]);
    }
}

proof fn lemma_touched_position(entries: Seq<(Seq<u8>, Stamp)>, key: Seq<u8>, i: int)
    requires
        distinct_keys(entries),
        0 <= i < entries.len(),
    ensures
        exists|j: int|
            0 <= j < touched(entries, key).len() && j <= i + 1 && #[trigger] touched(
                entries,
                key,
            )[j] == entries[i],
{
    let now = touched(entries, key);
    match value_of(entries, key) {
        None => {
            assert(now[i] == entries[i]);
        },
        Some(_) => {
            if entries[i].0 == key {
                lemma_value_of_is(entries, i);
                assert(now[0] == entries[i]);
            } else {
                lemma_without_position(entries, key, i);
                let kept = without(entries, key);
                let j = choose|j: int|
                    0 <= j < kept.len() && j <= i && #[trigger] kept[j] == entries[i];
                assert(now[j + 1] == kept[j]);
            }
        },
    }
}

proof fn lemma_greatest(calls: Seq<CacheCall>, at: int)
    requires
        0 <= at < calls.len(),
        calls[at] is Observe,
    ensures
        greatest(calls) >= calls[at]->Observe_0,
    decreases calls.len(),
{
    if at < calls.len() - 1 {
        assert(calls.drop_last()[at] == calls[at]);
        lemma_greatest(calls.drop_last(), at);
    }
}

proof fn lemma_greatest_was_observed(calls: Seq<CacheCall>)
    requires
        greatest(calls) != 0,
    ensures
        observed_before(calls, calls.len() as int, greatest(calls)),
    decreases calls.len(),
{
    let front = calls.drop_last();
    let before = greatest(front);
    match calls.last() {
        CacheCall::Observe(generation) if generation > before => {
            assert(calls[calls.len() - 1] == CacheCall::Observe(generation));
        },
        _ => {
            lemma_greatest_was_observed(front);
            let j = choose|j: int|
                0 <= j < front.len() && #[trigger] front[j] == CacheCall::Observe(before);
            assert(calls[j] == front[j]);
        },
    }
}

proof fn lemma_replayed(capacity: nat, calls: Seq<CacheCall>, key: Seq<u8>)
    ensures
        ({
            let memory = replayed(capacity, calls);
            &&& memory.well_formed()
            &&& memory.capacity == capacity
            &&& memory.observed == greatest(calls)
            &&& memory.fact(key) matches Some(fact) ==> {
                &&& capacity > 0
                &&& greatest(calls) != 0
                &&& exists|i: int| #[trigger] told_last(calls, i, key, greatest(calls), fact)
            }
        }),
    decreases calls.len(),
{
    if calls.len() > 0 {
        let front = calls.drop_last();
        let before = replayed(capacity, front);
        let memory = replayed(capacity, calls);
        let g = greatest(calls);
        lemma_replayed(capacity, front, key);
        match calls.last() {
            CacheCall::Observe(generation) => {
                law_memory_stays_well_formed(before, key, generation, PathFact::Absent);
            },
            CacheCall::Remember(other, generation, fact) => {
                law_memory_stays_well_formed(before, other, generation, fact);
                if generation != 0 && generation == before.observed && capacity > 0 {
                    lemma_stored(
                        before.entries,
                        capacity,
                        other,
                        fact_stamp(generation, fact),
                    );
                    if other == key {
                        lemma_greatest_was_observed(front);
                        let j = choose|j: int|
                            0 <= j < front.len() && #[trigger] front[j] == CacheCall::Observe(g);
                        assert(calls[j] == front[j]);
                        assert(observed_before(calls, calls.len() - 1, g));
                        assert(told_last(calls, calls.len() - 1, key, g, fact));
                    }
                }
            },
            CacheCall::Recall(other) => {
                law_memory_stays_well_formed(before, other, 0, PathFact::Absent);
                lemma_touched(before.entries, other);
            },
        }
        match memory.fact(key) {
            None => {},
            Some(fact) => {
                if !(exists|i: int| #[trigger] told_last(calls, i, key, g, fact)) {
                    assert(before.fact(key) == Some(fact));
                    let i = choose|i: int| #[trigger] told_last(front, i, key, g, fact);
                    let j = choose|j: int|
                        0 <= j < i && #[trigger] front[j] == CacheCall::Observe(g);
                    assert(calls[i] == front[i]);
                    assert(calls[j] == front[j]);
                    assert(observed_before(calls, i, g));
                    assert forall|k: int| i < k < calls.len() implies !((
                    #[trigger] calls[k]) matches CacheCall::Remember(other, h, _) && other == key
                        && h == g) by {
                        if k < front.len() {
                            assert(calls[k] == front[k]);
                        }
                    }
                    assert(told_last(calls, i, key, g, fact));
                }
            },
        }
    }
}

proof fn lemma_known(memory: Memory)
    requires
        memory.well_formed(),
    ensures
        known(memory).finite(),
        known(memory).len() <= memory.capacity,
{
    let keys = memory.entries.map(|i: int, e: (Seq<u8>, Stamp)| e.0);
    keys.lemma_cardinality_of_set();
    vstd::seq_lib::seq_to_set_is_finite(keys);
    assert forall|key: Seq<u8>| known(memory).contains(key) implies keys.to_set().contains(
        key,
    ) by {
        lemma_value_of(memory.entries, key);
        let v = value_of(memory.entries, key)->0;
        let i = choose|i: int|
            0 <= i < memory.entries.len() && #[trigger] memory.entries[i] == (key, v);
        assert(keys[i] == key);
    }
    vstd::set_lib::lemma_len_subset(known(memory), keys.to_set());
}

} // verus!

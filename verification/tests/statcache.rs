use kin_vfs::statcache::{PathFact, StatCache};
use kin_vfs::vfs_path::VfsPath;

fn vpath(path: &str) -> VfsPath {
    VfsPath::from_bytes(path.as_bytes()).expect("valid test path")
}

const DIR: PathFact = PathFact::Present {
    is_dir: true,
    is_symlink: false,
};

#[test]
fn a_fact_survives_only_its_own_generation() {
    let mut cache = StatCache::new(16);
    assert_eq!(cache.observe(7), 7);
    cache.remember(&vpath("src"), 7, DIR);
    assert_eq!(cache.recall(&vpath("src")), Some(DIR));

    // The publication boundary: one answer carrying a newer generation
    // discards everything remembered under the old one.
    assert_eq!(cache.observe(8), 8);
    assert_eq!(cache.recall(&vpath("src")), None);
}

#[test]
fn an_answer_from_a_superseded_snapshot_is_not_remembered() {
    let mut cache = StatCache::new(16);
    cache.observe(9);
    cache.remember(&vpath("src"), 8, DIR);
    assert_eq!(
        cache.recall(&vpath("src")),
        None,
        "an older snapshot's answer must not be stored under the current generation"
    );
    assert_eq!(
        cache.observed(),
        9,
        "a lower generation must not be observed"
    );
}

#[test]
fn the_no_snapshot_sentinel_is_never_remembered_or_observed() {
    let mut cache = StatCache::new(16);
    cache.observe(5);
    assert_eq!(cache.observe(0), 5, "zero carries no information");
    cache.remember(&vpath("src"), 0, DIR);
    assert_eq!(cache.recall(&vpath("src")), None);
}

#[test]
fn absence_is_remembered_on_the_same_terms_as_presence() {
    let mut cache = StatCache::new(16);
    cache.observe(3);
    cache.remember(&vpath("node_modules"), 3, PathFact::Absent);
    assert_eq!(
        cache.recall(&vpath("node_modules")),
        Some(PathFact::Absent),
        "a definitive absence is a graph fact and must be rememberable"
    );
    cache.observe(4);
    assert_eq!(cache.recall(&vpath("node_modules")), None);
}

#[test]
fn capacity_bounds_the_cache_and_zero_disables_it() {
    let mut cache = StatCache::new(2);
    cache.observe(1);
    for name in ["a", "b", "c"] {
        cache.remember(&vpath(name), 1, DIR);
    }
    assert_eq!(cache.recall(&vpath("a")), None, "the oldest entry evicts");
    assert_eq!(cache.recall(&vpath("c")), Some(DIR));

    let mut disabled = StatCache::new(0);
    disabled.observe(1);
    disabled.remember(&vpath("a"), 1, DIR);
    assert_eq!(disabled.recall(&vpath("a")), None);
}

#[test]
fn a_recalled_fact_is_evicted_last() {
    let mut cache = StatCache::new(2);
    cache.observe(1);
    cache.remember(&vpath("a"), 1, DIR);
    cache.remember(&vpath("b"), 1, PathFact::Absent);
    assert_eq!(cache.recall(&vpath("a")), Some(DIR));
    cache.remember(&vpath("c"), 1, DIR);
    assert_eq!(cache.recall(&vpath("a")), Some(DIR));
    assert_eq!(cache.recall(&vpath("b")), None);
    assert_eq!(cache.recall(&vpath("c")), Some(DIR));
}

#[test]
fn a_later_fact_replaces_an_earlier_one() {
    let mut cache = StatCache::new(2);
    cache.observe(1);
    cache.remember(&vpath("a"), 1, DIR);
    cache.remember(&vpath("a"), 1, PathFact::Absent);
    assert_eq!(cache.recall(&vpath("a")), Some(PathFact::Absent));
    cache.remember(&vpath("b"), 1, DIR);
    assert_eq!(cache.recall(&vpath("a")), Some(PathFact::Absent));
}

/// One call on a cache, and what is known of it afterwards.
#[derive(Clone, Copy)]
enum Call {
    Observe(u64),
    Remember(&'static str, u64, PathFact),
    Recall(&'static str),
}

#[test]
fn a_history_recalls_only_what_was_told_last_under_the_greatest_generation() {
    let history = [
        Call::Remember("a", 3, DIR),
        Call::Observe(3),
        Call::Remember("a", 3, DIR),
        Call::Remember("b", 3, DIR),
        Call::Remember("a", 3, PathFact::Absent),
        Call::Observe(2),
        Call::Remember("b", 2, PathFact::Absent),
        Call::Recall("a"),
        Call::Observe(5),
        Call::Remember("b", 3, DIR),
        Call::Recall("b"),
        Call::Remember("c", 5, DIR),
        Call::Remember("a", 5, DIR),
        Call::Remember("b", 5, DIR),
        Call::Observe(0),
    ];
    for capacity in [0, 1, 2, 8] {
        let mut cache = StatCache::new(capacity);
        for (at, call) in history.iter().enumerate() {
            match *call {
                Call::Observe(generation) => {
                    cache.observe(generation);
                }
                Call::Remember(path, generation, fact) => {
                    cache.remember(&vpath(path), generation, fact);
                }
                Call::Recall(path) => {
                    cache.recall(&vpath(path));
                }
            }
            let greatest = history[..=at]
                .iter()
                .map(|call| match call {
                    Call::Observe(generation) => *generation,
                    _ => 0,
                })
                .max()
                .unwrap_or(0);
            assert_eq!(cache.observed(), greatest);
            let seen = history[..=at]
                .iter()
                .position(|call| matches!(call, Call::Observe(g) if *g == greatest && *g != 0));
            let mut known = 0;
            for path in ["a", "b", "c"] {
                let told = seen.and_then(|seen| {
                    history[seen..=at].iter().rev().find_map(|call| match call {
                        Call::Remember(p, g, fact) if *p == path && *g == greatest => Some(*fact),
                        _ => None,
                    })
                });
                let recalled = cache.recall(&vpath(path));
                if recalled.is_some() {
                    assert_eq!(recalled, told, "{path} after call {at} of {capacity}");
                    known += 1;
                }
                if capacity == 8 {
                    assert_eq!(recalled, told, "{path} after call {at}");
                }
            }
            assert!(known <= capacity);
        }
    }
}

use file_cache::Cache;
use file_cache::CachedFile;
use file_cache::FileStats;
use file_cache::InMemoryFile;
use file_cache::PriorityFunction;

fn key(s: &str) -> String {
    s.to_string()
}

#[test]
fn admits_and_looks_up() {
    let mut c = Cache::new(100);
    assert!(c.insert(key("a.txt"), vec![1, 2, 3]));
    let f = c.lookup(&key("a.txt")).unwrap();
    assert_eq!(f.bytes, vec![1, 2, 3]);
    assert_eq!(f.stats.size, 3);
    assert_eq!(f.stats.access_count, 1);
    assert_eq!(c.entry_count(), 1);
    assert_eq!(c.used_bytes(), 3);
}

#[test]
fn scenario_second_file_evicts_first() {
    // capacity 100: two 60-byte files cannot both stay resident
    let mut c = Cache::new(100);
    assert!(c.insert(key("a"), vec![0u8; 60]));
    assert!(c.insert(key("b"), vec![1u8; 60]));
    assert!(c.lookup(&key("a")).is_none());
    let b = c.lookup(&key("b")).unwrap();
    assert_eq!(b.bytes, vec![1u8; 60]);
    assert_eq!(c.entry_count(), 1);
    assert_eq!(c.used_bytes(), 60);
}

#[test]
fn scenario_missing_file_resolves_absent() {
    let mut c = Cache::new(100);
    assert!(c.lookup(&key("missing.txt")).is_none());
    let r = c.resolve_miss(key("missing.txt"), None);
    assert!(matches!(r, CachedFile::NotFound));
    assert_eq!(r, CachedFile::NotFound);
    assert_eq!(c.entry_count(), 0);
}

#[test]
fn scenario_repeated_gets_raise_priority() {
    // the first get misses and admits; five further gets hit
    let mut c = Cache::new(1000);
    let r = c.resolve_miss(key("hot.txt"), Some(vec![7u8; 10]));
    assert!(matches!(r, CachedFile::InMemory(_)));
    let first = c.lookup(&key("hot.txt")).unwrap();
    let mut last = first.stats.priority;
    for _ in 0..4 {
        let f = c.lookup(&key("hot.txt")).unwrap();
        assert!(f.stats.priority >= last);
        last = f.stats.priority;
    }
    let f = c.lookup(&key("hot.txt")).unwrap();
    assert_eq!(f.stats.access_count, 6);
    assert!(f.stats.priority >= first.stats.priority);
}

#[test]
fn too_large_file_is_refused_and_store_unchanged() {
    let mut c = Cache::new(50);
    assert!(c.insert(key("a"), vec![0u8; 20]));
    assert!(!c.insert(key("big"), vec![0u8; 60]));
    assert!(c.contains(&key("a")));
    assert!(!c.contains(&key("big")));
    assert_eq!(c.entry_count(), 1);
    assert_eq!(c.used_bytes(), 20);
}

#[test]
fn too_large_file_degrades_to_filesystem() {
    let mut c = Cache::new(10);
    let r = c.resolve_miss(key("big.bin"), Some(vec![0u8; 20]));
    assert_eq!(r, CachedFile::FileSystem(key("big.bin")));
    assert_eq!(c.entry_count(), 0);
}

#[test]
fn resolve_miss_admits_and_returns_resident() {
    let mut c = Cache::new(100);
    let r = c.resolve_miss(key("a"), Some(vec![9, 9]));
    match r {
        CachedFile::InMemory(f) => {
            assert_eq!(f.bytes, vec![9, 9]);
            assert_eq!(f.stats.access_count, 0);
            assert_eq!(f.stats.size, 2);
        },
        _ => panic!("expected a resident file"),
    }
    assert!(c.contains(&key("a")));
}

#[test]
fn replace_keeps_one_entry_and_resets_statistics() {
    let mut c = Cache::new(100);
    assert!(c.insert(key("a"), vec![1, 1, 1]));
    c.lookup(&key("a"));
    c.lookup(&key("a"));
    assert!(c.insert(key("a"), vec![2, 2, 2, 2, 2, 2]));
    assert_eq!(c.entry_count(), 1);
    assert_eq!(c.used_bytes(), 6);
    let f = c.lookup(&key("a")).unwrap();
    assert_eq!(f.bytes, vec![2, 2, 2, 2, 2, 2]);
    // fresh statistics: zero accesses before this lookup
    assert_eq!(f.stats.access_count, 1);
}

#[test]
fn eviction_picks_lowest_priority() {
    let mut c = Cache::new(100);
    c.set_priority_function(PriorityFunction::AccessCount);
    assert!(c.insert(key("x"), vec![0u8; 40]));
    assert!(c.insert(key("y"), vec![0u8; 40]));
    c.alter_access_count(&key("y"), 5);
    assert!(c.insert(key("z"), vec![0u8; 40]));
    assert!(!c.contains(&key("x")));
    assert!(c.contains(&key("y")));
    assert!(c.contains(&key("z")));
}

#[test]
fn tie_break_evicts_larger_file_first() {
    let mut c = Cache::new(100);
    c.set_priority_function(PriorityFunction::Constant(7));
    assert!(c.insert(key("small"), vec![0u8; 20]));
    assert!(c.insert(key("large"), vec![0u8; 50]));
    assert!(c.insert(key("incoming"), vec![0u8; 40]));
    assert!(c.contains(&key("small")));
    assert!(!c.contains(&key("large")));
    assert!(c.contains(&key("incoming")));
    assert_eq!(c.used_bytes(), 60);
}

#[test]
fn shrinking_capacity_evicts_lowest_priority_entries() {
    let mut c = Cache::new(100);
    c.set_priority_function(PriorityFunction::AccessCount);
    assert!(c.insert(key("a"), vec![0u8; 30]));
    assert!(c.insert(key("b"), vec![0u8; 30]));
    assert!(c.insert(key("c"), vec![0u8; 30]));
    c.alter_access_count(&key("a"), 0);
    c.alter_access_count(&key("b"), 2);
    c.alter_access_count(&key("c"), 1);
    c.set_capacity(50);
    assert_eq!(c.capacity(), 50);
    assert!(!c.contains(&key("a")));
    assert!(c.contains(&key("b")));
    assert!(!c.contains(&key("c")));
    assert_eq!(c.used_bytes(), 30);
}

#[test]
fn growing_capacity_evicts_nothing() {
    let mut c = Cache::new(50);
    assert!(c.insert(key("a"), vec![0u8; 30]));
    c.set_capacity(500);
    assert!(c.contains(&key("a")));
    assert_eq!(c.used_bytes(), 30);
}

#[test]
fn swapped_policy_is_stale_until_next_access() {
    let mut c = Cache::new(100);
    assert!(c.insert(key("a"), vec![0u8; 10]));
    assert_eq!(c.entries[0].file.stats.priority, 0);
    c.set_priority_function(PriorityFunction::Constant(9));
    // not recomputed by the swap itself
    assert_eq!(c.entries[0].file.stats.priority, 0);
    let f = c.lookup(&key("a")).unwrap();
    assert_eq!(f.stats.priority, 9);
    assert_eq!(c.entries[0].file.stats.priority, 9);
}

#[test]
fn remove_evicts_and_is_idempotent() {
    let mut c = Cache::new(100);
    assert!(c.insert(key("a"), vec![5]));
    c.remove(&key("a"));
    assert!(c.lookup(&key("a")).is_none());
    assert_eq!(c.entry_count(), 0);
    assert_eq!(c.used_bytes(), 0);
    c.remove(&key("a"));
    assert_eq!(c.entry_count(), 0);
}

#[test]
fn alter_access_count_is_noop_when_absent() {
    let mut c = Cache::new(100);
    c.alter_access_count(&key("ghost"), 99);
    assert_eq!(c.entry_count(), 0);
}

#[test]
fn alter_access_count_recomputes_priority() {
    let mut c = Cache::new(100);
    c.set_priority_function(PriorityFunction::AccessCount);
    assert!(c.insert(key("a"), vec![0u8; 4]));
    c.alter_access_count(&key("a"), 41);
    assert_eq!(c.entries[0].file.stats.access_count, 41);
    assert_eq!(c.entries[0].file.stats.priority, 41);
}

#[test]
fn empty_file_fits_even_a_zero_budget() {
    let mut c = Cache::new(0);
    assert!(c.insert(key("empty"), vec![]));
    let f = c.lookup(&key("empty")).unwrap();
    assert_eq!(f.bytes, Vec::<u8>::new());
    assert_eq!(f.stats.size, 0);
}

#[test]
fn record_access_updates_statistics() {
    let mut stats = FileStats { size: 100, access_count: 0, priority: 0 };
    stats.record_access(&PriorityFunction::AccessCount);
    assert_eq!(stats.access_count, 1);
    assert_eq!(stats.priority, 1);
    stats.set_access_count(41, &PriorityFunction::AccessCount);
    assert_eq!(stats.access_count, 41);
    assert_eq!(stats.priority, 41);
    stats.record_access(&PriorityFunction::Constant(3));
    assert_eq!(stats.access_count, 42);
    assert_eq!(stats.priority, 3);
}

#[test]
fn access_count_saturates_at_the_top() {
    let mut stats = FileStats { size: 1, access_count: usize::MAX, priority: 0 };
    stats.record_access(&PriorityFunction::AccessCount);
    assert_eq!(stats.access_count, usize::MAX);
}

#[test]
fn policy_eval_exact_values() {
    assert_eq!(PriorityFunction::SmallFileFavoring.eval(2048, 10), 3);
    assert_eq!(PriorityFunction::SmallFileFavoring.eval(0, 5), 5);
    assert_eq!(PriorityFunction::SmallFileFavoring.eval(5000, 100), 20);
    assert_eq!(PriorityFunction::AccessCount.eval(123456, 7), 7);
    assert_eq!(PriorityFunction::Constant(4).eval(1, 1), 4);
    // non-decreasing in the access count, non-increasing in the size
    assert!(
        PriorityFunction::SmallFileFavoring.eval(4096, 3)
            <= PriorityFunction::SmallFileFavoring.eval(4096, 30)
    );
    assert!(
        PriorityFunction::SmallFileFavoring.eval(8192, 30)
            <= PriorityFunction::SmallFileFavoring.eval(4096, 30)
    );
    assert_eq!(PriorityFunction::default(), PriorityFunction::SmallFileFavoring);
}

#[test]
fn cached_file_equality_follows_content() {
    let a = CachedFile::InMemory(InMemoryFile::new(vec![1, 2]));
    let b = CachedFile::InMemory(InMemoryFile::new(vec![1, 2]));
    let c = CachedFile::InMemory(InMemoryFile::new(vec![1, 3]));
    assert_eq!(a, b);
    assert_ne!(a, c);
    let p = CachedFile::FileSystem(key("x/y.txt"));
    let q = CachedFile::FileSystem(key("x/y.txt"));
    let r = CachedFile::FileSystem(key("x/z.txt"));
    assert_eq!(p, q);
    assert_ne!(p, r);
    assert_eq!(CachedFile::NotFound, CachedFile::NotFound);
    assert_ne!(a, p);
    assert_ne!(a, CachedFile::NotFound);
    assert_ne!(p, CachedFile::NotFound);
}

#[test]
fn in_memory_file_equality_needs_same_bytes_and_stats() {
    let a = InMemoryFile::new(vec![1, 2]);
    let b = InMemoryFile::new(vec![1, 2]);
    assert_eq!(a, b);
    assert_ne!(a, InMemoryFile::new(vec![1, 2, 3]));
    let mut c = InMemoryFile::new(vec![1, 2]);
    c.stats.record_access(&PriorityFunction::AccessCount);
    assert_ne!(a, c);
}

#[test]
fn from_wraps_a_resident_file() {
    let f = InMemoryFile::new(vec![8, 8]);
    let wrapped = CachedFile::from(f);
    assert_eq!(wrapped, CachedFile::InMemory(InMemoryFile::new(vec![8, 8])));
}

#[test]
fn capacity_invariant_holds_under_mixed_operations() {
    let mut c = Cache::new(64);
    let names = ["a", "b", "c", "d", "e"];
    for round in 0..4usize {
        for (i, n) in names.iter().enumerate() {
            c.insert(n.to_string(), vec![0u8; 7 * (i + 1) + round]);
            assert!(c.used_bytes() <= c.capacity());
        }
        c.remove(&names[round % 5].to_string());
        assert!(c.used_bytes() <= c.capacity());
        c.set_capacity(64 - 4 * round);
        assert!(c.used_bytes() <= c.capacity());
    }
}

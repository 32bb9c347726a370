use crate::cached_file::CachedFile;
use crate::in_memory_file::clone_bytes;
use crate::in_memory_file::inc_sat;
use crate::in_memory_file::FileStats;
use crate::in_memory_file::InMemoryFile;
use crate::priority::PriorityFunction;
use vstd::pervasive::VecAdditionalExecFns;
use vstd::prelude::*;

verus! {

/// One resident file together with its lookup key.
#[derive(Debug)]
pub struct CacheEntry {
    /// The canonical path under which the file was admitted.
    pub path: String,
    /// The file's bytes and statistics.
    pub file: InMemoryFile,
}

/// The cache: a capacity-bounded store of files resident in memory, keyed by
/// canonical path, together with the active eviction policy.
#[derive(Debug)]
pub struct Cache {
    /// The resident files; paths are unique.
    pub entries: Vec<CacheEntry>,
    /// The byte budget: the sizes of the resident files never sum to more.
    pub capacity: usize,
    /// The sum of the resident files' sizes.
    pub used: usize,
    /// The active policy for computing priority scores.
    pub priority_function: PriorityFunction,
}

impl Cache {
    /// Every completed operation leaves the cache in this state: paths are
    /// unique, every recorded size is the file's true byte count, `used` is
    /// the sum of the resident sizes, and that sum is within the budget.
    pub open spec fn wf(self) -> bool {
        &&& entries_wf(self.entries@)
        &&& self.used as nat == total_size(self.entries@)
        &&& self.used <= self.capacity
    }

    /// Creates an empty cache with the given byte budget and the default
    /// priority policy.
    pub fn new(capacity: usize) -> (cache: Cache)
        ensures
            cache.wf(),
            cache.capacity == capacity,
            cache.used == 0,
            cache.entries@.len() == 0,
            cache.priority_function == PriorityFunction::SmallFileFavoring,
    {
        Cache {
            entries: Vec::new(),
            capacity,
            used: 0,
            priority_function: PriorityFunction::SmallFileFavoring,
        }
    }

    /// The index of the entry stored under `path`, if the path is resident.
    fn find(&self, path: &String) -> (r: Option<usize>)
        requires
            entries_wf(self.entries@),
        ensures
            match r {
                Some(i) => {
                    &&& has_path(self.entries@, path@)
                    &&& i < self.entries@.len()
                    &&& i as int == path_index(self.entries@, path@)
                    &&& self.entries@[i as int].path@ == path@
                },
                None => !has_path(self.entries@, path@),
            },
    {
        let ghost s = self.entries@;
        let mut i: usize = 0;
        while i < self.entries.len()
            invariant
                i <= s.len(),
                s == self.entries@,
                entries_wf(s),
                forall|k: int| 0 <= k < i ==> s[k].path@ != path@,
            decreases s.len() - i,
        {
            if self.entries[i].path == *path {
                proof {
                    assert(has_path(s, path@)) by {
                        assert(0 <= (i as int) < s.len() && s[i as int].path@ == path@);
                    }
                    let j = path_index(s, path@);
                    assert(0 <= j < s.len() && s[j].path@ == path@);
                    if j < i as int {
                        assert(s[j].path@ != s[i as int].path@);
                    } else if j > i as int {
                        assert(s[i as int].path@ != s[j].path@);
                    }
                }
                return Some(i);
            }
            i = i + 1;
        }
        proof {
            if has_path(s, path@) {
                let j = path_index(s, path@);
                assert(0 <= j < s.len() && s[j].path@ == path@);
            }
        }
        None
    }

    /// Whether a file is currently resident under `path`. Unlike `lookup`,
    /// this does not count as an access.
    pub fn contains(&self, path: &String) -> (r: bool)
        requires
            self.wf(),
        ensures
            r == has_path(self.entries@, path@),
    {
        self.find(path).is_some()
    }

    /// Unconditionally evicts the entry stored under `path`; does nothing if
    /// the path is not resident.
    pub fn remove(&mut self, path: &String)
        requires
            old(self).wf(),
        ensures
            final(self).wf(),
            final(self).capacity == old(self).capacity,
            final(self).priority_function == old(self).priority_function,
            final(self).entries@ == remove_path(old(self).entries@, path@),
            !has_path(final(self).entries@, path@),
            !has_path(old(self).entries@, path@) ==> *final(self) == *old(self),
    {
        match self.find(path) {
            Some(i) => {
                proof {
                    lemma_total_size_remove(self.entries@, i as int);
                    lemma_remove_keeps(self.entries@, i as int);
                    lemma_remove_path_gone(self.entries@, path@);
                }
                let size = self.entries[i].file.stats.size;
                let _ = self.entries.remove(i);
                self.used = self.used - size;
            },
            None => {},
        }
    }

    /// The index of the entry to evict next.
    fn find_victim(&self) -> (v: usize)
        requires
            self.entries@.len() > 0,
        ensures
            v < self.entries@.len(),
            v as int == victim_index(self.entries@),
    {
        let ghost s = self.entries@;
        let mut best: usize = 0;
        let mut i: usize = 1;
        while i < self.entries.len()
            invariant
                1 <= i <= s.len(),
                best < i,
                s == self.entries@,
                best as int == victim_index(s.take(i as int)),
            decreases s.len() - i,
        {
            let cand_priority = self.entries[i].file.stats.priority;
            let cand_size = self.entries[i].file.stats.size;
            let best_priority = self.entries[best].file.stats.priority;
            let best_size = self.entries[best].file.stats.size;
            let better = cand_priority < best_priority || (cand_priority == best_priority
                && cand_size > best_size);
            proof {
                let t = s.take(i as int + 1);
                assert(t.drop_last() =~= s.take(i as int));
                assert(t.last() == s[i as int]);
                assert(t[best as int] == s[best as int]);
                assert(better == prefer_evict(s[i as int], s[best as int]));
            }
            if better {
                best = i;
            }
            i = i + 1;
        }
        proof {
            assert(s.take(s.len() as int) =~= s);
        }
        best
    }

    /// Evicts victims one at a time until the resident entries plus
    /// `incoming` further bytes fit within the capacity.
    fn evict_until(&mut self, incoming: usize)
        requires
            entries_wf(old(self).entries@),
            old(self).used as nat == total_size(old(self).entries@),
            incoming <= old(self).capacity,
        ensures
            final(self).capacity == old(self).capacity,
            final(self).priority_function == old(self).priority_function,
            final(self).entries@ == after_evictions(
                old(self).entries@,
                incoming as nat,
                old(self).capacity as nat,
            ),
            entries_wf(final(self).entries@),
            final(self).used as nat == total_size(final(self).entries@),
            final(self).used + incoming <= final(self).capacity,
            forall|p: Seq<char>| #[trigger] has_path(final(self).entries@, p) ==> has_path(
                old(self).entries@,
                p,
            ),
    {
        while self.used > self.capacity - incoming
            invariant
                entries_wf(self.entries@),
                self.used as nat == total_size(self.entries@),
                incoming <= self.capacity,
                self.capacity == old(self).capacity,
                self.priority_function == old(self).priority_function,
                after_evictions(self.entries@, incoming as nat, self.capacity as nat)
                    == after_evictions(
                    old(self).entries@,
                    incoming as nat,
                    old(self).capacity as nat,
                ),
                forall|p: Seq<char>| #[trigger] has_path(self.entries@, p) ==> has_path(
                    old(self).entries@,
                    p,
                ),
            decreases self.entries@.len(),
        {
            proof {
                if self.entries@.len() == 0 {
                    assert(total_size(self.entries@) == 0);
                }
                lemma_victim_lowest_priority(self.entries@);
                lemma_total_size_remove(self.entries@, victim_index(self.entries@));
                lemma_remove_keeps(self.entries@, victim_index(self.entries@));
            }
            let v = self.find_victim();
            let size = self.entries[v].file.stats.size;
            let _ = self.entries.remove(v);
            self.used = self.used - size;
        }
        proof {
            lemma_fits_no_eviction(self.entries@, incoming as nat, self.capacity as nat);
        }
    }

    /// Attempts to insert the file read from `path`. A file larger than the
    /// whole budget is refused and the store is left untouched. Otherwise the
    /// path's old entry, if any, is dropped, victims are evicted until the new
    /// file fits, and a fresh entry (access count zero, priority computed by
    /// the active policy) is appended. Returns whether the file is now
    /// resident: admission succeeds exactly when the file alone fits the
    /// budget.
    pub fn insert(&mut self, path: String, bytes: Vec<u8>) -> (admitted: bool)
        requires
            old(self).wf(),
        ensures
            final(self).wf(),
            final(self).capacity == old(self).capacity,
            final(self).priority_function == old(self).priority_function,
            admitted == (bytes@.len() <= old(self).capacity),
            !admitted ==> *final(self) == *old(self),
            admitted ==> ({
                let kept = after_evictions(
                    remove_path(old(self).entries@, path@),
                    bytes@.len(),
                    old(self).capacity as nat,
                );
                &&& final(self).entries@.len() == kept.len() + 1
                &&& final(self).entries@.drop_last() == kept
                &&& final(self).entries@.last().path@ == path@
                &&& final(self).entries@.last().file.bytes@ == bytes@
                &&& final(self).entries@.last().file.stats.size == bytes@.len()
                &&& final(self).entries@.last().file.stats.access_count == 0
                &&& final(self).entries@.last().file.stats.priority as nat == old(
                    self,
                ).priority_function.spec_eval(bytes@.len(), 0)
                &&& has_path(final(self).entries@, path@)
            }),
    {
        let size = bytes.len();
        if size > self.capacity {
            return false;
        }
        self.remove(&path);
        self.evict_until(size);
        let priority = self.priority_function.eval(size, 0);
        let stats = FileStats { size, access_count: 0, priority };
        let entry = CacheEntry { path, file: InMemoryFile { bytes, stats } };
        let ghost kept = self.entries@;
        proof {
            lemma_total_size_push(kept, entry);
            lemma_push_unique(kept, entry);
        }
        self.entries.push(entry);
        self.used = self.used + size;
        proof {
            assert(self.entries@.drop_last() =~= kept);
            assert(has_path(self.entries@, entry.path@)) by {
                let n = self.entries@.len() - 1;
                assert(self.entries@[n].path@ == entry.path@);
            }
        }
        true
    }

    /// Looks a path up. On a hit, the stored record's access count is bumped
    /// and its priority recomputed with the active policy, and an owned
    /// snapshot of the updated record is returned; a miss returns nothing and
    /// changes nothing.
    pub fn lookup(&mut self, path: &String) -> (r: Option<InMemoryFile>)
        requires
            old(self).wf(),
        ensures
            final(self).wf(),
            final(self).capacity == old(self).capacity,
            final(self).used == old(self).used,
            final(self).priority_function == old(self).priority_function,
            final(self).entries@.len() == old(self).entries@.len(),
            !has_path(old(self).entries@, path@) ==> r is None && *final(self) == *old(self),
            has_path(old(self).entries@, path@) ==> ({
                let i = path_index(old(self).entries@, path@);
                let f0 = old(self).entries@[i].file;
                &&& r is Some
                &&& r->0.bytes@ == f0.bytes@
                &&& r->0.stats.size == f0.stats.size
                &&& r->0.stats.access_count == inc_sat(f0.stats.access_count)
                &&& r->0.stats.priority as nat == old(self).priority_function.spec_eval(
                    f0.stats.size as nat,
                    inc_sat(f0.stats.access_count) as nat,
                )
                &&& final(self).entries@[i].path == old(self).entries@[i].path
                &&& final(self).entries@[i].file.bytes@ == f0.bytes@
                &&& final(self).entries@[i].file.stats == r->0.stats
                &&& forall|j: int|
                    0 <= j < old(self).entries@.len() && j != i ==> final(self).entries@[j] == old(
                        self,
                    ).entries@[j]
            }),
    {
        match self.find(path) {
            None => None,
            Some(i) => {
                let mut stats = self.entries[i].file.stats;
                stats.record_access(&self.priority_function);
                let stored_bytes = clone_bytes(&self.entries[i].file.bytes);
                let stored_path = self.entries[i].path.clone();
                let snapshot_bytes = clone_bytes(&self.entries[i].file.bytes);
                let entry = CacheEntry {
                    path: stored_path,
                    file: InMemoryFile { bytes: stored_bytes, stats },
                };
                proof {
                    lemma_total_size_update(self.entries@, i as int, entry);
                }
                self.entries.set(i, entry);
                proof {
                    let s = self.entries@;
                    assert forall|k: int, l: int| 0 <= k < l < s.len() implies s[k].path@
                        != s[l].path@ by {
                        assert(s[k].path@ == old(self).entries@[k].path@);
                        assert(s[l].path@ == old(self).entries@[l].path@);
                    }
                }
                Some(InMemoryFile { bytes: snapshot_bytes, stats })
            },
        }
    }

    /// Overwrites the access count of the file under `path` and recomputes
    /// its priority with the active policy; does nothing if the path is not
    /// resident. After this, the record's count is a policy knob, not a true
    /// access count.
    pub fn alter_access_count(&mut self, path: &String, count: usize)
        requires
            old(self).wf(),
        ensures
            final(self).wf(),
            final(self).capacity == old(self).capacity,
            final(self).used == old(self).used,
            final(self).priority_function == old(self).priority_function,
            final(self).entries@.len() == old(self).entries@.len(),
            !has_path(old(self).entries@, path@) ==> *final(self) == *old(self),
            has_path(old(self).entries@, path@) ==> ({
                let i = path_index(old(self).entries@, path@);
                let f0 = old(self).entries@[i].file;
                &&& final(self).entries@[i].path == old(self).entries@[i].path
                &&& final(self).entries@[i].file.bytes@ == f0.bytes@
                &&& final(self).entries@[i].file.stats.size == f0.stats.size
                &&& final(self).entries@[i].file.stats.access_count == count
                &&& final(self).entries@[i].file.stats.priority as nat == old(
                    self,
                ).priority_function.spec_eval(f0.stats.size as nat, count as nat)
                &&& forall|j: int|
                    0 <= j < old(self).entries@.len() && j != i ==> final(self).entries@[j] == old(
                        self,
                    ).entries@[j]
            }),
    {
        match self.find(path) {
            None => {},
            Some(i) => {
                let mut stats = self.entries[i].file.stats;
                stats.set_access_count(count, &self.priority_function);
                let stored_bytes = clone_bytes(&self.entries[i].file.bytes);
                let stored_path = self.entries[i].path.clone();
                let entry = CacheEntry {
                    path: stored_path,
                    file: InMemoryFile { bytes: stored_bytes, stats },
                };
                proof {
                    lemma_total_size_update(self.entries@, i as int, entry);
                }
                self.entries.set(i, entry);
                proof {
                    let s = self.entries@;
                    assert forall|k: int, l: int| 0 <= k < l < s.len() implies s[k].path@
                        != s[l].path@ by {
                        assert(s[k].path@ == old(self).entries@[k].path@);
                        assert(s[l].path@ == old(self).entries@[l].path@);
                    }
                }
            },
        }
    }

    /// Shrinks or grows the byte budget. Shrinking evicts the lowest-priority
    /// entries until the remaining ones fit the new budget, before the call
    /// returns.
    pub fn set_capacity(&mut self, capacity: usize)
        requires
            old(self).wf(),
        ensures
            final(self).wf(),
            final(self).capacity == capacity,
            final(self).priority_function == old(self).priority_function,
            final(self).entries@ == after_evictions(old(self).entries@, 0, capacity as nat),
    {
        self.capacity = capacity;
        self.evict_until(0);
    }

    /// Atomically swaps the eviction policy. Priorities already stored are
    /// stale until the next access to each record recomputes them.
    pub fn set_priority_function(&mut self, policy: PriorityFunction)
        requires
            old(self).wf(),
        ensures
            final(self).wf(),
            final(self).priority_function == policy,
            final(self).entries@ == old(self).entries@,
            final(self).capacity == old(self).capacity,
            final(self).used == old(self).used,
    {
        self.priority_function = policy;
    }

    /// The byte budget.
    pub fn capacity(&self) -> (r: usize)
        ensures
            r == self.capacity,
    {
        self.capacity
    }

    /// The number of bytes currently resident.
    pub fn used_bytes(&self) -> (r: usize)
        requires
            self.wf(),
        ensures
            r as nat == total_size(self.entries@),
    {
        self.used
    }

    /// The number of files currently resident.
    pub fn entry_count(&self) -> (r: usize)
        ensures
            r == self.entries@.len(),
    {
        self.entries.len()
    }

    /// Completes a `get` after a lookup miss, given what the filesystem
    /// returned for the path: the file's bytes, or nothing if the read
    /// failed. A successful read is admitted; if the file is too large for
    /// the whole budget the caller is directed to the filesystem instead. A
    /// failed read resolves to not-found and changes nothing.
    pub fn resolve_miss(&mut self, path: String, read: Option<Vec<u8>>) -> (r: CachedFile)
        requires
            old(self).wf(),
        ensures
            final(self).wf(),
            final(self).capacity == old(self).capacity,
            final(self).priority_function == old(self).priority_function,
            read is None ==> r is NotFound && *final(self) == *old(self),
            read is Some && read->0@.len() > old(self).capacity ==> r is FileSystem
                && r->FileSystem_0@ == path@ && *final(self) == *old(self),
            read is Some && read->0@.len() <= old(self).capacity ==> ({
                let kept = after_evictions(
                    remove_path(old(self).entries@, path@),
                    read->0@.len(),
                    old(self).capacity as nat,
                );
                &&& r is InMemory
                &&& r->InMemory_0.bytes@ == read->0@
                &&& r->InMemory_0.stats.size == read->0@.len()
                &&& r->InMemory_0.stats.access_count == 0
                &&& r->InMemory_0.stats.priority as nat == old(self).priority_function.spec_eval(
                    read->0@.len(),
                    0,
                )
                &&& has_path(final(self).entries@, path@)
                &&& final(self).entries@.len() == kept.len() + 1
                &&& final(self).entries@.drop_last() == kept
                &&& final(self).entries@.last().path@ == path@
                &&& final(self).entries@.last().file.bytes@ == read->0@
                &&& final(self).entries@.last().file.stats == r->InMemory_0.stats
            }),
    {
        match read {
            None => CachedFile::NotFound,
            Some(bytes) => {
                let snapshot_bytes = clone_bytes(&bytes);
                let size = bytes.len();
                let priority = self.priority_function.eval(size, 0);
                let stats = FileStats { size, access_count: 0, priority };
                let admitted = self.insert(path.clone(), bytes);
                if admitted {
                    CachedFile::InMemory(InMemoryFile { bytes: snapshot_bytes, stats })
                } else {
                    CachedFile::FileSystem(path)
                }
            },
        }
    }
}

/// The paths of the entries are pairwise distinct and every entry's recorded
/// size is its true byte count.
pub open spec fn entries_wf(s: Seq<CacheEntry>) -> bool {
    &&& forall|i: int, j: int| 0 <= i < j < s.len() ==> s[i].path@ != s[j].path@
    &&& forall|i: int| 0 <= i < s.len() ==> s[i].file.wf()
}

/// The size of one entry, as recorded in its statistics.
pub open spec fn entry_size(e: CacheEntry) -> nat {
    e.file.stats.size as nat
}

/// The sum of the entries' sizes.
pub open spec fn total_size(s: Seq<CacheEntry>) -> nat
    decreases s.len(),
{
    if s.len() == 0 {
        0
    } else {
        total_size(s.drop_last()) + entry_size(s.last())
    }
}

/// Whether some entry is stored under path `p`.
pub open spec fn has_path(s: Seq<CacheEntry>, p: Seq<char>) -> bool {
    exists|i: int| 0 <= i < s.len() && s[i].path@ == p
}

/// The index of the entry stored under path `p` (meaningful when `has_path`
/// holds and paths are unique).
pub open spec fn path_index(s: Seq<CacheEntry>, p: Seq<char>) -> int {
    choose|i: int| 0 <= i < s.len() && s[i].path@ == p
}

/// The entries with the entry under path `p`, if any, taken out.
pub open spec fn remove_path(s: Seq<CacheEntry>, p: Seq<char>) -> Seq<CacheEntry> {
    if has_path(s, p) {
        s.remove(path_index(s, p))
    } else {
        s
    }
}

/// Entry `a` is evicted in preference to entry `b`: it has strictly lower
/// priority, or equal priority and strictly larger size (so evicting it frees
/// more room). This order is strict; remaining ties go to the earlier entry.
pub open spec fn prefer_evict(a: CacheEntry, b: CacheEntry) -> bool {
    ||| a.file.stats.priority < b.file.stats.priority
    ||| (a.file.stats.priority == b.file.stats.priority && a.file.stats.size > b.file.stats.size)
}

/// The index of the entry the store evicts next: the one of lowest priority,
/// ties broken towards larger size, remaining ties towards the earliest
/// position.
pub open spec fn victim_index(s: Seq<CacheEntry>) -> int
    decreases s.len(),
{
    if s.len() <= 1 {
        0
    } else {
        let rest = victim_index(s.drop_last());
        if 0 <= rest < s.len() - 1 && !prefer_evict(s.last(), s[rest]) {
            rest
        } else {
            s.len() - 1
        }
    }
}

/// The entries left after evicting victims one at a time until they, plus
/// `incoming` further bytes, fit within `capacity`.
pub open spec fn after_evictions(s: Seq<CacheEntry>, incoming: nat, capacity: nat) -> Seq<
    CacheEntry,
>
    decreases s.len(),
{
    if s.len() == 0 || total_size(s) + incoming <= capacity {
        s
    } else {
        after_evictions(s.remove(victim_index(s)), incoming, capacity)
    }
}

/// Taking one entry out lowers the total size by exactly that entry's size.
pub proof fn lemma_total_size_remove(s: Seq<CacheEntry>, i: int)
    requires
        0 <= i < s.len(),
    ensures
        total_size(s.remove(i)) + entry_size(s[i]) == total_size(s),
    decreases s.len(),
{
    s.remove_ensures(i);
    if i == s.len() - 1 {
        assert(s.remove(i) =~= s.drop_last());
    } else {
        let s2 = s.drop_last();
        lemma_total_size_remove(s2, i);
        assert(s.remove(i).drop_last() =~= s2.remove(i));
        assert(s.remove(i).last() == s.last());
    }
}

/// Replacing one entry adjusts the total size by the difference in sizes.
pub proof fn lemma_total_size_update(s: Seq<CacheEntry>, i: int, e: CacheEntry)
    requires
        0 <= i < s.len(),
    ensures
        total_size(s.update(i, e)) + entry_size(s[i]) == total_size(s) + entry_size(e),
    decreases s.len(),
{
    if i == s.len() - 1 {
        assert(s.update(i, e).drop_last() =~= s.drop_last());
        assert(s.update(i, e).last() == e);
    } else {
        let s2 = s.drop_last();
        lemma_total_size_update(s2, i, e);
        assert(s.update(i, e).drop_last() =~= s2.update(i, e));
        assert(s.update(i, e).last() == s.last());
    }
}

/// Appending one entry raises the total size by exactly that entry's size.
pub proof fn lemma_total_size_push(s: Seq<CacheEntry>, e: CacheEntry)
    ensures
        total_size(s.push(e)) == total_size(s) + entry_size(e),
{
    assert(s.push(e).drop_last() =~= s);
    assert(s.push(e).last() == e);
}

/// The chosen victim is a real entry and carries the lowest priority in the
/// store: no entry is strictly preferable for eviction.
pub proof fn lemma_victim_lowest_priority(s: Seq<CacheEntry>)
    requires
        s.len() > 0,
    ensures
        0 <= victim_index(s) < s.len(),
        forall|j: int| 0 <= j < s.len() ==> !prefer_evict(s[j], s[victim_index(s)]),
        forall|j: int|
            0 <= j < s.len() ==> s[victim_index(s)].file.stats.priority <= #[trigger] s[j].file.stats.priority,
    decreases s.len(),
{
    if s.len() > 1 {
        let s2 = s.drop_last();
        lemma_victim_lowest_priority(s2);
        let rest = victim_index(s2);
        let v = victim_index(s);
        assert(forall|j: int| 0 <= j < s2.len() ==> s2[j] == s[j]);
        if v == s.len() - 1 {
            assert(prefer_evict(s.last(), s[rest]));
            assert forall|j: int| 0 <= j < s.len() implies !prefer_evict(s[j], s[v]) by {
                if j < s.len() - 1 {
                    assert(!prefer_evict(s[j], s[rest]));
                }
            }
        }
    }
}

/// If the entries plus the incoming bytes already fit, nothing is evicted.
pub proof fn lemma_fits_no_eviction(s: Seq<CacheEntry>, incoming: nat, capacity: nat)
    requires
        total_size(s) + incoming <= capacity,
    ensures
        after_evictions(s, incoming, capacity) == s,
{
}

/// Eviction always reaches its goal: afterwards the remaining entries plus
/// the incoming bytes fit within the capacity.
pub proof fn lemma_evictions_fit(s: Seq<CacheEntry>, incoming: nat, capacity: nat)
    requires
        incoming <= capacity,
    ensures
        total_size(after_evictions(s, incoming, capacity)) + incoming <= capacity,
    decreases s.len(),
{
    if s.len() == 0 || total_size(s) + incoming <= capacity {
    } else {
        lemma_victim_lowest_priority(s);
        lemma_evictions_fit(s.remove(victim_index(s)), incoming, capacity);
    }
}

/// Taking one entry out keeps the entries well formed and introduces no new
/// path.
pub proof fn lemma_remove_keeps(s: Seq<CacheEntry>, i: int)
    requires
        entries_wf(s),
        0 <= i < s.len(),
    ensures
        entries_wf(s.remove(i)),
        forall|p: Seq<char>| #[trigger] has_path(s.remove(i), p) ==> has_path(s, p),
        forall|k: int| 0 <= k < s.remove(i).len() ==> s.contains(#[trigger] s.remove(i)[k]),
{
    s.remove_ensures(i);
    let s2 = s.remove(i);
    assert forall|p: Seq<char>| #[trigger] has_path(s2, p) implies has_path(s, p) by {
        let k = choose|k: int| 0 <= k < s2.len() && s2[k].path@ == p;
        if k < i {
            assert(s[k].path@ == p);
        } else {
            assert(s[k + 1].path@ == p);
        }
    }
    assert forall|k: int| 0 <= k < s2.len() implies s.contains(#[trigger] s2[k]) by {
        if k < i {
            assert(s[k] == s2[k]);
        } else {
            assert(s[k + 1] == s2[k]);
        }
    }
}

/// Eviction keeps the entries well formed and introduces no new path.
pub proof fn lemma_evictions_keep(s: Seq<CacheEntry>, incoming: nat, capacity: nat)
    requires
        entries_wf(s),
    ensures
        entries_wf(after_evictions(s, incoming, capacity)),
        forall|p: Seq<char>| #[trigger] has_path(after_evictions(s, incoming, capacity), p)
            ==> has_path(s, p),
        forall|k: int|
            0 <= k < after_evictions(s, incoming, capacity).len() ==> s.contains(
                #[trigger] after_evictions(s, incoming, capacity)[k],
            ),
    decreases s.len(),
{
    if s.len() == 0 || total_size(s) + incoming <= capacity {
        let a = after_evictions(s, incoming, capacity);
        assert forall|k: int| 0 <= k < a.len() implies s.contains(#[trigger] a[k]) by {
            assert(s[k] == a[k]);
        }
    } else {
        lemma_victim_lowest_priority(s);
        lemma_remove_keeps(s, victim_index(s));
        let s2 = s.remove(victim_index(s));
        lemma_evictions_keep(s2, incoming, capacity);
        let a = after_evictions(s, incoming, capacity);
        assert(a == after_evictions(s2, incoming, capacity));
        assert forall|k: int| 0 <= k < a.len() implies s.contains(#[trigger] a[k]) by {
            assert(s2.contains(a[k]));
            let m2 = choose|m2: int| 0 <= m2 < s2.len() && s2[m2] == a[k];
            assert(s.contains(s2[m2]));
        }
    }
}

/// After taking out the entry stored under `p`, no entry under `p` is left.
pub proof fn lemma_remove_path_gone(s: Seq<CacheEntry>, p: Seq<char>)
    requires
        entries_wf(s),
        has_path(s, p),
    ensures
        0 <= path_index(s, p) < s.len(),
        s[path_index(s, p)].path@ == p,
        !has_path(s.remove(path_index(s, p)), p),
{
    let i = path_index(s, p);
    assert(0 <= i < s.len() && s[i].path@ == p);
    s.remove_ensures(i);
    let s2 = s.remove(i);
    assert forall|k: int| 0 <= k < s2.len() implies s2[k].path@ != p by {
        if k < i {
            assert(s2[k] == s[k]);
        } else {
            assert(s2[k] == s[k + 1]);
        }
    }
}

/// Eviction is minimal: whenever anything was evicted at all, some single
/// evicted entry already could not have been kept — putting it back alongside
/// the survivors and the incoming bytes would exceed the capacity. Together
/// with `lemma_victim_lowest_priority` (victims carry the lowest priority)
/// and `lemma_fits_no_eviction` (nothing is evicted when the store fits),
/// this says the store never over-evicts.
pub proof fn lemma_no_over_eviction(s: Seq<CacheEntry>, incoming: nat, capacity: nat)
    requires
        entries_wf(s),
        total_size(s) + incoming > capacity,
        s.len() > 0,
    ensures
        exists|i: int|
            0 <= i < s.len() && !has_path(after_evictions(s, incoming, capacity), s[i].path@)
                && total_size(after_evictions(s, incoming, capacity)) + entry_size(s[i])
                + incoming > capacity,
    decreases s.len(),
{
    let v = victim_index(s);
    lemma_victim_lowest_priority(s);
    let s2 = s.remove(v);
    s.remove_ensures(v);
    lemma_total_size_remove(s, v);
    lemma_remove_keeps(s, v);
    let a = after_evictions(s, incoming, capacity);
    assert(a == after_evictions(s2, incoming, capacity));
    if s2.len() == 0 || total_size(s2) + incoming <= capacity {
        assert(a == s2);
        assert(!has_path(s2, s[v].path@)) by {
            if has_path(s2, s[v].path@) {
                let k = choose|k: int| 0 <= k < s2.len() && s2[k].path@ == s[v].path@;
                if k < v {
                    assert(s[k].path@ == s[v].path@);
                } else {
                    assert(s[k + 1].path@ == s[v].path@);
                }
            }
        }
        assert(0 <= v < s.len() && !has_path(a, s[v].path@) && total_size(a) + entry_size(s[v])
            + incoming > capacity);
    } else {
        lemma_no_over_eviction(s2, incoming, capacity);
        let j = choose|j: int|
            0 <= j < s2.len() && !has_path(after_evictions(s2, incoming, capacity), s2[j].path@)
                && total_size(after_evictions(s2, incoming, capacity)) + entry_size(s2[j])
                + incoming > capacity;
        let j2 = if j < v {
            j
        } else {
            j + 1
        };
        assert(s2[j] == s[j2]);
        assert(0 <= j2 < s.len() && !has_path(a, s[j2].path@) && total_size(a) + entry_size(s[j2])
            + incoming > capacity);
    }
}

/// Eviction takes the cheapest entries first: every evicted entry carries a
/// priority no higher than that of any entry that survives the eviction.
pub proof fn lemma_evicted_have_lowest_priority(s: Seq<CacheEntry>, incoming: nat, capacity: nat)
    requires
        entries_wf(s),
    ensures
        forall|i: int, j: int|
            #![trigger s[i], after_evictions(s, incoming, capacity)[j]]
            0 <= i < s.len() && 0 <= j < after_evictions(s, incoming, capacity).len()
                && !has_path(after_evictions(s, incoming, capacity), s[i].path@)
                ==> s[i].file.stats.priority <= after_evictions(
                s,
                incoming,
                capacity,
            )[j].file.stats.priority,
    decreases s.len(),
{
    let a = after_evictions(s, incoming, capacity);
    if s.len() == 0 || total_size(s) + incoming <= capacity {
        assert forall|i: int, j: int|
            0 <= i < s.len() && 0 <= j < a.len() && !has_path(a, s[i].path@) implies s[i].file.stats.priority
            <= a[j].file.stats.priority by {
            assert(has_path(s, s[i].path@)) by {
                assert(0 <= i < s.len() && s[i].path@ == s[i].path@);
            }
        }
    } else {
        let v = victim_index(s);
        lemma_victim_lowest_priority(s);
        let s2 = s.remove(v);
        s.remove_ensures(v);
        lemma_remove_keeps(s, v);
        lemma_evictions_keep(s2, incoming, capacity);
        lemma_evicted_have_lowest_priority(s2, incoming, capacity);
        assert(a == after_evictions(s2, incoming, capacity));
        assert forall|i: int, j: int|
            0 <= i < s.len() && 0 <= j < a.len() && !has_path(a, s[i].path@) implies s[i].file.stats.priority
            <= a[j].file.stats.priority by {
            assert(s2.contains(a[j]));
            let m2 = choose|m2: int| 0 <= m2 < s2.len() && s2[m2] == a[j];
            if i == v {
                assert(s.contains(s2[m2]));
                let m = choose|m: int| 0 <= m < s.len() && s[m] == s2[m2];
                assert(s[v].file.stats.priority <= s[m].file.stats.priority);
                assert(a[j] == s[m]);
            } else {
                let i2 = if i < v {
                    i
                } else {
                    i - 1
                };
                assert(s2[i2] == s[i]);
                assert(!has_path(a, s2[i2].path@));
                assert(s2[i2].file.stats.priority <= a[j].file.stats.priority);
            }
        }
    }
}

/// Admitting a path yields exactly one entry under that path — the freshly
/// admitted one, which sits at the end — whether or not the path was already
/// resident. Formally: after taking the path's old entry out, evicting, and
/// appending the fresh entry `e`, the result is well formed, ends in `e`, and
/// holds `e.path` nowhere else.
pub proof fn lemma_replace_yields_single_entry(
    s: Seq<CacheEntry>,
    e: CacheEntry,
    incoming: nat,
    capacity: nat,
)
    requires
        entries_wf(s),
        e.file.wf(),
    ensures
        ({
            let r = after_evictions(remove_path(s, e.path@), incoming, capacity).push(e);
            &&& entries_wf(r)
            &&& r.len() >= 1
            &&& r[r.len() - 1] == e
            &&& forall|i: int| 0 <= i < r.len() - 1 ==> r[i].path@ != e.path@
        }),
{
    let p = e.path@;
    let base = remove_path(s, p);
    if has_path(s, p) {
        lemma_remove_path_gone(s, p);
        lemma_remove_keeps(s, path_index(s, p));
    }
    assert(entries_wf(base) && !has_path(base, p));
    let kept = after_evictions(base, incoming, capacity);
    lemma_evictions_keep(base, incoming, capacity);
    assert(!has_path(kept, p));
    lemma_push_unique(kept, e);
    let r = kept.push(e);
    assert forall|i: int| 0 <= i < r.len() - 1 implies r[i].path@ != e.path@ by {
        assert(r[i] == kept[i]);
        if r[i].path@ == p {
            assert(has_path(kept, p));
        }
    }
}

/// Appending an entry whose path is not yet present keeps the entries well
/// formed.
pub proof fn lemma_push_unique(s: Seq<CacheEntry>, e: CacheEntry)
    requires
        entries_wf(s),
        !has_path(s, e.path@),
        e.file.wf(),
    ensures
        entries_wf(s.push(e)),
{
    let r = s.push(e);
    assert forall|i: int, j: int| 0 <= i < j < r.len() implies r[i].path@ != r[j].path@ by {
        if j < s.len() {
            assert(r[i] == s[i] && r[j] == s[j]);
        } else {
            assert(r[i] == s[i] && r[j] == e);
            assert(s[i].path@ != e.path@);
        }
    }
}

} // verus!

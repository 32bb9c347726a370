use crate::priority::PriorityFunction;
use vstd::prelude::*;

verus! {

/// Usage statistics kept for one resident file. The cache reads these to
/// decide which file to evict when it runs out of room.
#[derive(Clone, Copy, Debug, PartialEq, Eq, Structural)]
pub struct FileStats {
    /// The number of bytes the file contains.
    pub size: usize,
    /// How many times the file has been looked up. `Cache::alter_access_count`
    /// can overwrite it, after which it is a policy knob rather than a true
    /// count.
    pub access_count: usize,
    /// The priority score, recomputed from `size` and `access_count` with the
    /// active policy every time the access count changes.
    pub priority: usize,
}

/// Increment that stops at the top of `usize` instead of wrapping, so the
/// access counter is non-decreasing under every sequence of accesses.
pub open spec fn inc_sat(c: usize) -> usize {
    if c == usize::MAX {
        c
    } else {
        (c + 1) as usize
    }
}

impl FileStats {
    /// Records one access: bumps the counter (saturating at the top of
    /// `usize`) and recomputes the priority with the active policy.
    pub fn record_access(&mut self, policy: &PriorityFunction)
        ensures
            final(self).size == old(self).size,
            final(self).access_count == inc_sat(old(self).access_count),
            final(self).priority as nat == policy.spec_eval(
                old(self).size as nat,
                inc_sat(old(self).access_count) as nat,
            ),
    {
        if self.access_count < usize::MAX {
            self.access_count = self.access_count + 1;
        }
        self.priority = policy.eval(self.size, self.access_count);
    }

    /// Overwrites the access counter and recomputes the priority with the
    /// active policy. This turns the counter into a manual boost/demote knob.
    pub fn set_access_count(&mut self, count: usize, policy: &PriorityFunction)
        ensures
            final(self).size == old(self).size,
            final(self).access_count == count,
            final(self).priority as nat == policy.spec_eval(old(self).size as nat, count as nat),
    {
        self.access_count = count;
        self.priority = policy.eval(self.size, count);
    }
}

/// A file held in memory: an immutable snapshot of its bytes plus the usage
/// statistics the cache keeps for it.
#[derive(Debug)]
pub struct InMemoryFile {
    /// The file contents at the time it was read.
    pub bytes: Vec<u8>,
    /// The statistics that drive eviction.
    pub stats: FileStats,
}

impl InMemoryFile {
    /// The recorded size agrees with the actual byte count.
    pub open spec fn wf(self) -> bool {
        self.stats.size == self.bytes@.len()
    }

    /// Builds the in-memory form of a file from its bytes, with statistics
    /// reset: no recorded accesses and no score yet (the cache computes the
    /// score when it admits the file).
    pub fn new(bytes: Vec<u8>) -> (file: InMemoryFile)
        ensures
            file.bytes@ == bytes@,
            file.stats.size == bytes@.len(),
            file.stats.access_count == 0,
            file.stats.priority == 0,
            file.wf(),
    {
        let size = bytes.len();
        InMemoryFile { bytes, stats: FileStats { size, access_count: 0, priority: 0 } }
    }
}

impl PartialEq for InMemoryFile {
    /// Two in-memory files are equal when they hold the same bytes and the
    /// same statistics.
    fn eq(&self, other: &InMemoryFile) -> bool {
        bytes_eq(&self.bytes, &other.bytes) && self.stats == other.stats
    }
}

impl vstd::std_specs::cmp::PartialEqSpecImpl for InMemoryFile {
    open spec fn obeys_eq_spec() -> bool {
        true
    }

    open spec fn eq_spec(&self, other: &InMemoryFile) -> bool {
        self.bytes@ == other.bytes@ && self.stats == other.stats
    }
}

/// An owned copy of a byte vector.
pub fn clone_bytes(v: &Vec<u8>) -> (r: Vec<u8>)
    ensures
        r@ == v@,
{
    let mut r: Vec<u8> = Vec::new();
    let mut i: usize = 0;
    while i < v.len()
        invariant
            i <= v@.len(),
            r@ == v@.subrange(0, i as int),
        decreases v@.len() - i,
    {
        r.push(v[i]);
        proof {
            assert(v@.subrange(0, i + 1 as int) =~= v@.subrange(0, i as int).push(v@[i as int]));
        }
        i = i + 1;
    }
    proof {
        assert(v@.subrange(0, v@.len() as int) =~= v@);
    }
    r
}

/// Whether two byte vectors hold the same bytes.
pub fn bytes_eq(a: &Vec<u8>, b: &Vec<u8>) -> (r: bool)
    ensures
        r == (a@ == b@),
{
    if a.len() != b.len() {
        return false;
    }
    let mut i: usize = 0;
    while i < a.len()
        invariant
            i <= a@.len(),
            a@.len() == b@.len(),
            forall|j: int| 0 <= j < i ==> a@[j] == b@[j],
        decreases a@.len() - i,
    {
        if a[i] != b[i] {
            return false;
        }
        i = i + 1;
    }
    proof {
        assert(a@ =~= b@);
    }
    true
}

} // verus!

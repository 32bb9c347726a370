use vstd::arithmetic::div_mod::lemma_div_is_ordered;
use vstd::arithmetic::div_mod::lemma_div_is_ordered_by_denominator;
use vstd::prelude::*;

verus! {

/// The eviction policy: maps a file's size in bytes and its access count to a
/// priority score; a higher score means the file is more valuable to keep
/// resident. The policy is an ordinary runtime value stored inside the cache,
/// so it can be swapped while the cache is live.
#[derive(Clone, Copy, Debug, PartialEq, Eq, Structural)]
pub enum PriorityFunction {
    /// The default policy: rewards frequently requested, small files. The
    /// score is the access count divided by the file's size in whole KiB
    /// plus one.
    SmallFileFavoring,
    /// The score is the access count itself, regardless of size.
    AccessCount,
    /// The same fixed score for every file.
    Constant(usize),
}

impl PriorityFunction {
    /// The score this policy assigns to a file of `size` bytes that has been
    /// accessed `access_count` times.
    pub open spec fn spec_eval(self, size: nat, access_count: nat) -> nat {
        match self {
            PriorityFunction::SmallFileFavoring => access_count / (size / 1024 + 1),
            PriorityFunction::AccessCount => access_count,
            PriorityFunction::Constant(score) => score as nat,
        }
    }

    /// Computes the priority score of a file from its size and access count.
    pub fn eval(&self, size: usize, access_count: usize) -> (score: usize)
        ensures
            score as nat == self.spec_eval(size as nat, access_count as nat),
    {
        match self {
            PriorityFunction::SmallFileFavoring => {
                proof {
                    lemma_div_is_ordered_by_denominator(size as int, 1, 1024);
                }
                access_count / (size / 1024 + 1)
            },
            PriorityFunction::AccessCount => access_count,
            PriorityFunction::Constant(score) => *score,
        }
    }
}

impl Default for PriorityFunction {
    /// The policy a fresh cache starts with.
    fn default() -> (policy: Self)
        ensures
            policy == PriorityFunction::SmallFileFavoring,
    {
        PriorityFunction::SmallFileFavoring
    }
}

/// The default policy never ranks a file lower after it gains further
/// accesses: its score is non-decreasing in the access count.
pub proof fn lemma_default_priority_monotone_in_access(size: nat, c1: nat, c2: nat)
    requires
        c1 <= c2,
    ensures
        PriorityFunction::SmallFileFavoring.spec_eval(size, c1)
            <= PriorityFunction::SmallFileFavoring.spec_eval(size, c2),
{
    lemma_div_is_ordered(c1 as int, c2 as int, size as int / 1024 + 1);
}

/// The default policy never ranks a larger file above a smaller one with the
/// same access count: its score is non-increasing in the size.
pub proof fn lemma_default_priority_antitone_in_size(s1: nat, s2: nat, access_count: nat)
    requires
        s1 <= s2,
    ensures
        PriorityFunction::SmallFileFavoring.spec_eval(s2, access_count)
            <= PriorityFunction::SmallFileFavoring.spec_eval(s1, access_count),
{
    lemma_div_is_ordered(s1 as int, s2 as int, 1024);
    lemma_div_is_ordered_by_denominator(
        access_count as int,
        s1 as int / 1024 + 1,
        s2 as int / 1024 + 1,
    );
}

} // verus!

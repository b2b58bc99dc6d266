//! Per-category cleanup statistics and their accumulation.
//!
//! A fresh `CleanupStats` is produced per category operation and merged into
//! the orchestrator's running total. Merging is saturating pairwise
//! addition, which keeps it total, associative and commutative, so the
//! final total over categories does not depend on the order of merging.

use vstd::prelude::*;

verus! {

/// Aggregate result of one cleanup operation.
#[derive(Clone, Copy, PartialEq, Eq, Structural, Debug)]
pub struct CleanupStats {
    /// Top-level entries removed; removing a qualifying directory counts as
    /// one removal regardless of its contents.
    pub files_removed: usize,
    /// Bytes freed, each entry measured before its removal.
    pub space_freed: u64,
}

/// Saturating addition on byte counts.
pub open spec fn sat_add_u64(a: u64, b: u64) -> u64 {
    if a + b <= u64::MAX {
        (a + b) as u64
    } else {
        u64::MAX
    }
}

/// Saturating addition on removal counts.
pub open spec fn sat_add_usize(a: usize, b: usize) -> usize {
    if a + b <= usize::MAX {
        (a + b) as usize
    } else {
        usize::MAX
    }
}

impl CleanupStats {
    pub fn new() -> (s: Self)
        ensures
            s.files_removed == 0,
            s.space_freed == 0,
    {
        CleanupStats { files_removed: 0, space_freed: 0 }
    }

    /// Pairwise merge of two statistics values.
    pub open spec fn spec_add(self, other: Self) -> Self {
        CleanupStats {
            files_removed: sat_add_usize(self.files_removed, other.files_removed),
            space_freed: sat_add_u64(self.space_freed, other.space_freed),
        }
    }

    /// Merges `other` into `self`.
    pub fn add(&mut self, other: &CleanupStats)
        ensures
            *final(self) == old(self).spec_add(*other),
    {
        self.files_removed = if usize::MAX - self.files_removed < other.files_removed {
            usize::MAX
        } else {
            self.files_removed + other.files_removed
        };
        self.space_freed = if u64::MAX - self.space_freed < other.space_freed {
            u64::MAX
        } else {
            self.space_freed + other.space_freed
        };
    }
}

/// Merging statistics is commutative.
pub proof fn lemma_stats_add_commutative(a: CleanupStats, b: CleanupStats)
    ensures
        a.spec_add(b) == b.spec_add(a),
{
}

/// Merging statistics is associative, so a total folded over categories is
/// the same however the merges are grouped.
pub proof fn lemma_stats_add_associative(a: CleanupStats, b: CleanupStats, c: CleanupStats)
    ensures
        a.spec_add(b).spec_add(c) == a.spec_add(b.spec_add(c)),
{
}

/// Empty statistics are the identity of merging.
pub proof fn lemma_stats_add_identity(a: CleanupStats)
    ensures
        (CleanupStats { files_removed: 0, space_freed: 0 }).spec_add(a) == a,
        a.spec_add((CleanupStats { files_removed: 0, space_freed: 0 })) == a,
{
}

} // verus!

//! Size estimation over a snapshot: total recursive size, and the size of
//! the age-filtered subset that a retention rule would remove.
//!
//! Estimation uses the same qualifying test as cleaning, so an estimate and
//! a later cleaning run can only differ in side effects, never in policy.
//! For a qualifying child that is a directory, the entire subtree size is
//! counted: there is no partial aging inside a qualifying directory.

use vstd::prelude::*;
use crate::model::Directory;
use crate::model::Entry;
use crate::model::dir_size;
use crate::model::entries_size_from;
use crate::model::entry_size;
use crate::model::entry_total_size;
use crate::model::lemma_entry_le_suffix;
use crate::retention::RetentionRule;
use crate::retention::min_age_rule;
use crate::retention::qualifies;
use crate::retention::spec_qualifies;
use crate::stats::sat_add_u64;

verus! {

/// Number of entries in `s[i..]` that qualify under `rule`.
pub open spec fn qualifying_count_from(s: Seq<Entry>, rule: RetentionRule, i: int) -> nat
    decreases s.len() - i,
{
    if i < 0 || i >= s.len() {
        0
    } else {
        (if spec_qualifies(s[i], rule) {
            1nat
        } else {
            0nat
        }) + qualifying_count_from(s, rule, i + 1)
    }
}

/// Sum of `entry_size` over the entries of `s[i..]` that qualify under
/// `rule`.
pub open spec fn qualifying_size_from(s: Seq<Entry>, rule: RetentionRule, i: int) -> nat
    decreases s.len() - i,
{
    if i < 0 || i >= s.len() {
        0
    } else {
        (if spec_qualifies(s[i], rule) {
            entry_size(s[i])
        } else {
            0
        }) + qualifying_size_from(s, rule, i + 1)
    }
}

/// What a rule would remove never weighs more than the whole suffix.
pub proof fn lemma_qualifying_size_le_total(s: Seq<Entry>, rule: RetentionRule, i: int)
    requires
        0 <= i <= s.len(),
    ensures
        qualifying_size_from(s, rule, i) <= entries_size_from(s, i),
    decreases s.len() - i,
{
    if i < s.len() {
        lemma_qualifying_size_le_total(s, rule, i + 1);
    }
}

/// Counts the qualifying entries of a snapshot and sums their sizes, under
/// `rule`. This is the one measurement both estimation and cleaning report.
pub fn measure_qualifying(d: &Directory, rule: &RetentionRule) -> (r: (usize, u64))
    requires
        d.wf(),
    ensures
        r.0 == qualifying_count_from(d.entries@, *rule, 0),
        r.1 == qualifying_size_from(d.entries@, *rule, 0),
        r.0 <= d.entries@.len(),
{
    let n = d.entries.len();
    let mut count: usize = 0;
    let mut size: u64 = 0;
    let mut i: usize = 0;
    proof {
        lemma_qualifying_size_le_total(d.entries@, *rule, 0);
    }
    while i < n
        invariant
            n == d.entries.len(),
            i <= n,
            d.wf(),
            count <= i,
            count + qualifying_count_from(d.entries@, *rule, i as int)
                == qualifying_count_from(d.entries@, *rule, 0),
            size + qualifying_size_from(d.entries@, *rule, i as int)
                == qualifying_size_from(d.entries@, *rule, 0),
            qualifying_size_from(d.entries@, *rule, 0) <= dir_size(*d),
            entries_size_from(d.entries@, i as int) <= u64::MAX,
            qualifying_size_from(d.entries@, *rule, i as int)
                <= entries_size_from(d.entries@, i as int),
        decreases n - i,
    {
        proof {
            lemma_entry_le_suffix(d.entries@, i as int);
            lemma_qualifying_size_le_total(d.entries@, *rule, i as int + 1);
        }
        if qualifies(&d.entries[i], rule) {
            let sz = entry_total_size(&d.entries[i]);
            count = count + 1;
            size = size + sz;
        }
        i = i + 1;
    }
    (count, size)
}

/// Saturating fold of a list of byte counts, back to front.
pub open spec fn clamped_sum_from(sizes: Seq<u64>, i: int) -> u64
    decreases sizes.len() - i,
{
    if i < 0 || i >= sizes.len() {
        0u64
    } else {
        sat_add_u64(sizes[i], clamped_sum_from(sizes, i + 1))
    }
}

/// Adds up per-root or per-category byte estimates, saturating at the
/// counter's range instead of wrapping.
pub fn clamped_total(sizes: &Vec<u64>) -> (t: u64)
    ensures
        t == clamped_sum_from(sizes@, 0),
{
    let mut acc: u64 = 0;
    let mut i: usize = sizes.len();
    while i > 0
        invariant
            i <= sizes.len(),
            acc == clamped_sum_from(sizes@, i as int),
        decreases i,
    {
        i = i - 1;
        let s = sizes[i];
        acc = if u64::MAX - s < acc {
            u64::MAX
        } else {
            s + acc
        };
    }
    acc
}

/// Sum of the sizes of the immediate children whose age in whole days has
/// reached `min_age_days`, protected names excluded; a qualifying child
/// that is a directory contributes its entire subtree size.
pub fn aged_size(d: &Directory, min_age_days: u64) -> (r: u64)
    requires
        d.wf(),
    ensures
        r == qualifying_size_from(d.entries@, min_age_rule(min_age_days), 0),
{
    let rule = RetentionRule { min_age_days: Some(min_age_days) };
    let m = measure_qualifying(d, &rule);
    m.1
}

} // verus!

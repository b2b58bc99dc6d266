//! Retention policy: whether a single snapshot entry qualifies for removal.
//!
//! A name that starts with the protection marker (a dot), or that equals the
//! fixed system index file name, is never removable, whatever the rule says.
//! With no minimum age the rule matches every unprotected entry (a full
//! clear). With a minimum age it matches entries whose elapsed time since
//! modification, truncated to whole days, reaches the threshold; an entry
//! whose modification time could not be read is deliberately treated as not
//! qualifying — the engine never removes what it cannot date.

use vstd::prelude::*;
use crate::bytes::bytes_starts_with;
use crate::bytes::spec_starts_with;
use crate::model::Entry;

verus! {

pub const SECS_PER_DAY: u64 = 86400;

/// The retention rule of one cleanup category.
pub struct RetentionRule {
    /// Minimum age, in whole days, an entry must have reached to qualify;
    /// `None` means every unprotected entry qualifies.
    pub min_age_days: Option<u64>,
}

/// A rule that clears everything unprotected.
pub open spec fn full_clear_rule() -> RetentionRule {
    RetentionRule { min_age_days: None }
}

/// A rule with a minimum age of `k` whole days.
pub open spec fn min_age_rule(k: u64) -> RetentionRule {
    RetentionRule { min_age_days: Some(k) }
}

/// The fixed system index file name, `.DS_Store`, as bytes.
pub open spec fn system_index_name() -> Seq<u8> {
    seq![46u8, 68u8, 83u8, 95u8, 83u8, 116u8, 111u8, 114u8, 101u8]
}

/// A protected name: one starting with the dot marker, or the fixed system
/// index file name.
pub open spec fn is_protected_name(name: Seq<u8>) -> bool {
    (name.len() > 0 && name[0] == 46u8) || name == system_index_name()
}

pub fn name_is_protected(name: &Vec<u8>) -> (r: bool)
    ensures
        r == is_protected_name(name@),
{
    proof {
        assert(system_index_name()[0] == 46u8);
    }
    name.len() > 0 && name[0] == 46u8
}

/// Whole days elapsed, truncated: partial-day remainders are dropped.
pub open spec fn spec_elapsed_days(age_secs: u64) -> u64 {
    age_secs / SECS_PER_DAY
}

pub fn elapsed_days(age_secs: u64) -> (d: u64)
    ensures
        d == spec_elapsed_days(age_secs),
{
    age_secs / SECS_PER_DAY
}

/// Does `e` qualify for removal under `rule`?
pub open spec fn spec_qualifies(e: Entry, rule: RetentionRule) -> bool {
    &&& !is_protected_name(e.name@)
    &&& match rule.min_age_days {
        None => true,
        Some(k) => match e.age_secs {
            None => false,
            Some(s) => spec_elapsed_days(s) >= k,
        },
    }
}

pub fn qualifies(e: &Entry, rule: &RetentionRule) -> (r: bool)
    ensures
        r == spec_qualifies(*e, *rule),
{
    if name_is_protected(&e.name) {
        return false;
    }
    match rule.min_age_days {
        None => true,
        Some(k) => match e.age_secs {
            None => false,
            Some(s) => elapsed_days(s) >= k,
        },
    }
}

/// A protected name is never returned as qualifying by any rule,
/// independent of age.
pub proof fn lemma_protected_never_qualifies(e: Entry, rule: RetentionRule)
    ensures
        is_protected_name(e.name@) ==> !spec_qualifies(e, rule),
{
}

/// Boundary of the age threshold: an unprotected entry modified exactly `k`
/// whole days ago qualifies under a minimum age of `k`; one second short of
/// `k` days does not.
pub proof fn lemma_age_boundary(at_threshold: Entry, just_short: Entry, k: u64)
    requires
        1 <= k,
        k * SECS_PER_DAY <= u64::MAX,
        !is_protected_name(at_threshold.name@),
        !is_protected_name(just_short.name@),
        at_threshold.age_secs == Some((k * SECS_PER_DAY) as u64),
        just_short.age_secs == Some((k * SECS_PER_DAY - 1) as u64),
    ensures
        spec_qualifies(at_threshold, min_age_rule(k)),
        !spec_qualifies(just_short, min_age_rule(k)),
{
    let d = SECS_PER_DAY as int;
    assert((k * SECS_PER_DAY) as u64 / SECS_PER_DAY == k) by {
        vstd::arithmetic::div_mod::lemma_div_multiples_vanish(k as int, d);
    }
    assert((k * SECS_PER_DAY - 1) as u64 / SECS_PER_DAY == k - 1) by {
        vstd::arithmetic::div_mod::lemma_fundamental_div_mod_converse(
            k * d - 1,
            d,
            k as int - 1,
            d - 1,
        );
    }
}

/// The path prefix of system-wide cache roots, `/System`, as bytes.
pub open spec fn system_path_prefix() -> Seq<u8> {
    seq![47u8, 83u8, 121u8, 115u8, 116u8, 101u8, 109u8]
}

/// The path prefix of machine-wide library roots, `/Library`, as bytes.
pub open spec fn library_path_prefix() -> Seq<u8> {
    seq![47u8, 76u8, 105u8, 98u8, 114u8, 97u8, 114u8, 121u8]
}

/// Is `path` a system-wide root (under `/System` or `/Library`)?
pub open spec fn is_system_root(path: Seq<u8>) -> bool {
    spec_starts_with(path, system_path_prefix()) || spec_starts_with(path, library_path_prefix())
}

fn system_prefix_vec() -> (r: Vec<u8>)
    ensures
        r@ == system_path_prefix(),
{
    let mut p: Vec<u8> = Vec::new();
    p.push(47);
    p.push(83);
    p.push(121);
    p.push(115);
    p.push(116);
    p.push(101);
    p.push(109);
    proof {
        assert(p@ =~= system_path_prefix());
    }
    p
}

fn library_prefix_vec() -> (r: Vec<u8>)
    ensures
        r@ == library_path_prefix(),
{
    let mut p: Vec<u8> = Vec::new();
    p.push(47);
    p.push(76);
    p.push(105);
    p.push(98);
    p.push(114);
    p.push(97);
    p.push(114);
    p.push(121);
    proof {
        assert(p@ =~= library_path_prefix());
    }
    p
}

/// Retention used when clearing cache locations: system-wide cache roots
/// keep a week for safety, user caches one day.
pub fn cache_retention_days(root_path: &Vec<u8>) -> (r: u64)
    ensures
        r == (if is_system_root(root_path@) {
            7u64
        } else {
            1u64
        }),
{
    let sys = system_prefix_vec();
    let lib = library_prefix_vec();
    if bytes_starts_with(root_path, &sys) || bytes_starts_with(root_path, &lib) {
        7
    } else {
        1
    }
}

} // verus!

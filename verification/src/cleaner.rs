//! Cleaning one snapshot directory: deciding, simulating and accounting.
//!
//! `clean` gives the idealised result — the statistics a run reports and
//! the entries left behind when every removal succeeds. Because removals in
//! the real filesystem can fail one by one, the caller can instead take a
//! `RemovalPlan`, perform only the planned removals itself, and hand the
//! per-entry outcomes to `stats_from_outcomes`: an entry whose removal
//! failed is not counted and its size is not added — no partial credit.
//! Sizes are always measured before removal, never inferred after.

use vstd::prelude::*;
use crate::estimator::measure_qualifying;
use crate::estimator::qualifying_count_from;
use crate::estimator::qualifying_size_from;
use crate::model::Directory;
use crate::model::Entry;
use crate::model::dir_size;
use crate::model::entries_size_from;
use crate::model::entry_size;
use crate::model::entry_total_size;
use crate::model::lemma_entry_le_suffix;
use crate::retention::RetentionRule;
use crate::retention::qualifies;
use crate::retention::spec_qualifies;
use crate::stats::CleanupStats;

verus! {

/// The run-wide execution policy: simulate only, remove without asking, or
/// remove after a per-category confirmation.
#[derive(Clone, Copy, PartialEq, Eq, Structural, Debug)]
pub enum ExecutionMode {
    DryRun,
    Force,
    Interactive,
}

/// The entries of `s[i..]` that do not qualify under `rule`, in order.
pub open spec fn kept_from(s: Seq<Entry>, rule: RetentionRule, i: int) -> Seq<Entry>
    decreases s.len() - i,
{
    if i < 0 || i >= s.len() {
        Seq::empty()
    } else if spec_qualifies(s[i], rule) {
        kept_from(s, rule, i + 1)
    } else {
        seq![s[i]] + kept_from(s, rule, i + 1)
    }
}

/// What cleaning leaves behind: everything under `DryRun`, otherwise the
/// entries the rule does not remove.
pub open spec fn spec_clean_entries(s: Seq<Entry>, rule: RetentionRule, mode: ExecutionMode) -> Seq<Entry> {
    if mode == ExecutionMode::DryRun {
        s
    } else {
        kept_from(s, rule, 0)
    }
}

proof fn lemma_entries_size_from_skip(u: Seq<Entry>, k: int)
    requires
        0 <= k <= u.len(),
    ensures
        entries_size_from(u, k) == entries_size_from(u.skip(k), 0),
    decreases u.len() - k,
{
    if k < u.len() {
        lemma_entries_size_from_skip(u, k + 1);
        let w = u.skip(k);
        lemma_entries_size_from_skip(w, 1);
        assert(w.skip(1) =~= u.skip(k + 1));
        assert(w[0] == u[k]);
    } else {
        assert(u.skip(k).len() == 0);
    }
}

proof fn lemma_entries_size_cons(e: Entry, t: Seq<Entry>)
    ensures
        entries_size_from(seq![e] + t, 0) == entry_size(e) + entries_size_from(t, 0),
{
    let u = seq![e] + t;
    assert(u[0] == e);
    lemma_entries_size_from_skip(u, 1);
    assert(u.skip(1) =~= t);
}

/// What remains after cleaning holds no qualifying entry, and its size
/// plus the size of what the rule removes is exactly the size before.
pub proof fn lemma_kept_partition(s: Seq<Entry>, rule: RetentionRule, i: int)
    requires
        0 <= i <= s.len(),
    ensures
        entries_size_from(kept_from(s, rule, i), 0) + qualifying_size_from(s, rule, i)
            == entries_size_from(s, i),
        kept_from(s, rule, i).len() + qualifying_count_from(s, rule, i) == s.len() - i,
        forall|j: int|
            0 <= j < kept_from(s, rule, i).len()
                ==> !spec_qualifies(#[trigger] kept_from(s, rule, i)[j], rule),
    decreases s.len() - i,
{
    if i < s.len() {
        lemma_kept_partition(s, rule, i + 1);
        if !spec_qualifies(s[i], rule) {
            lemma_entries_size_cons(s[i], kept_from(s, rule, i + 1));
        }
    }
}

/// Cleans one snapshot directory under `rule` and `mode`, with every
/// removal taken as succeeding. Returns the directory as it then stands —
/// untouched under `DryRun` — and the statistics of the run: how many
/// top-level entries go and how many bytes they held, measured before
/// removal. Estimation and execution share one qualifying test, so the
/// statistics do not depend on the mode.
pub fn clean(d: Directory, rule: &RetentionRule, mode: ExecutionMode) -> (res: (Directory, CleanupStats))
    requires
        d.wf(),
    ensures
        res.1.files_removed == qualifying_count_from(d.entries@, *rule, 0),
        res.1.space_freed == qualifying_size_from(d.entries@, *rule, 0),
        res.1.files_removed <= d.entries@.len(),
        res.0.entries@ == spec_clean_entries(d.entries@, *rule, mode),
        res.0.wf(),
{
    let m = measure_qualifying(&d, rule);
    let stats = CleanupStats { files_removed: m.0, space_freed: m.1 };
    match mode {
        ExecutionMode::DryRun => (d, stats),
        _ => {
            proof {
                lemma_kept_partition(d.entries@, *rule, 0);
            }
            let ghost orig = d.entries@;
            let mut v = d.entries;
            let mut out: Vec<Entry> = Vec::new();
            while v.len() > 0
                invariant
                    v@ =~= orig.subrange(0, v.len() as int),
                    v.len() <= orig.len(),
                    out@ == kept_from(orig, *rule, v.len() as int),
                decreases v.len(),
            {
                let ghost j: int = v.len() as int;
                let e_opt = v.pop();
                let e = e_opt.unwrap();
                proof {
                    assert(e == orig[j - 1]);
                    assert(v@ =~= orig.subrange(0, j - 1));
                }
                if !qualifies(&e, rule) {
                    out.insert(0, e);
                    proof {
                        assert(out@ =~= seq![orig[j - 1]] + kept_from(orig, *rule, j));
                    }
                }
            }
            proof {
                assert(out@ == kept_from(orig, *rule, 0));
                lemma_kept_partition(orig, *rule, 0);
            }
            (Directory { entries: out }, stats)
        },
    }
}

/// What to do to one snapshot directory: per entry, whether the rule
/// removes it and how many bytes it holds (measured before any removal);
/// `execute` says whether the caller may touch the filesystem at all — it
/// never may under `DryRun`.
pub struct RemovalPlan {
    pub execute: bool,
    pub remove: Vec<bool>,
    pub sizes: Vec<u64>,
}

/// Sum of `sizes[i..]`.
pub open spec fn sizes_sum_from(sizes: Seq<u64>, i: int) -> nat
    decreases sizes.len() - i,
{
    if i < 0 || i >= sizes.len() {
        0
    } else {
        sizes[i] as nat + sizes_sum_from(sizes, i + 1)
    }
}

/// How many planned removals of `[i..]` the outcomes report as done.
pub open spec fn granted_count_from(remove: Seq<bool>, ok: Seq<bool>, i: int) -> nat
    decreases remove.len() - i,
{
    if i < 0 || i >= remove.len() || i >= ok.len() {
        0
    } else {
        (if remove[i] && ok[i] {
            1nat
        } else {
            0nat
        }) + granted_count_from(remove, ok, i + 1)
    }
}

/// The bytes of the planned removals of `[i..]` that the outcomes report
/// as done.
pub open spec fn granted_size_from(sizes: Seq<u64>, remove: Seq<bool>, ok: Seq<bool>, i: int) -> nat
    decreases sizes.len() - i,
{
    if i < 0 || i >= sizes.len() || i >= remove.len() || i >= ok.len() {
        0
    } else {
        (if remove[i] && ok[i] {
            sizes[i] as nat
        } else {
            0
        }) + granted_size_from(sizes, remove, ok, i + 1)
    }
}

proof fn lemma_granted_size_le_sum(sizes: Seq<u64>, remove: Seq<bool>, ok: Seq<bool>, i: int)
    requires
        0 <= i,
    ensures
        granted_size_from(sizes, remove, ok, i) <= sizes_sum_from(sizes, i),
    decreases sizes.len() - i,
{
    if i < sizes.len() {
        lemma_granted_size_le_sum(sizes, remove, ok, i + 1);
    }
}

proof fn lemma_sizes_sum_matches_entries(s: Seq<Entry>, sizes: Seq<u64>, i: int)
    requires
        0 <= i,
        sizes.len() == s.len(),
        forall|j: int| i <= j < s.len() ==> sizes[j] == entry_size(#[trigger] s[j]),
    ensures
        sizes_sum_from(sizes, i) == entries_size_from(s, i),
    decreases s.len() - i,
{
    if i < s.len() {
        lemma_sizes_sum_matches_entries(s, sizes, i + 1);
    }
}

/// Plans the cleaning of one snapshot directory: marks each entry the rule
/// removes and records its pre-removal size. The caller may only act on
/// the plan when `execute` is true, which is exactly when the mode is not
/// `DryRun`.
pub fn removal_plan(d: &Directory, rule: &RetentionRule, mode: ExecutionMode) -> (p: RemovalPlan)
    requires
        d.wf(),
    ensures
        p.execute == (mode != ExecutionMode::DryRun),
        p.remove@.len() == d.entries@.len(),
        p.sizes@.len() == d.entries@.len(),
        forall|i: int|
            0 <= i < d.entries@.len()
                ==> p.remove@[i] == spec_qualifies(#[trigger] d.entries@[i], *rule),
        forall|i: int|
            0 <= i < d.entries@.len() ==> p.sizes@[i] == entry_size(#[trigger] d.entries@[i]),
        sizes_sum_from(p.sizes@, 0) == dir_size(*d),
{
    let execute = match mode {
        ExecutionMode::DryRun => false,
        _ => true,
    };
    let n = d.entries.len();
    let mut remove: Vec<bool> = Vec::new();
    let mut sizes: Vec<u64> = Vec::new();
    let mut i: usize = 0;
    while i < n
        invariant
            n == d.entries.len(),
            i <= n,
            d.wf(),
            remove@.len() == i,
            sizes@.len() == i,
            forall|j: int|
                0 <= j < i ==> remove@[j] == spec_qualifies(#[trigger] d.entries@[j], *rule),
            forall|j: int| 0 <= j < i ==> sizes@[j] == entry_size(#[trigger] d.entries@[j]),
            entries_size_from(d.entries@, i as int) <= u64::MAX,
        decreases n - i,
    {
        proof {
            lemma_entry_le_suffix(d.entries@, i as int);
        }
        remove.push(qualifies(&d.entries[i], rule));
        sizes.push(entry_total_size(&d.entries[i]));
        i = i + 1;
    }
    proof {
        lemma_sizes_sum_matches_entries(d.entries@, sizes@, 0);
    }
    RemovalPlan { execute, remove, sizes }
}

/// Statistics of an executed plan, from the caller's per-entry removal
/// outcomes: only an entry that was planned for removal and reported
/// removed is counted, with the size measured before removal. An entry
/// whose removal failed — locked, forbidden, or already gone — gets no
/// partial credit.
pub fn stats_from_outcomes(p: &RemovalPlan, outcomes: &Vec<bool>) -> (s: CleanupStats)
    requires
        p.remove@.len() == p.sizes@.len(),
        outcomes@.len() == p.remove@.len(),
        sizes_sum_from(p.sizes@, 0) <= u64::MAX,
    ensures
        s.files_removed == granted_count_from(p.remove@, outcomes@, 0),
        s.space_freed == granted_size_from(p.sizes@, p.remove@, outcomes@, 0),
        s.files_removed <= p.remove@.len(),
{
    let n = p.remove.len();
    let mut count: usize = 0;
    let mut size: u64 = 0;
    let mut i: usize = 0;
    proof {
        lemma_granted_size_le_sum(p.sizes@, p.remove@, outcomes@, 0);
    }
    while i < n
        invariant
            n == p.remove.len() == p.sizes.len() == outcomes.len(),
            i <= n,
            count <= i,
            count + granted_count_from(p.remove@, outcomes@, i as int)
                == granted_count_from(p.remove@, outcomes@, 0),
            size + granted_size_from(p.sizes@, p.remove@, outcomes@, i as int)
                == granted_size_from(p.sizes@, p.remove@, outcomes@, 0),
            granted_size_from(p.sizes@, p.remove@, outcomes@, 0) <= u64::MAX,
        decreases n - i,
    {
        if p.remove[i] && outcomes[i] {
            count = count + 1;
            size = size + p.sizes[i];
        }
        i = i + 1;
    }
    CleanupStats { files_removed: count, space_freed: size }
}

/// Simulation and execution never diverge in policy: when every planned
/// removal succeeds, the executed statistics equal the simulated ones, so
/// a `DryRun` reports exactly the byte total and removal count a later run
/// would achieve on an unchanged snapshot.
pub proof fn lemma_simulation_matches_execution(
    s: Seq<Entry>,
    rule: RetentionRule,
    remove: Seq<bool>,
    sizes: Seq<u64>,
    ok: Seq<bool>,
)
    requires
        remove.len() == s.len(),
        sizes.len() == s.len(),
        ok.len() == s.len(),
        forall|j: int| 0 <= j < s.len() ==> remove[j] == spec_qualifies(#[trigger] s[j], rule),
        forall|j: int| 0 <= j < s.len() ==> sizes[j] == entry_size(#[trigger] s[j]),
        forall|j: int| 0 <= j < s.len() ==> ok[j],
    ensures
        granted_count_from(remove, ok, 0) == qualifying_count_from(s, rule, 0),
        granted_size_from(sizes, remove, ok, 0) == qualifying_size_from(s, rule, 0),
{
    lemma_granted_matches_qualifying(s, rule, remove, sizes, ok, 0);
}

proof fn lemma_granted_matches_qualifying(
    s: Seq<Entry>,
    rule: RetentionRule,
    remove: Seq<bool>,
    sizes: Seq<u64>,
    ok: Seq<bool>,
    i: int,
)
    requires
        0 <= i,
        remove.len() == s.len(),
        sizes.len() == s.len(),
        ok.len() == s.len(),
        forall|j: int| i <= j < s.len() ==> remove[j] == spec_qualifies(#[trigger] s[j], rule),
        forall|j: int| i <= j < s.len() ==> sizes[j] == entry_size(#[trigger] s[j]),
        forall|j: int| i <= j < s.len() ==> ok[j],
    ensures
        granted_count_from(remove, ok, i) == qualifying_count_from(s, rule, i),
        granted_size_from(sizes, remove, ok, i) == qualifying_size_from(s, rule, i),
    decreases s.len() - i,
{
    if i < s.len() {
        lemma_granted_matches_qualifying(s, rule, remove, sizes, ok, i + 1);
    }
}

/// Simulated cleaning is idempotent: a `DryRun` leaves the directory as it
/// was, and a second `DryRun` over it reports identical statistics.
pub proof fn lemma_dry_run_idempotent(s: Seq<Entry>, rule: RetentionRule)
    ensures
        spec_clean_entries(s, rule, ExecutionMode::DryRun) == s,
        qualifying_count_from(spec_clean_entries(s, rule, ExecutionMode::DryRun), rule, 0)
            == qualifying_count_from(s, rule, 0),
        qualifying_size_from(spec_clean_entries(s, rule, ExecutionMode::DryRun), rule, 0)
            == qualifying_size_from(s, rule, 0),
{
}

/// After a non-simulated clean no qualifying entry remains, and the space
/// freed plus the size of what remains is exactly the size beforehand: the
/// freed total is the pre-removal size of the removed entries.
pub proof fn lemma_clean_removes_all_qualifying(s: Seq<Entry>, rule: RetentionRule, mode: ExecutionMode)
    requires
        mode != ExecutionMode::DryRun,
    ensures
        forall|j: int|
            0 <= j < spec_clean_entries(s, rule, mode).len()
                ==> !spec_qualifies(#[trigger] spec_clean_entries(s, rule, mode)[j], rule),
        entries_size_from(spec_clean_entries(s, rule, mode), 0)
            + qualifying_size_from(s, rule, 0) == entries_size_from(s, 0),
        spec_clean_entries(s, rule, mode).len() + qualifying_count_from(s, rule, 0) == s.len(),
{
    lemma_kept_partition(s, rule, 0);
}

} // verus!

//! Orchestration of one cleanup run: the execution-mode gate, the per-
//! category state machine, and the aggregation of statistics.
//!
//! Per category the run first checks a prerequisite probe, then estimates,
//! then applies the mode: `DryRun` only simulates and touches nothing,
//! `Force` always proceeds, `Interactive` asks once per category and skips
//! on anything but an affirmative reply. Categories are independent: a
//! skip or failure of one never blocks the next, and the run's total is a
//! fold of the per-category statistics.

use vstd::prelude::*;
use crate::bytes::byte_is_ws;
use crate::bytes::trim_end_idx;
use crate::bytes::trim_start_idx;
use crate::cleaner::ExecutionMode;
use crate::cleaner::granted_count_from;
use crate::cleaner::granted_size_from;
use crate::cleaner::removal_plan;
use crate::cleaner::stats_from_outcomes;
use crate::estimator::measure_qualifying;
use crate::estimator::qualifying_count_from;
use crate::estimator::qualifying_size_from;
use crate::model::Directory;
use crate::model::Entry;
use crate::model::entry_size;
use crate::retention::RetentionRule;
use crate::retention::spec_qualifies;
use crate::stats::CleanupStats;

verus! {

/// Terminal state of one category within a run.
#[derive(Clone, Copy, PartialEq, Eq, Structural, Debug)]
pub enum CategoryOutcome {
    Skipped,
    Simulated,
    Cleaned,
    Failed,
}

/// The mode a run uses, from its three flags: a dry run wins over
/// everything, and force takes precedence over interactive.
pub open spec fn spec_mode_from_flags(interactive: bool, dry_run: bool, force: bool) -> ExecutionMode {
    if dry_run {
        ExecutionMode::DryRun
    } else if force {
        ExecutionMode::Force
    } else if interactive {
        ExecutionMode::Interactive
    } else {
        ExecutionMode::Force
    }
}

pub fn mode_from_flags(interactive: bool, dry_run: bool, force: bool) -> (m: ExecutionMode)
    ensures
        m == spec_mode_from_flags(interactive, dry_run, force),
{
    if dry_run {
        ExecutionMode::DryRun
    } else if force {
        ExecutionMode::Force
    } else if interactive {
        ExecutionMode::Interactive
    } else {
        ExecutionMode::Force
    }
}

/// Whether a category may proceed to real removal: not under `DryRun`;
/// always under `Force`; on an affirmative reply under `Interactive`.
pub open spec fn spec_gate_allows(mode: ExecutionMode, reply_affirmative: bool) -> bool {
    mode == ExecutionMode::Force || (mode == ExecutionMode::Interactive && reply_affirmative)
}

pub fn gate_allows(mode: ExecutionMode, reply_affirmative: bool) -> (b: bool)
    ensures
        b == spec_gate_allows(mode, reply_affirmative),
{
    match mode {
        ExecutionMode::DryRun => false,
        ExecutionMode::Force => true,
        ExecutionMode::Interactive => reply_affirmative,
    }
}

pub open spec fn lower_byte(b: u8) -> u8 {
    if 65u8 <= b && b <= 90u8 {
        (b + 32) as u8
    } else {
        b
    }
}

/// `s` with leading and trailing whitespace removed.
pub open spec fn spec_trimmed(s: Seq<u8>) -> Seq<u8> {
    let a = trim_start_idx(s, 0);
    let b = trim_end_idx(s, s.len() as int);
    if a < b {
        s.subrange(a, b)
    } else {
        Seq::empty()
    }
}

pub open spec fn lower_seq(s: Seq<u8>) -> Seq<u8> {
    s.map_values(|b: u8| lower_byte(b))
}

/// `yes`, as bytes.
pub open spec fn yes_bytes() -> Seq<u8> {
    seq![121u8, 101u8, 115u8]
}

/// `y`, as bytes.
pub open spec fn y_bytes() -> Seq<u8> {
    seq![121u8]
}

/// An affirmative interactive reply: `y` or `yes`, after trimming
/// whitespace and lowering case.
pub open spec fn spec_is_affirmative(s: Seq<u8>) -> bool {
    lower_seq(spec_trimmed(s)) == y_bytes() || lower_seq(spec_trimmed(s)) == yes_bytes()
}

fn byte_lower(b: u8) -> (r: u8)
    ensures
        r == lower_byte(b),
{
    if 65 <= b && b <= 90 {
        b + 32
    } else {
        b
    }
}

/// Decides whether one line of interactive input approves an action.
pub fn is_affirmative(reply: &Vec<u8>) -> (r: bool)
    ensures
        r == spec_is_affirmative(reply@),
{
    let n = reply.len();
    let mut a: usize = 0;
    let mut stop_a = false;
    while a < n && !stop_a
        invariant
            a <= n,
            n == reply.len(),
            trim_start_idx(reply@, 0) == (if stop_a {
                a as int
            } else {
                trim_start_idx(reply@, a as int)
            }),
        decreases n - a + (if stop_a {
            0int
        } else {
            1int
        }),
    {
        if byte_is_ws(reply[a]) {
            a = a + 1;
        } else {
            stop_a = true;
        }
    }
    let ghost ts: int = trim_start_idx(reply@, 0);
    proof {
        assert(ts == a as int);
    }
    let mut b: usize = n;
    let mut stop_b = false;
    while b > 0 && !stop_b
        invariant
            b <= n,
            n == reply.len(),
            trim_end_idx(reply@, n as int) == (if stop_b {
                b as int
            } else {
                trim_end_idx(reply@, b as int)
            }),
        decreases b + (if stop_b {
            0int
        } else {
            1int
        }),
    {
        if byte_is_ws(reply[b - 1]) {
            b = b - 1;
        } else {
            stop_b = true;
        }
    }
    let ghost te: int = trim_end_idx(reply@, n as int);
    proof {
        assert(te == b as int);
    }
    if a >= b {
        proof {
            assert(spec_trimmed(reply@) =~= Seq::<u8>::empty());
            assert(lower_seq(spec_trimmed(reply@)).len() == 0);
        }
        return false;
    }
    let ghost t = spec_trimmed(reply@);
    proof {
        assert(t =~= reply@.subrange(a as int, b as int));
        assert(lower_seq(t).len() == t.len());
    }
    let len = b - a;
    if len == 1 {
        let r = byte_lower(reply[a]) == 121;
        proof {
            assert(lower_seq(t)[0] == lower_byte(reply@[a as int]));
            if r {
                assert(lower_seq(t) =~= y_bytes());
            } else {
                assert(lower_seq(t) != y_bytes());
                assert(lower_seq(t).len() != yes_bytes().len());
            }
        }
        r
    } else if len == 3 {
        let r = byte_lower(reply[a]) == 121 && byte_lower(reply[a + 1]) == 101 && byte_lower(
            reply[a + 2],
        ) == 115;
        proof {
            assert(lower_seq(t)[0] == lower_byte(reply@[a as int]));
            assert(lower_seq(t)[1] == lower_byte(reply@[a as int + 1]));
            assert(lower_seq(t)[2] == lower_byte(reply@[a as int + 2]));
            if r {
                assert(lower_seq(t) =~= yes_bytes());
            } else {
                assert(lower_seq(t) != yes_bytes());
                assert(lower_seq(t).len() != y_bytes().len());
            }
        }
        r
    } else {
        proof {
            assert(lower_seq(t).len() != y_bytes().len());
            assert(lower_seq(t).len() != yes_bytes().len());
        }
        false
    }
}

/// The category proceeds to real removal.
pub open spec fn spec_proceeds(prereq: bool, mode: ExecutionMode, approved: bool) -> bool {
    prereq && spec_gate_allows(mode, approved)
}

/// The category only simulates.
pub open spec fn spec_simulates(prereq: bool, mode: ExecutionMode) -> bool {
    prereq && mode == ExecutionMode::DryRun
}

/// Terminal state of a category, from what happened: skipped without its
/// prerequisite or without approval, simulated under `DryRun`, and
/// otherwise cleaned — or failed when there were qualifying candidates
/// yet no removal succeeded.
pub open spec fn spec_category_outcome(
    prereq: bool,
    mode: ExecutionMode,
    approved: bool,
    candidates: nat,
    successes: nat,
) -> CategoryOutcome {
    if !prereq {
        CategoryOutcome::Skipped
    } else if mode == ExecutionMode::DryRun {
        CategoryOutcome::Simulated
    } else if mode == ExecutionMode::Interactive && !approved {
        CategoryOutcome::Skipped
    } else if candidates > 0 && successes == 0 {
        CategoryOutcome::Failed
    } else {
        CategoryOutcome::Cleaned
    }
}

pub fn category_outcome(
    prereq: bool,
    mode: ExecutionMode,
    approved: bool,
    candidates: usize,
    successes: usize,
) -> (o: CategoryOutcome)
    ensures
        o == spec_category_outcome(prereq, mode, approved, candidates as nat, successes as nat),
{
    if !prereq {
        CategoryOutcome::Skipped
    } else if gate_allows(mode, approved) {
        if candidates > 0 && successes == 0 {
            CategoryOutcome::Failed
        } else {
            CategoryOutcome::Cleaned
        }
    } else {
        match mode {
            ExecutionMode::DryRun => CategoryOutcome::Simulated,
            _ => CategoryOutcome::Skipped,
        }
    }
}

/// Qualifying entries of `s[i..]` whose removal the outcomes report done.
pub open spec fn done_count_from(s: Seq<Entry>, rule: RetentionRule, ok: Seq<bool>, i: int) -> nat
    decreases s.len() - i,
{
    if i < 0 || i >= s.len() || i >= ok.len() {
        0
    } else {
        (if spec_qualifies(s[i], rule) && ok[i] {
            1nat
        } else {
            0nat
        }) + done_count_from(s, rule, ok, i + 1)
    }
}

/// Bytes of the qualifying entries of `s[i..]` whose removal the outcomes
/// report done.
pub open spec fn done_size_from(s: Seq<Entry>, rule: RetentionRule, ok: Seq<bool>, i: int) -> nat
    decreases s.len() - i,
{
    if i < 0 || i >= s.len() || i >= ok.len() {
        0
    } else {
        (if spec_qualifies(s[i], rule) && ok[i] {
            entry_size(s[i])
        } else {
            0
        }) + done_size_from(s, rule, ok, i + 1)
    }
}

proof fn lemma_plan_outcomes_bridge(
    s: Seq<Entry>,
    rule: RetentionRule,
    remove: Seq<bool>,
    sizes: Seq<u64>,
    ok: Seq<bool>,
    i: int,
)
    requires
        0 <= i,
        remove.len() == s.len(),
        sizes.len() == s.len(),
        ok.len() == s.len(),
        forall|j: int| 0 <= j < s.len() ==> remove[j] == spec_qualifies(#[trigger] s[j], rule),
        forall|j: int| 0 <= j < s.len() ==> sizes[j] == entry_size(#[trigger] s[j]),
    ensures
        granted_count_from(remove, ok, i) == done_count_from(s, rule, ok, i),
        granted_size_from(sizes, remove, ok, i) == done_size_from(s, rule, ok, i),
    decreases s.len() - i,
{
    if i < s.len() {
        lemma_plan_outcomes_bridge(s, rule, remove, sizes, ok, i + 1);
    }
}

/// One category, end to end, over its snapshot: applies the prerequisite
/// check and the execution-mode gate, accounts the reported removal
/// outcomes, and names the category's terminal state. A skipped category
/// contributes empty statistics; a simulated one reports what would
/// qualify; a cleaned or failed one reports exactly the removals that
/// succeeded.
pub fn run_category(
    prereq: bool,
    d: &Directory,
    rule: &RetentionRule,
    mode: ExecutionMode,
    approved: bool,
    outcomes: &Vec<bool>,
) -> (r: (CategoryOutcome, CleanupStats))
    requires
        d.wf(),
        outcomes@.len() == d.entries@.len(),
    ensures
        r.0 == spec_category_outcome(
            prereq,
            mode,
            approved,
            qualifying_count_from(d.entries@, *rule, 0),
            done_count_from(d.entries@, *rule, outcomes@, 0),
        ),
        spec_simulates(prereq, mode) ==> r.1.files_removed == qualifying_count_from(
            d.entries@,
            *rule,
            0,
        ) && r.1.space_freed == qualifying_size_from(d.entries@, *rule, 0),
        spec_proceeds(prereq, mode, approved) ==> r.1.files_removed == done_count_from(
            d.entries@,
            *rule,
            outcomes@,
            0,
        ) && r.1.space_freed == done_size_from(d.entries@, *rule, outcomes@, 0),
        !spec_simulates(prereq, mode) && !spec_proceeds(prereq, mode, approved)
            ==> r.1.files_removed == 0 && r.1.space_freed == 0,
{
    if !prereq {
        return (CategoryOutcome::Skipped, CleanupStats::new());
    }
    let m = measure_qualifying(d, rule);
    match mode {
        ExecutionMode::DryRun => (
            CategoryOutcome::Simulated,
            CleanupStats { files_removed: m.0, space_freed: m.1 },
        ),
        _ => {
            if gate_allows(mode, approved) {
                let plan = removal_plan(d, rule, mode);
                let stats = stats_from_outcomes(&plan, outcomes);
                proof {
                    lemma_plan_outcomes_bridge(
                        d.entries@,
                        *rule,
                        plan.remove@,
                        plan.sizes@,
                        outcomes@,
                        0,
                    );
                }
                let outcome = category_outcome(prereq, mode, approved, m.0, stats.files_removed);
                (outcome, stats)
            } else {
                (CategoryOutcome::Skipped, CleanupStats::new())
            }
        },
    }
}

/// A simulated category reports exactly what execution would: when every
/// removal outcome is a success, the executed count and byte total equal
/// the simulated ones, so a `DryRun` over an unchanged snapshot reports
/// the byte total a subsequent `Force` run frees — while never letting
/// the caller touch the filesystem, since its plan's `execute` is false.
pub proof fn lemma_simulated_equals_executed(s: Seq<Entry>, rule: RetentionRule, ok: Seq<bool>)
    requires
        ok.len() == s.len(),
        forall|j: int| 0 <= j < ok.len() ==> ok[j],
    ensures
        done_count_from(s, rule, ok, 0) == qualifying_count_from(s, rule, 0),
        done_size_from(s, rule, ok, 0) == qualifying_size_from(s, rule, 0),
{
    lemma_done_all_ok(s, rule, ok, 0);
}

proof fn lemma_done_all_ok(s: Seq<Entry>, rule: RetentionRule, ok: Seq<bool>, i: int)
    requires
        0 <= i,
        ok.len() == s.len(),
        forall|j: int| 0 <= j < ok.len() ==> ok[j],
    ensures
        done_count_from(s, rule, ok, i) == qualifying_count_from(s, rule, i),
        done_size_from(s, rule, ok, i) == qualifying_size_from(s, rule, i),
    decreases s.len() - i,
{
    if i < s.len() {
        lemma_done_all_ok(s, rule, ok, i + 1);
    }
}

/// Fold of per-category statistics into a run total, merged back to front.
pub open spec fn fold_stats_from(s: Seq<CleanupStats>, i: int) -> CleanupStats
    decreases s.len() - i,
{
    if i < 0 || i >= s.len() {
        CleanupStats { files_removed: 0, space_freed: 0 }
    } else {
        s[i].spec_add(fold_stats_from(s, i + 1))
    }
}

/// Total of a run: the fold of its per-category statistics.
pub fn total_of(list: &Vec<CleanupStats>) -> (t: CleanupStats)
    ensures
        t == fold_stats_from(list@, 0),
{
    let mut acc = CleanupStats::new();
    let mut i: usize = list.len();
    while i > 0
        invariant
            i <= list.len(),
            acc == fold_stats_from(list@, i as int),
        decreases i,
    {
        i = i - 1;
        let mut x = list[i];
        x.add(&acc);
        acc = x;
    }
    acc
}

/// Freed-space estimate after an external cleanup tool ran over a location
/// it owns: the measured shrink, or half the prior size when no shrink
/// was measured.
pub fn external_cleanup_freed(before: u64, after: u64) -> (r: u64)
    ensures
        r == (if after < before {
            (before - after) as u64
        } else {
            before / 2
        }),
{
    if after < before {
        before - after
    } else {
        before / 2
    }
}

/// Freed-amount estimate after a memory purge, from the inactive amounts
/// before and after: the measured drop, or the whole prior amount when the
/// measurement did not drop.
pub fn purge_freed_amount(before: u64, after: u64) -> (r: u64)
    ensures
        r == (if after < before {
            (before - after) as u64
        } else {
            before
        }),
{
    if after < before {
        before - after
    } else {
        before
    }
}

} // verus!

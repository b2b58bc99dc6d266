use maccleanup::cleaner::clean;
use maccleanup::cleaner::removal_plan;
use maccleanup::cleaner::stats_from_outcomes;
use maccleanup::cleaner::ExecutionMode;
use maccleanup::estimator::aged_size;
use maccleanup::estimator::clamped_total;
use maccleanup::estimator::measure_qualifying;
use maccleanup::model::directory_size;
use maccleanup::model::entry_total_size;
use maccleanup::model::Directory;
use maccleanup::model::Entry;
use maccleanup::model::EntryKind;
use maccleanup::retention::cache_retention_days;
use maccleanup::retention::elapsed_days;
use maccleanup::retention::name_is_protected;
use maccleanup::retention::qualifies;
use maccleanup::retention::RetentionRule;
use maccleanup::stats::CleanupStats;

const DAY: u64 = 86400;

fn file(name: &str, age_days: u64, size: u64) -> Entry {
    Entry {
        name: name.as_bytes().to_vec(),
        age_secs: Some(age_days * DAY),
        kind: EntryKind::File { size },
    }
}

fn dir(name: &str, age_days: u64, children: Vec<Entry>) -> Entry {
    Entry {
        name: name.as_bytes().to_vec(),
        age_secs: Some(age_days * DAY),
        kind: EntryKind::Dir { children },
    }
}

#[test]
fn recursive_size_sums_whole_subtrees() {
    let d = Directory {
        entries: vec![
            file("a", 1, 10),
            dir("sub", 1, vec![file("b", 1, 20), dir("deeper", 1, vec![file("c", 1, 30)])]),
            dir("empty", 1, vec![]),
        ],
    };
    assert_eq!(directory_size(&d), 60);
    assert_eq!(entry_total_size(&d.entries[1]), 50);
}

#[test]
fn elapsed_days_truncates_partial_days() {
    assert_eq!(elapsed_days(0), 0);
    assert_eq!(elapsed_days(DAY - 1), 0);
    assert_eq!(elapsed_days(DAY), 1);
    assert_eq!(elapsed_days(10 * DAY + DAY - 1), 10);
}

#[test]
fn age_boundary_exactly_k_days_qualifies() {
    let rule = RetentionRule { min_age_days: Some(7) };
    let at_threshold = Entry {
        name: b"old.log".to_vec(),
        age_secs: Some(7 * DAY),
        kind: EntryKind::File { size: 1 },
    };
    let one_second_short = Entry {
        name: b"young.log".to_vec(),
        age_secs: Some(7 * DAY - 1),
        kind: EntryKind::File { size: 1 },
    };
    assert!(qualifies(&at_threshold, &rule));
    assert!(!qualifies(&one_second_short, &rule));
}

#[test]
fn protected_names_never_qualify() {
    assert!(name_is_protected(&b".DS_Store".to_vec()));
    assert!(name_is_protected(&b".cache".to_vec()));
    assert!(!name_is_protected(&b"notes.txt".to_vec()));
    let ancient_marker = Entry {
        name: b".DS_Store".to_vec(),
        age_secs: Some(10000 * DAY),
        kind: EntryKind::File { size: 50 },
    };
    assert!(!qualifies(&ancient_marker, &RetentionRule { min_age_days: None }));
    assert!(!qualifies(&ancient_marker, &RetentionRule { min_age_days: Some(0) }));
}

#[test]
fn unknown_modification_time_is_fail_safe_under_age_rule() {
    let undated = Entry {
        name: b"mystery.bin".to_vec(),
        age_secs: None,
        kind: EntryKind::File { size: 9 },
    };
    // With a minimum age the engine never removes what it cannot date.
    assert!(!qualifies(&undated, &RetentionRule { min_age_days: Some(0) }));
    // A full clear does not consult the age at all.
    assert!(qualifies(&undated, &RetentionRule { min_age_days: None }));
}

#[test]
fn aged_size_sums_qualifying_children_only() {
    let d = Directory {
        entries: vec![
            file("a.txt", 10, 100),
            file(".DS_Store", 100, 50),
            file("b.log", 3, 200),
            // A qualifying directory counts with its entire subtree.
            dir("bundle", 30, vec![file("inner-new", 0, 400), file("inner-old", 90, 600)]),
        ],
    };
    assert_eq!(aged_size(&d, 7), 100 + 1000);
    assert_eq!(aged_size(&d, 11), 1000);
    assert_eq!(aged_size(&d, 31), 0);
}

#[test]
fn scenario_mixed_ages_force_clean() {
    let d = Directory {
        entries: vec![
            file("a.txt", 10, 100),
            file(".DS_Store", 100, 50),
            file("b.log", 3, 200),
        ],
    };
    let rule = RetentionRule { min_age_days: Some(7) };
    let (after, stats) = clean(d, &rule, ExecutionMode::Force);
    assert_eq!(stats, CleanupStats { files_removed: 1, space_freed: 100 });
    assert_eq!(after.entries.len(), 2);
    assert_eq!(after.entries[0].name, b".DS_Store".to_vec());
    assert_eq!(after.entries[1].name, b"b.log".to_vec());
}

#[test]
fn scenario_trash_full_clear() {
    let d = Directory {
        entries: vec![
            file("one.zip", 3, 2000),
            file("two.dmg", 0, 2500),
            file("three.txt", 400, 500),
        ],
    };
    let rule = RetentionRule { min_age_days: None };
    let (after, stats) = clean(d, &rule, ExecutionMode::Force);
    assert_eq!(stats, CleanupStats { files_removed: 3, space_freed: 5000 });
    assert_eq!(after.entries.len(), 0);
}

#[test]
fn dry_run_changes_nothing_and_is_idempotent() {
    let d = Directory {
        entries: vec![file("a.txt", 10, 100), file("b.log", 3, 200), file(".keep", 90, 5)],
    };
    let rule = RetentionRule { min_age_days: Some(7) };
    let (d1, s1) = clean(d, &rule, ExecutionMode::DryRun);
    assert_eq!(d1.entries.len(), 3);
    let (d2, s2) = clean(d1, &rule, ExecutionMode::DryRun);
    assert_eq!(s1, s2);
    assert_eq!(s1, CleanupStats { files_removed: 1, space_freed: 100 });
    assert_eq!(d2.entries.len(), 3);
    assert_eq!(d2.entries[0].name, b"a.txt".to_vec());
}

#[test]
fn force_clean_leaves_no_qualifying_entry() {
    let d = Directory {
        entries: vec![
            file("x", 10, 1),
            file(".hidden", 10, 2),
            dir("old-dir", 10, vec![file("in", 10, 7)]),
            file("young", 0, 3),
        ],
    };
    let rule = RetentionRule { min_age_days: Some(5) };
    let (after, stats) = clean(d, &rule, ExecutionMode::Force);
    assert_eq!(stats, CleanupStats { files_removed: 2, space_freed: 8 });
    for e in &after.entries {
        assert!(!qualifies(e, &rule));
    }
    assert_eq!(after.entries.len(), 2);
}

#[test]
fn measurement_agrees_with_clean_statistics() {
    let d = Directory {
        entries: vec![file("a", 9, 11), file("b", 1, 13), dir("c", 20, vec![file("i", 1, 17)])],
    };
    let rule = RetentionRule { min_age_days: Some(8) };
    let (count, size) = measure_qualifying(&d, &rule);
    let (_, stats) = clean(d, &rule, ExecutionMode::Force);
    assert_eq!(count, stats.files_removed);
    assert_eq!(size, stats.space_freed);
    assert_eq!((count, size), (2, 28));
}

#[test]
fn removal_plan_marks_exactly_the_qualifying_entries() {
    let d = Directory {
        entries: vec![file("a", 9, 11), file(".a", 9, 1), file("b", 1, 13)],
    };
    let rule = RetentionRule { min_age_days: Some(5) };
    let plan = removal_plan(&d, &rule, ExecutionMode::Force);
    assert!(plan.execute);
    assert_eq!(plan.remove, vec![true, false, false]);
    assert_eq!(plan.sizes, vec![11, 1, 13]);
}

#[test]
fn dry_run_plan_forbids_execution() {
    let d = Directory { entries: vec![file("a", 9, 11)] };
    let rule = RetentionRule { min_age_days: None };
    let plan = removal_plan(&d, &rule, ExecutionMode::DryRun);
    assert!(!plan.execute);
    let forced = removal_plan(&d, &rule, ExecutionMode::Force);
    assert!(forced.execute);
}

#[test]
fn failed_removal_gets_no_partial_credit() {
    let d = Directory {
        entries: vec![file("a", 9, 100), file("b", 9, 200), file("c", 9, 400)],
    };
    let rule = RetentionRule { min_age_days: Some(1) };
    let plan = removal_plan(&d, &rule, ExecutionMode::Force);
    let outcomes = vec![true, false, true];
    let stats = stats_from_outcomes(&plan, &outcomes);
    assert_eq!(stats, CleanupStats { files_removed: 2, space_freed: 500 });
}

#[test]
fn outcomes_on_unplanned_entries_are_ignored() {
    let d = Directory { entries: vec![file(".p", 9, 100), file("q", 0, 200)] };
    let rule = RetentionRule { min_age_days: Some(5) };
    let plan = removal_plan(&d, &rule, ExecutionMode::Force);
    // Nothing qualifies; reported successes change nothing.
    let stats = stats_from_outcomes(&plan, &vec![true, true]);
    assert_eq!(stats, CleanupStats { files_removed: 0, space_freed: 0 });
}

#[test]
fn stats_accumulate_pairwise() {
    let mut total = CleanupStats::new();
    total.add(&CleanupStats { files_removed: 2, space_freed: 300 });
    total.add(&CleanupStats { files_removed: 5, space_freed: 700 });
    assert_eq!(total, CleanupStats { files_removed: 7, space_freed: 1000 });
}

#[test]
fn stats_addition_saturates_instead_of_wrapping() {
    let mut total = CleanupStats { files_removed: usize::MAX - 1, space_freed: u64::MAX - 1 };
    total.add(&CleanupStats { files_removed: 5, space_freed: 5 });
    assert_eq!(total, CleanupStats { files_removed: usize::MAX, space_freed: u64::MAX });
}

#[test]
fn clamped_total_saturates() {
    assert_eq!(clamped_total(&vec![1, 2, 3]), 6);
    assert_eq!(clamped_total(&vec![]), 0);
    assert_eq!(clamped_total(&vec![u64::MAX, 1]), u64::MAX);
    assert_eq!(clamped_total(&vec![u64::MAX - 5, 3, 3]), u64::MAX);
}

#[test]
fn cache_retention_is_longer_for_system_roots() {
    assert_eq!(cache_retention_days(&b"/System/Library/Caches".to_vec()), 7);
    assert_eq!(cache_retention_days(&b"/Library/Caches".to_vec()), 7);
    assert_eq!(cache_retention_days(&b"/Users/me/Library/Caches".to_vec()), 1);
    assert_eq!(cache_retention_days(&b"/Users/me/.cache".to_vec()), 1);
}

#[test]
fn missing_root_yields_empty_stats() {
    // A root that does not exist is captured as an empty snapshot.
    let d = Directory { entries: vec![] };
    let rule = RetentionRule { min_age_days: None };
    let (after, stats) = clean(d, &rule, ExecutionMode::Force);
    assert_eq!(stats, CleanupStats { files_removed: 0, space_freed: 0 });
    assert_eq!(after.entries.len(), 0);
}

use maccleanup::cleaner::ExecutionMode;
use maccleanup::model::Directory;
use maccleanup::model::Entry;
use maccleanup::model::EntryKind;
use maccleanup::orchestrator::category_outcome;
use maccleanup::orchestrator::external_cleanup_freed;
use maccleanup::orchestrator::gate_allows;
use maccleanup::orchestrator::is_affirmative;
use maccleanup::orchestrator::mode_from_flags;
use maccleanup::orchestrator::purge_freed_amount;
use maccleanup::orchestrator::run_category;
use maccleanup::orchestrator::total_of;
use maccleanup::orchestrator::CategoryOutcome;
use maccleanup::retention::RetentionRule;
use maccleanup::stats::CleanupStats;

const DAY: u64 = 86400;

fn file(name: &str, age_days: u64, size: u64) -> Entry {
    Entry {
        name: name.as_bytes().to_vec(),
        age_secs: Some(age_days * DAY),
        kind: EntryKind::File { size },
    }
}

fn sample_dir() -> Directory {
    Directory {
        entries: vec![file("a.log", 10, 100), file("b.log", 10, 200), file("new.log", 0, 400)],
    }
}

#[test]
fn dry_run_wins_over_every_other_flag() {
    assert_eq!(mode_from_flags(true, true, true), ExecutionMode::DryRun);
    assert_eq!(mode_from_flags(false, true, false), ExecutionMode::DryRun);
}

#[test]
fn force_takes_precedence_over_interactive() {
    assert_eq!(mode_from_flags(true, false, true), ExecutionMode::Force);
    assert_eq!(mode_from_flags(true, false, false), ExecutionMode::Interactive);
    assert_eq!(mode_from_flags(false, false, false), ExecutionMode::Force);
}

#[test]
fn gate_never_opens_under_dry_run() {
    assert!(!gate_allows(ExecutionMode::DryRun, true));
    assert!(!gate_allows(ExecutionMode::DryRun, false));
    assert!(gate_allows(ExecutionMode::Force, false));
    assert!(gate_allows(ExecutionMode::Interactive, true));
    assert!(!gate_allows(ExecutionMode::Interactive, false));
}

#[test]
fn affirmative_replies_are_y_or_yes_after_trimming() {
    assert!(is_affirmative(&b"y\n".to_vec()));
    assert!(is_affirmative(&b"  YES  ".to_vec()));
    assert!(is_affirmative(&b"Yes\r\n".to_vec()));
    assert!(!is_affirmative(&b"no\n".to_vec()));
    assert!(!is_affirmative(&b"".to_vec()));
    assert!(!is_affirmative(&b"   ".to_vec()));
    assert!(!is_affirmative(&b"y es".to_vec()));
    assert!(!is_affirmative(&b"yess".to_vec()));
}

#[test]
fn missing_prerequisite_skips_the_category() {
    let d = sample_dir();
    let rule = RetentionRule { min_age_days: Some(7) };
    let outcomes = vec![false, false, false];
    let (outcome, stats) = run_category(false, &d, &rule, ExecutionMode::Force, false, &outcomes);
    assert_eq!(outcome, CategoryOutcome::Skipped);
    assert_eq!(stats, CleanupStats { files_removed: 0, space_freed: 0 });
}

#[test]
fn dry_run_simulates_and_reports_what_force_would_free() {
    let d = sample_dir();
    let rule = RetentionRule { min_age_days: Some(7) };
    let outcomes = vec![false, false, false];
    let (outcome, simulated) = run_category(true, &d, &rule, ExecutionMode::DryRun, false, &outcomes);
    assert_eq!(outcome, CategoryOutcome::Simulated);
    // A later Force run over the unchanged snapshot, all removals
    // succeeding, frees exactly the simulated amount.
    let all_succeed = vec![true, true, true];
    let (forced, executed) = run_category(true, &d, &rule, ExecutionMode::Force, false, &all_succeed);
    assert_eq!(forced, CategoryOutcome::Cleaned);
    assert_eq!(simulated, executed);
    assert_eq!(executed, CleanupStats { files_removed: 2, space_freed: 300 });
}

#[test]
fn declined_interactive_category_is_skipped() {
    let d = sample_dir();
    let rule = RetentionRule { min_age_days: Some(7) };
    let outcomes = vec![true, true, true];
    let (outcome, stats) = run_category(true, &d, &rule, ExecutionMode::Interactive, false, &outcomes);
    assert_eq!(outcome, CategoryOutcome::Skipped);
    assert_eq!(stats, CleanupStats { files_removed: 0, space_freed: 0 });
    let (approved, stats2) = run_category(true, &d, &rule, ExecutionMode::Interactive, true, &outcomes);
    assert_eq!(approved, CategoryOutcome::Cleaned);
    assert_eq!(stats2, CleanupStats { files_removed: 2, space_freed: 300 });
}

#[test]
fn no_success_despite_candidates_is_a_failure() {
    let d = sample_dir();
    let rule = RetentionRule { min_age_days: Some(7) };
    let none_succeed = vec![false, false, false];
    let (outcome, stats) = run_category(true, &d, &rule, ExecutionMode::Force, false, &none_succeed);
    assert_eq!(outcome, CategoryOutcome::Failed);
    assert_eq!(stats, CleanupStats { files_removed: 0, space_freed: 0 });
}

#[test]
fn empty_category_cleans_vacuously() {
    let d = Directory { entries: vec![] };
    let rule = RetentionRule { min_age_days: None };
    let outcomes: Vec<bool> = vec![];
    let (outcome, stats) = run_category(true, &d, &rule, ExecutionMode::Force, false, &outcomes);
    assert_eq!(outcome, CategoryOutcome::Cleaned);
    assert_eq!(stats, CleanupStats { files_removed: 0, space_freed: 0 });
}

#[test]
fn partial_success_still_counts_as_cleaned() {
    let d = sample_dir();
    let rule = RetentionRule { min_age_days: Some(7) };
    let outcomes = vec![true, false, false];
    let (outcome, stats) = run_category(true, &d, &rule, ExecutionMode::Force, false, &outcomes);
    assert_eq!(outcome, CategoryOutcome::Cleaned);
    assert_eq!(stats, CleanupStats { files_removed: 1, space_freed: 100 });
}

#[test]
fn category_outcome_table() {
    assert_eq!(category_outcome(false, ExecutionMode::Force, true, 5, 5), CategoryOutcome::Skipped);
    assert_eq!(
        category_outcome(true, ExecutionMode::DryRun, false, 5, 0),
        CategoryOutcome::Simulated
    );
    assert_eq!(category_outcome(true, ExecutionMode::Force, false, 0, 0), CategoryOutcome::Cleaned);
    assert_eq!(category_outcome(true, ExecutionMode::Force, false, 3, 0), CategoryOutcome::Failed);
    assert_eq!(category_outcome(true, ExecutionMode::Force, false, 3, 1), CategoryOutcome::Cleaned);
}

#[test]
fn run_total_is_the_fold_of_category_statistics() {
    let per_category = vec![
        CleanupStats { files_removed: 1, space_freed: 100 },
        CleanupStats { files_removed: 0, space_freed: 0 },
        CleanupStats { files_removed: 4, space_freed: 2500 },
    ];
    let total = total_of(&per_category);
    assert_eq!(total, CleanupStats { files_removed: 5, space_freed: 2600 });
    assert_eq!(total_of(&vec![]), CleanupStats { files_removed: 0, space_freed: 0 });
}

#[test]
fn external_tool_freed_estimates() {
    assert_eq!(external_cleanup_freed(1000, 400), 600);
    assert_eq!(external_cleanup_freed(1000, 1000), 500);
    assert_eq!(external_cleanup_freed(400, 1000), 200);
    assert_eq!(purge_freed_amount(900, 300), 600);
    assert_eq!(purge_freed_amount(300, 900), 300);
}

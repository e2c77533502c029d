use clean_recursive::collect::{collect, CleanOutcome};
use clean_recursive::policy::IoErrorHandling;
use clean_recursive::report::summary_line;
use clean_recursive::walk::{walk, DirNode, ListingStatus};

fn finished(success: bool, output: &str) -> CleanOutcome {
    CleanOutcome::Finished { success, output: output.to_string() }
}

#[test]
fn no_executions_total_zero() {
    let report = collect(&Vec::new(), false);
    assert_eq!(report.total, 0);
    assert!(report.warnings.is_empty());
}

#[test]
fn single_successful_execution_sets_total() {
    let outcomes = vec![finished(true, "Removed 2020 files, 986.5MiB total")];
    let report = collect(&outcomes, false);
    assert_eq!(report.total, 1034420224);
    assert!(report.warnings.is_empty());
}

#[test]
fn failed_execution_is_ignored_successful_one_counts() {
    let outcomes = vec![
        finished(false, "Removed 9 files, 986.5MiB total"),
        finished(true, "Removed 5 files, 1.2MiB total"),
    ];
    let report = collect(&outcomes, false);
    assert_eq!(report.total, 1258291);
    assert!(report.warnings.is_empty());
}

#[test]
fn dry_run_summary_zero_contributes_nothing() {
    let outcomes = vec![finished(true, "Summary 0 files")];
    let report = collect(&outcomes, true);
    assert_eq!(report.total, 0);
    assert!(report.warnings.is_empty());
}

#[test]
fn removed_zero_contributes_nothing_without_warning() {
    let outcomes = vec![finished(true, "Removed 0 files")];
    let report = collect(&outcomes, false);
    assert_eq!(report.total, 0);
    assert!(report.warnings.is_empty());
}

#[test]
fn unparsable_output_warns_once_and_adds_nothing() {
    let outcomes = vec![
        finished(true, "complete gibberish"),
        finished(true, "Removed 12 files, 1024 total"),
    ];
    let report = collect(&outcomes, false);
    assert_eq!(report.total, 1024);
    assert_eq!(report.warnings, vec![0]);
}

#[test]
fn wait_failure_contributes_zero_without_warning() {
    let outcomes = vec![CleanOutcome::WaitFailed, finished(true, "Removed 12 files, 1024 total")];
    let report = collect(&outcomes, false);
    assert_eq!(report.total, 1024);
    assert!(report.warnings.is_empty());
}

#[test]
fn totals_sum_and_are_order_independent() {
    let forward = vec![
        finished(true, "Removed 1 files, 1024 total"),
        finished(true, "Removed 2 files, 2048 total"),
    ];
    let backward = vec![
        finished(true, "Removed 2 files, 2048 total"),
        finished(true, "Removed 1 files, 1024 total"),
    ];
    assert_eq!(collect(&forward, false).total, 3072);
    assert_eq!(collect(&backward, false).total, 3072);
}

#[test]
fn warnings_list_every_offender_in_order() {
    let outcomes = vec![
        finished(true, "bad"),
        finished(true, "Removed 0 files"),
        finished(true, "also bad"),
        finished(false, "worse"),
    ];
    let report = collect(&outcomes, false);
    assert_eq!(report.total, 0);
    assert_eq!(report.warnings, vec![0, 2]);
}

fn listed_dir(name: &str, has_marker: bool, children: Vec<DirNode>) -> DirNode {
    DirNode { name: name.to_string(), has_marker, listing: ListingStatus::Listed, children }
}

#[test]
fn full_run_over_a_model_tree() {
    let root = listed_dir(
        "home",
        false,
        vec![listed_dir("stale", true, Vec::new()), listed_dir("fresh", true, Vec::new())],
    );
    let skips = vec![".git".to_string(), ".rustup".to_string(), ".cargo".to_string()];
    let report = walk(&root, 64, &skips, IoErrorHandling::RaiseUnexpected);
    assert_eq!(report.dispatched.len(), 2);
    assert!(!report.root_fatal);

    // one external command refuses, the other reports its freed size
    let outcomes = vec![
        CleanOutcome::Finished { success: false, output: "error: bad manifest".to_string() },
        CleanOutcome::Finished {
            success: true,
            output: "Removed 2020 files, 986.5MiB total".to_string(),
        },
    ];
    let result = collect(&outcomes, false);
    assert_eq!(result.total, 1034420224);
    assert!(result.warnings.is_empty());
    assert_eq!(summary_line(result.total, false), "Total space saved: 986.5MiB");
}

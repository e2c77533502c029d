use clean_recursive::policy::{IoErrorHandling, IoErrorKind};
use clean_recursive::walk::{walk, DirNode, ListingStatus};

fn dir(name: &str, has_marker: bool, children: Vec<DirNode>) -> DirNode {
    DirNode { name: name.to_string(), has_marker, listing: ListingStatus::Listed, children }
}

fn unreadable(name: &str, has_marker: bool, kind: IoErrorKind) -> DirNode {
    DirNode {
        name: name.to_string(),
        has_marker,
        listing: ListingStatus::Failed(kind),
        children: Vec::new(),
    }
}

fn default_skips() -> Vec<String> {
    vec![".git".to_string(), ".rustup".to_string(), ".cargo".to_string()]
}

fn path(components: &[&str]) -> Vec<String> {
    components.iter().map(|c| c.to_string()).collect()
}

#[test]
fn empty_tree_dispatches_nothing() {
    let root = dir("home", false, vec![dir("a", false, Vec::new()), dir("b", false, Vec::new())]);
    let report = walk(&root, 64, &default_skips(), IoErrorHandling::RaiseUnexpected);
    assert!(report.dispatched.is_empty());
    assert!(report.failed.is_empty());
    assert!(!report.root_fatal);
}

#[test]
fn single_project_at_depth_two_is_dispatched() {
    let root = dir("home", false, vec![dir("proj", true, Vec::new())]);
    let report = walk(&root, 64, &default_skips(), IoErrorHandling::RaiseUnexpected);
    assert_eq!(report.dispatched, vec![path(&["home", "proj"])]);
    assert!(!report.root_fatal);
}

#[test]
fn project_inside_git_directory_is_never_visited() {
    let root = dir(
        "home",
        false,
        vec![
            dir(".git", false, vec![dir("nested", true, Vec::new())]),
            dir("proj", true, Vec::new()),
        ],
    );
    let report = walk(&root, 64, &default_skips(), IoErrorHandling::RaiseUnexpected);
    assert_eq!(report.dispatched, vec![path(&["home", "proj"])]);
}

#[test]
fn marked_skip_directory_itself_is_not_dispatched() {
    let root = dir("home", false, vec![dir(".cargo", true, Vec::new())]);
    let report = walk(&root, 64, &default_skips(), IoErrorHandling::RaiseUnexpected);
    assert!(report.dispatched.is_empty());
}

#[test]
fn depth_zero_dispatches_nothing() {
    let root = dir("home", true, vec![dir("proj", true, Vec::new())]);
    let report = walk(&root, 0, &default_skips(), IoErrorHandling::RaiseUnexpected);
    assert!(report.dispatched.is_empty());
    assert!(report.failed.is_empty());
    assert!(!report.root_fatal);
}

#[test]
fn depth_one_cleans_the_root_and_looks_no_deeper() {
    let root = dir("home", true, vec![dir("proj", true, Vec::new())]);
    let report = walk(&root, 1, &default_skips(), IoErrorHandling::RaiseUnexpected);
    assert_eq!(report.dispatched, vec![path(&["home"])]);
}

#[test]
fn permission_denied_skips_subtree_under_raise_unexpected() {
    let root = dir(
        "home",
        false,
        vec![
            unreadable("locked", true, IoErrorKind::PermissionDenied),
            dir("proj", true, Vec::new()),
        ],
    );
    let report = walk(&root, 64, &default_skips(), IoErrorHandling::RaiseUnexpected);
    // the unreadable directory is still detected before listing fails;
    // its subtree is pruned, its sibling runs, nothing is fatal
    assert_eq!(report.dispatched, vec![path(&["home", "locked"]), path(&["home", "proj"])]);
    assert!(report.failed.is_empty());
    assert!(!report.root_fatal);
}

#[test]
fn permission_denied_is_fatal_to_the_subtree_under_raise_all() {
    let root = dir(
        "home",
        false,
        vec![
            unreadable("locked", true, IoErrorKind::PermissionDenied),
            dir("proj", true, Vec::new()),
        ],
    );
    let report = walk(&root, 64, &default_skips(), IoErrorHandling::RaiseAll);
    assert_eq!(report.dispatched, vec![path(&["home", "locked"]), path(&["home", "proj"])]);
    assert_eq!(report.failed, vec![path(&["home", "locked"])]);
    assert!(!report.root_fatal);
}

#[test]
fn other_errors_are_fatal_under_raise_unexpected() {
    let root = dir(
        "home",
        false,
        vec![unreadable("broken", false, IoErrorKind::Other), dir("proj", true, Vec::new())],
    );
    let report = walk(&root, 64, &default_skips(), IoErrorHandling::RaiseUnexpected);
    assert_eq!(report.dispatched, vec![path(&["home", "proj"])]);
    assert_eq!(report.failed, vec![path(&["home", "broken"])]);
    assert!(!report.root_fatal);
}

#[test]
fn every_error_is_swallowed_under_ignore() {
    let root = dir(
        "home",
        false,
        vec![unreadable("broken", false, IoErrorKind::Other), dir("proj", true, Vec::new())],
    );
    let report = walk(&root, 64, &default_skips(), IoErrorHandling::Ignore);
    assert_eq!(report.dispatched, vec![path(&["home", "proj"])]);
    assert!(report.failed.is_empty());
    assert!(!report.root_fatal);
}

#[test]
fn unreadable_scan_root_is_fatal_to_the_run() {
    let root = unreadable("home", false, IoErrorKind::Other);
    let report = walk(&root, 64, &default_skips(), IoErrorHandling::RaiseAll);
    assert!(report.root_fatal);
    assert_eq!(report.failed, vec![path(&["home"])]);
}

#[test]
fn empty_skip_set_visits_conventional_noise_directories() {
    let root = dir("home", false, vec![dir(".git", false, vec![dir("nested", true, Vec::new())])]);
    let report = walk(&root, 64, &Vec::new(), IoErrorHandling::RaiseUnexpected);
    assert_eq!(report.dispatched, vec![path(&["home", ".git", "nested"])]);
}

#[test]
fn deep_project_beyond_budget_is_not_dispatched() {
    let root = dir("a", false, vec![dir("b", false, vec![dir("c", true, Vec::new())])]);
    let shallow = walk(&root, 2, &default_skips(), IoErrorHandling::RaiseUnexpected);
    assert!(shallow.dispatched.is_empty());
    let deep = walk(&root, 3, &default_skips(), IoErrorHandling::RaiseUnexpected);
    assert_eq!(deep.dispatched, vec![path(&["a", "b", "c"])]);
}

#[test]
fn default_skip_names_are_the_conventional_three() {
    assert_eq!(
        clean_recursive::walk::default_skip_names(),
        vec![".git".to_string(), ".rustup".to_string(), ".cargo".to_string()]
    );
}

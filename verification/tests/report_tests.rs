use clean_recursive::policy::{classify, ErrorDisposition, IoErrorHandling, IoErrorKind};
use clean_recursive::report::summary_line;
use clean_recursive::{clean_flags, DeleteMode};

#[test]
fn zero_total_renders_compactly() {
    assert_eq!(summary_line(0, false), "Total space saved: 0B");
}

#[test]
fn binary_unit_total_renders_compactly() {
    assert_eq!(summary_line(1034420224, false), "Total space saved: 986.5MiB");
}

#[test]
fn small_total_renders_compactly() {
    assert_eq!(summary_line(1258291, false), "Total space saved: 1.2MiB");
}

#[test]
fn dry_run_changes_the_wording() {
    assert_eq!(summary_line(0, true), "Total space that will be saved: 0B");
}

#[test]
fn no_flags_for_a_default_mode() {
    let mode = DeleteMode { doc: false, release: false, dry_run: false };
    assert!(clean_flags(mode).is_empty());
}

#[test]
fn all_flags_in_order() {
    let mode = DeleteMode { doc: true, release: true, dry_run: true };
    assert_eq!(clean_flags(mode), vec!["--release", "--doc", "--dry-run"]);
}

#[test]
fn each_flag_is_independent() {
    assert_eq!(
        clean_flags(DeleteMode { doc: true, release: false, dry_run: false }),
        vec!["--doc"]
    );
    assert_eq!(
        clean_flags(DeleteMode { doc: false, release: true, dry_run: false }),
        vec!["--release"]
    );
    assert_eq!(
        clean_flags(DeleteMode { doc: false, release: false, dry_run: true }),
        vec!["--dry-run"]
    );
}

#[test]
fn mode_getters_report_their_fields() {
    let mode = DeleteMode { doc: true, release: false, dry_run: true };
    assert!(mode.do_doc());
    assert!(!mode.do_release());
}

#[test]
fn ignore_policy_skips_everything() {
    assert_eq!(
        classify(IoErrorKind::PermissionDenied, IoErrorHandling::Ignore),
        ErrorDisposition::Skip
    );
    assert_eq!(classify(IoErrorKind::Other, IoErrorHandling::Ignore), ErrorDisposition::Skip);
}

#[test]
fn raise_unexpected_skips_only_permission_denied() {
    assert_eq!(
        classify(IoErrorKind::PermissionDenied, IoErrorHandling::RaiseUnexpected),
        ErrorDisposition::Skip
    );
    assert_eq!(
        classify(IoErrorKind::Other, IoErrorHandling::RaiseUnexpected),
        ErrorDisposition::Fatal
    );
}

#[test]
fn raise_all_is_always_fatal() {
    assert_eq!(
        classify(IoErrorKind::PermissionDenied, IoErrorHandling::RaiseAll),
        ErrorDisposition::Fatal
    );
    assert_eq!(classify(IoErrorKind::Other, IoErrorHandling::RaiseAll), ErrorDisposition::Fatal);
}

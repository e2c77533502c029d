use clean_recursive::outcome::{line_outcome, LineOutcome};
use clean_recursive::text::{eq_str, report_line, split_tokens};

#[test]
fn removed_zero_files_is_silent_zero() {
    assert_eq!(line_outcome("Removed 0 files", false), LineOutcome::AlreadyClean);
}

#[test]
fn summary_zero_files_is_silent_zero_in_dry_run() {
    assert_eq!(line_outcome("Summary 0 files", true), LineOutcome::AlreadyClean);
}

#[test]
fn summary_zero_files_is_not_the_pattern_outside_dry_run() {
    assert_eq!(line_outcome("Summary 0 files", false), LineOutcome::Unparsable);
}

#[test]
fn removed_zero_files_is_not_the_pattern_in_dry_run() {
    assert_eq!(line_outcome("Removed 0 files", true), LineOutcome::Unparsable);
}

#[test]
fn parses_fourth_token_as_size() {
    assert_eq!(
        line_outcome("Removed 2020 files, 986.5MiB total", false),
        LineOutcome::Freed(1034420224)
    );
}

#[test]
fn parses_small_fractional_size() {
    assert_eq!(
        line_outcome("Removed 5 files, 1.2MiB total", false),
        LineOutcome::Freed(1258291)
    );
}

#[test]
fn parses_plain_byte_count_token() {
    assert_eq!(
        line_outcome("Removed 12 files, 1024 total", false),
        LineOutcome::Freed(1024)
    );
}

#[test]
fn trims_and_reads_only_the_first_line() {
    assert_eq!(
        line_outcome("  Removed 2020 files, 986.5MiB total\nsecond line ignored", false),
        LineOutcome::Freed(1034420224)
    );
}

#[test]
fn unparsable_size_token_is_flagged() {
    assert_eq!(
        line_outcome("Removed 2020 files, nonsense total", false),
        LineOutcome::Unparsable
    );
}

#[test]
fn too_few_tokens_is_flagged() {
    assert_eq!(line_outcome("Removed things", false), LineOutcome::Unparsable);
}

#[test]
fn empty_output_is_flagged() {
    assert_eq!(line_outcome("", false), LineOutcome::Unparsable);
}

#[test]
fn report_line_trims_and_cuts_at_newline() {
    // the whole text is trimmed before the cut, so whitespace standing
    // before an inner newline stays
    assert_eq!(report_line("  hi there \nrest"), "hi there ");
    assert_eq!(report_line("  hi there  "), "hi there");
    assert_eq!(report_line("\t\n  \n"), "");
    assert_eq!(report_line("plain"), "plain");
}

#[test]
fn split_tokens_on_whitespace() {
    let tokens = split_tokens("Removed 2020  files,\t986.5MiB total");
    let expected: Vec<String> = vec![
        "Removed".to_string(),
        "2020".to_string(),
        "files,".to_string(),
        "986.5MiB".to_string(),
        "total".to_string(),
    ];
    assert_eq!(tokens, expected);
}

#[test]
fn eq_str_compares_by_characters() {
    assert!(eq_str("Removed 0 files", "Removed 0 files"));
    assert!(!eq_str("Removed 0 files", "Removed 0 file"));
    assert!(!eq_str("a", "b"));
    assert!(eq_str("", ""));
}

//! Best-effort parsing of one execution's captured output.
//!
//! The external command reports on its first line either an exact
//! nothing-to-do sentence or a sentence whose fourth whitespace-separated
//! token is a human-readable byte-size literal. Anything else is unparsable
//! and contributes nothing, with a warning owed to the operator.

use vstd::prelude::*;

use crate::text::{eq_str, first_line, report_line, split_tokens, tokens_of, trimmed, views_of};

verus! {

/// What one successfully completed execution's first line says.
#[derive(Debug, Clone, Copy, PartialEq, Eq, Structural)]
pub enum LineOutcome {
    /// The exact nothing-was-reclaimed sentence: contributes zero, silently.
    AlreadyClean,
    /// A reclaimed byte count, parsed from the size token.
    Freed(u64),
    /// Neither pattern: contributes zero and warrants one warning.
    Unparsable,
}

/// The exact first line that signals an empty cleanup, conditioned on
/// dry-run mode.
pub open spec fn zero_pattern(dry_run: bool) -> Seq<char> {
    if dry_run {
        "Summary 0 files"@
    } else {
        "Removed 0 files"@
    }
}

/// The byte count that the size parser of the `bytesize` crate reads from
/// one token, if any; a pure function of the token's characters.
pub uninterp spec fn parsed_size(token: Seq<char>) -> Option<u64>;

/// Relies on `bytesize::ByteSize::from_str`: the result depends on the
/// token's characters alone, and `Ok` carries the parsed byte count.
#[verifier::external_body]
fn parse_size_token(token: &str) -> (r: Option<u64>)
    ensures
        r == parsed_size(token@),
{
    match <bytesize::ByteSize as core::str::FromStr>::from_str(token) {
        Ok(size) => Some(size.as_u64()),
        Err(_) => None,
    }
}

/// How one captured output is read: the text is trimmed and cut at its
/// first newline; the exact zero pattern contributes nothing; otherwise the
/// fourth whitespace-separated token is read as a byte-size literal, and a
/// line without a parsable fourth token is unparsable.
pub open spec fn spec_line_outcome(text: Seq<char>, dry_run: bool) -> LineOutcome {
    let line = first_line(trimmed(text));
    if line == zero_pattern(dry_run) {
        LineOutcome::AlreadyClean
    } else if tokens_of(line).len() < 4 {
        LineOutcome::Unparsable
    } else {
        match parsed_size(tokens_of(line)[3]) {
            Some(n) => LineOutcome::Freed(n),
            None => LineOutcome::Unparsable,
        }
    }
}

/// Classifies one captured output.
pub fn line_outcome(text: &str, dry_run: bool) -> (r: LineOutcome)
    ensures
        r == spec_line_outcome(text@, dry_run),
{
    let line = report_line(text);
    let pattern = if dry_run {
        "Summary 0 files"
    } else {
        "Removed 0 files"
    };
    if eq_str(line, pattern) {
        return LineOutcome::AlreadyClean;
    }
    let tokens = split_tokens(line);
    if tokens.len() < 4 {
        proof {
            assert(tokens_of(line@).len() == views_of(tokens@).len());
        }
        return LineOutcome::Unparsable;
    }
    proof {
        assert(tokens_of(line@)[3] == views_of(tokens@)[3]);
    }
    match parse_size_token(tokens[3].as_str()) {
        Some(n) => LineOutcome::Freed(n),
        None => LineOutcome::Unparsable,
    }
}

} // verus!

//! Recursively scans a directory tree for project roots holding a marker
//! manifest, dispatches one external cleanup command per root, and aggregates
//! the freed-space totals those commands report.
//!
//! The crate holds the decision logic: which directories are visited and
//! dispatched against, how traversal I/O failures are classified, how a
//! command's report line is parsed, and how the totals are summed and
//! rendered. Listing real directories, spawning the external command and
//! waiting on it are left to the surrounding program, which hands this
//! library plain values: a tree of directory names with their marker and
//! listing status, and each finished command's captured output.

use vstd::prelude::*;

pub mod collect;
pub mod outcome;
pub mod policy;
pub mod report;
pub mod text;
pub mod walk;

verus! {

/// Options that parameterize every cleanup dispatch.
#[derive(Debug, Clone, Copy, PartialEq, Eq, Structural)]
pub struct DeleteMode {
    pub doc: bool,
    pub release: bool,
    pub dry_run: bool,
}

impl DeleteMode {
    /// Whether docs artifacts are to be deleted.
    pub fn do_doc(self) -> (r: bool)
        ensures
            r == self.doc,
    {
        self.doc
    }

    /// Whether release artifacts are to be deleted.
    pub fn do_release(self) -> (r: bool)
        ensures
            r == self.release,
    {
        self.release
    }
}

/// The flags handed to the external cleanup command for one dispatch:
/// a release flag, a docs flag and a dry-run flag, in that order, each
/// present exactly when the corresponding option is set.
pub open spec fn spec_clean_flags(mode: DeleteMode) -> Seq<Seq<char>> {
    (if mode.release {
        seq!["--release"@]
    } else {
        Seq::<Seq<char>>::empty()
    }) + (if mode.doc {
        seq!["--doc"@]
    } else {
        Seq::<Seq<char>>::empty()
    }) + (if mode.dry_run {
        seq!["--dry-run"@]
    } else {
        Seq::<Seq<char>>::empty()
    })
}

/// Builds the argument list for one dispatch; the caller appends these flags
/// after the fixed external command name and its subcommand.
pub fn clean_flags(mode: DeleteMode) -> (r: Vec<String>)
    ensures
        r@.map_values(|s: String| s@) == spec_clean_flags(mode),
{
    let mut r: Vec<String> = Vec::new();
    if mode.release {
        r.push(String::from_str("--release"));
    }
    if mode.doc {
        r.push(String::from_str("--doc"));
    }
    if mode.dry_run {
        r.push(String::from_str("--dry-run"));
    }
    proof {
        assert(r@.map_values(|s: String| s@) =~= spec_clean_flags(mode));
    }
    r
}

} // verus!

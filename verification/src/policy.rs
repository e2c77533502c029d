//! Classification of traversal I/O failures.
//!
//! Every fallible filesystem read during the walk is filtered through one
//! policy, chosen once per run: swallow the failure, treat only
//! permission-denied as expected, or treat every failure as fatal to the
//! subtree whose read failed.

use vstd::prelude::*;

verus! {

/// The shape of an I/O failure, normalized to what the policy distinguishes.
#[derive(Debug, Clone, Copy, PartialEq, Eq, Structural)]
pub enum IoErrorKind {
    PermissionDenied,
    Other,
}

/// How I/O failures met during traversal are handled; exactly one value is
/// active for a whole run.
#[derive(Debug, Clone, Copy, PartialEq, Eq, Structural)]
pub enum IoErrorHandling {
    /// Every I/O failure is swallowed; the affected node is skipped.
    Ignore,
    /// Permission-denied is expected and skipped; everything else is fatal.
    RaiseUnexpected,
    /// Every I/O failure is fatal.
    RaiseAll,
}

/// What becomes of one classified failure: the affected node is skipped
/// silently, or the failure is fatal to the call that met it (caught and
/// logged one level up, except at the scan root, where it aborts the run).
#[derive(Debug, Clone, Copy, PartialEq, Eq, Structural)]
pub enum ErrorDisposition {
    Skip,
    Fatal,
}

/// The classification rule: `Ignore` skips everything, `RaiseUnexpected`
/// skips only permission-denied, `RaiseAll` skips nothing.
pub open spec fn spec_classify(kind: IoErrorKind, policy: IoErrorHandling) -> ErrorDisposition {
    match policy {
        IoErrorHandling::Ignore => ErrorDisposition::Skip,
        IoErrorHandling::RaiseUnexpected => match kind {
            IoErrorKind::PermissionDenied => ErrorDisposition::Skip,
            IoErrorKind::Other => ErrorDisposition::Fatal,
        },
        IoErrorHandling::RaiseAll => ErrorDisposition::Fatal,
    }
}

/// Classifies one I/O failure under the active policy.
pub fn classify(kind: IoErrorKind, policy: IoErrorHandling) -> (r: ErrorDisposition)
    ensures
        r == spec_classify(kind, policy),
{
    match policy {
        IoErrorHandling::Ignore => ErrorDisposition::Skip,
        IoErrorHandling::RaiseUnexpected => match kind {
            IoErrorKind::PermissionDenied => ErrorDisposition::Skip,
            IoErrorKind::Other => ErrorDisposition::Fatal,
        },
        IoErrorHandling::RaiseAll => ErrorDisposition::Fatal,
    }
}

} // verus!

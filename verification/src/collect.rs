//! Aggregation of the dispatched executions' outcomes.
//!
//! After the walk, every spawned execution is waited on exactly once; its
//! outcome is handed to this module as a plain value. Outputs of executions
//! that did not complete successfully are ignored; the rest are parsed, and
//! every parsed size is added to a running total that starts at zero.

use vstd::prelude::*;

use crate::outcome::{line_outcome, spec_line_outcome, zero_pattern, LineOutcome};
use crate::text::{first_line, trimmed};

verus! {

/// The resolved outcome of one dispatched execution, as the collector
/// sees it: either its result could not be retrieved at all, or it finished
/// with a termination status and its captured error-stream text.
#[derive(Debug)]
pub enum CleanOutcome {
    /// The process was started but its outcome could not be read.
    WaitFailed,
    /// The process terminated; `success` is whether it exited cleanly,
    /// `output` is its captured error-stream text.
    Finished { success: bool, output: String },
}

/// How many bytes one outcome adds to the total: zero unless the execution
/// completed successfully and its first line carries a parsable size token.
pub open spec fn contribution(o: CleanOutcome, dry_run: bool) -> nat {
    match o {
        CleanOutcome::WaitFailed => 0,
        CleanOutcome::Finished { success, output } => if !success {
            0
        } else {
            match spec_line_outcome(output@, dry_run) {
                LineOutcome::Freed(n) => n as nat,
                _ => 0,
            }
        },
    }
}

/// Whether one outcome owes the operator a parse warning: it completed
/// successfully, matched neither the zero pattern nor a parsable size.
pub open spec fn is_warning(o: CleanOutcome, dry_run: bool) -> bool {
    match o {
        CleanOutcome::WaitFailed => false,
        CleanOutcome::Finished { success, output } => success && spec_line_outcome(
            output@,
            dry_run,
        ) is Unparsable,
    }
}

/// The sum of every outcome's contribution, in order.
pub open spec fn total_of(list: Seq<CleanOutcome>, dry_run: bool) -> nat
    decreases list.len(),
{
    if list.len() == 0 {
        0
    } else {
        total_of(list.drop_last(), dry_run) + contribution(list.last(), dry_run)
    }
}

/// The indices of the outcomes that owe a warning, in increasing order.
pub open spec fn warn_indices(list: Seq<CleanOutcome>, dry_run: bool) -> Seq<int>
    decreases list.len(),
{
    if list.len() == 0 {
        Seq::empty()
    } else {
        warn_indices(list.drop_last(), dry_run) + (if is_warning(list.last(), dry_run) {
            seq![list.len() - 1]
        } else {
            Seq::empty()
        })
    }
}

/// A mathematical total capped at what the accumulator can hold.
pub open spec fn capped(n: nat) -> nat {
    if n > u64::MAX {
        u64::MAX as nat
    } else {
        n
    }
}

/// What the collector reports: the aggregated total and the indices of the
/// executions whose output triggered a parse warning.
pub struct CollectReport {
    pub total: u64,
    pub warnings: Vec<usize>,
}

/// Drains every outcome once and aggregates: the total is the sum of all
/// contributions (saturating at the accumulator's capacity), and exactly
/// the unparsable successful executions are flagged for a warning, each
/// once, in order.
pub fn collect(list: &Vec<CleanOutcome>, dry_run: bool) -> (r: CollectReport)
    ensures
        r.total as nat == capped(total_of(list@, dry_run)),
        r.warnings@.len() == warn_indices(list@, dry_run).len(),
        forall|j: int|
            0 <= j < r.warnings@.len() ==> r.warnings@[j] as int == warn_indices(
                list@,
                dry_run,
            )[j],
{
    let n = list.len();
    let mut total: u64 = 0;
    let mut warnings: Vec<usize> = Vec::new();
    let mut i: usize = 0;
    proof {
        assert(list@.subrange(0, 0) =~= Seq::<CleanOutcome>::empty());
    }
    while i < n
        invariant
            n == list@.len(),
            0 <= i <= n,
            total as nat == capped(total_of(list@.subrange(0, i as int), dry_run)),
            warnings@.len() == warn_indices(list@.subrange(0, i as int), dry_run).len(),
            forall|j: int|
                0 <= j < warnings@.len() ==> warnings@[j] as int == warn_indices(
                    list@.subrange(0, i as int),
                    dry_run,
                )[j],
        decreases n - i,
    {
        let ghost pre = list@.subrange(0, i as int);
        let ghost post = list@.subrange(0, i + 1);
        let ghost wpre = warnings@;
        proof {
            assert(post.drop_last() =~= pre);
            assert(post.last() == list@[i as int]);
        }
        match &list[i] {
            CleanOutcome::WaitFailed => {},
            CleanOutcome::Finished { success, output } => {
                if *success {
                    match line_outcome(output.as_str(), dry_run) {
                        LineOutcome::AlreadyClean => {},
                        LineOutcome::Freed(size) => {
                            if total <= u64::MAX - size {
                                total = total + size;
                            } else {
                                total = u64::MAX;
                            }
                        },
                        LineOutcome::Unparsable => {
                            warnings.push(i);
                        },
                    }
                }
            },
        }
        proof {
            if is_warning(list@[i as int], dry_run) {
                assert(warnings@ == wpre.push(i));
                assert(warn_indices(post, dry_run) =~= warn_indices(pre, dry_run).push(i as int));
            } else {
                assert(warnings@ == wpre);
                assert(warn_indices(post, dry_run) =~= warn_indices(pre, dry_run));
            }
        }
        i = i + 1;
    }
    proof {
        assert(list@.subrange(0, n as int) =~= list@);
    }
    CollectReport { total, warnings }
}

/// A successful execution whose report line is the exact nothing-reclaimed
/// sentence for the active mode contributes exactly zero and never
/// triggers a parse warning.
pub proof fn lemma_zero_line_silent(output: String, dry_run: bool)
    requires
        first_line(trimmed(output@)) == zero_pattern(dry_run),
    ensures
        contribution(CleanOutcome::Finished { success: true, output }, dry_run) == 0,
        !is_warning(CleanOutcome::Finished { success: true, output }, dry_run),
{
}

/// An execution that owes a warning contributes exactly zero to the total.
pub proof fn lemma_warning_contributes_zero(o: CleanOutcome, dry_run: bool)
    requires
        is_warning(o, dry_run),
    ensures
        contribution(o, dry_run) == 0,
{
}

/// Removing one outcome removes exactly its contribution from the total.
pub proof fn lemma_total_remove(list: Seq<CleanOutcome>, dry_run: bool, i: int)
    requires
        0 <= i < list.len(),
    ensures
        total_of(list, dry_run) == contribution(list[i], dry_run) + total_of(
            list.remove(i),
            dry_run,
        ),
    decreases list.len(),
{
    if i == list.len() - 1 {
        assert(list.remove(i) =~= list.drop_last());
    } else {
        assert(list.remove(i).drop_last() =~= list.drop_last().remove(i));
        assert(list.remove(i).last() == list.last());
        lemma_total_remove(list.drop_last(), dry_run, i);
    }
}

/// The aggregated total is invariant under reordering of execution
/// collection: two outcome lists holding the same outcomes, in any order,
/// sum to the same total.
pub proof fn lemma_total_permutation(l1: Seq<CleanOutcome>, l2: Seq<CleanOutcome>, dry_run: bool)
    requires
        l1.to_multiset() == l2.to_multiset(),
    ensures
        total_of(l1, dry_run) == total_of(l2, dry_run),
    decreases l1.len(),
{
    broadcast use vstd::seq_lib::group_seq_properties;

    l1.to_multiset_ensures();
    l2.to_multiset_ensures();
    if l1.len() == 0 {
        assert(l2.len() == 0);
    } else {
        let x = l1.last();
        assert(l1.contains(x));
        assert(l1.to_multiset().count(x) > 0);
        assert(l2.to_multiset().count(x) > 0);
        assert(l2.contains(x));
        let i = choose|i: int| 0 <= i < l2.len() && l2[i] == x;
        lemma_total_remove(l2, dry_run, i);
        assert(l1 =~= l1.drop_last().push(x));
        assert(l1.drop_last().push(x).to_multiset() =~= l1.drop_last().to_multiset().insert(x));
        l2.to_multiset_ensures();
        assert(l2.remove(i).to_multiset() =~= l2.to_multiset().remove(x));
        assert(l1.drop_last().to_multiset() =~= l1.to_multiset().remove(x));
        lemma_total_permutation(l1.drop_last(), l2.remove(i), dry_run);
    }
}

/// Every index the collector flags is a successful-but-unparsable
/// execution, every such execution is flagged, and the flags come in
/// strictly increasing order, so each offending execution is flagged
/// exactly once.
pub proof fn lemma_warn_indices_exact(list: Seq<CleanOutcome>, dry_run: bool)
    ensures
        forall|k: int|
            warn_indices(list, dry_run).contains(k) <==> (0 <= k < list.len() && is_warning(
                list[k],
                dry_run,
            )),
        forall|a: int, b: int|
            0 <= a < b < warn_indices(list, dry_run).len() ==> warn_indices(list, dry_run)[a]
                < warn_indices(list, dry_run)[b],
    decreases list.len(),
{
    if list.len() > 0 {
        lemma_warn_indices_exact(list.drop_last(), dry_run);
        let w = warn_indices(list, dry_run);
        let wp = warn_indices(list.drop_last(), dry_run);
        assert forall|k: int| w.contains(k) implies (0 <= k < list.len() && is_warning(
            list[k],
            dry_run,
        )) by {
            let j = choose|j: int| 0 <= j < w.len() && w[j] == k;
            if j < wp.len() {
                assert(wp[j] == k);
                assert(wp.contains(k));
                assert(list.drop_last()[k] == list[k]);
            } else {
                assert(is_warning(list.last(), dry_run));
                assert(k == list.len() - 1);
            }
        }
        assert forall|k: int| (0 <= k < list.len() && is_warning(list[k], dry_run)) implies w
            .contains(k) by {
            if k < list.len() - 1 {
                assert(list.drop_last()[k] == list[k]);
                assert(wp.contains(k));
                let j = choose|j: int| 0 <= j < wp.len() && wp[j] == k;
                assert(w[j] == k);
            } else {
                assert(is_warning(list.last(), dry_run));
                assert(w[w.len() - 1] == k);
            }
        }
        assert forall|a: int, b: int| 0 <= a < b < w.len() implies w[a] < w[b] by {
            if b < wp.len() {
                assert(w[a] == wp[a] && w[b] == wp[b]);
            } else {
                assert(is_warning(list.last(), dry_run));
                assert(w[b] == list.len() - 1);
                assert(w[a] == wp[a]);
                assert(wp.contains(wp[a]));
            }
        }
    }
}

} // verus!

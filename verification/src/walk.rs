//! Depth-bounded, skip-aware traversal of a directory tree.
//!
//! The tree is handed to the walker as a plain value: each node carries its
//! basename, whether the marker manifest lies directly in it, the outcome
//! of listing its entries, and its subdirectories. The walker decides, for
//! every node, whether a cleanup is dispatched there, which listing
//! failures are fatal to their subtree under the active policy, and
//! returns the dispatch paths in visit order. The surrounding program reads
//! the real filesystem into this shape and spawns one external command per
//! returned path.

use vstd::prelude::*;

use crate::policy::{classify, spec_classify, ErrorDisposition, IoErrorHandling, IoErrorKind};

verus! {

/// The outcome of listing a directory's entries.
#[derive(Debug, Clone, Copy, PartialEq, Eq, Structural)]
pub enum ListingStatus {
    /// The entries were read; the node's `children` are its subdirectories.
    Listed,
    /// Listing failed with an I/O error of the carried kind; the node has
    /// no readable entries.
    Failed(IoErrorKind),
}

/// One directory of the scanned tree.
#[derive(Debug)]
pub struct DirNode {
    /// The directory's basename.
    pub name: String,
    /// Whether the marker manifest lies directly in this directory.
    pub has_marker: bool,
    /// The outcome of listing this directory's entries.
    pub listing: ListingStatus,
    /// The subdirectories found by a successful listing.
    pub children: Vec<DirNode>,
}

/// The set of directory basenames excluded from traversal.
pub open spec fn skip_names(skips: Seq<String>) -> Set<Seq<char>> {
    Set::new(|n: Seq<char>| exists|i: int| 0 <= i < skips.len() && skips[i]@ == n)
}

/// The view of one dispatch path: the component names from the scan root
/// to the dispatched directory, inclusive.
pub open spec fn path_of(p: Vec<String>) -> Seq<Seq<char>> {
    p@.map_values(|s: String| s@)
}

/// The views of a list of dispatch paths.
pub open spec fn paths_of(v: Seq<Vec<String>>) -> Seq<Seq<Seq<char>>> {
    v.map_values(|p: Vec<String>| path_of(p))
}

/// Whether a node is visited at all: there is depth budget left and its
/// basename is not in the skip set.
pub open spec fn visited(node: DirNode, depth: nat, skips: Set<Seq<char>>) -> bool {
    depth > 0 && !skips.contains(node.name@)
}

/// The dispatch paths produced under `node`, whose parent's path is
/// `above`, with `depth` levels of budget left: nothing if the node is not
/// visited; otherwise its own path when it holds the marker, followed by
/// its children's dispatches when its listing succeeded.
pub open spec fn dispatched_below(
    node: DirNode,
    above: Seq<Seq<char>>,
    depth: nat,
    skips: Set<Seq<char>>,
) -> Seq<Seq<Seq<char>>>
    decreases node,
{
    if !visited(node, depth, skips) {
        Seq::empty()
    } else {
        (if node.has_marker {
            seq![above.push(node.name@)]
        } else {
            Seq::empty()
        }) + (match node.listing {
            ListingStatus::Listed => dispatched_among(
                node.children@,
                above.push(node.name@),
                (depth - 1) as nat,
                skips,
            ),
            ListingStatus::Failed(_) => Seq::empty(),
        })
    }
}

/// The concatenation of the dispatches under each of `kids`, in order.
pub open spec fn dispatched_among(
    kids: Seq<DirNode>,
    above: Seq<Seq<char>>,
    depth: nat,
    skips: Set<Seq<char>>,
) -> Seq<Seq<Seq<char>>>
    decreases kids,
{
    if kids.len() == 0 {
        Seq::empty()
    } else {
        dispatched_among(kids.drop_last(), above, depth, skips) + dispatched_below(
            kids.last(),
            above,
            depth,
            skips,
        )
    }
}

/// Whether the walk call on `node` itself fails: the node is visited, its
/// listing failed, and the policy classifies that failure as fatal. Such a
/// failure is caught and logged by the caller one level up — except at the
/// scan root, where it aborts the run.
pub open spec fn fatal_here(
    node: DirNode,
    depth: nat,
    skips: Set<Seq<char>>,
    policy: IoErrorHandling,
) -> bool {
    visited(node, depth, skips) && match node.listing {
        ListingStatus::Listed => false,
        ListingStatus::Failed(kind) => spec_classify(kind, policy) is Fatal,
    }
}

/// The paths of the visited nodes whose listing failure is fatal under the
/// policy, in visit order: each is logged by its parent, and the traversal
/// of the rest of the tree goes on.
pub open spec fn failed_below(
    node: DirNode,
    above: Seq<Seq<char>>,
    depth: nat,
    skips: Set<Seq<char>>,
    policy: IoErrorHandling,
) -> Seq<Seq<Seq<char>>>
    decreases node,
{
    if !visited(node, depth, skips) {
        Seq::empty()
    } else {
        match node.listing {
            ListingStatus::Listed => failed_among(
                node.children@,
                above.push(node.name@),
                (depth - 1) as nat,
                skips,
                policy,
            ),
            ListingStatus::Failed(kind) => if spec_classify(kind, policy) is Fatal {
                seq![above.push(node.name@)]
            } else {
                Seq::empty()
            },
        }
    }
}

/// The concatenation of the fatal listing failures under each of `kids`.
pub open spec fn failed_among(
    kids: Seq<DirNode>,
    above: Seq<Seq<char>>,
    depth: nat,
    skips: Set<Seq<char>>,
    policy: IoErrorHandling,
) -> Seq<Seq<Seq<char>>>
    decreases kids,
{
    if kids.len() == 0 {
        Seq::empty()
    } else {
        failed_among(kids.drop_last(), above, depth, skips, policy) + failed_below(
            kids.last(),
            above,
            depth,
            skips,
            policy,
        )
    }
}

/// The default skip set, used when the caller supplies none: three
/// conventional noise directories.
pub open spec fn spec_default_skip_names() -> Seq<Seq<char>> {
    seq![".git"@, ".rustup"@, ".cargo"@]
}

/// Builds the default skip set.
pub fn default_skip_names() -> (r: Vec<String>)
    ensures
        crate::text::views_of(r@) == spec_default_skip_names(),
{
    let mut r: Vec<String> = Vec::new();
    r.push(String::from_str(".git"));
    r.push(String::from_str(".rustup"));
    r.push(String::from_str(".cargo"));
    proof {
        assert(crate::text::views_of(r@) =~= spec_default_skip_names());
    }
    r
}

/// Whether `name` is in the skip set.
fn contains_name(skips: &Vec<String>, name: &String) -> (r: bool)
    ensures
        r == skip_names(skips@).contains(name@),
{
    let n = skips.len();
    let mut i: usize = 0;
    while i < n
        invariant
            n == skips@.len(),
            0 <= i <= n,
            forall|j: int| 0 <= j < i ==> skips@[j]@ != name@,
        decreases n - i,
    {
        if crate::text::eq_str(skips[i].as_str(), name.as_str()) {
            return true;
        }
        i = i + 1;
    }
    false
}

/// Copies a path.
fn clone_path(p: &Vec<String>) -> (r: Vec<String>)
    ensures
        r@ == p@,
{
    let n = p.len();
    let mut r: Vec<String> = Vec::new();
    let mut i: usize = 0;
    proof {
        assert(r@ =~= p@.subrange(0, 0));
    }
    while i < n
        invariant
            n == p@.len(),
            0 <= i <= n,
            r@ == p@.subrange(0, i as int),
        decreases n - i,
    {
        r.push(p[i].clone());
        proof {
            assert(r@ =~= p@.subrange(0, i + 1));
        }
        i = i + 1;
    }
    proof {
        assert(p@.subrange(0, n as int) =~= p@);
    }
    r
}

/// What one walk reports: the dispatch paths, in visit order, and the paths
/// whose listing failure was fatal under the policy, each logged by its
/// parent while its siblings' traversal went on.
pub struct WalkReport {
    pub dispatched: Vec<Vec<String>>,
    pub failed: Vec<Vec<String>>,
    /// Whether the scan root's own call failed, which aborts the run.
    pub root_fatal: bool,
}

/// Walks the tree from the scan root and decides every dispatch.
pub fn walk(root: &DirNode, depth: usize, skips: &Vec<String>, policy: IoErrorHandling) -> (r:
    WalkReport)
    ensures
        paths_of(r.dispatched@) == dispatched_below(
            *root,
            Seq::empty(),
            depth as nat,
            skip_names(skips@),
        ),
        paths_of(r.failed@) == failed_below(
            *root,
            Seq::empty(),
            depth as nat,
            skip_names(skips@),
            policy,
        ),
        r.root_fatal == fatal_here(*root, depth as nat, skip_names(skips@), policy),
{
    let mut dispatched: Vec<Vec<String>> = Vec::new();
    let mut failed: Vec<Vec<String>> = Vec::new();
    let above: Vec<String> = Vec::new();
    let root_fatal = walk_node(root, &above, depth, skips, policy, &mut dispatched, &mut failed);
    proof {
        assert(path_of(above) =~= Seq::<Seq<char>>::empty());
        assert(paths_of(dispatched@) =~= Seq::<Seq<Seq<char>>>::empty() + paths_of(dispatched@));
        assert(paths_of(failed@) =~= Seq::<Seq<Seq<char>>>::empty() + paths_of(failed@));
    }
    WalkReport { dispatched, failed, root_fatal }
}

/// Walks one node: appends its subtree's dispatches and fatal failures to
/// the accumulators and says whether this call itself failed.
fn walk_node(
    node: &DirNode,
    above: &Vec<String>,
    depth: usize,
    skips: &Vec<String>,
    policy: IoErrorHandling,
    dispatched: &mut Vec<Vec<String>>,
    failed: &mut Vec<Vec<String>>,
) -> (fatal: bool)
    ensures
        paths_of(final(dispatched)@) == paths_of(old(dispatched)@) + dispatched_below(
            *node,
            path_of(*above),
            depth as nat,
            skip_names(skips@),
        ),
        paths_of(final(failed)@) == paths_of(old(failed)@) + failed_below(
            *node,
            path_of(*above),
            depth as nat,
            skip_names(skips@),
            policy,
        ),
        fatal == fatal_here(*node, depth as nat, skip_names(skips@), policy),
    decreases *node,
{
    let ghost g_above = path_of(*above);
    let ghost g_skips = skip_names(skips@);
    if depth == 0 {
        proof {
            assert(paths_of(dispatched@) =~= paths_of(dispatched@) + Seq::<Seq<Seq<char>>>::empty());
            assert(paths_of(failed@) =~= paths_of(failed@) + Seq::<Seq<Seq<char>>>::empty());
        }
        return false;
    }
    if contains_name(skips, &node.name) {
        proof {
            assert(paths_of(dispatched@) =~= paths_of(dispatched@) + Seq::<Seq<Seq<char>>>::empty());
            assert(paths_of(failed@) =~= paths_of(failed@) + Seq::<Seq<Seq<char>>>::empty());
        }
        return false;
    }
    let mut path = clone_path(above);
    path.push(node.name.clone());
    proof {
        assert(path_of(path) =~= g_above.push(node.name@));
    }
    if node.has_marker {
        let own = clone_path(&path);
        let ghost d_pre = dispatched@;
        dispatched.push(own);
        proof {
            assert(path_of(own) == path_of(path));
            assert(paths_of(dispatched@) =~= paths_of(d_pre).push(path_of(path)));
        }
    }
    let ghost d_mid = dispatched@;
    let ghost f_mid = failed@;
    match node.listing {
        ListingStatus::Failed(kind) => {
            match classify(kind, policy) {
                ErrorDisposition::Skip => {
                    proof {
                        assert(paths_of(dispatched@) =~= paths_of(old(dispatched)@)
                            + dispatched_below(*node, g_above, depth as nat, g_skips));
                        assert(paths_of(failed@) =~= paths_of(old(failed)@) + failed_below(
                            *node,
                            g_above,
                            depth as nat,
                            g_skips,
                            policy,
                        ));
                    }
                    false
                },
                ErrorDisposition::Fatal => {
                    failed.push(path);
                    proof {
                        assert(paths_of(failed@) =~= paths_of(f_mid).push(
                            g_above.push(node.name@),
                        ));
                        assert(paths_of(dispatched@) =~= paths_of(old(dispatched)@)
                            + dispatched_below(*node, g_above, depth as nat, g_skips));
                        assert(paths_of(failed@) =~= paths_of(old(failed)@) + failed_below(
                            *node,
                            g_above,
                            depth as nat,
                            g_skips,
                            policy,
                        ));
                    }
                    true
                },
            }
        },
        ListingStatus::Listed => {
            let ghost g_path = path_of(path);
            let n = node.children.len();
            let mut i: usize = 0;
            proof {
                assert(node.children@.subrange(0, 0) =~= Seq::<DirNode>::empty());
                assert(paths_of(dispatched@) =~= paths_of(d_mid) + dispatched_among(
                    node.children@.subrange(0, 0),
                    g_path,
                    (depth - 1) as nat,
                    g_skips,
                ));
                assert(paths_of(failed@) =~= paths_of(f_mid) + failed_among(
                    node.children@.subrange(0, 0),
                    g_path,
                    (depth - 1) as nat,
                    g_skips,
                    policy,
                ));
            }
            while i < n
                invariant
                    n == node.children@.len(),
                    0 <= i <= n,
                    paths_of(dispatched@) == paths_of(d_mid) + dispatched_among(
                        node.children@.subrange(0, i as int),
                        g_path,
                        (depth - 1) as nat,
                        g_skips,
                    ),
                    paths_of(failed@) == paths_of(f_mid) + failed_among(
                        node.children@.subrange(0, i as int),
                        g_path,
                        (depth - 1) as nat,
                        g_skips,
                        policy,
                    ),
                    g_path == path_of(path),
                    g_skips == skip_names(skips@),
                    depth >= 1,
                decreases n - i,
            {
                let ghost k_pre = node.children@.subrange(0, i as int);
                let ghost k_post = node.children@.subrange(0, i + 1);
                proof {
                    assert(k_post.drop_last() =~= k_pre);
                    assert(k_post.last() == node.children@[i as int]);
                }
                let ghost d_call = dispatched@;
                let ghost f_call = failed@;
                let _child_fatal = walk_node(
                    &node.children[i],
                    &path,
                    depth - 1,
                    skips,
                    policy,
                    dispatched,
                    failed,
                );
                proof {
                    assert(paths_of(dispatched@) == paths_of(d_call) + dispatched_below(
                        node.children@[i as int],
                        g_path,
                        (depth - 1) as nat,
                        g_skips,
                    ));
                    assert(paths_of(failed@) == paths_of(f_call) + failed_below(
                        node.children@[i as int],
                        g_path,
                        (depth - 1) as nat,
                        g_skips,
                        policy,
                    ));
                    assert(dispatched_among(k_post, g_path, (depth - 1) as nat, g_skips)
                        =~= dispatched_among(k_pre, g_path, (depth - 1) as nat, g_skips)
                        + dispatched_below(
                        node.children@[i as int],
                        g_path,
                        (depth - 1) as nat,
                        g_skips,
                    ));
                    assert(failed_among(k_post, g_path, (depth - 1) as nat, g_skips, policy)
                        =~= failed_among(k_pre, g_path, (depth - 1) as nat, g_skips, policy)
                        + failed_below(
                        node.children@[i as int],
                        g_path,
                        (depth - 1) as nat,
                        g_skips,
                        policy,
                    ));
                    assert(paths_of(dispatched@) =~= paths_of(d_mid) + dispatched_among(
                        k_post,
                        g_path,
                        (depth - 1) as nat,
                        g_skips,
                    ));
                    assert(paths_of(failed@) =~= paths_of(f_mid) + failed_among(
                        k_post,
                        g_path,
                        (depth - 1) as nat,
                        g_skips,
                        policy,
                    ));
                }
                i = i + 1;
            }
            proof {
                assert(node.children@.subrange(0, n as int) =~= node.children@);
                assert(paths_of(dispatched@) =~= paths_of(old(dispatched)@) + dispatched_below(
                    *node,
                    g_above,
                    depth as nat,
                    g_skips,
                ));
                assert(paths_of(failed@) =~= paths_of(old(failed)@) + failed_below(
                    *node,
                    g_above,
                    depth as nat,
                    g_skips,
                    policy,
                ));
            }
            false
        },
    }
}

/// Whether the run of component names `rel`, whose first name is `node`'s
/// own basename, leads from `node` to a directory that is dispatched
/// against: every directory along the run is within the depth budget and
/// has its basename outside the skip set, every directory strictly above
/// the target had its listing succeed, and the target holds the marker
/// directly.
pub open spec fn dispatch_target(
    node: DirNode,
    depth: nat,
    skips: Set<Seq<char>>,
    rel: Seq<Seq<char>>,
) -> bool
    decreases node,
{
    if !visited(node, depth, skips) || rel.len() == 0 || rel[0] != node.name@ {
        false
    } else if rel.len() == 1 {
        node.has_marker
    } else {
        node.listing is Listed && dispatch_target_among(
            node.children@,
            (depth - 1) as nat,
            skips,
            rel.drop_first(),
        )
    }
}

/// Whether `rel` leads to a dispatch target under one of `kids`.
pub open spec fn dispatch_target_among(
    kids: Seq<DirNode>,
    depth: nat,
    skips: Set<Seq<char>>,
    rel: Seq<Seq<char>>,
) -> bool
    decreases kids,
{
    if kids.len() == 0 {
        false
    } else {
        dispatch_target_among(kids.drop_last(), depth, skips, rel) || dispatch_target(
            kids.last(),
            depth,
            skips,
            rel,
        )
    }
}

/// Membership in a concatenation is membership in either part.
proof fn lemma_add_contains(a: Seq<Seq<Seq<char>>>, b: Seq<Seq<Seq<char>>>, x: Seq<Seq<char>>)
    ensures
        (a + b).contains(x) <==> a.contains(x) || b.contains(x),
{
    if (a + b).contains(x) {
        let j = choose|j: int| 0 <= j < (a + b).len() && (a + b)[j] == x;
        if j < a.len() {
            assert(a[j] == x);
        } else {
            assert(b[j - a.len()] == x);
        }
    }
    if a.contains(x) {
        let j = choose|j: int| 0 <= j < a.len() && a[j] == x;
        assert((a + b)[j] == x);
    }
    if b.contains(x) {
        let j = choose|j: int| 0 <= j < b.len() && b[j] == x;
        assert((a + b)[a.len() + j] == x);
    }
}

/// A directory is dispatched against exactly when it is a dispatch target:
/// the walk's output under `node` contains a path `q` if and only if `q`
/// extends the parent path `above` and its remaining run of names leads
/// from `node` to a directory that holds the marker directly, lies within
/// the depth budget, has no name of the run in the skip set, and sits
/// below listings that all succeeded.
pub proof fn lemma_dispatch_exact(
    node: DirNode,
    above: Seq<Seq<char>>,
    depth: nat,
    skips: Set<Seq<char>>,
    q: Seq<Seq<char>>,
)
    ensures
        dispatched_below(node, above, depth, skips).contains(q) <==> (q.len() > above.len()
            && q.subrange(0, above.len() as int) == above && dispatch_target(
            node,
            depth,
            skips,
            q.subrange(above.len() as int, q.len() as int),
        )),
    decreases node,
{
    let d = dispatched_below(node, above, depth, skips);
    if !visited(node, depth, skips) {
        assert(!d.contains(q));
    } else {
        let own = above.push(node.name@);
        let here: Seq<Seq<Seq<char>>> = if node.has_marker {
            seq![own]
        } else {
            Seq::empty()
        };
        let before: Seq<Seq<Seq<char>>> = match node.listing {
            ListingStatus::Listed => dispatched_among(
                node.children@,
                own,
                (depth - 1) as nat,
                skips,
            ),
            ListingStatus::Failed(_) => Seq::empty(),
        };
        assert(d == here + before);
        lemma_add_contains(here, before, q);
        if node.has_marker {
            if here.contains(q) {
                let j = choose|j: int| 0 <= j < here.len() && here[j] == q;
                assert(q == own);
            }
            if q == own {
                assert(here[0] == own);
                assert(here.contains(own));
            }
        } else {
            assert(here.len() == 0);
            assert(!here.contains(q));
        }
        assert(here.contains(q) <==> (node.has_marker && q == own));
        match node.listing {
            ListingStatus::Listed => {
                lemma_dispatch_exact_among(
                    node.children@,
                    own,
                    (depth - 1) as nat,
                    skips,
                    q,
                );
            },
            ListingStatus::Failed(_) => {
                assert(!before.contains(q));
            },
        }
        if q.len() > above.len() && q.subrange(0, above.len() as int) == above {
            let rel = q.subrange(above.len() as int, q.len() as int);
            assert(rel[0] == q[above.len() as int]);
            if q.len() == above.len() + 1 {
                if rel[0] == node.name@ {
                    assert(q =~= own);
                    assert(rel.len() == 1);
                } else {
                    assert(q[above.len() as int] != node.name@);
                    assert(q != own);
                }
                assert(!(q.len() > own.len()));
            } else {
                assert(q != own);
                if rel[0] == node.name@ {
                    assert(own =~= q.subrange(0, above.len() as int).push(node.name@));
                    assert(q.subrange(0, own.len() as int) =~= own);
                    assert(rel.drop_first() =~= q.subrange(own.len() as int, q.len() as int));
                } else {
                    assert(q.subrange(0, own.len() as int)[above.len() as int] == q[above.len()
                        as int]);
                    assert(q.subrange(0, own.len() as int) != own);
                }
            }
        } else {
            if q == own {
                assert(own.subrange(0, above.len() as int) =~= above);
                assert(false);
            }
            if q.len() > own.len() && q.subrange(0, own.len() as int) == own {
                assert(q.subrange(0, above.len() as int) =~= own.subrange(
                    0,
                    above.len() as int,
                ));
                assert(own.subrange(0, above.len() as int) =~= above);
                assert(false);
            }
        }
    }
}

/// The among-side of `lemma_dispatch_exact`.
proof fn lemma_dispatch_exact_among(
    kids: Seq<DirNode>,
    above: Seq<Seq<char>>,
    depth: nat,
    skips: Set<Seq<char>>,
    q: Seq<Seq<char>>,
)
    ensures
        dispatched_among(kids, above, depth, skips).contains(q) <==> (q.len() > above.len()
            && q.subrange(0, above.len() as int) == above && dispatch_target_among(
            kids,
            depth,
            skips,
            q.subrange(above.len() as int, q.len() as int),
        )),
    decreases kids,
{
    if kids.len() == 0 {
        assert(!dispatched_among(kids, above, depth, skips).contains(q));
    } else {
        lemma_dispatch_exact_among(kids.drop_last(), above, depth, skips, q);
        lemma_dispatch_exact(kids.last(), above, depth, skips, q);
        lemma_add_contains(
            dispatched_among(kids.drop_last(), above, depth, skips),
            dispatched_below(kids.last(), above, depth, skips),
            q,
        );
    }
}

/// A name in the skip set anywhere along the run prunes the whole subtree:
/// no run with a skipped component leads to a dispatch target.
pub proof fn lemma_skip_prunes(
    node: DirNode,
    depth: nat,
    skips: Set<Seq<char>>,
    rel: Seq<Seq<char>>,
    j: int,
)
    requires
        0 <= j < rel.len(),
        skips.contains(rel[j]),
    ensures
        !dispatch_target(node, depth, skips, rel),
    decreases node,
{
    if visited(node, depth, skips) && rel.len() > 1 && rel[0] == node.name@ && j > 0 {
        assert(rel.drop_first()[j - 1] == rel[j]);
        lemma_skip_prunes_among(node.children@, (depth - 1) as nat, skips, rel.drop_first(), j - 1);
    }
}

/// The among-side of `lemma_skip_prunes`.
proof fn lemma_skip_prunes_among(
    kids: Seq<DirNode>,
    depth: nat,
    skips: Set<Seq<char>>,
    rel: Seq<Seq<char>>,
    j: int,
)
    requires
        0 <= j < rel.len(),
        skips.contains(rel[j]),
    ensures
        !dispatch_target_among(kids, depth, skips, rel),
    decreases kids,
{
    if kids.len() > 0 {
        lemma_skip_prunes_among(kids.drop_last(), depth, skips, rel, j);
        lemma_skip_prunes(kids.last(), depth, skips, rel, j);
    }
}

/// A project root nested anywhere beneath a skipped directory is never
/// dispatched against: no path with a skipped component is in the walk's
/// output.
pub proof fn lemma_skipped_never_dispatched(
    root: DirNode,
    depth: nat,
    skips: Set<Seq<char>>,
    q: Seq<Seq<char>>,
    j: int,
)
    requires
        0 <= j < q.len(),
        skips.contains(q[j]),
    ensures
        !dispatched_below(root, Seq::empty(), depth, skips).contains(q),
{
    lemma_dispatch_exact(root, Seq::empty(), depth, skips, q);
    if q.len() > 0 {
        assert(q.subrange(0, q.len() as int) =~= q);
        lemma_skip_prunes(root, depth, skips, q, j);
    }
}

/// A depth budget of zero dispatches nothing.
pub proof fn lemma_depth_zero(node: DirNode, above: Seq<Seq<char>>, skips: Set<Seq<char>>)
    ensures
        dispatched_below(node, above, 0, skips) == Seq::<Seq<Seq<char>>>::empty(),
{
}

/// With no remaining budget, no child contributes anything.
proof fn lemma_among_depth_zero(kids: Seq<DirNode>, above: Seq<Seq<char>>, skips: Set<Seq<char>>)
    ensures
        dispatched_among(kids, above, 0, skips) == Seq::<Seq<Seq<char>>>::empty(),
    decreases kids,
{
    if kids.len() > 0 {
        lemma_among_depth_zero(kids.drop_last(), above, skips);
        assert(!visited(kids.last(), 0, skips));
        assert(dispatched_below(kids.last(), above, 0, skips) == Seq::<Seq<Seq<char>>>::empty());
        assert(dispatched_among(kids, above, 0, skips) =~= Seq::<Seq<Seq<char>>>::empty());
    }
}

/// A depth budget of one examines the scan root alone: it is dispatched
/// against exactly when it is visited and holds the marker, and no
/// subdirectory contributes anything.
pub proof fn lemma_depth_one(node: DirNode, above: Seq<Seq<char>>, skips: Set<Seq<char>>)
    ensures
        dispatched_below(node, above, 1, skips) == (if !skips.contains(node.name@)
            && node.has_marker {
            seq![above.push(node.name@)]
        } else {
            Seq::<Seq<Seq<char>>>::empty()
        }),
{
    if visited(node, 1, skips) {
        if node.listing is Listed {
            lemma_among_depth_zero(node.children@, above.push(node.name@), skips);
        }
        if node.has_marker {
            assert(dispatched_below(node, above, 1, skips) =~= seq![above.push(node.name@)]);
        } else {
            assert(dispatched_below(node, above, 1, skips) =~= Seq::<Seq<Seq<char>>>::empty());
        }
    }
}

/// A visited node whose listing failed is pruned after its own detection:
/// it is still dispatched against when it holds the marker, nothing below
/// it is, and whether the failure is fatal is exactly the policy's
/// classification — under `RaiseUnexpected` a permission-denied failure is
/// skipped silently, under `RaiseAll` every failure is fatal and the
/// node's path is logged by its parent.
pub proof fn lemma_failed_listing(
    node: DirNode,
    above: Seq<Seq<char>>,
    depth: nat,
    skips: Set<Seq<char>>,
    policy: IoErrorHandling,
    kind: IoErrorKind,
)
    requires
        visited(node, depth, skips),
        node.listing == ListingStatus::Failed(kind),
    ensures
        dispatched_below(node, above, depth, skips) == (if node.has_marker {
            seq![above.push(node.name@)]
        } else {
            Seq::<Seq<Seq<char>>>::empty()
        }),
        fatal_here(node, depth, skips, policy) == (spec_classify(kind, policy) is Fatal),
        failed_below(node, above, depth, skips, policy) == (if spec_classify(
            kind,
            policy,
        ) is Fatal {
            seq![above.push(node.name@)]
        } else {
            Seq::<Seq<Seq<char>>>::empty()
        }),
        policy == IoErrorHandling::RaiseUnexpected && kind == IoErrorKind::PermissionDenied
            ==> !fatal_here(node, depth, skips, policy),
        policy == IoErrorHandling::RaiseAll ==> fatal_here(node, depth, skips, policy),
{
    if node.has_marker {
        assert(dispatched_below(node, above, depth, skips) =~= seq![above.push(node.name@)]);
    } else {
        assert(dispatched_below(node, above, depth, skips) =~= Seq::<Seq<Seq<char>>>::empty());
    }
}

/// One child's fatal failure never robs its siblings: whatever any child's
/// subtree dispatches is in the parent's output, whatever became of the
/// other children.
pub proof fn lemma_sibling_isolation(
    parent: DirNode,
    above: Seq<Seq<char>>,
    depth: nat,
    skips: Set<Seq<char>>,
    i: int,
    q: Seq<Seq<char>>,
)
    requires
        visited(parent, depth, skips),
        parent.listing is Listed,
        0 <= i < parent.children@.len(),
        dispatched_below(
            parent.children@[i],
            above.push(parent.name@),
            (depth - 1) as nat,
            skips,
        ).contains(q),
    ensures
        dispatched_below(parent, above, depth, skips).contains(q),
{
    let own = above.push(parent.name@);
    lemma_among_member(parent.children@, own, (depth - 1) as nat, skips, i, q);
    let here: Seq<Seq<Seq<char>>> = if parent.has_marker {
        seq![own]
    } else {
        Seq::empty()
    };
    lemma_add_contains(
        here,
        dispatched_among(parent.children@, own, (depth - 1) as nat, skips),
        q,
    );
}

/// What one of `kids` dispatches, the concatenation dispatches.
proof fn lemma_among_member(
    kids: Seq<DirNode>,
    above: Seq<Seq<char>>,
    depth: nat,
    skips: Set<Seq<char>>,
    i: int,
    q: Seq<Seq<char>>,
)
    requires
        0 <= i < kids.len(),
        dispatched_below(kids[i], above, depth, skips).contains(q),
    ensures
        dispatched_among(kids, above, depth, skips).contains(q),
    decreases kids,
{
    lemma_add_contains(
        dispatched_among(kids.drop_last(), above, depth, skips),
        dispatched_below(kids.last(), above, depth, skips),
        q,
    );
    if i < kids.len() - 1 {
        assert(kids.drop_last()[i] == kids[i]);
        lemma_among_member(kids.drop_last(), above, depth, skips, i, q);
    }
}

} // verus!

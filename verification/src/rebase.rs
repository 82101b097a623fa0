//! Rebase: carrying the changes of a branch over to a target snapshot.

use vstd::prelude::*;
use crate::conflict::{
    conflicts_with, find_conflicts, lemma_conflicts_of_changes, met, touched, Conflict,
};
use crate::diff::{changes, diff, is_change_list, is_difference};
use crate::error::{Integrity, StoreError};
use crate::graph::{NodeId, NodeView};
use crate::ops::{
    apply_ops, lemma_kept_unless_removed, lemma_local, lemma_untouched, same_at, NodeOp,
};
use crate::reach::{closed, first_dangling, reachable_part};
use crate::snapshot::{lemma_same_view_same_address, Snapshot, SnapshotView};

verus! {

/// How a rebase ended.
#[derive(Debug)]
pub enum Rebase {
    /// The changes of the branch were carried over. `snapshot` is the new
    /// working snapshot, `node_ops` the changes that were carried over.
    Applied { snapshot: Snapshot, node_ops: Vec<NodeOp> },
    /// The branch and the target are in conflict. Nothing was changed.
    Conflicted { conflicts: Vec<Conflict> },
}

/// The nodes of the target after the changes of the branch.
pub open spec fn merged(
    base: Map<NodeId, NodeView>,
    working: Map<NodeId, NodeView>,
    target: Map<NodeId, NodeView>,
) -> Map<NodeId, NodeView> {
    apply_ops(target, changes(base, working))
}

/// The conflicts between the branch and the target, each once, in the order
/// in which the changes of the branch meet them.
pub open spec fn conflicts_of(
    base: Map<NodeId, NodeView>,
    working: Map<NodeId, NodeView>,
    target: Map<NodeId, NodeView>,
) -> Seq<Conflict> {
    met(changes(base, working), changes(base, target), changes(base, working).len())
}

/// Whether the branch and the target are free of conflicts.
pub open spec fn compatible(
    base: Map<NodeId, NodeView>,
    working: Map<NodeId, NodeView>,
    target: Map<NodeId, NodeView>,
) -> bool {
    forall|c: Conflict| !conflicts_with(base, working, target, c)
}

/// The merge keeps what either side did alone: a node that the branch did
/// not touch is as in the target, and a node that was not touched upstream
/// is as in the working snapshot.
pub open spec fn keeps_both_sides(
    base: Map<NodeId, NodeView>,
    working: Map<NodeId, NodeView>,
    target: Map<NodeId, NodeView>,
) -> bool {
    &&& forall|n: NodeId|
        !touched(base, working, n) ==> #[trigger] same_at(merged(base, working, target), target, n)
    &&& forall|n: NodeId|
        !touched(base, target, n) ==> #[trigger] same_at(merged(base, working, target), working, n)
}

proof fn lemma_keeps_both_sides(
    base: Map<NodeId, NodeView>,
    working: Map<NodeId, NodeView>,
    target: Map<NodeId, NodeView>,
    ops: Seq<NodeOp>,
)
    requires
        is_change_list(base, working, ops),
        ops == changes(base, working),
        apply_ops(base, ops) == working,
    ensures
        keeps_both_sides(base, working, target),
{
    assert forall|n: NodeId| !touched(base, working, n) implies #[trigger] same_at(
        merged(base, working, target),
        target,
        n,
    ) by {
        assert forall|k: int| 0 <= k < ops.len() implies (#[trigger] ops[k]).subject() != n by {
            assert(is_difference(base, working, ops[k]));
            if ops[k].subject() == n {
                match ops[k] {
                    NodeOp::AddEdge { node, edge } => {
                        assert(working[n].edges.contains(edge));
                    },
                    NodeOp::RemoveEdge { node, edge } => {
                        assert(base[n].edges.contains(edge));
                    },
                    _ => {},
                }
            }
        }
        lemma_untouched(target, ops, n);
    }
    assert forall|n: NodeId| !touched(base, target, n) implies #[trigger] same_at(
        merged(base, working, target),
        working,
        n,
    ) by {
        assert(same_at(target, base, n));
        lemma_local(target, base, ops, n);
    }
}

/// The first of `working` and `target` whose root is not that of `base`.
pub open spec fn stray_root(base: SnapshotView, working: SnapshotView, target: SnapshotView) -> Option<
    NodeId,
> {
    if working.root != base.root {
        Some(working.root)
    } else if target.root != base.root {
        Some(target.root)
    } else {
        None
    }
}

/// Reconciles a branch, which went from `base` to `working`, with `target`.
///
/// Where the three do not have one root, the rebase fails. Where the changes
/// of the branch are in conflict with what happened from `base` to `target`,
/// it hands the conflicts back. Otherwise it carries the changes of the
/// branch out on the target and takes the snapshot of the result from the
/// root; it fails where that leaves an edge without its node.
pub fn rebase_snapshots(base: &Snapshot, working: &Snapshot, target: &Snapshot) -> (r: Result<
    Rebase,
    StoreError,
>)
    requires
        base.wf(),
        working.wf(),
        target.wf(),
    ensures
        stray_root(base@, working@, target@) is None ==> keeps_both_sides(
            base@.nodes,
            working@.nodes,
            target@.nodes,
        ),
        target@ == base@ && working@.root == base@.root ==> (r matches Ok(
            Rebase::Applied { snapshot, .. },
        ) && snapshot@ == working@ && snapshot.spec_address() == working.spec_address()),
        match r {
            Ok(Rebase::Conflicted { conflicts }) => {
                &&& stray_root(base@, working@, target@) is None
                &&& !compatible(base@.nodes, working@.nodes, target@.nodes)
                &&& conflicts@.len() > 0
                &&& conflicts@ == conflicts_of(base@.nodes, working@.nodes, target@.nodes)
                &&& conflicts@.no_duplicates()
                &&& forall|c: Conflict|
                    conflicts@.contains(c) <==> conflicts_with(
                        base@.nodes,
                        working@.nodes,
                        target@.nodes,
                        c,
                    )
            },
            Ok(Rebase::Applied { snapshot, node_ops }) => {
                &&& stray_root(base@, working@, target@) is None
                &&& compatible(base@.nodes, working@.nodes, target@.nodes)
                &&& closed(merged(base@.nodes, working@.nodes, target@.nodes), base@.root)
                &&& node_ops@ == changes(base@.nodes, working@.nodes)
                &&& is_change_list(base@.nodes, working@.nodes, node_ops@)
                &&& snapshot.wf()
                &&& snapshot@.root == base@.root
                &&& snapshot@.nodes == reachable_part(
                    merged(base@.nodes, working@.nodes, target@.nodes),
                    base@.root,
                )
            },
            Err(e) => {
                ||| (stray_root(base@, working@, target@) matches Some(found) && e
                    == StoreError::IntegrityViolation(
                    Integrity::RootMismatch { expected: base@.root, found },
                ))
                ||| {
                    &&& stray_root(base@, working@, target@) is None
                    &&& compatible(base@.nodes, working@.nodes, target@.nodes)
                    &&& !closed(merged(base@.nodes, working@.nodes, target@.nodes), base@.root)
                    &&& e matches StoreError::IntegrityViolation(
                        Integrity::DanglingEdge { from, edge },
                    )
                    &&& first_dangling(
                        merged(base@.nodes, working@.nodes, target@.nodes),
                        base@.root,
                        from,
                        edge,
                    )
                }
            },
        },
{
    let root = base.root();
    if working.root() != root {
        return Err(
            StoreError::IntegrityViolation(
                Integrity::RootMismatch { expected: root, found: working.root() },
            ),
        );
    }
    if target.root() != root {
        return Err(
            StoreError::IntegrityViolation(
                Integrity::RootMismatch { expected: root, found: target.root() },
            ),
        );
    }
    proof {
        base.lemma_wf();
        working.lemma_wf();
        target.lemma_wf();
    }
    let branch = diff(base.graph(), working.graph());
    let upstream = diff(base.graph(), target.graph());
    let conflicts = find_conflicts(&branch, &upstream);
    proof {
        lemma_keeps_both_sides(base@.nodes, working@.nodes, target@.nodes, branch@);
        assert forall|c: Conflict|
            conflicts@.contains(c) <==> conflicts_with(
                base@.nodes,
                working@.nodes,
                target@.nodes,
                c,
            ) by {
            lemma_conflicts_of_changes(
                base@.nodes,
                working@.nodes,
                target@.nodes,
                branch@,
                upstream@,
                c,
            );
        }
    }
    if conflicts.len() > 0 {
        proof {
            assert(conflicts@.contains(conflicts@[0]));
        }
        return Ok(Rebase::Conflicted { conflicts });
    }
    proof {
        assert forall|c: Conflict|
            !conflicts_with(base@.nodes, working@.nodes, target@.nodes, c) by {
            if conflicts@.contains(c) {
                let k = choose|k: int| 0 <= k < conflicts@.len() && conflicts@[k] == c;
            }
        }
    }
    let mut graph = target.graph().duplicate();
    graph.apply_each(&branch);
    proof {
        assert forall|k: int| 0 <= k < branch@.len() implies #[trigger] branch@[k] != (
        NodeOp::RemoveNode { node: root }) by {
            assert(is_difference(base@.nodes, working@.nodes, branch@[k]));
        }
        lemma_kept_unless_removed(target@.nodes, branch@, root);
    }
    proof {
        if target@ == base@ {
            assert(reachable_part(working@.nodes, root) =~= working@.nodes);
        }
    }
    match Snapshot::compute(&graph, root) {
        Ok(snapshot) => {
            proof {
                if target@ == base@ {
                    lemma_same_view_same_address(&snapshot, working);
                }
            }
            Ok(Rebase::Applied { snapshot, node_ops: branch })
        },
        Err(e) => Err(e),
    }
}

} // verus!

//! Which nodes a walk from the root arrives at.

use vstd::prelude::*;
use crate::error::{Missing, StoreError};
use crate::graph::{
    has_id, lemma_table_at, nodes_ordered, table, Edge, Graph, GraphNode, NodeId, NodeView,
};

verus! {

/// `p` has an edge to `n`.
pub open spec fn has_edge_to(m: Map<NodeId, NodeView>, p: NodeId, n: NodeId) -> bool {
    m.contains_key(p) && exists|e: Edge| #[trigger] m[p].edges.contains(e) && e.target == n
}

/// A walk of at most `k` edges leads from `root` to `n`.
pub open spec fn reach_within(m: Map<NodeId, NodeView>, root: NodeId, n: NodeId, k: nat) -> bool
    decreases k,
{
    if k == 0 {
        n == root
    } else {
        reach_within(m, root, n, (k - 1) as nat) || exists|p: NodeId|
            reach_within(m, root, p, (k - 1) as nat) && #[trigger] has_edge_to(m, p, n)
    }
}

/// Some walk leads from `root` to `n`. The root itself is reachable, and so
/// is the target of an edge even where no node has that identifier.
pub open spec fn reachable(m: Map<NodeId, NodeView>, root: NodeId, n: NodeId) -> bool {
    exists|k: nat| reach_within(m, root, n, k)
}

/// Every identifier that a walk from `root` arrives at names a node.
pub open spec fn closed(m: Map<NodeId, NodeView>, root: NodeId) -> bool {
    forall|n: NodeId| #[trigger] reachable(m, root, n) ==> m.contains_key(n)
}

/// Whether the edge `edge` of the node `from` is the first that leaves the
/// graph open: a walk from `root` arrives at `from`, the edge leads to no
/// node, and no reachable node before `from`, and no edge of `from` before
/// `edge`, leads to no node.
pub open spec fn first_dangling(
    m: Map<NodeId, NodeView>,
    root: NodeId,
    from: NodeId,
    edge: Edge,
) -> bool {
    &&& reachable(m, root, from)
    &&& m.contains_key(from)
    &&& m[from].edges.contains(edge)
    &&& !m.contains_key(edge.target)
    &&& forall|p: NodeId, e: Edge|
        reachable(m, root, p) && m.contains_key(p) && #[trigger] m[p].edges.contains(e)
            && !m.contains_key(e.target) ==> from < p || (from == p && (edge == e
            || edge.precedes(e)))
}

/// The nodes that a walk from `root` arrives at.
pub open spec fn reachable_part(m: Map<NodeId, NodeView>, root: NodeId) -> Map<NodeId, NodeView> {
    Map::new(|n: NodeId| m.contains_key(n) && reachable(m, root, n), |n: NodeId| m[n])
}

pub(crate) proof fn lemma_root_reachable(m: Map<NodeId, NodeView>, root: NodeId)
    ensures
        reachable(m, root, root),
{
    assert(reach_within(m, root, root, 0));
}

pub(crate) proof fn lemma_reach_step(m: Map<NodeId, NodeView>, root: NodeId, p: NodeId, e: Edge)
    requires
        reachable(m, root, p),
        m.contains_key(p),
        m[p].edges.contains(e),
    ensures
        reachable(m, root, e.target),
{
    let k = choose|k: nat| reach_within(m, root, p, k);
    assert(has_edge_to(m, p, e.target));
    assert(reach_within(m, root, e.target, k + 1));
}

/// What is reachable in the reachable part is what is reachable in the whole.
pub(crate) proof fn lemma_reach_in_part(m: Map<NodeId, NodeView>, root: NodeId, n: NodeId, k: nat)
    requires
        closed(m, root),
        reach_within(m, root, n, k),
    ensures
        reach_within(reachable_part(m, root), root, n, k),
        reachable(m, root, n),
    decreases k,
{
    let part = reachable_part(m, root);
    if k > 0 {
        if reach_within(m, root, n, (k - 1) as nat) {
            lemma_reach_in_part(m, root, n, (k - 1) as nat);
        } else {
            let p = choose|p: NodeId|
                reach_within(m, root, p, (k - 1) as nat) && #[trigger] has_edge_to(m, p, n);
            lemma_reach_in_part(m, root, p, (k - 1) as nat);
            let e = choose|e: Edge| #[trigger] m[p].edges.contains(e) && e.target == n;
            assert(part.contains_key(p));
            assert(part[p].edges.contains(e));
            assert(has_edge_to(part, p, n));
        }
    }
}

pub(crate) proof fn lemma_reach_from_part(m: Map<NodeId, NodeView>, root: NodeId, n: NodeId, k: nat)
    requires
        reach_within(reachable_part(m, root), root, n, k),
    ensures
        reach_within(m, root, n, k),
    decreases k,
{
    let part = reachable_part(m, root);
    if k > 0 {
        if reach_within(part, root, n, (k - 1) as nat) {
            lemma_reach_from_part(m, root, n, (k - 1) as nat);
        } else {
            let p = choose|p: NodeId|
                reach_within(part, root, p, (k - 1) as nat) && #[trigger] has_edge_to(part, p, n);
            lemma_reach_from_part(m, root, p, (k - 1) as nat);
            let e = choose|e: Edge| #[trigger] part[p].edges.contains(e) && e.target == n;
            assert(m[p].edges.contains(e));
            assert(has_edge_to(m, p, n));
        }
    }
}

/// The reachable part of a closed graph is closed, all of it is reachable,
/// and taking its reachable part again changes nothing.
pub(crate) proof fn lemma_part_is_fixed(m: Map<NodeId, NodeView>, root: NodeId)
    requires
        closed(m, root),
    ensures
        closed(reachable_part(m, root), root),
        reachable_part(reachable_part(m, root), root) == reachable_part(m, root),
        forall|n: NodeId| #[trigger]
            reachable_part(m, root).contains_key(n) ==> reachable(reachable_part(m, root), root, n),
{
    let part = reachable_part(m, root);
    assert forall|n: NodeId| reachable(part, root, n) == reachable(m, root, n) by {
        if reachable(part, root, n) {
            let k = choose|k: nat| reach_within(part, root, n, k);
            lemma_reach_from_part(m, root, n, k);
        }
        if reachable(m, root, n) {
            let k = choose|k: nat| reach_within(m, root, n, k);
            lemma_reach_in_part(m, root, n, k);
        }
    }
    assert(reachable_part(part, root) =~= part);
}

/// The number of `true` entries.
pub open spec fn count_true(s: Seq<bool>) -> nat
    decreases s.len(),
{
    if s.len() == 0 {
        0
    } else {
        count_true(s.drop_last()) + if s.last() {
            1nat
        } else {
            0nat
        }
    }
}

proof fn lemma_count_bound(s: Seq<bool>)
    ensures
        count_true(s) <= s.len(),
    decreases s.len(),
{
    if s.len() > 0 {
        lemma_count_bound(s.drop_last());
    }
}

proof fn lemma_count_all_false(s: Seq<bool>)
    requires
        forall|i: int| 0 <= i < s.len() ==> !s[i],
    ensures
        count_true(s) == 0,
    decreases s.len(),
{
    if s.len() > 0 {
        lemma_count_all_false(s.drop_last());
    }
}

proof fn lemma_count_mark(s: Seq<bool>, i: int)
    requires
        0 <= i < s.len(),
        !s[i],
    ensures
        count_true(s.update(i, true)) == count_true(s) + 1,
    decreases s.len(),
{
    let t = s.update(i, true);
    if i == s.len() - 1 {
        assert(t.drop_last() =~= s.drop_last());
    } else {
        lemma_count_mark(s.drop_last(), i);
        assert(t.drop_last() =~= s.drop_last().update(i, true));
    }
}

/// The target of `e` is a marked node, or no node at all.
spec fn target_marked(nodes: Seq<GraphNode>, marks: Seq<bool>, e: Edge) -> bool {
    !has_id(nodes, e.target) || exists|j: int|
        0 <= j < nodes.len() && (#[trigger] nodes[j]).id == e.target && marks[j]
}

/// The targets of all edges of node `i` are marked, as far as they are nodes.
spec fn expanded(nodes: Seq<GraphNode>, marks: Seq<bool>, i: int) -> bool {
    forall|q: int|
        0 <= q < nodes[i].edges@.len() ==> target_marked(nodes, marks, #[trigger] nodes[i].edges@[q])
}

proof fn lemma_marks_grow(nodes: Seq<GraphNode>, marks: Seq<bool>, t: int, i: int)
    requires
        marks.len() == nodes.len(),
        0 <= t < marks.len(),
        0 <= i < nodes.len(),
        expanded(nodes, marks, i),
    ensures
        expanded(nodes, marks.update(t, true), i),
{
    let grown = marks.update(t, true);
    assert forall|q: int| 0 <= q < nodes[i].edges@.len() implies target_marked(
        nodes,
        grown,
        #[trigger] nodes[i].edges@[q],
    ) by {
        let e = nodes[i].edges@[q];
        assert(target_marked(nodes, marks, e));
        if has_id(nodes, e.target) {
            let j = choose|j: int|
                0 <= j < nodes.len() && (#[trigger] nodes[j]).id == e.target && marks[j];
            assert(nodes[j].id == e.target && grown[j]);
        }
    }
}

proof fn lemma_marks_complete(
    nodes: Seq<GraphNode>,
    marks: Seq<bool>,
    root: NodeId,
    rpos: int,
    n: NodeId,
    k: nat,
)
    requires
        nodes_ordered(nodes),
        marks.len() == nodes.len(),
        0 <= rpos < nodes.len(),
        nodes[rpos].id == root,
        marks[rpos],
        forall|i: int| 0 <= i < nodes.len() && marks[i] ==> expanded(nodes, marks, i),
        reach_within(table(nodes), root, n, k),
        has_id(nodes, n),
    ensures
        exists|j: int| 0 <= j < nodes.len() && (#[trigger] nodes[j]).id == n && marks[j],
    decreases k,
{
    let m = table(nodes);
    if k == 0 {
        assert(nodes[rpos].id == n && marks[rpos]);
    } else if reach_within(m, root, n, (k - 1) as nat) {
        lemma_marks_complete(nodes, marks, root, rpos, n, (k - 1) as nat);
    } else {
        let p = choose|p: NodeId|
            reach_within(m, root, p, (k - 1) as nat) && #[trigger] has_edge_to(m, p, n);
        lemma_marks_complete(nodes, marks, root, rpos, p, (k - 1) as nat);
        let j = choose|j: int| 0 <= j < nodes.len() && (#[trigger] nodes[j]).id == p && marks[j];
        lemma_table_at(nodes, j);
        let e = choose|e: Edge| #[trigger] m[p].edges.contains(e) && e.target == n;
        assert(nodes[j].edges@.to_set().contains(e));
        let q = choose|q: int| 0 <= q < nodes[j].edges@.len() && nodes[j].edges@[q] == e;
        assert(expanded(nodes, marks, j));
        assert(target_marked(nodes, marks, nodes[j].edges@[q]));
    }
}

/// An identifier that a walk arrives at and that names no node is the
/// target of an edge of a node that the walk arrives at.
pub(crate) proof fn lemma_missing_is_pointed_at(
    m: Map<NodeId, NodeView>,
    root: NodeId,
    n: NodeId,
    k: nat,
)
    requires
        m.contains_key(root),
        !m.contains_key(n),
        reach_within(m, root, n, k),
    ensures
        exists|p: NodeId, e: Edge|
            reachable(m, root, p) && m.contains_key(p) && #[trigger] m[p].edges.contains(e)
                && e.target == n,
    decreases k,
{
    if k > 0 {
        if reach_within(m, root, n, (k - 1) as nat) {
            lemma_missing_is_pointed_at(m, root, n, (k - 1) as nat);
        } else {
            let p = choose|p: NodeId|
                reach_within(m, root, p, (k - 1) as nat) && #[trigger] has_edge_to(m, p, n);
            let e = choose|e: Edge| #[trigger] m[p].edges.contains(e) && e.target == n;
            assert(reachable(m, root, p));
            assert(m[p].edges.contains(e) && e.target == n);
        }
    }
}

/// Walks the graph from `root` and marks, position by position of the arena,
/// the nodes that the walk arrives at. An edge that leads to no node is
/// passed over. Fails where the root is missing.
pub fn mark_reachable(g: &Graph, root: NodeId) -> (r: Result<Vec<bool>, StoreError>)
    requires
        g.wf(),
    ensures
        r is Ok <==> g@.contains_key(root),
        r matches Ok(marks) ==> {
            &&& marks@.len() == g.spec_nodes().len()
            &&& forall|i: int|
                0 <= i < marks@.len() ==> marks@[i] == reachable(
                    g@,
                    root,
                    (#[trigger] g.spec_nodes()[i]).spec_id(),
                )
        },
        r matches Err(e) ==> e == StoreError::NotFound(Missing::Node(root)),
{
    let n = g.len();
    let ghost nodes = g.spec_nodes();
    let ghost m = g@;
    let rpos = g.position(root);
    if !(rpos < n && g.node_at(rpos).id() == root) {
        proof {
            lemma_root_reachable(m, root);
        }
        return Err(StoreError::NotFound(Missing::Node(root)));
    }
    let mut marks: Vec<bool> = Vec::new();
    let mut c: usize = 0;
    while c < n
        invariant
            c <= n,
            marks@.len() == c,
            forall|i: int| 0 <= i < c ==> !marks@[i],
        decreases n - c,
    {
        marks.push(false);
        c += 1;
    }
    proof {
        lemma_count_all_false(marks@);
        lemma_count_mark(marks@, rpos as int);
        lemma_root_reachable(m, root);
    }
    marks.set(rpos, true);
    let mut stack: Vec<usize> = Vec::new();
    stack.push(rpos);
    let mut marked: usize = 1;
    proof {
        assert(stack@[0] == rpos);
        assert forall|i: int|
            0 <= i < n && marks@[i] implies reachable(m, root, (#[trigger] nodes[i]).id) by {
            assert(i == rpos);
        }
    }
    while stack.len() > 0
        invariant
            g.wf(),
            nodes == g.spec_nodes(),
            m == g@,
            n == nodes.len(),
            marks@.len() == n,
            rpos < n,
            nodes[rpos as int].id == root,
            marks@[rpos as int],
            m.contains_key(root),
            forall|k: int| 0 <= k < stack@.len() ==> stack@[k] < n && marks@[stack@[k] as int],
            forall|i: int|
                0 <= i < n && marks@[i] ==> reachable(m, root, (#[trigger] nodes[i]).id),
            forall|i: int|
                0 <= i < n && marks@[i] && !stack@.contains(i as usize) ==> expanded(
                    nodes,
                    marks@,
                    i,
                ),
            count_true(marks@) == marked,
        decreases 2 * (n - marked) + stack@.len(),
    {
        proof {
            lemma_count_bound(marks@);
        }
        let ghost measure = 2 * (n - marked) + stack@.len();
        let ghost stack_before = stack@;
        let i = stack.pop().unwrap();
        let node = g.node_at(i);
        let edges = node.edges();
        proof {
            lemma_table_at(nodes, i as int);
            assert forall|j: int|
                0 <= j < n && marks@[j] && !stack@.contains(j as usize) && j != i implies expanded(
                nodes,
                marks@,
                j,
            ) by {
                if stack_before.contains(j as usize) {
                    let k = choose|k: int| 0 <= k < stack_before.len() && stack_before[k] == j;
                    assert(k < stack@.len());
                    assert(stack@[k] == j);
                }
            }
        }
        let mut k: usize = 0;
        while k < edges.len()
            invariant
                g.wf(),
                nodes == g.spec_nodes(),
                m == g@,
                n == nodes.len(),
                marks@.len() == n,
                rpos < n,
                nodes[rpos as int].id == root,
                marks@[rpos as int],
                m.contains_key(root),
                i < n,
                marks@[i as int],
                *node == nodes[i as int],
                edges@ == node.spec_edges(),
                k <= edges@.len(),
                m.contains_key(nodes[i as int].id),
                m[nodes[i as int].id] == nodes[i as int]@,
                forall|k: int| 0 <= k < stack@.len() ==> stack@[k] < n && marks@[stack@[k] as int],
                forall|i: int|
                    0 <= i < n && marks@[i] ==> reachable(m, root, (#[trigger] nodes[i]).id),
                forall|j: int|
                    0 <= j < n && marks@[j] && !stack@.contains(j as usize) && j != i ==> expanded(
                        nodes,
                        marks@,
                        j,
                    ),
                forall|q: int| 0 <= q < k ==> target_marked(nodes, marks@, #[trigger] edges@[q]),
                count_true(marks@) == marked,
                marked <= n,
                2 * (n - marked) + stack@.len() < measure,
            decreases edges@.len() - k,
        {
            let e = edges[k];
            proof {
                assert(edges@.to_set().contains(e));
                lemma_reach_step(m, root, nodes[i as int].id, e);
            }
            let tpos = g.position(e.target);
            let found = tpos < n && g.node_at(tpos).id() == e.target;
            if found && !marks[tpos] {
                proof {
                    lemma_count_mark(marks@, tpos as int);
                    lemma_count_bound(marks@.update(tpos as int, true));
                    let grown = marks@.update(tpos as int, true);
                    assert forall|j: int|
                        0 <= j < n && grown[j] && !stack@.push(tpos).contains(j as usize) && j
                            != i implies expanded(nodes, grown, j) by {
                        if j == tpos {
                            assert(stack@.push(tpos)[stack@.len() as int] == tpos);
                        } else {
                            if stack@.contains(j as usize) {
                                let x = choose|x: int| 0 <= x < stack@.len() && stack@[x] == j;
                                assert(stack@.push(tpos)[x] == j);
                            }
                            lemma_marks_grow(nodes, marks@, tpos as int, j);
                        }
                    }
                    assert forall|q: int| 0 <= q < k implies target_marked(
                        nodes,
                        grown,
                        #[trigger] edges@[q],
                    ) by {
                        let e0 = edges@[q];
                        assert(target_marked(nodes, marks@, e0));
                        if has_id(nodes, e0.target) {
                            let j = choose|j: int|
                                0 <= j < nodes.len() && (#[trigger] nodes[j]).id == e0.target
                                    && marks@[j];
                            assert(nodes[j].id == e0.target && grown[j]);
                        }
                    }
                }
                marks.set(tpos, true);
                stack.push(tpos);
                marked += 1;
            }
            proof {
                if found {
                    assert(nodes[tpos as int].id == e.target && marks@[tpos as int]);
                } else {
                    if has_id(nodes, e.target) {
                        let w = crate::graph::index_of(nodes, e.target);
                        lemma_table_at(nodes, w);
                    }
                }
                assert(target_marked(nodes, marks@, e));
            }
            k += 1;
        }
        proof {
            assert(expanded(nodes, marks@, i as int));
        }
    }
    proof {
        assert forall|i: int| 0 <= i < n && marks@[i] implies expanded(nodes, marks@, i) by {
            assert(!stack@.contains(i as usize));
        }
        assert forall|i: int| 0 <= i < marks@.len() implies marks@[i] == reachable(
            m,
            root,
            (#[trigger] nodes[i]).spec_id(),
        ) by {
            if reachable(m, root, nodes[i].id) {
                let k = choose|k: nat| reach_within(m, root, nodes[i].id, k);
                assert(has_id(nodes, nodes[i].id));
                lemma_marks_complete(nodes, marks@, root, rpos as int, nodes[i].id, k);
                let j = choose|j: int|
                    0 <= j < nodes.len() && (#[trigger] nodes[j]).id == nodes[i].id && marks@[j];
                lemma_table_at(nodes, j);
                lemma_table_at(nodes, i);
            }
        }
    }
    Ok(marks)
}

} // verus!

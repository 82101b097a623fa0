//! The differences between two graphs, as an ordered list of node operations.

use vstd::prelude::*;
use crate::graph::{
    edges_ordered, has_id, index_of, lemma_table_at, nodes_ordered, table, Edge, Graph, GraphNode,
    NodeId, NodeView,
};
use crate::ops::{all_applicable, apply_op, apply_ops, lemma_apply_push, NodeOp};

verus! {

/// Whether `op` states a difference between the nodes `a` and the nodes `b`:
/// a node that only `b` has, a node that only `a` has, other content of a
/// node of both, an edge that the node has in `b` and not in `a`, or an edge
/// that a node of both has in `a` and not in `b`.
pub open spec fn is_difference(
    a: Map<NodeId, NodeView>,
    b: Map<NodeId, NodeView>,
    op: NodeOp,
) -> bool {
    match op {
        NodeOp::AddNode { node, content } => !a.contains_key(node) && b.contains_key(node)
            && b[node].content == content,
        NodeOp::RemoveNode { node } => a.contains_key(node) && !b.contains_key(node),
        NodeOp::SetContent { node, content } => a.contains_key(node) && b.contains_key(node)
            && a[node].content != content && b[node].content == content,
        NodeOp::AddEdge { node, edge } => b.contains_key(node) && b[node].edges.contains(edge) && !(
        a.contains_key(node) && a[node].edges.contains(edge)),
        NodeOp::RemoveEdge { node, edge } => a.contains_key(node) && b.contains_key(node)
            && a[node].edges.contains(edge) && !b[node].edges.contains(edge),
    }
}

/// Strictly increasing in the order of operations, hence free of repetitions.
pub open spec fn ops_ordered(ops: Seq<NodeOp>) -> bool {
    forall|i: int, j: int|
        0 <= i < j < ops.len() ==> (#[trigger] ops[i]).precedes(#[trigger] ops[j])
}

/// Whether `ops` is the list of differences between `a` and `b`: every
/// difference once, nothing else, in order.
pub open spec fn is_change_list(
    a: Map<NodeId, NodeView>,
    b: Map<NodeId, NodeView>,
    ops: Seq<NodeOp>,
) -> bool {
    &&& forall|k: int| 0 <= k < ops.len() ==> is_difference(a, b, #[trigger] ops[k])
    &&& forall|op: NodeOp| #[trigger] is_difference(a, b, op) ==> ops.contains(op)
    &&& ops_ordered(ops)
}

/// The list of differences between `a` and `b`.
pub open spec fn changes(a: Map<NodeId, NodeView>, b: Map<NodeId, NodeView>) -> Seq<NodeOp> {
    choose|ops: Seq<NodeOp>| is_change_list(a, b, ops)
}

/// Two ordered lists of operations with the same members are the same list.
pub(crate) proof fn lemma_ops_ordered_unique(x: Seq<NodeOp>, y: Seq<NodeOp>)
    requires
        ops_ordered(x),
        ops_ordered(y),
        forall|op: NodeOp| x.contains(op) <==> y.contains(op),
    ensures
        x == y,
    decreases x.len(),
{
    if x.len() == 0 {
        if y.len() > 0 {
            assert(y.contains(y[0]));
        }
        assert(x =~= y);
    } else {
        let p = x.last();
        assert(x.contains(p));
        assert(y.contains(p));
        let q = y.last();
        assert(y.contains(q));
        assert(x.contains(q));
        let kq = choose|k: int| 0 <= k < x.len() && x[k] == q;
        let kp = choose|k: int| 0 <= k < y.len() && y[k] == p;
        if kq < x.len() - 1 {
            assert(x[kq].precedes(x[x.len() - 1]));
        }
        if kp < y.len() - 1 {
            assert(y[kp].precedes(y[y.len() - 1]));
        }
        assert(p == q);
        let x1 = x.drop_last();
        let y1 = y.drop_last();
        assert forall|op: NodeOp| x1.contains(op) <==> y1.contains(op) by {
            if x1.contains(op) {
                let k = choose|k: int| 0 <= k < x1.len() && x1[k] == op;
                assert(x[k] == op);
                assert(x[k].precedes(x[x.len() - 1]));
                assert(x.contains(op));
                let m = choose|m: int| 0 <= m < y.len() && y[m] == op;
                assert(m < y.len() - 1);
                assert(y1[m] == op);
            }
            if y1.contains(op) {
                let k = choose|k: int| 0 <= k < y1.len() && y1[k] == op;
                assert(y[k] == op);
                assert(y[k].precedes(y[y.len() - 1]));
                assert(y.contains(op));
                let m = choose|m: int| 0 <= m < x.len() && x[m] == op;
                assert(m < x.len() - 1);
                assert(x1[m] == op);
            }
        }
        assert(ops_ordered(x1)) by {
            assert forall|i: int, j: int| 0 <= i < j < x1.len() implies (#[trigger] x1[i]).precedes(
                #[trigger] x1[j],
            ) by {
                assert(x[i].precedes(x[j]));
            }
        }
        assert(ops_ordered(y1)) by {
            assert forall|i: int, j: int| 0 <= i < j < y1.len() implies (#[trigger] y1[i]).precedes(
                #[trigger] y1[j],
            ) by {
                assert(y[i].precedes(y[j]));
            }
        }
        lemma_ops_ordered_unique(x1, y1);
        assert(x =~= x1.push(p));
        assert(y =~= y1.push(q));
    }
}

/// A list of the differences between `a` and `b` is the list `changes(a, b)`.
pub(crate) proof fn lemma_change_list(a: Map<NodeId, NodeView>, b: Map<NodeId, NodeView>, ops: Seq<NodeOp>)
    requires
        is_change_list(a, b, ops),
    ensures
        ops == changes(a, b),
{
    let c = changes(a, b);
    assert(is_change_list(a, b, c));
    assert forall|op: NodeOp| ops.contains(op) <==> c.contains(op) by {
        if ops.contains(op) {
            let k = choose|k: int| 0 <= k < ops.len() && ops[k] == op;
            assert(is_difference(a, b, ops[k]));
        }
        if c.contains(op) {
            let k = choose|k: int| 0 <= k < c.len() && c[k] == op;
            assert(is_difference(a, b, c[k]));
        }
    }
    lemma_ops_ordered_unique(ops, c);
}

/// The nodes with identifiers below `bound` as in `b`, the others as in `a`.
spec fn mix(a: Map<NodeId, NodeView>, b: Map<NodeId, NodeView>, bound: int) -> Map<
    NodeId,
    NodeView,
> {
    Map::new(
        |id: NodeId|
            if id < bound {
                b.contains_key(id)
            } else {
                a.contains_key(id)
            },
        |id: NodeId|
            if id < bound {
                b[id]
            } else {
                a[id]
            },
    )
}

spec fn edge_op(adding: bool, x: NodeId, e: Edge) -> NodeOp {
    if adding {
        NodeOp::AddEdge { node: x, edge: e }
    } else {
        NodeOp::RemoveEdge { node: x, edge: e }
    }
}

spec fn skipped(other: Option<&GraphNode>, e: Edge) -> bool {
    other matches Some(o) && o@.edges.contains(e)
}

/// The edges among the first `q` of the list that are not skipped.
spec fn kept(edges: Seq<Edge>, other: Option<&GraphNode>, q: int) -> Set<Edge> {
    Set::new(|e: Edge| exists|t: int| 0 <= t < q && #[trigger] edges[t] == e && !skipped(other, e))
}

/// Position `q` of the edge list is among the positions that `idx` lists.
spec fn covered(idx: Seq<int>, q: int) -> bool {
    exists|r: int| 0 <= r < idx.len() && #[trigger] idx[r] == q
}

spec fn with_edges(m: Map<NodeId, NodeView>, x: NodeId, edges: Set<Edge>) -> Map<NodeId, NodeView> {
    m.insert(x, NodeView { content: m[x].content, edges })
}

spec fn changed(old_edges: Set<Edge>, adding: bool, by: Set<Edge>) -> Set<Edge> {
    if adding {
        old_edges.union(by)
    } else {
        old_edges.difference(by)
    }
}

/// Appends, for each edge of the list that `other` does not have, the
/// operation that adds it to node `x` or takes it away.
fn push_edge_ops(
    ops: &mut Vec<NodeOp>,
    x: NodeId,
    edges: &Vec<Edge>,
    other: Option<&GraphNode>,
    adding: bool,
    Ghost(a): Ghost<Map<NodeId, NodeView>>,
) -> (idx: Ghost<Seq<int>>)
    requires
        edges_ordered(edges@),
        other matches Some(o) ==> o.wf(),
        apply_ops(a, old(ops)@).contains_key(x),
        all_applicable(a, old(ops)@),
    ensures
        final(ops)@.len() == old(ops)@.len() + idx@.len(),
        final(ops)@.take(old(ops)@.len() as int) == old(ops)@,
        forall|r: int|
            0 <= r < idx@.len() ==> 0 <= (#[trigger] idx@[r]) < edges@.len() && final(ops)@[old(
                ops,
            )@.len() + r] == edge_op(adding, x, edges@[idx@[r]]) && !skipped(
                other,
                edges@[idx@[r]],
            ),
        forall|r1: int, r2: int|
            0 <= r1 < r2 < idx@.len() ==> (#[trigger] idx@[r1]) < (#[trigger] idx@[r2]),
        forall|q: int|
            0 <= q < edges@.len() && !skipped(other, edges@[q]) ==> #[trigger] covered(idx@, q),
        all_applicable(a, final(ops)@),
        apply_ops(a, final(ops)@) == with_edges(
            apply_ops(a, old(ops)@),
            x,
            changed(
                apply_ops(a, old(ops)@)[x].edges,
                adding,
                kept(edges@, other, edges@.len() as int),
            ),
        ),
{
    let ghost start = apply_ops(a, ops@);
    let ghost base = ops@;
    let ghost mut idx: Seq<int> = Seq::empty();
    let mut q: usize = 0;
    proof {
        assert(kept(edges@, other, 0) =~= Set::<Edge>::empty());
        assert(changed(start[x].edges, adding, kept(edges@, other, 0)) =~= start[x].edges);
        assert(with_edges(start, x, start[x].edges) =~= start);
        assert(ops@.take(base.len() as int) =~= base);
    }
    while q < edges.len()
        invariant
            q <= edges@.len(),
            edges_ordered(edges@),
            other matches Some(o) ==> o.wf(),
            base == old(ops)@,
            start == apply_ops(a, base),
            start.contains_key(x),
            ops@.len() == base.len() + idx.len(),
            ops@.take(base.len() as int) == base,
            forall|r: int|
                0 <= r < idx.len() ==> 0 <= (#[trigger] idx[r]) < q && ops@[base.len() + r]
                    == edge_op(adding, x, edges@[idx[r]]) && !skipped(other, edges@[idx[r]]),
            forall|r1: int, r2: int|
                0 <= r1 < r2 < idx.len() ==> (#[trigger] idx[r1]) < (#[trigger] idx[r2]),
            forall|t: int| 0 <= t < q && !skipped(other, edges@[t]) ==> #[trigger] covered(idx, t),
            all_applicable(a, ops@),
            apply_ops(a, ops@) == with_edges(
                start,
                x,
                changed(start[x].edges, adding, kept(edges@, other, q as int)),
            ),
        decreases edges@.len() - q,
    {
        let e = edges[q];
        let skip = match other {
            Some(o) => o.has_edge(e),
            None => false,
        };
        let ghost before = ops@;
        let ghost idx_before = idx;
        let ghost k0 = kept(edges@, other, q as int);
        let ghost k1 = kept(edges@, other, q + 1);
        if !skip {
            let op = if adding {
                NodeOp::AddEdge { node: x, edge: e }
            } else {
                NodeOp::RemoveEdge { node: x, edge: e }
            };
            ops.push(op);
            proof {
                idx = idx.push(q as int);
                lemma_apply_push(a, before, op);
                assert(ops@.take(base.len() as int) =~= before.take(base.len() as int));
                assert forall|t: int|
                    0 <= t < q + 1 && !skipped(other, edges@[t]) implies #[trigger] covered(
                    idx,
                    t,
                ) by {
                    if t < q {
                        assert(covered(idx_before, t));
                        let r = choose|r: int|
                            0 <= r < idx_before.len() && #[trigger] idx_before[r] == t;
                        assert(idx[r] == t);
                    } else {
                        assert(idx[idx_before.len() as int] == t);
                    }
                }
                assert(k1 =~= k0.insert(e)) by {
                    assert forall|y: Edge| k1.contains(y) <==> k0.insert(e).contains(y) by {
                        if k1.contains(y) {
                            let t = choose|t: int|
                                0 <= t < q + 1 && #[trigger] edges@[t] == y && !skipped(other, y);
                            if t < q {
                                assert(k0.contains(y));
                            }
                        }
                        if k0.contains(y) {
                            let t = choose|t: int|
                                0 <= t < q && #[trigger] edges@[t] == y && !skipped(other, y);
                            assert(0 <= t < q + 1);
                        }
                        if y == e {
                            assert(edges@[q as int] == y);
                        }
                    }
                }
                let cur = apply_ops(a, before);
                if adding {
                    assert(changed(start[x].edges, adding, k1) =~= changed(
                        start[x].edges,
                        adding,
                        k0,
                    ).insert(e));
                } else {
                    assert(changed(start[x].edges, adding, k1) =~= changed(
                        start[x].edges,
                        adding,
                        k0,
                    ).remove(e));
                }
                assert(apply_op(cur, op) =~= with_edges(
                    start,
                    x,
                    changed(start[x].edges, adding, k1),
                ));
            }
        } else {
            proof {
                assert(k1 =~= k0) by {
                    assert forall|y: Edge| k1.contains(y) <==> k0.contains(y) by {
                        if k1.contains(y) {
                            let t = choose|t: int|
                                0 <= t < q + 1 && #[trigger] edges@[t] == y && !skipped(other, y);
                            assert(t < q);
                        }
                        if k0.contains(y) {
                            let t = choose|t: int|
                                0 <= t < q && #[trigger] edges@[t] == y && !skipped(other, y);
                            assert(0 <= t < q + 1);
                        }
                    }
                }
            }
        }
        q += 1;
    }
    Ghost(idx)
}

proof fn lemma_no_keys_between(nodes: Seq<GraphNode>, i: int, lo: int, hi: int)
    requires
        nodes_ordered(nodes),
        0 <= i <= nodes.len(),
        forall|k: int| 0 <= k < i ==> (#[trigger] nodes[k]).id < lo,
        forall|k: int| i <= k < nodes.len() ==> hi <= (#[trigger] nodes[k]).id,
    ensures
        forall|id: NodeId| lo <= id < hi ==> !(#[trigger] table(nodes).contains_key(id)),
{
    assert forall|id: NodeId| lo <= id < hi implies !(#[trigger] table(nodes).contains_key(id)) by {
        if has_id(nodes, id) {
            let k = index_of(nodes, id);
            assert(nodes[k].id == id);
        }
    }
}

/// The state that one round of the comparison leaves behind, up to `bound`.
spec fn progress(
    a: Map<NodeId, NodeView>,
    b: Map<NodeId, NodeView>,
    ops: Seq<NodeOp>,
    bound: int,
) -> bool {
    &&& forall|k: int| 0 <= k < ops.len() ==> is_difference(a, b, #[trigger] ops[k])
    &&& forall|op: NodeOp| #[trigger]
        is_difference(a, b, op) && op.subject() < bound ==> ops.contains(op)
    &&& ops_ordered(ops)
    &&& forall|k: int| 0 <= k < ops.len() ==> (#[trigger] ops[k]).subject() < bound
    &&& all_applicable(a, ops)
    &&& apply_ops(a, ops) == mix(a, b, bound)
}

/// Moving the bound over identifiers that neither side has changes nothing.
proof fn lemma_progress_skip(
    a: Map<NodeId, NodeView>,
    b: Map<NodeId, NodeView>,
    ops: Seq<NodeOp>,
    lo: int,
    hi: int,
)
    requires
        progress(a, b, ops, lo),
        lo <= hi,
        forall|id: NodeId| lo <= id < hi ==> !(#[trigger] a.contains_key(id)),
        forall|id: NodeId| lo <= id < hi ==> !(#[trigger] b.contains_key(id)),
    ensures
        progress(a, b, ops, hi),
{
    assert(mix(a, b, lo) =~= mix(a, b, hi));
    assert forall|op: NodeOp| #[trigger]
        is_difference(a, b, op) && op.subject() < hi implies ops.contains(op) by {
        if op.subject() >= lo {
            assert(!a.contains_key(op.subject()));
            assert(!b.contains_key(op.subject()));
        }
    }
}

/// A node that only the old side has gives one operation.
proof fn lemma_progress_removed(
    a: Map<NodeId, NodeView>,
    b: Map<NodeId, NodeView>,
    ops: Seq<NodeOp>,
    x: NodeId,
)
    requires
        progress(a, b, ops, x as int),
        a.contains_key(x),
        !b.contains_key(x),
    ensures
        progress(a, b, ops.push(NodeOp::RemoveNode { node: x }), x + 1),
{
    let op = NodeOp::RemoveNode { node: x };
    let next = ops.push(op);
    lemma_apply_push(a, ops, op);
    assert(apply_op(mix(a, b, x as int), op) =~= mix(a, b, x + 1));
    assert forall|o: NodeOp| #[trigger]
        is_difference(a, b, o) && o.subject() < x + 1 implies next.contains(o) by {
        if o.subject() < x {
            let k = choose|k: int| 0 <= k < ops.len() && ops[k] == o;
            assert(next[k] == o);
        } else {
            assert(o == op);
            assert(next[ops.len() as int] == o);
        }
    }
    assert forall|i: int, j: int| 0 <= i < j < next.len() implies (#[trigger] next[i]).precedes(
        #[trigger] next[j],
    ) by {
        if j < ops.len() {
            assert(ops[i].precedes(ops[j]));
        } else {
            assert(ops[i].subject() < x);
        }
    }
}

/// A node that only the new side has gives its addition and one operation for each edge.
proof fn lemma_progress_added(
    a: Map<NodeId, NodeView>,
    b: Map<NodeId, NodeView>,
    ops: Seq<NodeOp>,
    next: Seq<NodeOp>,
    x: NodeId,
    node: GraphNode,
    idx: Seq<int>,
)
    requires
        progress(a, b, ops, x as int),
        !a.contains_key(x),
        b.contains_key(x),
        b[x] == node@,
        node.wf(),
        next.len() == ops.len() + 1 + idx.len(),
        next.take(ops.len() as int + 1) == ops.push(NodeOp::AddNode { node: x, content: node.content }),
        forall|r: int|
            0 <= r < idx.len() ==> 0 <= (#[trigger] idx[r]) < node.edges@.len() && next[ops.len()
                + 1 + r] == edge_op(true, x, node.edges@[idx[r]]),
        forall|r1: int, r2: int|
            0 <= r1 < r2 < idx.len() ==> (#[trigger] idx[r1]) < (#[trigger] idx[r2]),
        forall|q: int| 0 <= q < node.edges@.len() ==> #[trigger] covered(idx, q),
        all_applicable(a, next),
        apply_ops(a, next) == with_edges(
            apply_ops(a, next.take(ops.len() as int + 1)),
            x,
            changed(
                apply_ops(a, next.take(ops.len() as int + 1))[x].edges,
                true,
                kept(node.edges@, None, node.edges@.len() as int),
            ),
        ),
    ensures
        progress(a, b, next, x + 1),
{
    let add = NodeOp::AddNode { node: x, content: node.content };
    let n0 = ops.len() as int;
    lemma_apply_push(a, ops, add);
    let k = kept(node.edges@, None, node.edges@.len() as int);
    assert(k =~= node.edges@.to_set()) by {
        assert forall|e: Edge| k.contains(e) <==> node.edges@.to_set().contains(e) by {
            if node.edges@.to_set().contains(e) {
                let t = choose|t: int| 0 <= t < node.edges@.len() && node.edges@[t] == e;
                assert(node.edges@[t] == e);
            }
        }
    }
    assert(Set::<Edge>::empty().union(k) =~= k);
    assert(apply_ops(a, next) =~= mix(a, b, x + 1));
    assert(next[n0] == add) by {
        assert(next.take(n0 + 1)[n0] == add);
    }
    assert forall|i: int| 0 <= i < n0 implies next[i] == ops[i] by {
        assert(next.take(n0 + 1)[i] == ops[i]);
    }
    assert forall|i: int| 0 <= i < next.len() implies is_difference(a, b, #[trigger] next[i]) by {
        if i < n0 {
            assert(is_difference(a, b, ops[i]));
        } else if i > n0 {
            let r = i - n0 - 1;
            assert(0 <= idx[r]);
            assert(node.edges@.to_set().contains(node.edges@[idx[r]]));
        }
    }
    assert forall|i: int| 0 <= i < next.len() implies (#[trigger] next[i]).subject() < x + 1 by {
        if i < n0 {
            assert(ops[i].subject() < x);
        } else if i > n0 {
            assert(0 <= idx[i - n0 - 1]);
        }
    }
    assert forall|i: int, j: int| 0 <= i < j < next.len() implies (#[trigger] next[i]).precedes(
        #[trigger] next[j],
    ) by {
        if j < n0 {
            assert(ops[i].precedes(ops[j]));
        } else if i < n0 {
            assert(ops[i].subject() < x);
            if j > n0 {
                assert(0 <= idx[j - n0 - 1]);
            }
        } else if i == n0 {
            assert(0 <= idx[j - n0 - 1]);
        } else {
            let r1 = i - n0 - 1;
            let r2 = j - n0 - 1;
            assert(idx[r1] < idx[r2]);
            assert(node.edges@[idx[r1]].precedes(node.edges@[idx[r2]]));
        }
    }
    assert forall|o: NodeOp| #[trigger]
        is_difference(a, b, o) && o.subject() < x + 1 implies next.contains(o) by {
        if o.subject() < x {
            let k = choose|k: int| 0 <= k < ops.len() && ops[k] == o;
            assert(next[k] == o);
        } else {
            match o {
                NodeOp::AddNode { .. } => {
                    assert(next[n0] == o);
                },
                NodeOp::AddEdge { node: _, edge } => {
                    let t = choose|t: int| 0 <= t < node.edges@.len() && node.edges@[t] == edge;
                    assert(covered(idx, t));
                    let r = choose|r: int| 0 <= r < idx.len() && #[trigger] idx[r] == t;
                    assert(next[n0 + 1 + r] == o);
                },
                _ => {},
            }
        }
    }
}

proof fn lemma_kept_without(edges: Seq<Edge>, o: &GraphNode)
    ensures
        kept(edges, Some(o), edges.len() as int) == edges.to_set().difference(o@.edges),
{
    let k = kept(edges, Some(o), edges.len() as int);
    assert forall|e: Edge| k.contains(e) <==> edges.to_set().difference(o@.edges).contains(e) by {
        if edges.to_set().contains(e) {
            let t = choose|t: int| 0 <= t < edges.len() && edges[t] == e;
            assert(edges[t] == e);
        }
    }
    assert(k =~= edges.to_set().difference(o@.edges));
}

/// A node of both sides gives its change of content, if any, one operation
/// for each edge that it loses and one for each edge that it gains.
proof fn lemma_progress_changed(
    a: Map<NodeId, NodeView>,
    b: Map<NodeId, NodeView>,
    ops: Seq<NodeOp>,
    next: Seq<NodeOp>,
    x: NodeId,
    an: GraphNode,
    bn: GraphNode,
    ridx: Seq<int>,
    aidx: Seq<int>,
)
    requires
        progress(a, b, ops, x as int),
        a.contains_key(x),
        b.contains_key(x),
        a[x] == an@,
        b[x] == bn@,
        an.wf(),
        bn.wf(),
        an.content == bn.content ==> next.len() == ops.len() + ridx.len() + aidx.len()
            && next.take(ops.len() as int) == ops,
        an.content != bn.content ==> next.len() == ops.len() + 1 + ridx.len() + aidx.len()
            && next.take(ops.len() as int + 1) == ops.push(
            NodeOp::SetContent { node: x, content: bn.content },
        ),
        forall|r: int|
            0 <= r < ridx.len() ==> 0 <= (#[trigger] ridx[r]) < an.edges@.len() && next[next.len()
                - aidx.len() - ridx.len() + r] == edge_op(false, x, an.edges@[ridx[r]])
                && !bn@.edges.contains(an.edges@[ridx[r]]),
        forall|r1: int, r2: int|
            0 <= r1 < r2 < ridx.len() ==> (#[trigger] ridx[r1]) < (#[trigger] ridx[r2]),
        forall|q: int|
            0 <= q < an.edges@.len() && !bn@.edges.contains(an.edges@[q]) ==> #[trigger] covered(
                ridx,
                q,
            ),
        forall|r: int|
            0 <= r < aidx.len() ==> 0 <= (#[trigger] aidx[r]) < bn.edges@.len() && next[next.len()
                - aidx.len() + r] == edge_op(true, x, bn.edges@[aidx[r]]) && !an@.edges.contains(
                bn.edges@[aidx[r]],
            ),
        forall|r1: int, r2: int|
            0 <= r1 < r2 < aidx.len() ==> (#[trigger] aidx[r1]) < (#[trigger] aidx[r2]),
        forall|q: int|
            0 <= q < bn.edges@.len() && !an@.edges.contains(bn.edges@[q]) ==> #[trigger] covered(
                aidx,
                q,
            ),
        all_applicable(a, next),
        apply_ops(a, next) == mix(a, b, x + 1),
    ensures
        progress(a, b, next, x + 1),
{
    let n0 = ops.len() as int;
    let n1 = next.len() - aidx.len() - ridx.len();
    let n2 = next.len() - aidx.len();
    let set = NodeOp::SetContent { node: x, content: bn.content };
    assert forall|i: int| 0 <= i < n0 implies next[i] == ops[i] by {
        if an.content == bn.content {
            assert(next.take(n0)[i] == ops[i]);
        } else {
            assert(next.take(n0 + 1)[i] == ops[i]);
        }
    }
    if an.content != bn.content {
        assert(next.take(n0 + 1)[n0] == set);
        assert(next[n0] == set);
    }
    assert forall|i: int| 0 <= i < next.len() implies is_difference(a, b, #[trigger] next[i])
        && next[i].subject() < x + 1 by {
        if i < n0 {
            assert(is_difference(a, b, ops[i]));
            assert(ops[i].subject() < x);
        } else if i < n1 {
        } else if i < n2 {
            let r = i - n1;
            assert(0 <= ridx[r]);
            assert(an.edges@.to_set().contains(an.edges@[ridx[r]]));
        } else {
            let r = i - n2;
            assert(0 <= aidx[r]);
            assert(bn.edges@.to_set().contains(bn.edges@[aidx[r]]));
        }
    }
    assert forall|i: int, j: int| 0 <= i < j < next.len() implies (#[trigger] next[i]).precedes(
        #[trigger] next[j],
    ) by {
        if j < n0 {
            assert(ops[i].precedes(ops[j]));
        } else if i < n0 {
            assert(ops[i].subject() < x);
            assert(is_difference(a, b, next[j]) && next[j].subject() < x + 1);
            if j >= n2 {
                assert(0 <= aidx[j - n2]);
            } else if j >= n1 {
                assert(0 <= ridx[j - n1]);
            }
        } else if i < n1 {
            if j >= n2 {
                assert(0 <= aidx[j - n2]);
            } else {
                assert(0 <= ridx[j - n1]);
            }
        } else if i < n2 {
            assert(0 <= ridx[i - n1]);
            if j < n2 {
                assert(ridx[i - n1] < ridx[j - n1]);
                assert(an.edges@[ridx[i - n1]].precedes(an.edges@[ridx[j - n1]]));
            } else {
                assert(0 <= aidx[j - n2]);
            }
        } else {
            assert(aidx[i - n2] < aidx[j - n2]);
            assert(bn.edges@[aidx[i - n2]].precedes(bn.edges@[aidx[j - n2]]));
        }
    }
    assert forall|o: NodeOp| #[trigger]
        is_difference(a, b, o) && o.subject() < x + 1 implies next.contains(o) by {
        if o.subject() < x {
            let k = choose|k: int| 0 <= k < ops.len() && ops[k] == o;
            assert(next[k] == o);
        } else {
            match o {
                NodeOp::SetContent { .. } => {
                    assert(next[n0] == o);
                },
                NodeOp::RemoveEdge { node: _, edge } => {
                    let t = choose|t: int| 0 <= t < an.edges@.len() && an.edges@[t] == edge;
                    assert(covered(ridx, t));
                    let r = choose|r: int| 0 <= r < ridx.len() && #[trigger] ridx[r] == t;
                    assert(next[n1 + r] == o);
                },
                NodeOp::AddEdge { node: _, edge } => {
                    let t = choose|t: int| 0 <= t < bn.edges@.len() && bn.edges@[t] == edge;
                    assert(covered(aidx, t));
                    let r = choose|r: int| 0 <= r < aidx.len() && #[trigger] aidx[r] == t;
                    assert(next[n2 + r] == o);
                },
                _ => {},
            }
        }
    }
}

/// The operations for a node that only the new side has.
fn diff_added(
    ops: &mut Vec<NodeOp>,
    node: &GraphNode,
    Ghost(a): Ghost<Map<NodeId, NodeView>>,
    Ghost(b): Ghost<Map<NodeId, NodeView>>,
)
    requires
        progress(a, b, old(ops)@, node.spec_id() as int),
        !a.contains_key(node.spec_id()),
        b.contains_key(node.spec_id()),
        b[node.spec_id()] == node@,
        node.wf(),
    ensures
        progress(a, b, final(ops)@, node.spec_id() + 1),
{
    let x = node.id();
    let ghost before = ops@;
    let add = NodeOp::AddNode { node: x, content: node.content() };
    ops.push(add);
    proof {
        lemma_apply_push(a, before, add);
    }
    let ghost mid = ops@;
    let idx = push_edge_ops(ops, x, node.edges(), None, true, Ghost(a));
    proof {
        assert forall|q: int| 0 <= q < node.edges@.len() implies #[trigger] covered(idx@, q) by {
            assert(!skipped(None, node.edges@[q]));
        }
        lemma_progress_added(a, b, before, ops@, x, *node, idx@);
    }
}

/// The operations for a node that both sides have.
fn diff_changed(
    ops: &mut Vec<NodeOp>,
    an: &GraphNode,
    bn: &GraphNode,
    Ghost(a): Ghost<Map<NodeId, NodeView>>,
    Ghost(b): Ghost<Map<NodeId, NodeView>>,
)
    requires
        progress(a, b, old(ops)@, an.spec_id() as int),
        an.spec_id() == bn.spec_id(),
        a.contains_key(an.spec_id()),
        b.contains_key(an.spec_id()),
        a[an.spec_id()] == an@,
        b[an.spec_id()] == bn@,
        an.wf(),
        bn.wf(),
    ensures
        progress(a, b, final(ops)@, an.spec_id() + 1),
{
    let x = an.id();
    let ghost before = ops@;
    let ghost cur0 = apply_ops(a, before);
    if !an.content().same(&bn.content()) {
        let set = NodeOp::SetContent { node: x, content: bn.content() };
        ops.push(set);
        proof {
            lemma_apply_push(a, before, set);
        }
    } else {
        proof {
            assert(ops@.take(before.len() as int) =~= before);
        }
    }
    let ghost mid = ops@;
    let ghost cur1 = apply_ops(a, mid);
    let ridx = push_edge_ops(ops, x, an.edges(), Some(bn), false, Ghost(a));
    let ghost removed = ops@;
    let ghost cur2 = apply_ops(a, removed);
    let aidx = push_edge_ops(ops, x, bn.edges(), Some(an), true, Ghost(a));
    proof {
        let next = ops@;
        lemma_kept_without(an.edges@, bn);
        lemma_kept_without(bn.edges@, an);
        let lost = an@.edges.difference(bn@.edges);
        let gained = bn@.edges.difference(an@.edges);
        assert(cur1[x].edges == an@.edges);
        assert(cur2[x].edges == an@.edges.difference(lost));
        assert(an@.edges.difference(lost).union(gained) =~= bn@.edges);
        assert(apply_ops(a, next) =~= mix(a, b, x + 1));
        assert(next.take(mid.len() as int) =~= mid) by {
            assert(next.take(removed.len() as int) == removed);
            assert(removed.take(mid.len() as int) == mid);
            assert forall|i: int| 0 <= i < mid.len() implies next.take(mid.len() as int)[i]
                == mid[i] by {
                assert(next.take(removed.len() as int)[i] == removed[i]);
                assert(removed.take(mid.len() as int)[i] == mid[i]);
            }
        }
        assert forall|r: int| 0 <= r < ridx@.len() implies next[next.len() - aidx@.len()
            - ridx@.len() + r] == edge_op(false, x, an.edges@[#[trigger] ridx@[r]]) by {
            assert(next.take(removed.len() as int)[mid.len() + r] == removed[mid.len() + r]);
        }
        lemma_progress_changed(a, b, before, next, x, *an, *bn, ridx@, aidx@);
    }
}

/// The operations that lead from `old` to `new`, in order of node: for each
/// node its addition, its removal or its change of content, then the edges
/// that it loses, then the edges that it gains.
pub fn diff(old: &Graph, new: &Graph) -> (ops: Vec<NodeOp>)
    requires
        old.wf(),
        new.wf(),
    ensures
        is_change_list(old@, new@, ops@),
        ops@ == changes(old@, new@),
        all_applicable(old@, ops@),
        apply_ops(old@, ops@) == new@,
{
    let ghost a = old@;
    let ghost b = new@;
    let ghost an = old.spec_nodes();
    let ghost bn = new.spec_nodes();
    let na = old.len();
    let nb = new.len();
    let mut ops: Vec<NodeOp> = Vec::new();
    let mut i: usize = 0;
    let mut j: usize = 0;
    let ghost mut bound: int = 0;
    proof {
        assert(mix(a, b, 0) =~= a);
    }
    while i < na || j < nb
        invariant
            old.wf(),
            new.wf(),
            a == old@,
            b == new@,
            an == old.spec_nodes(),
            bn == new.spec_nodes(),
            na == an.len(),
            nb == bn.len(),
            i <= na,
            j <= nb,
            0 <= bound <= 0x1_0000_0000_0000_0000,
            forall|k: int| 0 <= k < i ==> (#[trigger] an[k]).id < bound,
            forall|k: int| i <= k < na ==> bound <= (#[trigger] an[k]).id,
            forall|k: int| 0 <= k < j ==> (#[trigger] bn[k]).id < bound,
            forall|k: int| j <= k < nb ==> bound <= (#[trigger] bn[k]).id,
            progress(a, b, ops@, bound),
        decreases (na - i) + (nb - j),
    {
        let side: u8 = if j >= nb {
            0
        } else if i >= na {
            1
        } else if old.node_at(i).id() < new.node_at(j).id() {
            0
        } else if new.node_at(j).id() < old.node_at(i).id() {
            1
        } else {
            2
        };
        if side == 0 {
            let x = old.node_at(i).id();
            proof {
                assert forall|k: int| i <= k < na implies x <= (#[trigger] an[k]).id by {
                    if k > i {
                        assert(an[i as int].id < an[k].id);
                    }
                }
                assert forall|k: int| j <= k < nb implies x + 1 <= (#[trigger] bn[k]).id by {
                    if k > j {
                        assert(bn[j as int].id < bn[k].id);
                    }
                }
                lemma_no_keys_between(an, i as int, bound, x as int);
                lemma_no_keys_between(bn, j as int, bound, x + 1);
                lemma_progress_skip(a, b, ops@, bound, x as int);
                lemma_table_at(an, i as int);
                lemma_progress_removed(a, b, ops@, x);
                bound = x + 1;
                assert forall|k: int| i + 1 <= k < na implies bound <= (#[trigger] an[k]).id by {
                    assert(an[i as int].id < an[k].id);
                }
            }
            ops.push(NodeOp::RemoveNode { node: x });
            i += 1;
        } else if side == 1 {
            let node = new.node_at(j);
            let x = node.id();
            proof {
                assert forall|k: int| j <= k < nb implies x <= (#[trigger] bn[k]).id by {
                    if k > j {
                        assert(bn[j as int].id < bn[k].id);
                    }
                }
                assert forall|k: int| i <= k < na implies x + 1 <= (#[trigger] an[k]).id by {
                    if k > i {
                        assert(an[i as int].id < an[k].id);
                    }
                }
                lemma_no_keys_between(bn, j as int, bound, x as int);
                lemma_no_keys_between(an, i as int, bound, x + 1);
                lemma_progress_skip(a, b, ops@, bound, x as int);
                lemma_table_at(bn, j as int);
            }
            diff_added(&mut ops, node, Ghost(a), Ghost(b));
            proof {
                bound = x + 1;
                assert forall|k: int| j + 1 <= k < nb implies bound <= (#[trigger] bn[k]).id by {
                    assert(bn[j as int].id < bn[k].id);
                }
            }
            j += 1;
        } else {
            let old_node = old.node_at(i);
            let new_node = new.node_at(j);
            let x = old_node.id();
            proof {
                assert forall|k: int| j <= k < nb implies x <= (#[trigger] bn[k]).id by {
                    if k > j {
                        assert(bn[j as int].id < bn[k].id);
                    }
                }
                assert forall|k: int| i <= k < na implies x <= (#[trigger] an[k]).id by {
                    if k > i {
                        assert(an[i as int].id < an[k].id);
                    }
                }
                lemma_no_keys_between(bn, j as int, bound, x as int);
                lemma_no_keys_between(an, i as int, bound, x as int);
                lemma_progress_skip(a, b, ops@, bound, x as int);
                lemma_table_at(an, i as int);
                lemma_table_at(bn, j as int);
            }
            diff_changed(&mut ops, old_node, new_node, Ghost(a), Ghost(b));
            proof {
                bound = x + 1;
                assert forall|k: int| i + 1 <= k < na implies bound <= (#[trigger] an[k]).id by {
                    assert(an[i as int].id < an[k].id);
                }
                assert forall|k: int| j + 1 <= k < nb implies bound <= (#[trigger] bn[k]).id by {
                    assert(bn[j as int].id < bn[k].id);
                }
            }
            i += 1;
            j += 1;
        }
    }
    proof {
        let top: int = 0x1_0000_0000_0000_0000;
        lemma_no_keys_between(an, i as int, bound, top);
        lemma_no_keys_between(bn, j as int, bound, top);
        lemma_progress_skip(a, b, ops@, bound, top);
        assert(mix(a, b, top) =~= b);
        lemma_change_list(a, b, ops@);
    }
    ops
}

} // verus!

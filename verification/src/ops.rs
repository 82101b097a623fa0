//! Node-level operations: the edits that lead from one snapshot to another.

use vstd::prelude::*;
use crate::digest::ContentHash;
use crate::graph::{Edge, Graph, NodeId, NodeView};

verus! {

/// One change to one node.
#[derive(Clone, Copy, Debug, PartialEq, Eq)]
pub enum NodeOp {
    /// The node comes into being with this content and no edges. Where it
    /// exists already, it keeps its edges and gets the content.
    AddNode { node: NodeId, content: ContentHash },
    /// The node goes, with its edges. Where there is no such node, nothing changes.
    RemoveNode { node: NodeId },
    /// The node points at other content.
    SetContent { node: NodeId, content: ContentHash },
    /// The node gains an edge.
    AddEdge { node: NodeId, edge: Edge },
    /// The node loses an edge.
    RemoveEdge { node: NodeId, edge: Edge },
}

impl NodeOp {
    /// The node that the operation changes.
    pub open spec fn subject(self) -> NodeId {
        match self {
            NodeOp::AddNode { node, .. } => node,
            NodeOp::RemoveNode { node } => node,
            NodeOp::SetContent { node, .. } => node,
            NodeOp::AddEdge { node, .. } => node,
            NodeOp::RemoveEdge { node, .. } => node,
        }
    }

    pub fn node(&self) -> (r: NodeId)
        ensures
            r == self.subject(),
    {
        match self {
            NodeOp::AddNode { node, .. } => *node,
            NodeOp::RemoveNode { node } => *node,
            NodeOp::SetContent { node, .. } => *node,
            NodeOp::AddEdge { node, .. } => *node,
            NodeOp::RemoveEdge { node, .. } => *node,
        }
    }

    /// Whether the operation finds the node that it changes. An operation
    /// that sets content or touches an edge needs its node; adding and
    /// removing a node do not.
    pub open spec fn applicable(self, m: Map<NodeId, NodeView>) -> bool {
        match self {
            NodeOp::AddNode { .. } => true,
            NodeOp::RemoveNode { .. } => true,
            NodeOp::SetContent { node, .. } => m.contains_key(node),
            NodeOp::AddEdge { node, .. } => m.contains_key(node),
            NodeOp::RemoveEdge { node, .. } => m.contains_key(node),
        }
    }

    /// Where in a list of differences the operation stands among those on
    /// the same node: the node itself first, then lost edges, then gained ones.
    pub open spec fn rank(self) -> int {
        match self {
            NodeOp::AddNode { .. } => 0,
            NodeOp::RemoveNode { .. } => 0,
            NodeOp::SetContent { .. } => 0,
            NodeOp::RemoveEdge { .. } => 1,
            NodeOp::AddEdge { .. } => 2,
        }
    }

    /// The order of a list of differences: by node, then by rank, then by edge.
    pub open spec fn precedes(self, other: NodeOp) -> bool {
        ||| self.subject() < other.subject()
        ||| (self.subject() == other.subject() && self.rank() < other.rank())
        ||| (self.subject() == other.subject() && self.rank() == other.rank() && match (
            self,
            other,
        ) {
            (NodeOp::RemoveEdge { edge: e1, .. }, NodeOp::RemoveEdge { edge: e2, .. }) => e1.precedes(
                e2,
            ),
            (NodeOp::AddEdge { edge: e1, .. }, NodeOp::AddEdge { edge: e2, .. }) => e1.precedes(e2),
            _ => false,
        })
    }
}

/// The nodes after one operation.
pub open spec fn apply_op(m: Map<NodeId, NodeView>, op: NodeOp) -> Map<NodeId, NodeView> {
    match op {
        NodeOp::AddNode { node, content } => m.insert(
            node,
            NodeView {
                content,
                edges: if m.contains_key(node) {
                    m[node].edges
                } else {
                    Set::<Edge>::empty()
                },
            },
        ),
        NodeOp::RemoveNode { node } => m.remove(node),
        NodeOp::SetContent { node, content } => if m.contains_key(node) {
            m.insert(node, NodeView { content, edges: m[node].edges })
        } else {
            m
        },
        NodeOp::AddEdge { node, edge } => if m.contains_key(node) {
            m.insert(node, NodeView { content: m[node].content, edges: m[node].edges.insert(edge) })
        } else {
            m
        },
        NodeOp::RemoveEdge { node, edge } => if m.contains_key(node) {
            m.insert(node, NodeView { content: m[node].content, edges: m[node].edges.remove(edge) })
        } else {
            m
        },
    }
}

/// The nodes after a list of operations, first to last.
pub open spec fn apply_ops(m: Map<NodeId, NodeView>, ops: Seq<NodeOp>) -> Map<NodeId, NodeView>
    decreases ops.len(),
{
    if ops.len() == 0 {
        m
    } else {
        apply_op(apply_ops(m, ops.drop_last()), ops.last())
    }
}

/// Whether each operation of the list finds its node when its turn comes.
pub open spec fn all_applicable(m: Map<NodeId, NodeView>, ops: Seq<NodeOp>) -> bool
    decreases ops.len(),
{
    if ops.len() == 0 {
        true
    } else {
        all_applicable(m, ops.drop_last()) && ops.last().applicable(apply_ops(m, ops.drop_last()))
    }
}

pub(crate) proof fn lemma_apply_push(m: Map<NodeId, NodeView>, ops: Seq<NodeOp>, op: NodeOp)
    ensures
        apply_ops(m, ops.push(op)) == apply_op(apply_ops(m, ops), op),
        all_applicable(m, ops.push(op)) == (all_applicable(m, ops) && op.applicable(
            apply_ops(m, ops),
        )),
{
    assert(ops.push(op).drop_last() =~= ops);
}

impl Graph {
    /// Carries out one operation. Returns whether the operation found its
    /// node; where it did not, the graph is unchanged.
    pub fn apply(&mut self, op: &NodeOp) -> (found: bool)
        requires
            old(self).wf(),
        ensures
            final(self).wf(),
            found == op.applicable(old(self)@),
            final(self)@ == apply_op(old(self)@, *op),
    {
        match op {
            NodeOp::AddNode { node, content } => {
                self.insert_node(*node, *content);
                true
            },
            NodeOp::RemoveNode { node } => {
                self.remove_node(*node);
                true
            },
            NodeOp::SetContent { node, content } => self.set_content(*node, *content),
            NodeOp::AddEdge { node, edge } => self.add_edge(*node, *edge),
            NodeOp::RemoveEdge { node, edge } => self.remove_edge(*node, *edge),
        }
    }

    /// Carries out the operations, first to last, up to the first that does
    /// not find its node. Returns the position of that operation, or `None`
    /// where all were carried out.
    pub fn apply_all(&mut self, ops: &Vec<NodeOp>) -> (stopped: Option<usize>)
        requires
            old(self).wf(),
        ensures
            final(self).wf(),
            stopped is None <==> all_applicable(old(self)@, ops@),
            stopped is None ==> final(self)@ == apply_ops(old(self)@, ops@),
            stopped matches Some(i) ==> {
                &&& i < ops@.len()
                &&& all_applicable(old(self)@, ops@.take(i as int))
                &&& !ops@[i as int].applicable(apply_ops(old(self)@, ops@.take(i as int)))
                &&& final(self)@ == apply_ops(old(self)@, ops@.take(i as int))
            },
    {
        let mut i: usize = 0;
        proof {
            assert(ops@.take(0) =~= Seq::<NodeOp>::empty());
        }
        while i < ops.len()
            invariant
                i <= ops@.len(),
                self.wf(),
                all_applicable(old(self)@, ops@.take(i as int)),
                self@ == apply_ops(old(self)@, ops@.take(i as int)),
            decreases ops@.len() - i,
        {
            let found = self.apply(&ops[i]);
            proof {
                lemma_apply_push(old(self)@, ops@.take(i as int), ops@[i as int]);
                assert(ops@.take(i as int).push(ops@[i as int]) =~= ops@.take(i + 1));
            }
            if !found {
                proof {
                    lemma_not_applicable_from(old(self)@, ops@, i + 1);
                }
                return Some(i);
            }
            i += 1;
        }
        proof {
            assert(ops@.take(ops@.len() as int) =~= ops@);
        }
        None
    }
}

impl Graph {
    /// Carries out all the operations, first to last. One that does not find
    /// its node changes nothing.
    pub fn apply_each(&mut self, ops: &Vec<NodeOp>)
        requires
            old(self).wf(),
        ensures
            final(self).wf(),
            final(self)@ == apply_ops(old(self)@, ops@),
    {
        let mut i: usize = 0;
        proof {
            assert(ops@.take(0) =~= Seq::<NodeOp>::empty());
        }
        while i < ops.len()
            invariant
                i <= ops@.len(),
                self.wf(),
                self@ == apply_ops(old(self)@, ops@.take(i as int)),
            decreases ops@.len() - i,
        {
            let _ = self.apply(&ops[i]);
            proof {
                lemma_apply_push(old(self)@, ops@.take(i as int), ops@[i as int]);
                assert(ops@.take(i as int).push(ops@[i as int]) =~= ops@.take(i + 1));
            }
            i += 1;
        }
        proof {
            assert(ops@.take(ops@.len() as int) =~= ops@);
        }
    }
}

/// A node stays unless an operation removes it.
pub(crate) proof fn lemma_kept_unless_removed(m: Map<NodeId, NodeView>, ops: Seq<NodeOp>, n: NodeId)
    requires
        m.contains_key(n),
        forall|k: int| 0 <= k < ops.len() ==> #[trigger] ops[k] != (NodeOp::RemoveNode { node: n }),
    ensures
        apply_ops(m, ops).contains_key(n),
    decreases ops.len(),
{
    if ops.len() > 0 {
        let front = ops.drop_last();
        assert forall|k: int| 0 <= k < front.len() implies #[trigger] front[k] != (
        NodeOp::RemoveNode { node: n }) by {
            assert(front[k] == ops[k]);
        }
        lemma_kept_unless_removed(m, front, n);
        assert(ops[ops.len() - 1] != (NodeOp::RemoveNode { node: n }));
    }
}

/// Operations on other nodes leave a node as it is.
pub(crate) proof fn lemma_untouched(m: Map<NodeId, NodeView>, ops: Seq<NodeOp>, n: NodeId)
    requires
        forall|k: int| 0 <= k < ops.len() ==> (#[trigger] ops[k]).subject() != n,
    ensures
        apply_ops(m, ops).contains_key(n) == m.contains_key(n),
        m.contains_key(n) ==> apply_ops(m, ops)[n] == m[n],
    decreases ops.len(),
{
    if ops.len() > 0 {
        let front = ops.drop_last();
        assert forall|k: int| 0 <= k < front.len() implies (#[trigger] front[k]).subject() != n by {
            assert(front[k] == ops[k]);
        }
        lemma_untouched(m, front, n);
        assert(ops[ops.len() - 1].subject() != n);
    }
}

/// Whether two sets of nodes agree on node `n`: both have it, and the same,
/// or neither has it.
pub open spec fn same_at(a: Map<NodeId, NodeView>, b: Map<NodeId, NodeView>, n: NodeId) -> bool {
    a.contains_key(n) == b.contains_key(n) && (a.contains_key(n) ==> a[n] == b[n])
}

/// What operations make of a node depends on that node alone.
pub(crate) proof fn lemma_local(
    a: Map<NodeId, NodeView>,
    b: Map<NodeId, NodeView>,
    ops: Seq<NodeOp>,
    n: NodeId,
)
    requires
        same_at(a, b, n),
    ensures
        same_at(apply_ops(a, ops), apply_ops(b, ops), n),
    decreases ops.len(),
{
    if ops.len() > 0 {
        lemma_local(a, b, ops.drop_last(), n);
    }
}

/// A list with a prefix that is not applicable is not applicable.
proof fn lemma_not_applicable_from(m: Map<NodeId, NodeView>, ops: Seq<NodeOp>, i: int)
    requires
        0 <= i <= ops.len(),
        !all_applicable(m, ops.take(i)),
    ensures
        !all_applicable(m, ops),
    decreases ops.len() - i,
{
    if i < ops.len() {
        assert(ops.take(i + 1).drop_last() =~= ops.take(i));
        lemma_not_applicable_from(m, ops, i + 1);
    } else {
        assert(ops.take(i) =~= ops);
    }
}

} // verus!

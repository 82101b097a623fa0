//! The object graph: an arena of nodes kept in order of their identifiers,
//! each pointing at its content by hash and at other nodes by identifier.

use vstd::prelude::*;
use crate::digest::ContentHash;

verus! {

/// Stable identifier of a node.
pub type NodeId = u64;

/// A typed reference from one node to another.
#[derive(Clone, Copy, Debug, PartialEq, Eq, Structural, Hash)]
pub struct Edge {
    pub kind: u32,
    pub target: NodeId,
}

impl Edge {
    /// The order in which a node lists its edges: by kind, then by target.
    pub open spec fn precedes(self, other: Edge) -> bool {
        self.kind < other.kind || (self.kind == other.kind && self.target < other.target)
    }

    pub fn before(&self, other: &Edge) -> (r: bool)
        ensures
            r == self.precedes(*other),
    {
        self.kind < other.kind || (self.kind == other.kind && self.target < other.target)
    }
}

/// Strictly increasing in the edge order, hence free of repetitions.
pub open spec fn edges_ordered(s: Seq<Edge>) -> bool {
    forall|i: int, j: int| 0 <= i < j < s.len() ==> (#[trigger] s[i]).precedes(#[trigger] s[j])
}

pub(crate) proof fn lemma_insert_to_set<T>(s: Seq<T>, i: int, a: T)
    requires
        0 <= i <= s.len(),
    ensures
        s.insert(i, a).to_set() == s.to_set().insert(a),
{
    let t = s.insert(i, a);
    assert forall|x: T| t.to_set().contains(x) <==> s.to_set().insert(a).contains(x) by {
        if t.to_set().contains(x) {
            let k = choose|k: int| 0 <= k < t.len() && t[k] == x;
            if k < i {
                assert(s[k] == x);
            } else if k > i {
                assert(s[k - 1] == x);
            }
        }
        if s.to_set().insert(a).contains(x) {
            if x == a {
                assert(t[i] == x);
            } else {
                let k = choose|k: int| 0 <= k < s.len() && s[k] == x;
                if k < i {
                    assert(t[k] == x);
                } else {
                    assert(t[k + 1] == x);
                }
            }
        }
    }
    assert(t.to_set() =~= s.to_set().insert(a));
}

pub(crate) proof fn lemma_remove_to_set<T>(s: Seq<T>, i: int)
    requires
        0 <= i < s.len(),
        s.no_duplicates(),
    ensures
        s.remove(i).to_set() == s.to_set().remove(s[i]),
{
    let t = s.remove(i);
    assert forall|x: T| t.to_set().contains(x) <==> s.to_set().remove(s[i]).contains(x) by {
        if t.to_set().contains(x) {
            let k = choose|k: int| 0 <= k < t.len() && t[k] == x;
            if k < i {
                assert(s[k] == x);
            } else {
                assert(s[k + 1] == x);
            }
        }
        if s.to_set().remove(s[i]).contains(x) {
            let k = choose|k: int| 0 <= k < s.len() && s[k] == x;
            if k < i {
                assert(t[k] == x);
            } else {
                assert(t[k - 1] == x);
            }
        }
    }
    assert(t.to_set() =~= s.to_set().remove(s[i]));
}

pub(crate) proof fn lemma_edges_ordered_distinct(s: Seq<Edge>)
    requires
        edges_ordered(s),
    ensures
        s.no_duplicates(),
{
    assert forall|i: int, j: int| 0 <= i < s.len() && 0 <= j < s.len() && i != j implies s[i]
        != s[j] by {
        if i < j {
            assert(s[i].precedes(s[j]));
        } else {
            assert(s[j].precedes(s[i]));
        }
    }
}

/// Two ordered edge lists with the same members are the same list.
pub(crate) proof fn lemma_edges_ordered_unique(a: Seq<Edge>, b: Seq<Edge>)
    requires
        edges_ordered(a),
        edges_ordered(b),
        a.to_set() == b.to_set(),
    ensures
        a == b,
    decreases a.len(),
{
    if a.len() == 0 {
        if b.len() > 0 {
            assert(b.to_set().contains(b[0]));
            assert(a.to_set().contains(b[0]));
        }
        assert(a =~= b);
    } else {
        let x = a.last();
        assert(a.to_set().contains(x));
        assert(b.to_set().contains(x));
        assert(b.len() > 0);
        let y = b.last();
        assert(b.to_set().contains(y));
        assert(a.to_set().contains(y));
        let ky = choose|k: int| 0 <= k < a.len() && a[k] == y;
        let kx = choose|k: int| 0 <= k < b.len() && b[k] == x;
        if ky < a.len() - 1 {
            assert(a[ky].precedes(a[a.len() - 1]));
        }
        if kx < b.len() - 1 {
            assert(b[kx].precedes(b[b.len() - 1]));
        }
        assert(x == y);
        let a1 = a.drop_last();
        let b1 = b.drop_last();
        assert forall|e: Edge| a1.to_set().contains(e) <==> b1.to_set().contains(e) by {
            if a1.to_set().contains(e) {
                let k = choose|k: int| 0 <= k < a1.len() && a1[k] == e;
                assert(a[k] == e);
                assert(a[k].precedes(a[a.len() - 1]));
                assert(a.to_set().contains(e));
                assert(b.to_set().contains(e));
                let m = choose|m: int| 0 <= m < b.len() && b[m] == e;
                assert(m < b.len() - 1);
                assert(b1[m] == e);
            }
            if b1.to_set().contains(e) {
                let k = choose|k: int| 0 <= k < b1.len() && b1[k] == e;
                assert(b[k] == e);
                assert(b[k].precedes(b[b.len() - 1]));
                assert(b.to_set().contains(e));
                assert(a.to_set().contains(e));
                let m = choose|m: int| 0 <= m < a.len() && a[m] == e;
                assert(m < a.len() - 1);
                assert(a1[m] == e);
            }
        }
        assert(a1.to_set() =~= b1.to_set());
        assert(edges_ordered(a1)) by {
            assert forall|i: int, j: int| 0 <= i < j < a1.len() implies (#[trigger] a1[i]).precedes(
                #[trigger] a1[j],
            ) by {
                assert(a[i].precedes(a[j]));
            }
        }
        assert(edges_ordered(b1)) by {
            assert forall|i: int, j: int| 0 <= i < j < b1.len() implies (#[trigger] b1[i]).precedes(
                #[trigger] b1[j],
            ) by {
                assert(b[i].precedes(b[j]));
            }
        }
        lemma_edges_ordered_unique(a1, b1);
        assert(a =~= a1.push(x));
        assert(b =~= b1.push(y));
    }
}

/// Where `e` stands, or would stand, in an ordered edge list.
pub fn edge_position(edges: &Vec<Edge>, e: Edge) -> (pos: usize)
    requires
        edges_ordered(edges@),
    ensures
        pos <= edges@.len(),
        forall|k: int| 0 <= k < pos ==> (#[trigger] edges@[k]).precedes(e),
        forall|k: int| pos <= k < edges@.len() ==> !(#[trigger] edges@[k]).precedes(e),
        edges@.to_set().contains(e) <==> (pos < edges@.len() && edges@[pos as int] == e),
{
    let mut pos: usize = 0;
    while pos < edges.len() && edges[pos].before(&e)
        invariant
            pos <= edges@.len(),
            edges_ordered(edges@),
            forall|k: int| 0 <= k < pos ==> (#[trigger] edges@[k]).precedes(e),
        decreases edges@.len() - pos,
    {
        pos += 1;
    }
    proof {
        assert forall|k: int| pos <= k < edges@.len() implies !(#[trigger] edges@[k]).precedes(
            e,
        ) by {
            if k > pos {
                assert(edges@[pos as int].precedes(edges@[k]));
            }
        }
        if edges@.to_set().contains(e) {
            let k = choose|k: int| 0 <= k < edges@.len() && edges@[k] == e;
            if k < pos {
                assert(edges@[k].precedes(e));
            }
            if k > pos {
                assert(edges@[pos as int].precedes(edges@[k]));
            }
        }
    }
    pos
}

/// A copy of an edge list.
pub fn copy_edges(edges: &Vec<Edge>) -> (out: Vec<Edge>)
    ensures
        out@ == edges@,
{
    let mut out: Vec<Edge> = Vec::new();
    let mut i: usize = 0;
    while i < edges.len()
        invariant
            i <= edges@.len(),
            out@ == edges@.take(i as int),
        decreases edges@.len() - i,
    {
        out.push(edges[i]);
        proof {
            assert(edges@.take(i as int).push(edges@[i as int]) =~= edges@.take(i + 1));
        }
        i += 1;
    }
    proof {
        assert(edges@.take(edges@.len() as int) =~= edges@);
    }
    out
}

/// What a node is, apart from its identifier: the hash of its content and
/// the set of its edges.
pub ghost struct NodeView {
    pub content: ContentHash,
    pub edges: Set<Edge>,
}

/// A node of the graph.
#[derive(Debug)]
pub struct GraphNode {
    pub(crate) id: NodeId,
    pub(crate) content: ContentHash,
    pub(crate) edges: Vec<Edge>,
}

impl View for GraphNode {
    type V = NodeView;

    open(crate) spec fn view(&self) -> NodeView {
        NodeView { content: self.content, edges: self.edges@.to_set() }
    }
}

impl GraphNode {
    pub open(crate) spec fn wf(&self) -> bool {
        edges_ordered(self.edges@)
    }

    pub open(crate) spec fn spec_id(&self) -> NodeId {
        self.id
    }

    /// The edges as the node lists them.
    pub open(crate) spec fn spec_edges(&self) -> Seq<Edge> {
        self.edges@
    }

    /// A node without edges.
    pub fn new(id: NodeId, content: ContentHash) -> (n: GraphNode)
        ensures
            n.wf(),
            n.spec_id() == id,
            n@ == (NodeView { content, edges: Set::<Edge>::empty() }),
    {
        let n = GraphNode { id, content, edges: Vec::new() };
        assert(n.edges@.to_set() =~= Set::<Edge>::empty());
        n
    }

    pub fn id(&self) -> (r: NodeId)
        ensures
            r == self.spec_id(),
    {
        self.id
    }

    pub fn content(&self) -> (r: ContentHash)
        ensures
            r == self@.content,
    {
        self.content
    }

    /// The edges, in order.
    pub fn edges(&self) -> (r: &Vec<Edge>)
        ensures
            r@ == self.spec_edges(),
            r@.to_set() == self@.edges,
    {
        &self.edges
    }

    pub fn has_edge(&self, e: Edge) -> (r: bool)
        requires
            self.wf(),
        ensures
            r == self@.edges.contains(e),
    {
        let pos = edge_position(&self.edges, e);
        pos < self.edges.len() && self.edges[pos] == e
    }

    /// A copy of this node.
    pub fn duplicate(&self) -> (n: GraphNode)
        ensures
            n.spec_id() == self.spec_id(),
            n@ == self@,
            n.spec_edges() == self.spec_edges(),
            self.wf() ==> n.wf(),
    {
        GraphNode { id: self.id, content: self.content, edges: copy_edges(&self.edges) }
    }

    /// Adds `e` to the edges; does nothing if it is there already.
    pub fn add_edge(&mut self, e: Edge)
        requires
            old(self).wf(),
        ensures
            final(self).wf(),
            final(self).spec_id() == old(self).spec_id(),
            final(self)@ == (NodeView {
                content: old(self)@.content,
                edges: old(self)@.edges.insert(e),
            }),
    {
        let pos = edge_position(&self.edges, e);
        if pos < self.edges.len() && self.edges[pos] == e {
            assert(self.edges@.to_set().insert(e) =~= self.edges@.to_set());
        } else {
            let ghost before = self.edges@;
            self.edges.insert(pos, e);
            proof {
                lemma_insert_to_set(before, pos as int, e);
                let after = self.edges@;
                assert forall|i: int, j: int| 0 <= i < j < after.len() implies (
                #[trigger] after[i]).precedes(#[trigger] after[j]) by {
                    if j < pos {
                        assert(before[i].precedes(before[j]));
                    } else if j == pos {
                        assert(before[i].precedes(e));
                    } else if i < pos {
                        assert(before[i].precedes(e));
                        assert(!before[j - 1].precedes(e));
                    } else if i == pos {
                        assert(!before[j - 1].precedes(e));
                        assert(before[j - 1] != e) by {
                            if j - 1 > pos {
                                assert(before[pos as int].precedes(before[j - 1]));
                                assert(!before[pos as int].precedes(e));
                            }
                        }
                    } else {
                        assert(before[i - 1].precedes(before[j - 1]));
                    }
                }
            }
        }
    }

    /// Takes `e` out of the edges; does nothing if it is not there.
    pub fn remove_edge(&mut self, e: Edge)
        requires
            old(self).wf(),
        ensures
            final(self).wf(),
            final(self).spec_id() == old(self).spec_id(),
            final(self)@ == (NodeView {
                content: old(self)@.content,
                edges: old(self)@.edges.remove(e),
            }),
    {
        let pos = edge_position(&self.edges, e);
        if pos < self.edges.len() && self.edges[pos] == e {
            let ghost before = self.edges@;
            self.edges.remove(pos);
            proof {
                lemma_edges_ordered_distinct(before);
                lemma_remove_to_set(before, pos as int);
                let after = self.edges@;
                assert forall|i: int, j: int| 0 <= i < j < after.len() implies (
                #[trigger] after[i]).precedes(#[trigger] after[j]) by {
                    let i0 = if i < pos { i } else { i + 1 };
                    let j0 = if j < pos { j } else { j + 1 };
                    assert(before[i0].precedes(before[j0]));
                }
            }
        } else {
            assert(self.edges@.to_set().remove(e) =~= self.edges@.to_set());
        }
    }

    /// Points the node at other content.
    pub fn set_content(&mut self, content: ContentHash)
        ensures
            final(self).wf() == old(self).wf(),
            final(self).spec_id() == old(self).spec_id(),
            final(self)@ == (NodeView { content, edges: old(self)@.edges }),
            final(self).spec_edges() == old(self).spec_edges(),
    {
        self.content = content;
    }
}

/// Strictly increasing identifiers.
pub open(crate) spec fn nodes_ordered(s: Seq<GraphNode>) -> bool {
    forall|i: int, j: int| 0 <= i < j < s.len() ==> (#[trigger] s[i]).id < (#[trigger] s[j]).id
}

pub open(crate) spec fn nodes_wf(s: Seq<GraphNode>) -> bool {
    &&& nodes_ordered(s)
    &&& forall|i: int| 0 <= i < s.len() ==> (#[trigger] s[i]).wf()
}

pub open(crate) spec fn has_id(s: Seq<GraphNode>, id: NodeId) -> bool {
    exists|i: int| 0 <= i < s.len() && (#[trigger] s[i]).id == id
}

pub open(crate) spec fn index_of(s: Seq<GraphNode>, id: NodeId) -> int {
    choose|i: int| 0 <= i < s.len() && (#[trigger] s[i]).id == id
}

/// The nodes of a list, by identifier.
pub open(crate) spec fn table(s: Seq<GraphNode>) -> Map<NodeId, NodeView> {
    Map::new(|id: NodeId| has_id(s, id), |id: NodeId| s[index_of(s, id)]@)
}

pub(crate) proof fn lemma_table_at(s: Seq<GraphNode>, i: int)
    requires
        nodes_ordered(s),
        0 <= i < s.len(),
    ensures
        has_id(s, s[i].id),
        index_of(s, s[i].id) == i,
        table(s).contains_key(s[i].id),
        table(s)[s[i].id] == s[i]@,
{
    assert(s[i].id == s[i].id);
    let k = index_of(s, s[i].id);
    assert(0 <= k < s.len() && s[k].id == s[i].id);
    if k < i {
        assert(s[k].id < s[i].id);
    }
    if i < k {
        assert(s[i].id < s[k].id);
    }
}

pub(crate) proof fn lemma_table_insert(s: Seq<GraphNode>, p: int, n: GraphNode)
    requires
        nodes_ordered(s),
        0 <= p <= s.len(),
        forall|k: int| 0 <= k < p ==> (#[trigger] s[k]).id < n.id,
        forall|k: int| p <= k < s.len() ==> n.id < (#[trigger] s[k]).id,
    ensures
        nodes_ordered(s.insert(p, n)),
        table(s.insert(p, n)) == table(s).insert(n.id, n@),
{
    let t = s.insert(p, n);
    assert forall|i: int, j: int| 0 <= i < j < t.len() implies (#[trigger] t[i]).id < (
    #[trigger] t[j]).id by {
        let a = if i < p { s[i] } else if i == p { n } else { s[i - 1] };
        let b = if j < p { s[j] } else if j == p { n } else { s[j - 1] };
        assert(t[i] == a);
        assert(t[j] == b);
        if i < p && j < p {
            assert(s[i].id < s[j].id);
        } else if i > p && j > p {
            assert(s[i - 1].id < s[j - 1].id);
        } else if i < p && j > p {
            assert(s[i].id < n.id);
            assert(n.id < s[j - 1].id);
        }
    }
    assert forall|id: NodeId| #[trigger] table(t).contains_key(id) <==> table(s).insert(
        n.id,
        n@,
    ).contains_key(id) by {
        if has_id(t, id) {
            let k = index_of(t, id);
            if k < p {
                assert(s[k].id == id);
            } else if k > p {
                assert(s[k - 1].id == id);
            }
        }
        if id == n.id {
            assert(t[p].id == id);
        } else if has_id(s, id) {
            let k = index_of(s, id);
            if k < p {
                assert(t[k].id == id);
            } else {
                assert(t[k + 1].id == id);
            }
        }
    }
    assert forall|id: NodeId| #[trigger] table(t).contains_key(id) implies table(t)[id] == table(
        s,
    ).insert(n.id, n@)[id] by {
        let k = index_of(t, id);
        lemma_table_at(t, k);
        if k < p {
            assert(t[k] == s[k]);
            lemma_table_at(s, k);
        } else if k > p {
            assert(t[k] == s[k - 1]);
            lemma_table_at(s, k - 1);
        } else {
            assert(t[k] == n);
        }
    }
    assert(table(t) =~= table(s).insert(n.id, n@));
}

pub(crate) proof fn lemma_table_remove(s: Seq<GraphNode>, p: int)
    requires
        nodes_ordered(s),
        0 <= p < s.len(),
    ensures
        nodes_ordered(s.remove(p)),
        table(s.remove(p)) == table(s).remove(s[p].id),
{
    let t = s.remove(p);
    assert forall|i: int, j: int| 0 <= i < j < t.len() implies (#[trigger] t[i]).id < (
    #[trigger] t[j]).id by {
        let i0 = if i < p { i } else { i + 1 };
        let j0 = if j < p { j } else { j + 1 };
        assert(t[i] == s[i0]);
        assert(t[j] == s[j0]);
        assert(s[i0].id < s[j0].id);
    }
    assert forall|id: NodeId| #[trigger] table(t).contains_key(id) <==> table(s).remove(
        s[p].id,
    ).contains_key(id) by {
        if has_id(t, id) {
            let k = index_of(t, id);
            let k0 = if k < p { k } else { k + 1 };
            assert(t[k] == s[k0]);
            assert(s[k0].id == id);
            if k0 < p {
                assert(s[k0].id < s[p].id);
            } else {
                assert(s[p].id < s[k0].id);
            }
        }
        if id != s[p].id && has_id(s, id) {
            let k = index_of(s, id);
            if k < p {
                assert(t[k].id == id);
            } else {
                assert(t[k - 1].id == id);
            }
        }
    }
    assert forall|id: NodeId| #[trigger] table(t).contains_key(id) implies table(t)[id] == table(
        s,
    ).remove(s[p].id)[id] by {
        let k = index_of(t, id);
        lemma_table_at(t, k);
        let k0 = if k < p { k } else { k + 1 };
        assert(t[k] == s[k0]);
        lemma_table_at(s, k0);
    }
    assert(table(t) =~= table(s).remove(s[p].id));
}

pub(crate) proof fn lemma_table_update(s: Seq<GraphNode>, p: int, n: GraphNode)
    requires
        nodes_ordered(s),
        0 <= p < s.len(),
        n.id == s[p].id,
    ensures
        nodes_ordered(s.update(p, n)),
        table(s.update(p, n)) == table(s).insert(n.id, n@),
{
    let t = s.update(p, n);
    assert forall|i: int, j: int| 0 <= i < j < t.len() implies (#[trigger] t[i]).id < (
    #[trigger] t[j]).id by {
        assert(s[i].id < s[j].id);
    }
    assert forall|id: NodeId| #[trigger] table(t).contains_key(id) <==> table(s).insert(
        n.id,
        n@,
    ).contains_key(id) by {
        if has_id(t, id) {
            let k = index_of(t, id);
            assert(s[k].id == id);
        }
        if id == n.id {
            assert(t[p].id == id);
        } else if has_id(s, id) {
            let k = index_of(s, id);
            assert(t[k].id == id);
        }
    }
    assert forall|id: NodeId| #[trigger] table(t).contains_key(id) implies table(t)[id] == table(
        s,
    ).insert(n.id, n@)[id] by {
        let k = index_of(t, id);
        lemma_table_at(t, k);
        if k != p {
            assert(t[k] == s[k]);
            lemma_table_at(s, k);
        }
    }
    assert(table(t) =~= table(s).insert(n.id, n@));
}

pub(crate) proof fn lemma_table_agree(a: Seq<GraphNode>, b: Seq<GraphNode>)
    requires
        nodes_ordered(a),
        a.len() == b.len(),
        forall|i: int| 0 <= i < a.len() ==> (#[trigger] a[i]).id == b[i].id && a[i]@ == b[i]@,
    ensures
        nodes_ordered(b),
        table(a) == table(b),
{
    assert forall|i: int, j: int| 0 <= i < j < b.len() implies (#[trigger] b[i]).id < (
    #[trigger] b[j]).id by {
        assert(a[i].id < a[j].id);
    }
    assert forall|id: NodeId| #[trigger] table(a).contains_key(id) <==> table(b).contains_key(
        id,
    ) by {
        if has_id(a, id) {
            let k = index_of(a, id);
            assert(b[k].id == id);
        }
        if has_id(b, id) {
            let k = index_of(b, id);
            assert(a[k].id == id);
        }
    }
    assert forall|id: NodeId| #[trigger] table(a).contains_key(id) implies table(a)[id] == table(
        b,
    )[id] by {
        let k = index_of(a, id);
        lemma_table_at(a, k);
        assert(b[k].id == id);
        lemma_table_at(b, k);
    }
    assert(table(a) =~= table(b));
}

/// An arena of nodes, indexed by their identifiers.
#[derive(Debug)]
pub struct Graph {
    pub(crate) nodes: Vec<GraphNode>,
}

impl View for Graph {
    type V = Map<NodeId, NodeView>;

    open(crate) spec fn view(&self) -> Map<NodeId, NodeView> {
        table(self.nodes@)
    }
}

impl Graph {
    /// Nodes in increasing order of identifier, each with its edges in order.
    pub open(crate) spec fn wf(&self) -> bool {
        nodes_wf(self.nodes@)
    }

    /// The nodes in the order in which the arena keeps them.
    pub open(crate) spec fn spec_nodes(&self) -> Seq<GraphNode> {
        self.nodes@
    }

    /// The empty graph: its arena holds no node.
    pub fn new() -> (g: Graph)
        ensures
            g.wf(),
            g@ == Map::<NodeId, NodeView>::empty(),
            g.spec_nodes() == Seq::<GraphNode>::empty(),
    {
        let g = Graph { nodes: Vec::new() };
        assert(g@ =~= Map::<NodeId, NodeView>::empty());
        assert(g.nodes@ =~= Seq::<GraphNode>::empty());
        g
    }

    /// Number of nodes.
    pub fn len(&self) -> (n: usize)
        ensures
            n == self.spec_nodes().len(),
    {
        self.nodes.len()
    }

    /// A copy of this graph.
    pub fn duplicate(&self) -> (g: Graph)
        requires
            self.wf(),
        ensures
            g.wf(),
            g@ == self@,
    {
        let mut nodes: Vec<GraphNode> = Vec::new();
        let mut i: usize = 0;
        while i < self.nodes.len()
            invariant
                i <= self.nodes@.len(),
                nodes@.len() == i,
                nodes_wf(self.nodes@),
                forall|k: int|
                    0 <= k < i ==> (#[trigger] nodes@[k]).id == self.nodes@[k].id && nodes@[k]@
                        == self.nodes@[k]@ && nodes@[k].wf(),
            decreases self.nodes@.len() - i,
        {
            nodes.push(self.nodes[i].duplicate());
            i += 1;
        }
        proof {
            lemma_table_agree(self.nodes@, nodes@);
        }
        Graph { nodes }
    }

    /// The node at position `i` of the arena.
    pub fn node_at(&self, i: usize) -> (n: &GraphNode)
        requires
            i < self.spec_nodes().len(),
        ensures
            *n == self.spec_nodes()[i as int],
    {
        &self.nodes[i]
    }

    /// Where the node `id` stands, or would stand, in the arena.
    pub fn position(&self, id: NodeId) -> (pos: usize)
        requires
            self.wf(),
        ensures
            pos <= self.spec_nodes().len(),
            forall|k: int| 0 <= k < pos ==> (#[trigger] self.spec_nodes()[k]).spec_id() < id,
            forall|k: int|
                pos <= k < self.spec_nodes().len() ==> id <= (
                #[trigger] self.spec_nodes()[k]).spec_id(),
            self@.contains_key(id) <==> (pos < self.spec_nodes().len()
                && self.spec_nodes()[pos as int].spec_id() == id),
            self@.contains_key(id) ==> self@[id] == self.spec_nodes()[pos as int]@,
    {
        let mut lo: usize = 0;
        let mut hi: usize = self.nodes.len();
        while lo < hi
            invariant
                lo <= hi <= self.nodes@.len(),
                nodes_ordered(self.nodes@),
                forall|k: int| 0 <= k < lo ==> (#[trigger] self.nodes@[k]).id < id,
                forall|k: int| hi <= k < self.nodes@.len() ==> id <= (#[trigger] self.nodes@[k]).id,
            decreases hi - lo,
        {
            let mid = lo + (hi - lo) / 2;
            if self.nodes[mid].id < id {
                proof {
                    assert forall|k: int| 0 <= k < mid + 1 implies (#[trigger] self.nodes@[k]).id
                        < id by {
                        if k < mid {
                            assert(self.nodes@[k].id < self.nodes@[mid as int].id);
                        }
                    }
                }
                lo = mid + 1;
            } else {
                proof {
                    assert forall|k: int| mid <= k < self.nodes@.len() implies id <= (
                    #[trigger] self.nodes@[k]).id by {
                        if k > mid {
                            assert(self.nodes@[mid as int].id < self.nodes@[k].id);
                        }
                    }
                }
                hi = mid;
            }
        }
        proof {
            let s = self.nodes@;
            if has_id(s, id) {
                let k = index_of(s, id);
                assert(s[k].id == id);
                if k < lo {
                    assert(s[k].id < id);
                }
                if k > lo {
                    assert(s[lo as int].id < s[k].id);
                    assert(id <= s[lo as int].id);
                }
                lemma_table_at(s, lo as int);
            }
            if lo < s.len() && s[lo as int].id == id {
                lemma_table_at(s, lo as int);
            }
        }
        lo
    }

    pub fn contains(&self, id: NodeId) -> (r: bool)
        requires
            self.wf(),
        ensures
            r == self@.contains_key(id),
    {
        let pos = self.position(id);
        pos < self.nodes.len() && self.nodes[pos].id == id
    }

    /// The node `id`, if the graph has it.
    pub fn get(&self, id: NodeId) -> (r: Option<&GraphNode>)
        requires
            self.wf(),
        ensures
            r is Some == self@.contains_key(id),
            r is Some ==> r->0@ == self@[id] && r->0.spec_id() == id && r->0.wf(),
    {
        let pos = self.position(id);
        if pos < self.nodes.len() && self.nodes[pos].id == id {
            Some(&self.nodes[pos])
        } else {
            None
        }
    }

    /// Puts a node `id` with this content into the graph. A node that is
    /// there already keeps its edges and gets the new content.
    pub fn insert_node(&mut self, id: NodeId, content: ContentHash)
        requires
            old(self).wf(),
        ensures
            final(self).wf(),
            final(self)@ == old(self)@.insert(
                id,
                NodeView {
                    content,
                    edges: if old(self)@.contains_key(id) {
                        old(self)@[id].edges
                    } else {
                        Set::<Edge>::empty()
                    },
                },
            ),
    {
        let pos = self.position(id);
        let ghost before = self.nodes@;
        if pos < self.nodes.len() && self.nodes[pos].id == id {
            let node = &mut self.nodes[pos];
            node.set_content(content);
            proof {
                lemma_table_update(before, pos as int, self.nodes@[pos as int]);
                assert(self.nodes@ =~= before.update(pos as int, self.nodes@[pos as int]));
            }
        } else {
            let node = GraphNode::new(id, content);
            self.nodes.insert(pos, node);
            proof {
                lemma_table_insert(before, pos as int, node);
                let after = self.nodes@;
                assert forall|i: int| 0 <= i < after.len() implies (#[trigger] after[i]).wf() by {
                    if i < pos {
                        assert(after[i] == before[i]);
                    } else if i > pos {
                        assert(after[i] == before[i - 1]);
                    }
                }
            }
        }
    }

    /// Takes the node `id` out of the graph; does nothing if it is not there.
    pub fn remove_node(&mut self, id: NodeId)
        requires
            old(self).wf(),
        ensures
            final(self).wf(),
            final(self)@ == old(self)@.remove(id),
    {
        let pos = self.position(id);
        let ghost before = self.nodes@;
        if pos < self.nodes.len() && self.nodes[pos].id == id {
            self.nodes.remove(pos);
            proof {
                lemma_table_remove(before, pos as int);
                let after = self.nodes@;
                assert forall|i: int| 0 <= i < after.len() implies (#[trigger] after[i]).wf() by {
                    if i < pos {
                        assert(after[i] == before[i]);
                    } else {
                        assert(after[i] == before[i + 1]);
                    }
                }
            }
        } else {
            assert(self@.remove(id) =~= self@);
        }
    }

    /// Points the node `id` at other content. Returns whether the graph has
    /// the node; without it nothing changes.
    pub fn set_content(&mut self, id: NodeId, content: ContentHash) -> (found: bool)
        requires
            old(self).wf(),
        ensures
            final(self).wf(),
            found == old(self)@.contains_key(id),
            found ==> final(self)@ == old(self)@.insert(
                id,
                NodeView { content, edges: old(self)@[id].edges },
            ),
            !found ==> final(self)@ == old(self)@,
    {
        let pos = self.position(id);
        let ghost before = self.nodes@;
        if pos < self.nodes.len() && self.nodes[pos].id == id {
            let node = &mut self.nodes[pos];
            node.set_content(content);
            proof {
                lemma_table_update(before, pos as int, self.nodes@[pos as int]);
                assert(self.nodes@ =~= before.update(pos as int, self.nodes@[pos as int]));
            }
            true
        } else {
            false
        }
    }

    /// Adds the edge `e` to the node `from`. Returns whether the graph has
    /// that node; without it nothing changes.
    pub fn add_edge(&mut self, from: NodeId, e: Edge) -> (found: bool)
        requires
            old(self).wf(),
        ensures
            final(self).wf(),
            found == old(self)@.contains_key(from),
            found ==> final(self)@ == old(self)@.insert(
                from,
                NodeView {
                    content: old(self)@[from].content,
                    edges: old(self)@[from].edges.insert(e),
                },
            ),
            !found ==> final(self)@ == old(self)@,
    {
        let pos = self.position(from);
        let ghost before = self.nodes@;
        if pos < self.nodes.len() && self.nodes[pos].id == from {
            let node = &mut self.nodes[pos];
            node.add_edge(e);
            proof {
                lemma_table_update(before, pos as int, self.nodes@[pos as int]);
                assert(self.nodes@ =~= before.update(pos as int, self.nodes@[pos as int]));
            }
            true
        } else {
            false
        }
    }

    /// Takes the edge `e` away from the node `from`. Returns whether the
    /// graph has that node; without it nothing changes.
    pub fn remove_edge(&mut self, from: NodeId, e: Edge) -> (found: bool)
        requires
            old(self).wf(),
        ensures
            final(self).wf(),
            found == old(self)@.contains_key(from),
            found ==> final(self)@ == old(self)@.insert(
                from,
                NodeView {
                    content: old(self)@[from].content,
                    edges: old(self)@[from].edges.remove(e),
                },
            ),
            !found ==> final(self)@ == old(self)@,
    {
        let pos = self.position(from);
        let ghost before = self.nodes@;
        if pos < self.nodes.len() && self.nodes[pos].id == from {
            let node = &mut self.nodes[pos];
            node.remove_edge(e);
            proof {
                lemma_table_update(before, pos as int, self.nodes@[pos as int]);
                assert(self.nodes@ =~= before.update(pos as int, self.nodes@[pos as int]));
            }
            true
        } else {
            false
        }
    }
}

} // verus!

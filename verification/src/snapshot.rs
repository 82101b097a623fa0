//! Snapshots: the part of a graph that a walk from a root arrives at,
//! under an address computed from its canonical bytes.

use vstd::prelude::*;
use vstd::bytes::{spec_u32_to_le_bytes, spec_u64_to_le_bytes, u32_to_le_bytes, u64_to_le_bytes};
use crate::digest::{blake3_hash, Address, ContentHash};
use crate::error::{Integrity, Missing, StoreError};
use crate::graph::{
    has_id, index_of, lemma_edges_ordered_unique, lemma_table_agree, lemma_table_at,
    lemma_table_remove, nodes_wf, table, Edge, Graph, GraphNode, NodeId, NodeView,
};
use crate::reach::{
    closed, first_dangling, lemma_missing_is_pointed_at, lemma_part_is_fixed, lemma_reach_step,
    lemma_root_reachable, mark_reachable, reach_within, reachable, reachable_part,
};

verus! {

/// The bytes of an edge list: each edge as its kind in four bytes and its
/// target in eight, least significant byte first.
pub open spec fn edges_bytes(s: Seq<Edge>) -> Seq<u8>
    decreases s.len(),
{
    if s.len() == 0 {
        Seq::<u8>::empty()
    } else {
        edges_bytes(s.drop_last()) + spec_u32_to_le_bytes(s.last().kind) + spec_u64_to_le_bytes(
            s.last().target,
        )
    }
}

/// The bytes of a node: identifier, content hash, number of edges, edges.
pub open(crate) spec fn node_bytes(n: GraphNode) -> Seq<u8> {
    spec_u64_to_le_bytes(n.id) + n.content@ + spec_u64_to_le_bytes(n.edges@.len() as u64)
        + edges_bytes(n.edges@)
}

pub open(crate) spec fn nodes_bytes(s: Seq<GraphNode>) -> Seq<u8>
    decreases s.len(),
{
    if s.len() == 0 {
        Seq::<u8>::empty()
    } else {
        nodes_bytes(s.drop_last()) + node_bytes(s.last())
    }
}

/// The bytes of a node list under a root: root, number of nodes, nodes.
pub open(crate) spec fn graph_bytes(root: NodeId, s: Seq<GraphNode>) -> Seq<u8> {
    spec_u64_to_le_bytes(root) + spec_u64_to_le_bytes(s.len() as u64) + nodes_bytes(s)
}

/// The one ordered node list that holds exactly the nodes of `m`.
pub open(crate) spec fn canonical_nodes(m: Map<NodeId, NodeView>) -> Seq<GraphNode> {
    choose|s: Seq<GraphNode>| nodes_wf(s) && table(s) == m
}

/// The canonical bytes of the nodes `m` under `root`: the nodes in
/// increasing order of identifier, each with its edges in order.
pub open(crate) spec fn snapshot_bytes(root: NodeId, m: Map<NodeId, NodeView>) -> Seq<u8> {
    graph_bytes(root, canonical_nodes(m))
}

/// The address of the nodes `m` under `root`: the digest of their canonical bytes.
pub open spec fn address_of(root: NodeId, m: Map<NodeId, NodeView>) -> Seq<u8> {
    blake3_hash(snapshot_bytes(root, m))
}

/// Two ordered node lists that hold the same nodes agree position by position.
pub(crate) proof fn lemma_nodes_unique(a: Seq<GraphNode>, b: Seq<GraphNode>)
    requires
        nodes_wf(a),
        nodes_wf(b),
        table(a) == table(b),
    ensures
        a.len() == b.len(),
        forall|i: int|
            0 <= i < a.len() ==> (#[trigger] a[i]).id == b[i].id && a[i].content == b[i].content
                && a[i].edges@ == b[i].edges@,
    decreases a.len(),
{
    if a.len() == 0 {
        if b.len() > 0 {
            lemma_table_at(b, 0);
            assert(has_id(a, b[0].id));
        }
    } else {
        let la = a.len() - 1;
        lemma_table_at(a, la);
        assert(has_id(b, a[la].id));
        let lb = b.len() - 1;
        lemma_table_at(b, lb);
        assert(has_id(a, b[lb].id));
        let ka = index_of(a, b[lb].id);
        let kb = index_of(b, a[la].id);
        if ka < la {
            assert(a[ka].id < a[la].id);
        }
        if kb < lb {
            assert(b[kb].id < b[lb].id);
        }
        assert(a[la].id == b[lb].id);
        lemma_table_remove(a, la);
        lemma_table_remove(b, lb);
        assert(a.remove(la) =~= a.drop_last());
        assert(b.remove(lb) =~= b.drop_last());
        let a1 = a.drop_last();
        let b1 = b.drop_last();
        assert(nodes_wf(a1)) by {
            assert forall|i: int| 0 <= i < a1.len() implies (#[trigger] a1[i]).wf() by {
                assert(a[i].wf());
            }
        }
        assert(nodes_wf(b1)) by {
            assert forall|i: int| 0 <= i < b1.len() implies (#[trigger] b1[i]).wf() by {
                assert(b[i].wf());
            }
        }
        lemma_nodes_unique(a1, b1);
        assert(a[la]@ == b[lb]@);
        assert(a[la].wf() && b[lb].wf());
        lemma_edges_ordered_unique(a[la].edges@, b[lb].edges@);
        assert forall|i: int| 0 <= i < a.len() implies (#[trigger] a[i]).id == b[i].id
            && a[i].content == b[i].content && a[i].edges@ == b[i].edges@ by {
            if i < la {
                assert(a1[i].id == b1[i].id);
                assert(a1[i] == a[i]);
                assert(b1[i] == b[i]);
            }
        }
    }
}

proof fn lemma_nodes_bytes_agree(a: Seq<GraphNode>, b: Seq<GraphNode>)
    requires
        a.len() == b.len(),
        forall|i: int|
            0 <= i < a.len() ==> (#[trigger] a[i]).id == b[i].id && a[i].content == b[i].content
                && a[i].edges@ == b[i].edges@,
    ensures
        nodes_bytes(a) == nodes_bytes(b),
    decreases a.len(),
{
    if a.len() > 0 {
        let a1 = a.drop_last();
        let b1 = b.drop_last();
        assert forall|i: int| 0 <= i < a1.len() implies (#[trigger] a1[i]).id == b1[i].id
            && a1[i].content == b1[i].content && a1[i].edges@ == b1[i].edges@ by {
            assert(a1[i] == a[i]);
            assert(b1[i] == b[i]);
        }
        lemma_nodes_bytes_agree(a1, b1);
        assert(a[a.len() - 1].id == b[a.len() - 1].id);
    }
}

/// The bytes of an ordered node list are the canonical bytes of its nodes.
pub(crate) proof fn lemma_canonical_bytes(root: NodeId, s: Seq<GraphNode>)
    requires
        nodes_wf(s),
    ensures
        graph_bytes(root, s) == snapshot_bytes(root, table(s)),
{
    let c = canonical_nodes(table(s));
    assert(nodes_wf(s) && table(s) == table(s));
    lemma_nodes_unique(c, s);
    lemma_nodes_bytes_agree(c, s);
}

fn push_all(out: &mut Vec<u8>, src: &[u8])
    ensures
        final(out)@ == old(out)@ + src@,
{
    let mut i: usize = 0;
    while i < src.len()
        invariant
            i <= src@.len(),
            out@ == old(out)@ + src@.take(i as int),
        decreases src@.len() - i,
    {
        out.push(src[i]);
        proof {
            assert(src@.take(i as int).push(src@[i as int]) =~= src@.take(i + 1));
            assert(out@ =~= old(out)@ + src@.take(i + 1));
        }
        i += 1;
    }
    proof {
        assert(src@.take(src@.len() as int) =~= src@);
    }
}

fn push_u64(out: &mut Vec<u8>, x: u64)
    ensures
        final(out)@ == old(out)@ + spec_u64_to_le_bytes(x),
{
    let mut b = u64_to_le_bytes(x);
    out.append(&mut b);
}

fn push_u32(out: &mut Vec<u8>, x: u32)
    ensures
        final(out)@ == old(out)@ + spec_u32_to_le_bytes(x),
{
    let mut b = u32_to_le_bytes(x);
    out.append(&mut b);
}

fn push_edges(out: &mut Vec<u8>, edges: &Vec<Edge>)
    ensures
        final(out)@ == old(out)@ + edges_bytes(edges@),
{
    let mut i: usize = 0;
    proof {
        assert(old(out)@ + edges_bytes(edges@.take(0)) =~= old(out)@);
    }
    while i < edges.len()
        invariant
            i <= edges@.len(),
            out@ == old(out)@ + edges_bytes(edges@.take(i as int)),
        decreases edges@.len() - i,
    {
        let e = edges[i];
        push_u32(out, e.kind);
        push_u64(out, e.target);
        proof {
            let next = edges@.take(i + 1);
            assert(next.drop_last() =~= edges@.take(i as int));
            assert(next.last() == e);
            assert(out@ =~= old(out)@ + edges_bytes(next));
        }
        i += 1;
    }
    proof {
        assert(edges@.take(edges@.len() as int) =~= edges@);
    }
}

fn push_node(out: &mut Vec<u8>, node: &GraphNode)
    ensures
        final(out)@ == old(out)@ + node_bytes(*node),
{
    push_u64(out, node.id);
    push_all(out, node.content.as_bytes().as_slice());
    push_u64(out, node.edges.len() as u64);
    push_edges(out, &node.edges);
    proof {
        assert(out@ =~= old(out)@ + node_bytes(*node));
    }
}

/// The bytes of a node list under a root.
pub(crate) fn encode_graph(root: NodeId, nodes: &Vec<GraphNode>) -> (out: Vec<u8>)
    ensures
        out@ == graph_bytes(root, nodes@),
{
    let mut out: Vec<u8> = Vec::new();
    push_u64(&mut out, root);
    push_u64(&mut out, nodes.len() as u64);
    let ghost head = out@;
    let mut i: usize = 0;
    proof {
        assert(head + nodes_bytes(nodes@.take(0)) =~= head);
    }
    while i < nodes.len()
        invariant
            i <= nodes@.len(),
            out@ == head + nodes_bytes(nodes@.take(i as int)),
        decreases nodes@.len() - i,
    {
        push_node(&mut out, &nodes[i]);
        proof {
            let next = nodes@.take(i + 1);
            assert(next.drop_last() =~= nodes@.take(i as int));
            assert(next.last() == nodes@[i as int]);
            assert(out@ =~= head + nodes_bytes(next));
        }
        i += 1;
    }
    proof {
        assert(nodes@.take(nodes@.len() as int) =~= nodes@);
        assert(head =~= spec_u64_to_le_bytes(root) + spec_u64_to_le_bytes(nodes@.len() as u64));
        assert(out@ =~= graph_bytes(root, nodes@));
    }
    out
}

/// The first edge of a marked node that leads to no node, with that node.
fn find_dangling(graph: &Graph, root: NodeId, marks: &Vec<bool>) -> (r: Option<(NodeId, Edge)>)
    requires
        graph.wf(),
        graph@.contains_key(root),
        marks@.len() == graph.spec_nodes().len(),
        forall|i: int|
            0 <= i < marks@.len() ==> marks@[i] == reachable(
                graph@,
                root,
                (#[trigger] graph.spec_nodes()[i]).spec_id(),
            ),
    ensures
        r is None <==> closed(graph@, root),
        r matches Some((from, edge)) ==> first_dangling(graph@, root, from, edge),
{
    let ghost nodes = graph.spec_nodes();
    let ghost m = graph@;
    let n = graph.len();
    let mut i: usize = 0;
    while i < n
        invariant
            i <= n,
            n == nodes.len(),
            nodes == graph.spec_nodes(),
            m == graph@,
            graph.wf(),
            m.contains_key(root),
            marks@.len() == n,
            forall|k: int|
                0 <= k < marks@.len() ==> marks@[k] == reachable(m, root, (#[trigger] nodes[k]).id),
            forall|k: int, q: int|
                0 <= k < i && marks@[k] && 0 <= q < nodes[k].edges@.len() ==> m.contains_key(
                    (#[trigger] nodes[k].edges@[q]).target,
                ),
        decreases n - i,
    {
        if marks[i] {
            let node = graph.node_at(i);
            let edges = node.edges();
            proof {
                lemma_table_at(nodes, i as int);
            }
            let mut q: usize = 0;
            while q < edges.len()
                invariant
                    q <= edges@.len(),
                    i < n,
                    n == nodes.len(),
                    nodes == graph.spec_nodes(),
                    m == graph@,
                    graph.wf(),
                    m.contains_key(root),
                    marks@.len() == n,
                    marks@[i as int],
                    *node == nodes[i as int],
                    edges@ == nodes[i as int].edges@,
                    m.contains_key(nodes[i as int].id),
                    m[nodes[i as int].id] == nodes[i as int]@,
                    forall|k: int|
                        0 <= k < marks@.len() ==> marks@[k] == reachable(
                            m,
                            root,
                            (#[trigger] nodes[k]).id,
                        ),
                    forall|k: int, t: int|
                        0 <= k < i && marks@[k] && 0 <= t < nodes[k].edges@.len()
                            ==> m.contains_key((#[trigger] nodes[k].edges@[t]).target),
                    forall|t: int| 0 <= t < q ==> m.contains_key((#[trigger] edges@[t]).target),
                decreases edges@.len() - q,
            {
                let e = edges[q];
                if !graph.contains(e.target) {
                    proof {
                        let from = nodes[i as int].id;
                        assert(edges@.to_set().contains(e));
                        lemma_reach_step(m, root, from, e);
                        assert(reachable(m, root, e.target) && !m.contains_key(e.target));
                        assert forall|p: NodeId, x: Edge|
                            reachable(m, root, p) && m.contains_key(p) && #[trigger] m[p].edges.contains(
                                x,
                            ) && !m.contains_key(x.target) implies from < p || (from == p && (e == x
                            || e.precedes(x))) by {
                            let k = index_of(nodes, p);
                            lemma_table_at(nodes, k);
                            assert(marks@[k]);
                            let t = choose|t: int|
                                0 <= t < nodes[k].edges@.len() && nodes[k].edges@[t] == x;
                            if k < i {
                                assert(m.contains_key(nodes[k].edges@[t].target));
                            } else if k == i {
                                if t < q {
                                    assert(m.contains_key(edges@[t].target));
                                } else if t > q {
                                    assert(edges@[q as int].precedes(edges@[t]));
                                }
                            } else {
                                assert(nodes[i as int].id < nodes[k].id);
                            }
                        }
                    }
                    return Some((node.id(), e));
                }
                q += 1;
            }
        }
        i += 1;
    }
    proof {
        assert forall|x: NodeId| #[trigger] reachable(m, root, x) implies m.contains_key(x) by {
            if !m.contains_key(x) {
                let k = choose|k: nat| reach_within(m, root, x, k);
                lemma_missing_is_pointed_at(m, root, x, k);
                let (p, e) = choose|p: NodeId, e: Edge|
                    reachable(m, root, p) && m.contains_key(p) && #[trigger] m[p].edges.contains(e)
                        && e.target == x;
                let j = index_of(nodes, p);
                lemma_table_at(nodes, j);
                assert(marks@[j]);
                let t = choose|t: int| 0 <= t < nodes[j].edges@.len() && nodes[j].edges@[t] == e;
                assert(m.contains_key(nodes[j].edges@[t].target));
            }
        }
    }
    None
}

/// Copies of the marked nodes, in the order of the arena.
fn keep_marked(graph: &Graph, marks: &Vec<bool>) -> (out: Vec<GraphNode>)
    requires
        graph.wf(),
        marks@.len() == graph.spec_nodes().len(),
    ensures
        nodes_wf(out@),
        forall|id: NodeId| #[trigger]
            table(out@).contains_key(id) <==> exists|j: int|
                0 <= j < marks@.len() && marks@[j] && (#[trigger] graph.spec_nodes()[j]).id == id,
        forall|id: NodeId| #[trigger]
            table(out@).contains_key(id) ==> graph@.contains_key(id) && table(out@)[id]
                == graph@[id],
{
    let ghost nodes = graph.spec_nodes();
    let n = graph.len();
    let mut out: Vec<GraphNode> = Vec::new();
    let ghost origin: Seq<int> = Seq::empty();
    let mut i: usize = 0;
    while i < n
        invariant
            i <= n,
            n == nodes.len(),
            nodes == graph.spec_nodes(),
            nodes_wf(nodes),
            marks@.len() == n,
            origin.len() == out@.len(),
            forall|q: int|
                0 <= q < origin.len() ==> 0 <= (#[trigger] origin[q]) < i && marks@[origin[q]]
                    && out@[q].id == nodes[origin[q]].id && out@[q]@ == nodes[origin[q]]@
                    && out@[q].wf(),
            forall|a: int, b: int|
                0 <= a < b < origin.len() ==> (#[trigger] origin[a]) < (#[trigger] origin[b]),
            forall|j: int|
                0 <= j < i && #[trigger] marks@[j] ==> exists|q: int|
                    0 <= q < origin.len() && #[trigger] origin[q] == j,
        decreases n - i,
    {
        if marks[i] {
            let node = graph.node_at(i).duplicate();
            let ghost before = origin;
            out.push(node);
            proof {
                origin = origin.push(i as int);
                assert forall|j: int| 0 <= j < i + 1 && #[trigger] marks@[j] implies exists|q: int|
                    0 <= q < origin.len() && #[trigger] origin[q] == j by {
                    if j < i {
                        let q = choose|q: int| 0 <= q < before.len() && #[trigger] before[q] == j;
                        assert(origin[q] == j);
                    } else {
                        assert(origin[before.len() as int] == j);
                    }
                }
            }
        }
        i += 1;
    }
    proof {
        assert forall|a: int, b: int| 0 <= a < b < out@.len() implies (#[trigger] out@[a]).id < (
        #[trigger] out@[b]).id by {
            assert(origin[a] < origin[b]);
            assert(nodes[origin[a]].id < nodes[origin[b]].id);
        }
        assert forall|q: int| 0 <= q < out@.len() implies (#[trigger] out@[q]).wf() by {
            assert(0 <= origin[q]);
        }
        assert forall|id: NodeId| #[trigger]
            table(out@).contains_key(id) <==> exists|j: int|
                0 <= j < marks@.len() && marks@[j] && (#[trigger] nodes[j]).id == id by {
            if has_id(out@, id) {
                let q = index_of(out@, id);
                let j = origin[q];
                assert(0 <= j < marks@.len() && marks@[j] && nodes[j].id == id);
            }
            if exists|j: int| 0 <= j < marks@.len() && marks@[j] && (#[trigger] nodes[j]).id == id {
                let j = choose|j: int|
                    0 <= j < marks@.len() && marks@[j] && (#[trigger] nodes[j]).id == id;
                let q = choose|q: int| 0 <= q < origin.len() && #[trigger] origin[q] == j;
                assert(out@[q].id == id);
            }
        }
        assert forall|id: NodeId| #[trigger] table(out@).contains_key(id) implies graph@.contains_key(
            id,
        ) && table(out@)[id] == graph@[id] by {
            let q = index_of(out@, id);
            lemma_table_at(out@, q);
            let j = origin[q];
            assert(0 <= j);
            lemma_table_at(nodes, j);
        }
    }
    out
}

/// What a snapshot is: its root and its nodes.
pub ghost struct SnapshotView {
    pub root: NodeId,
    pub nodes: Map<NodeId, NodeView>,
}

/// An immutable view of the graph as a walk from the root finds it.
#[derive(Debug)]
pub struct Snapshot {
    pub(crate) root: NodeId,
    pub(crate) graph: Graph,
    pub(crate) address: Address,
}

impl View for Snapshot {
    type V = SnapshotView;

    open(crate) spec fn view(&self) -> SnapshotView {
        SnapshotView { root: self.root, nodes: self.graph@ }
    }
}

/// What makes a root and a set of nodes a snapshot: the root is one of the
/// nodes, every edge leads to one of them, and a walk from the root arrives
/// at each.
pub open spec fn is_snapshot(v: SnapshotView) -> bool {
    &&& v.nodes.contains_key(v.root)
    &&& closed(v.nodes, v.root)
    &&& forall|n: NodeId| #[trigger] v.nodes.contains_key(n) ==> reachable(v.nodes, v.root, n)
}

impl Snapshot {
    pub open(crate) spec fn wf(&self) -> bool {
        &&& self.graph.wf()
        &&& is_snapshot(self@)
        &&& self.address@ == address_of(self.root, self.graph@)
    }

    pub open(crate) spec fn spec_address(&self) -> Address {
        self.address
    }

    pub open(crate) spec fn spec_graph(&self) -> Graph {
        self.graph
    }

    /// A well-formed snapshot is what its view says, at the address of that view.
    pub proof fn lemma_wf(&self)
        requires
            self.wf(),
        ensures
            is_snapshot(self@),
            self.spec_address()@ == address_of(self@.root, self@.nodes),
            self.spec_graph().wf(),
            self.spec_graph()@ == self@.nodes,
    {
    }

    /// The snapshot of `graph` from `root`: the nodes that a walk from `root`
    /// arrives at. It fails where the root is missing or an edge of such a
    /// node leads to no node.
    pub fn compute(graph: &Graph, root: NodeId) -> (r: Result<Snapshot, StoreError>)
        requires
            graph.wf(),
        ensures
            r is Ok <==> closed(graph@, root),
            r matches Ok(s) ==> {
                &&& s.wf()
                &&& s@.root == root
                &&& s@.nodes == reachable_part(graph@, root)
            },
            r matches Err(e) ==> match e {
                StoreError::NotFound(Missing::Node(x)) => x == root && !graph@.contains_key(root),
                StoreError::IntegrityViolation(Integrity::DanglingEdge { from, edge }) => {
                    &&& graph@.contains_key(root)
                    &&& first_dangling(graph@, root, from, edge)
                },
                _ => false,
            },
    {
        let marks = match mark_reachable(graph, root) {
            Ok(marks) => marks,
            Err(e) => {
                proof {
                    lemma_root_reachable(graph@, root);
                }
                return Err(e);
            },
        };
        match find_dangling(graph, root, &marks) {
            Some((from, edge)) => {
                proof {
                    lemma_reach_step(graph@, root, from, edge);
                }
                return Err(
                    StoreError::IntegrityViolation(Integrity::DanglingEdge { from, edge }),
                );
            },
            None => {},
        }
        let ghost m = graph@;
        let out = keep_marked(graph, &marks);
        let bytes = encode_graph(root, &out);
        let address = Address::new(bytes.as_slice());
        let snapshot = Snapshot { root, graph: Graph { nodes: out }, address };
        proof {
            assert(table(out@) =~= reachable_part(m, root));
            lemma_part_is_fixed(m, root);
            lemma_root_reachable(m, root);
            lemma_canonical_bytes(root, out@);
        }
        Ok(snapshot)
    }

    pub fn root(&self) -> (r: NodeId)
        ensures
            r == self@.root,
    {
        self.root
    }

    pub fn address(&self) -> (a: Address)
        ensures
            a == self.spec_address(),
    {
        self.address
    }

    /// The nodes of the snapshot, as a graph.
    pub fn graph(&self) -> (g: &Graph)
        ensures
            *g == self.spec_graph(),
    {
        &self.graph
    }

    /// Number of nodes.
    pub fn len(&self) -> (n: usize)
        ensures
            n == self.spec_graph().spec_nodes().len(),
    {
        self.graph.len()
    }

    pub fn contains(&self, id: NodeId) -> (r: bool)
        requires
            self.wf(),
        ensures
            r == self@.nodes.contains_key(id),
    {
        self.graph.contains(id)
    }

    /// The content that node `id` points at, if the snapshot has the node.
    pub fn content_of(&self, id: NodeId) -> (r: Option<ContentHash>)
        requires
            self.wf(),
        ensures
            r is Some == self@.nodes.contains_key(id),
            r is Some ==> r->0 == self@.nodes[id].content,
    {
        match self.graph.get(id) {
            Some(node) => Some(node.content()),
            None => None,
        }
    }

    /// A copy of the snapshot.
    pub fn duplicate(&self) -> (s: Snapshot)
        requires
            self.wf(),
        ensures
            s.wf(),
            s@ == self@,
            s.spec_address() == self.spec_address(),
    {
        Snapshot { root: self.root, graph: self.graph.duplicate(), address: self.address }
    }

    /// Whether two snapshots are the same: same root, same nodes.
    pub fn same_as(&self, other: &Snapshot) -> (r: bool)
        requires
            self.wf(),
            other.wf(),
        ensures
            r == (self@ == other@),
    {
        if self.root != other.root {
            return false;
        }
        let a = &self.graph.nodes;
        let b = &other.graph.nodes;
        proof {
            if self@ == other@ {
                lemma_nodes_unique(a@, b@);
            }
        }
        if a.len() != b.len() {
            return false;
        }
        let mut i: usize = 0;
        while i < a.len()
            invariant
                i <= a@.len(),
                a@.len() == b@.len(),
                self@ == other@ ==> forall|k: int|
                    0 <= k < a@.len() ==> (#[trigger] a@[k]).id == b@[k].id && a@[k].content
                        == b@[k].content && a@[k].edges@ == b@[k].edges@,
                forall|k: int|
                    0 <= k < i ==> (#[trigger] a@[k]).id == b@[k].id && a@[k]@ == b@[k]@,
            decreases a@.len() - i,
        {
            if a[i].id != b[i].id || !a[i].content.same(&b[i].content) || !edges_same(
                &a[i].edges,
                &b[i].edges,
            ) {
                proof {
                    if self@ == other@ {
                        assert(a@[i as int].id == b@[i as int].id);
                    }
                }
                return false;
            }
            i += 1;
        }
        proof {
            lemma_table_agree(a@, b@);
        }
        true
    }

    /// Whether node `id` has the edge `e`.
    pub fn has_edge(&self, id: NodeId, e: Edge) -> (r: bool)
        requires
            self.wf(),
        ensures
            r == (self@.nodes.contains_key(id) && self@.nodes[id].edges.contains(e)),
    {
        match self.graph.get(id) {
            Some(node) => node.has_edge(e),
            None => false,
        }
    }
}

fn edges_same(a: &Vec<Edge>, b: &Vec<Edge>) -> (r: bool)
    ensures
        r == (a@ == b@),
{
    if a.len() != b.len() {
        return false;
    }
    let mut i: usize = 0;
    while i < a.len()
        invariant
            i <= a@.len(),
            a@.len() == b@.len(),
            forall|k: int| 0 <= k < i ==> a@[k] == b@[k],
        decreases a@.len() - i,
    {
        if a[i] != b[i] {
            return false;
        }
        i += 1;
    }
    assert(a@ =~= b@);
    true
}

/// Snapshots that are the same have the same address.
pub proof fn lemma_same_view_same_address(a: &Snapshot, b: &Snapshot)
    requires
        a.wf(),
        b.wf(),
        a@ == b@,
    ensures
        a.spec_address() == b.spec_address(),
{
    Address::lemma_same(a.address, b.address);
}

} // verus!

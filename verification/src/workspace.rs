//! A workspace: the content store, the snapshot store, the head and the
//! change sets that branch off it.

use vstd::prelude::*;
use vstd::pervasive::unreached;
use crate::conflict::{conflicts_with, content_set_by, Conflict};
use crate::diff::{changes, is_difference};
use crate::rebase::{
    compatible, conflicts_of, keeps_both_sides, merged, rebase_snapshots, Rebase,
};
use crate::content::{content_hash_of, ContentEnvelope, EnvelopeView};
use crate::content_store::{get_from, put_into, ContentStore};
use crate::digest::{Address, ContentHash};
use crate::error::{ChangeSetId, Integrity, Missing, StoreError};
use crate::graph::{Edge, Graph, NodeId, NodeView};
use crate::ops::{all_applicable, apply_ops, NodeOp};
use crate::reach::{
    closed, first_dangling, has_edge_to, reach_within, reachable, reachable_part,
};
use crate::snapshot::{address_of, is_snapshot, Snapshot, SnapshotView};
use crate::snapshot_store::{file_into, SnapshotStore};

verus! {

/// Where a change set stands in its life. `Applied` and `Abandoned` are final.
#[derive(Clone, Copy, Debug, PartialEq, Eq, Structural, Hash)]
pub enum ChangeSetStatus {
    Open,
    Applied,
    Abandoned,
}

/// A branch of edits: the snapshot it started from and the snapshot it has arrived at.
#[derive(Clone, Copy, Debug, PartialEq, Eq)]
pub struct ChangeSet {
    pub id: ChangeSetId,
    pub base_address: Address,
    pub working_address: Address,
    pub status: ChangeSetStatus,
}

/// What a workspace is.
pub ghost struct WorkspaceView {
    pub root: NodeId,
    pub contents: Map<Seq<u8>, EnvelopeView>,
    pub snapshots: Map<Seq<u8>, SnapshotView>,
    pub change_sets: Seq<ChangeSet>,
    pub head: Address,
}

/// Every node points at content that the store holds.
pub open spec fn resolves(
    contents: Map<Seq<u8>, EnvelopeView>,
    nodes: Map<NodeId, NodeView>,
) -> bool {
    forall|n: NodeId| #[trigger] nodes.contains_key(n) ==> contents.contains_key(nodes[n].content@)
}

/// Whether `node` is the node with the least identifier that points at
/// content that the store does not hold, and `content` that content.
pub open spec fn first_unresolved(
    contents: Map<Seq<u8>, EnvelopeView>,
    nodes: Map<NodeId, NodeView>,
    node: NodeId,
    content: ContentHash,
) -> bool {
    &&& nodes.contains_key(node)
    &&& nodes[node].content == content
    &&& !contents.contains_key(content@)
    &&& forall|n: NodeId|
        n < node && #[trigger] nodes.contains_key(n) ==> contents.contains_key(nodes[n].content@)
}

/// The snapshot that the edits make of the snapshot `v`.
pub open spec fn derived(v: SnapshotView, edits: Seq<NodeOp>) -> SnapshotView {
    SnapshotView { root: v.root, nodes: reachable_part(apply_ops(v.nodes, edits), v.root) }
}

/// What holds of a workspace at all times: the head and the addresses of
/// every change set name stored snapshots, a change set has its place in the
/// list as its identifier, every stored snapshot has the root of the
/// workspace, and every node of every stored snapshot points at stored content.
pub open spec fn workspace_inv(w: WorkspaceView) -> bool {
    &&& w.snapshots.contains_key(w.head@)
    &&& forall|i: int|
        0 <= i < w.change_sets.len() ==> {
            &&& (#[trigger] w.change_sets[i]).id == i
            &&& w.snapshots.contains_key(w.change_sets[i].base_address@)
            &&& w.snapshots.contains_key(w.change_sets[i].working_address@)
        }
    &&& forall|a: Seq<u8>| #[trigger]
        w.snapshots.contains_key(a) ==> w.snapshots[a].root == w.root && resolves(
            w.contents,
            w.snapshots[a].nodes,
        )
}

/// What `derive` returns for the snapshot under `address` and the edits.
pub open spec fn derive_result(
    w: WorkspaceView,
    address: Address,
    edits: Seq<NodeOp>,
    r: Result<Address, StoreError>,
) -> bool {
    if !w.snapshots.contains_key(address@) {
        r == Err::<Address, StoreError>(StoreError::NotFound(Missing::Snapshot(address)))
    } else {
        let v0 = w.snapshots[address@];
        let applied = apply_ops(v0.nodes, edits);
        let v = derived(v0, edits);
        if !all_applicable(v0.nodes, edits) {
            exists|i: int|
                0 <= i < edits.len() && all_applicable(v0.nodes, #[trigger] edits.take(i))
                    && !edits[i].applicable(apply_ops(v0.nodes, edits.take(i))) && r == Err::<
                    Address,
                    StoreError,
                >(StoreError::NotFound(Missing::Node(edits[i].subject())))
        } else if !applied.contains_key(v0.root) {
            r == Err::<Address, StoreError>(StoreError::NotFound(Missing::Node(v0.root)))
        } else if !closed(applied, v0.root) {
            r matches Err(StoreError::IntegrityViolation(Integrity::DanglingEdge { from, edge }))
                && first_dangling(applied, v0.root, from, edge)
        } else if !resolves(w.contents, v.nodes) {
            r matches Err(
                StoreError::IntegrityViolation(Integrity::DanglingContent { node, content }),
            ) && first_unresolved(w.contents, v.nodes, node, content)
        } else if file_into(w.snapshots, v) is None {
            r == Err::<Address, StoreError>(StoreError::IntegrityViolation(Integrity::HashCollision))
        } else {
            r matches Ok(a) && a@ == address_of(v.root, v.nodes)
        }
    }
}

/// The workspace after `derive`.
pub open spec fn derive_state(
    w: WorkspaceView,
    address: Address,
    edits: Seq<NodeOp>,
    r: Result<Address, StoreError>,
) -> WorkspaceView {
    if r is Ok {
        WorkspaceView {
            snapshots: file_into(w.snapshots, derived(w.snapshots[address@], edits))->0,
            ..w
        }
    } else {
        w
    }
}

proof fn lemma_single_node(m: Map<NodeId, NodeView>, root: NodeId, n: NodeId, k: nat)
    requires
        m.contains_key(root),
        m[root].edges == Set::<Edge>::empty(),
        forall|x: NodeId| m.contains_key(x) ==> x == root,
        reach_within(m, root, n, k),
    ensures
        n == root,
    decreases k,
{
    if k > 0 {
        if reach_within(m, root, n, (k - 1) as nat) {
            lemma_single_node(m, root, n, (k - 1) as nat);
        } else {
            let p = choose|p: NodeId|
                reach_within(m, root, p, (k - 1) as nat) && #[trigger] has_edge_to(m, p, n);
            lemma_single_node(m, root, p, (k - 1) as nat);
        }
    }
}

/// The stores, the head and the change sets of one graph of objects.
#[derive(Debug)]
pub struct Workspace {
    pub(crate) root: NodeId,
    pub(crate) contents: ContentStore,
    pub(crate) snapshots: SnapshotStore,
    pub(crate) change_sets: Vec<ChangeSet>,
    pub(crate) head: Address,
}

impl View for Workspace {
    type V = WorkspaceView;

    open(crate) spec fn view(&self) -> WorkspaceView {
        WorkspaceView {
            root: self.root,
            contents: self.contents@,
            snapshots: self.snapshots@,
            change_sets: self.change_sets@,
            head: self.head,
        }
    }
}

impl Workspace {
    pub open(crate) spec fn wf(&self) -> bool {
        &&& self.contents.wf()
        &&& self.snapshots.wf()
        &&& workspace_inv(self@)
    }

    /// A well-formed workspace keeps its invariant, and its stored snapshots
    /// are snapshots, filed under the addresses of what they are.
    pub proof fn lemma_wf(&self, a: Seq<u8>)
        requires
            self.wf(),
        ensures
            workspace_inv(self@),
            self@.snapshots.contains_key(a) ==> is_snapshot(self@.snapshots[a]) && a == address_of(
                self@.snapshots[a].root,
                self@.snapshots[a].nodes,
            ),
    {
        if self@.snapshots.contains_key(a) {
            self.snapshots.lemma_filed_by_address(a);
        }
    }

    /// To derive from a stored snapshot without edits gives the address of
    /// that snapshot back and leaves the workspace as it is.
    pub proof fn derive_without_edits(&self, address: Address)
        requires
            self.wf(),
            self@.snapshots.contains_key(address@),
        ensures
            derive_result(
                self@,
                address,
                Seq::<NodeOp>::empty(),
                Ok::<Address, StoreError>(address),
            ),
            derive_state(
                self@,
                address,
                Seq::<NodeOp>::empty(),
                Ok::<Address, StoreError>(address),
            ) == self@,
    {
        self.lemma_wf(address@);
        let v0 = self@.snapshots[address@];
        let none = Seq::<NodeOp>::empty();
        assert(apply_ops(v0.nodes, none) == v0.nodes);
        assert(reachable_part(v0.nodes, v0.root) =~= v0.nodes);
        assert(derived(v0, none) == v0);
        assert(self@.snapshots.insert(address@, v0) =~= self@.snapshots);
    }

    /// A workspace whose head is the snapshot of one node, `root`, that
    /// points at `content`; the content store holds `content` and nothing
    /// else, and there is no change set.
    pub fn new(root: NodeId, content: ContentEnvelope) -> (w: Workspace)
        requires
            content.wf(),
        ensures
            w.wf(),
            w@.root == root,
            w@.contents == Map::<Seq<u8>, EnvelopeView>::empty().insert(
                content_hash_of(content@),
                content@,
            ),
            w@.change_sets == Seq::<ChangeSet>::empty(),
            w@.snapshots.dom() == Set::<Seq<u8>>::empty().insert(w@.head@),
            w@.snapshots[w@.head@].root == root,
            w@.snapshots[w@.head@].nodes.dom() == Set::<NodeId>::empty().insert(root),
            w@.snapshots[w@.head@].nodes[root].content@ == content_hash_of(content@),
            w@.snapshots[w@.head@].nodes[root].edges == Set::<Edge>::empty(),
    {
        let mut contents = ContentStore::new();
        let hash = match contents.put(content) {
            Ok(h) => h,
            Err(_) => unreached(),
        };
        let mut graph = Graph::new();
        graph.insert_node(root, hash);
        proof {
            let m = graph@;
            assert forall|n: NodeId| #[trigger] reachable(m, root, n) implies m.contains_key(n) by {
                let k = choose|k: nat| reach_within(m, root, n, k);
                lemma_single_node(m, root, n, k);
            }
        }
        let mut snapshots = SnapshotStore::new();
        match Snapshot::compute(&graph, root) {
            Ok(snapshot) => {
                proof {
                    assert(snapshot@.nodes =~= graph@) by {
                        crate::reach::lemma_root_reachable(graph@, root);
                    }
                }
                match snapshots.insert(snapshot) {
                    Ok(head) => {
                        let w = Workspace {
                            root,
                            contents,
                            snapshots,
                            change_sets: Vec::new(),
                            head,
                        };
                        proof {
                            assert(w@.snapshots.dom() =~= Set::<Seq<u8>>::empty().insert(w@.head@));
                            assert(w@.snapshots[w@.head@].nodes.dom() =~= Set::<NodeId>::empty().insert(
                                root,
                            ));
                        }
                        w
                    },
                    Err(_) => unreached(),
                }
            },
            Err(_) => unreached(),
        }
    }

    pub fn root(&self) -> (r: NodeId)
        ensures
            r == self@.root,
    {
        self.root
    }

    /// The address of the head.
    pub fn head(&self) -> (a: Address)
        ensures
            a == self@.head,
    {
        self.head
    }

    /// Files a payload in the content store: see `ContentStore::put`.
    pub fn put(&mut self, envelope: ContentEnvelope) -> (r: Result<ContentHash, StoreError>)
        requires
            old(self).wf(),
            envelope.wf(),
        ensures
            final(self).wf(),
            match r {
                Ok(h) => h@ == content_hash_of(envelope@) && put_into(
                    old(self)@.contents,
                    envelope@,
                ) is Some && final(self)@ == (WorkspaceView {
                    contents: put_into(old(self)@.contents, envelope@)->0,
                    ..old(self)@
                }),
                Err(e) => put_into(old(self)@.contents, envelope@) is None && e
                    == StoreError::IntegrityViolation(Integrity::HashCollision) && final(self)@
                    == old(self)@,
            },
    {
        let r = self.contents.put(envelope);
        proof {
            assert(workspace_inv(self@)) by {
                assert forall|a: Seq<u8>| #[trigger] self@.snapshots.contains_key(a) implies resolves(
                    self@.contents,
                    self@.snapshots[a].nodes,
                ) by {
                    assert(resolves(old(self)@.contents, old(self)@.snapshots[a].nodes));
                }
            }
        }
        r
    }

    /// The payload under `hash`: see `ContentStore::get`.
    pub fn get(&self, hash: &ContentHash) -> (r: Result<&ContentEnvelope, StoreError>)
        requires
            self.wf(),
        ensures
            match r {
                Ok(e) => get_from(self@.contents, hash@) == Some(e@) && e.wf(),
                Err(err) => get_from(self@.contents, hash@) is None && err == StoreError::NotFound(
                    Missing::Content(*hash),
                ),
            },
    {
        self.contents.get(hash)
    }

    /// Whether the content store has a payload under `hash`.
    pub fn contains(&self, hash: &ContentHash) -> (r: bool)
        requires
            self.wf(),
        ensures
            r == self@.contents.contains_key(hash@),
    {
        self.contents.contains(hash)
    }

    /// The snapshot under `address`.
    pub fn snapshot(&self, address: &Address) -> (r: Result<&Snapshot, StoreError>)
        requires
            self.wf(),
        ensures
            match r {
                Ok(s) => self@.snapshots.contains_key(address@) && s@ == self@.snapshots[address@]
                    && s.wf() && s.spec_address() == *address,
                Err(e) => !self@.snapshots.contains_key(address@) && e == StoreError::NotFound(
                    Missing::Snapshot(*address),
                ),
            },
    {
        self.snapshots.get(address)
    }

    /// The first node of the snapshot that points at content that the store
    /// does not hold, with that content.
    pub(crate) fn unresolved(&self, snapshot: &Snapshot) -> (r: Option<(NodeId, ContentHash)>)
        requires
            self.contents.wf(),
            snapshot.wf(),
        ensures
            r is None <==> resolves(self@.contents, snapshot@.nodes),
            r matches Some((node, content)) ==> first_unresolved(
                self@.contents,
                snapshot@.nodes,
                node,
                content,
            ),
    {
        let graph = snapshot.graph();
        proof {
            snapshot.lemma_wf();
        }
        let mut i: usize = 0;
        while i < graph.len()
            invariant
                i <= graph.spec_nodes().len(),
                graph.wf(),
                self.contents.wf(),
                graph@ == snapshot@.nodes,
                forall|k: int|
                    0 <= k < i ==> self.contents@.contains_key(
                        (#[trigger] graph.spec_nodes()[k])@.content@,
                    ),
            decreases graph.spec_nodes().len() - i,
        {
            let node = graph.node_at(i);
            let content = node.content();
            proof {
                crate::graph::lemma_table_at(graph.spec_nodes(), i as int);
            }
            if !self.contents.contains(&content) {
                proof {
                    let nodes = graph.spec_nodes();
                    assert forall|n: NodeId|
                        n < node.spec_id() && #[trigger] snapshot@.nodes.contains_key(
                            n,
                        ) implies self@.contents.contains_key(snapshot@.nodes[n].content@) by {
                        let k = crate::graph::index_of(nodes, n);
                        crate::graph::lemma_table_at(nodes, k);
                        if k >= i {
                            if k > i {
                                assert(nodes[i as int].spec_id() < nodes[k].spec_id());
                            }
                        }
                    }
                }
                return Some((node.id(), content));
            }
            i += 1;
        }
        proof {
            assert forall|n: NodeId| #[trigger] snapshot@.nodes.contains_key(n) implies self@.contents.contains_key(
                snapshot@.nodes[n].content@,
            ) by {
                let k = crate::graph::index_of(graph.spec_nodes(), n);
                crate::graph::lemma_table_at(graph.spec_nodes(), k);
            }
        }
        None
    }

    /// Makes a new snapshot of the one under `address` by carrying out the
    /// edits on a copy of it, files it and returns its address. The snapshot
    /// under `address` stays as it is. Nothing is filed where the call fails:
    /// where the address names no snapshot, an edit does not find its node,
    /// the edits leave the root removed or an edge without its node, a node
    /// points at content that the store does not hold, or the store holds
    /// another snapshot under the new address.
    pub fn derive(&mut self, address: &Address, edits: &Vec<NodeOp>) -> (r: Result<
        Address,
        StoreError,
    >)
        requires
            old(self).wf(),
        ensures
            final(self).wf(),
            derive_result(old(self)@, *address, edits@, r),
            final(self)@ == derive_state(old(self)@, *address, edits@, r),
            edits@.len() == 0 && old(self)@.snapshots.contains_key(address@) ==> r == Ok::<
                Address,
                StoreError,
            >(*address) && final(self)@ == old(self)@,
    {
        let snapshot = match self.snapshots.get(address) {
            Ok(s) => s,
            Err(e) => {
                return Err(e);
            },
        };
        let ghost v0 = snapshot@;
        let root = snapshot.root();
        proof {
            snapshot.lemma_wf();
            self.lemma_wf(address@);
        }
        let mut graph = snapshot.graph().duplicate();
        match graph.apply_all(edits) {
            Some(i) => {
                return Err(StoreError::NotFound(Missing::Node(edits[i].node())));
            },
            None => {},
        }
        let ghost applied = apply_ops(v0.nodes, edits@);
        let made = match Snapshot::compute(&graph, root) {
            Ok(s) => s,
            Err(e) => {
                proof {
                    crate::reach::lemma_root_reachable(applied, root);
                }
                return Err(e);
            },
        };
        proof {
            crate::reach::lemma_root_reachable(applied, root);
        }
        match self.unresolved(&made) {
            Some((node, content)) => {
                return Err(
                    StoreError::IntegrityViolation(Integrity::DanglingContent { node, content }),
                );
            },
            None => {},
        }
        let ghost v = made@;
        proof {
            made.lemma_wf();
            if edits@.len() == 0 {
                assert(reachable_part(v0.nodes, v0.root) =~= v0.nodes);
                assert(v == v0);
                assert(old(self)@.snapshots.insert(address@, v0) =~= old(self)@.snapshots);
            }
        }
        let r = self.snapshots.insert(made);
        proof {
            if r is Ok {
                assert(workspace_inv(self@)) by {
                    assert forall|a: Seq<u8>| #[trigger]
                        self@.snapshots.contains_key(a) implies self@.snapshots[a].root
                        == self@.root && resolves(self@.contents, self@.snapshots[a].nodes) by {
                        if a != address_of(v.root, v.nodes) {
                            assert(old(self)@.snapshots.contains_key(a));
                        }
                    }
                }
                if edits@.len() == 0 {
                    Address::lemma_same(r->Ok_0, *address);
                }
            }
        }
        r
    }
}

/// What a rebase hands to whoever spreads the news of it.
#[derive(Debug)]
pub struct ChangeSummary {
    pub change_set_id: ChangeSetId,
    pub new_address: Address,
    pub node_ops: Vec<NodeOp>,
}

/// The nodes that the operations add, in the order of the operations.
pub open spec fn added_by(ops: Seq<NodeOp>) -> Seq<NodeId>
    decreases ops.len(),
{
    if ops.len() == 0 {
        Seq::<NodeId>::empty()
    } else if ops.last() is AddNode {
        added_by(ops.drop_last()).push(ops.last().subject())
    } else {
        added_by(ops.drop_last())
    }
}

/// The nodes that the operations remove, in the order of the operations.
pub open spec fn removed_by(ops: Seq<NodeOp>) -> Seq<NodeId>
    decreases ops.len(),
{
    if ops.len() == 0 {
        Seq::<NodeId>::empty()
    } else if ops.last() is RemoveNode {
        removed_by(ops.drop_last()).push(ops.last().subject())
    } else {
        removed_by(ops.drop_last())
    }
}

/// Whether the operations modify node `n`: one of them sets its content or
/// touches one of its edges, and none adds it.
pub open spec fn modified_by(ops: Seq<NodeOp>, n: NodeId) -> bool {
    &&& exists|i: int|
        0 <= i < ops.len() && (#[trigger] ops[i]).subject() == n && (ops[i] is SetContent
            || ops[i] is AddEdge || ops[i] is RemoveEdge)
    &&& forall|i: int| 0 <= i < ops.len() ==> !((#[trigger] ops[i]) is AddNode && ops[i].subject() == n)
}

/// Whether an operation sets the content of its node or touches one of its edges.
pub open spec fn edits_node(op: NodeOp) -> bool {
    op is SetContent || op is AddEdge || op is RemoveEdge
}

/// Whether one of the operations adds node `n`.
pub open spec fn adds_node(ops: Seq<NodeOp>, n: NodeId) -> bool {
    exists|i: int| 0 <= i < ops.len() && (#[trigger] ops[i]) is AddNode && ops[i].subject() == n
}

/// The nodes that the first `k` operations modify, each where it is met
/// first: the nodes of which one of them sets the content or touches an
/// edge, and which none of all the operations adds.
pub open spec fn modified_upto(ops: Seq<NodeOp>, k: nat) -> Seq<NodeId>
    decreases k,
{
    if k == 0 {
        Seq::<NodeId>::empty()
    } else {
        let before = modified_upto(ops, (k - 1) as nat);
        let op = ops[k - 1];
        if edits_node(op) && !adds_node(ops, op.subject()) && !before.contains(op.subject()) {
            before.push(op.subject())
        } else {
            before
        }
    }
}

fn adds(ops: &Vec<NodeOp>, n: NodeId) -> (r: bool)
    ensures
        r == adds_node(ops@, n),
        r == !(forall|i: int|
            0 <= i < ops@.len() ==> !((#[trigger] ops@[i]) is AddNode && ops@[i].subject() == n)),
{
    let mut i: usize = 0;
    while i < ops.len()
        invariant
            i <= ops@.len(),
            forall|k: int| 0 <= k < i ==> !((#[trigger] ops@[k]) is AddNode && ops@[k].subject() == n),
        decreases ops@.len() - i,
    {
        match ops[i] {
            NodeOp::AddNode { node, .. } => {
                if node == n {
                    proof {
                        let w = i as int;
                        assert(ops@[w] is AddNode && ops@[w].subject() == n);
                    }
                    return true;
                }
            },
            _ => {},
        }
        i += 1;
    }
    proof {
        if adds_node(ops@, n) {
            let w = choose|w: int|
                0 <= w < ops@.len() && (#[trigger] ops@[w]) is AddNode && ops@[w].subject() == n;
            assert(!(ops@[w] is AddNode && ops@[w].subject() == n));
        }
    }
    false
}

fn holds_node(list: &Vec<NodeId>, n: NodeId) -> (r: bool)
    ensures
        r == list@.contains(n),
{
    let mut i: usize = 0;
    while i < list.len()
        invariant
            i <= list@.len(),
            forall|k: int| 0 <= k < i ==> list@[k] != n,
        decreases list@.len() - i,
    {
        if list[i] == n {
            return true;
        }
        i += 1;
    }
    false
}

/// Whether one of the first `upto` operations sets the content of node `n`
/// or touches one of its edges.
spec fn edited_before(ops: Seq<NodeOp>, upto: int, n: NodeId) -> bool {
    exists|i: int|
        0 <= i < upto && i < ops.len() && (#[trigger] ops[i]).subject() == n && (ops[i] is SetContent
            || ops[i] is AddEdge || ops[i] is RemoveEdge)
}

impl ChangeSummary {
    /// The nodes that were added, in the order of the operations.
    pub fn added(&self) -> (out: Vec<NodeId>)
        ensures
            out@ == added_by(self.node_ops@),
    {
        let ops = &self.node_ops;
        let mut out: Vec<NodeId> = Vec::new();
        let mut i: usize = 0;
        proof {
            assert(ops@.take(0) =~= Seq::<NodeOp>::empty());
        }
        while i < ops.len()
            invariant
                i <= ops@.len(),
                out@ == added_by(ops@.take(i as int)),
            decreases ops@.len() - i,
        {
            proof {
                assert(ops@.take(i + 1).drop_last() =~= ops@.take(i as int));
                assert(ops@.take(i + 1).last() == ops@[i as int]);
            }
            match ops[i] {
                NodeOp::AddNode { node, .. } => {
                    out.push(node);
                },
                _ => {},
            }
            i += 1;
        }
        proof {
            assert(ops@.take(ops@.len() as int) =~= ops@);
        }
        out
    }

    /// The nodes that were removed, in the order of the operations.
    pub fn removed(&self) -> (out: Vec<NodeId>)
        ensures
            out@ == removed_by(self.node_ops@),
    {
        let ops = &self.node_ops;
        let mut out: Vec<NodeId> = Vec::new();
        let mut i: usize = 0;
        proof {
            assert(ops@.take(0) =~= Seq::<NodeOp>::empty());
        }
        while i < ops.len()
            invariant
                i <= ops@.len(),
                out@ == removed_by(ops@.take(i as int)),
            decreases ops@.len() - i,
        {
            proof {
                assert(ops@.take(i + 1).drop_last() =~= ops@.take(i as int));
                assert(ops@.take(i + 1).last() == ops@[i as int]);
            }
            match ops[i] {
                NodeOp::RemoveNode { node } => {
                    out.push(node);
                },
                _ => {},
            }
            i += 1;
        }
        proof {
            assert(ops@.take(ops@.len() as int) =~= ops@);
        }
        out
    }

    /// The nodes that were modified, each once, in the order of the
    /// operations: those of which an operation sets the content or touches
    /// an edge, and which were not added.
    pub fn modified(&self) -> (out: Vec<NodeId>)
        ensures
            out@ == modified_upto(self.node_ops@, self.node_ops@.len()),
            out@.no_duplicates(),
            forall|n: NodeId| out@.contains(n) <==> modified_by(self.node_ops@, n),
    {
        let ops = &self.node_ops;
        let mut out: Vec<NodeId> = Vec::new();
        let mut i: usize = 0;
        while i < ops.len()
            invariant
                i <= ops@.len(),
                out@ == modified_upto(ops@, i as nat),
                out@.no_duplicates(),
                forall|n: NodeId| #[trigger]
                    out@.contains(n) ==> edited_before(ops@, i as int, n) && modified_by(ops@, n),
                forall|n: NodeId| #[trigger]
                    edited_before(ops@, i as int, n) && modified_by(ops@, n) ==> out@.contains(n),
            decreases ops@.len() - i,
        {
            let op = ops[i];
            let n = op.node();
            let edits = match op {
                NodeOp::SetContent { .. } => true,
                NodeOp::AddEdge { .. } => true,
                NodeOp::RemoveEdge { .. } => true,
                _ => false,
            };
            let ghost before = out@;
            let mut pushed = false;
            if edits && !adds(ops, n) && !holds_node(&out, n) {
                out.push(n);
                pushed = true;
            }
            proof {
                assert forall|x: NodeId| #[trigger] before.contains(x) implies out@.contains(x) by {
                    let k = choose|k: int| 0 <= k < before.len() && before[k] == x;
                    assert(out@[k] == x);
                }
                assert forall|x: NodeId| #[trigger] out@.contains(x) implies edited_before(
                    ops@,
                    i + 1,
                    x,
                ) && modified_by(ops@, x) by {
                    let k = choose|k: int| 0 <= k < out@.len() && out@[k] == x;
                    if k < before.len() {
                        assert(before[k] == x);
                        assert(before.contains(x));
                        assert(edited_before(ops@, i as int, x));
                        let w = choose|w: int|
                            0 <= w < i && w < ops@.len() && (#[trigger] ops@[w]).subject() == x && (
                            ops@[w] is SetContent || ops@[w] is AddEdge || ops@[w] is RemoveEdge);
                        assert(ops@[w].subject() == x);
                    } else {
                        assert(x == n);
                        assert(ops@[i as int].subject() == n);
                    }
                }
                assert forall|x: NodeId| #[trigger]
                    edited_before(ops@, i + 1, x) && modified_by(ops@, x) implies out@.contains(
                    x,
                ) by {
                    let w = choose|w: int|
                        0 <= w < i + 1 && w < ops@.len() && (#[trigger] ops@[w]).subject() == x && (
                        ops@[w] is SetContent || ops@[w] is AddEdge || ops@[w] is RemoveEdge);
                    if w < i {
                        assert(ops@[w].subject() == x);
                        assert(edited_before(ops@, i as int, x));
                        assert(before.contains(x));
                    } else {
                        assert(x == n);
                        if pushed {
                            assert(out@[before.len() as int] == n);
                        } else {
                            assert(before.contains(n));
                        }
                    }
                }
            }
            i += 1;
        }
        proof {
            assert forall|n: NodeId| out@.contains(n) <==> modified_by(ops@, n) by {
                if modified_by(ops@, n) {
                    let w = choose|w: int|
                        0 <= w < ops@.len() && (#[trigger] ops@[w]).subject() == n && (
                        ops@[w] is SetContent || ops@[w] is AddEdge || ops@[w] is RemoveEdge);
                    assert(ops@[w].subject() == n);
                    assert(edited_before(ops@, ops@.len() as int, n));
                }
            }
        }
        out
    }
}

/// How the rebase of a change set ended.
#[derive(Debug)]
pub enum RebaseOutcome {
    /// The change set now starts from the target and has arrived at `summary.new_address`.
    Applied { summary: ChangeSummary },
    /// The change set is as it was.
    Conflicted { conflicts: Vec<Conflict> },
}

/// The error for a change set that cannot be worked on, if `id` names such a one.
pub open spec fn not_open(w: WorkspaceView, id: ChangeSetId) -> Option<StoreError> {
    if id >= w.change_sets.len() {
        Some(StoreError::NotFound(Missing::ChangeSet(id)))
    } else if w.change_sets[id as int].status != ChangeSetStatus::Open {
        Some(StoreError::NotFound(Missing::OpenChangeSet(id)))
    } else {
        None
    }
}

/// The snapshot that a rebase of the change set `id` onto `target` makes,
/// where there is no conflict.
pub open spec fn rebased(w: WorkspaceView, id: ChangeSetId, target: Address) -> SnapshotView {
    let cs = w.change_sets[id as int];
    SnapshotView {
        root: w.root,
        nodes: reachable_part(
            merged(
                w.snapshots[cs.base_address@].nodes,
                w.snapshots[cs.working_address@].nodes,
                w.snapshots[target@].nodes,
            ),
            w.root,
        ),
    }
}

/// What `rebase` returns for the change set `id` and the target.
pub open spec fn rebase_result(
    w: WorkspaceView,
    id: ChangeSetId,
    target: Address,
    r: Result<RebaseOutcome, StoreError>,
) -> bool {
    if not_open(w, id) is Some {
        r matches Err(e) && e == not_open(w, id)->0
    } else if !w.snapshots.contains_key(target@) {
        r matches Err(e) && e == StoreError::NotFound(Missing::Snapshot(target))
    } else {
        let cs = w.change_sets[id as int];
        let base = w.snapshots[cs.base_address@].nodes;
        let working = w.snapshots[cs.working_address@].nodes;
        let upstream = w.snapshots[target@].nodes;
        let m = merged(base, working, upstream);
        if !compatible(base, working, upstream) {
            r matches Ok(RebaseOutcome::Conflicted { conflicts }) && conflicts@.len() > 0
                && conflicts@ == conflicts_of(base, working, upstream) && conflicts@.no_duplicates()
                && forall|c: Conflict|
                conflicts@.contains(c) <==> conflicts_with(base, working, upstream, c)
        } else if !closed(m, w.root) {
            r matches Err(StoreError::IntegrityViolation(Integrity::DanglingEdge { from, edge }))
                && first_dangling(m, w.root, from, edge)
        } else if file_into(w.snapshots, rebased(w, id, target)) is None {
            r matches Err(e) && e == StoreError::IntegrityViolation(Integrity::HashCollision)
        } else {
            r matches Ok(RebaseOutcome::Applied { summary }) && summary.change_set_id == id
                && summary.new_address@ == address_of(w.root, rebased(w, id, target).nodes)
                && summary.node_ops@ == changes(base, working)
        }
    }
}

/// The workspace after `rebase`: where the rebase was applied, the new
/// snapshot is filed and the change set starts from the target and has
/// arrived at the new snapshot; otherwise nothing has changed.
pub open spec fn rebase_state(
    w: WorkspaceView,
    id: ChangeSetId,
    target: Address,
    r: Result<RebaseOutcome, StoreError>,
) -> WorkspaceView {
    match r {
        Ok(RebaseOutcome::Applied { summary }) => WorkspaceView {
            snapshots: file_into(w.snapshots, rebased(w, id, target))->0,
            change_sets: w.change_sets.update(
                id as int,
                ChangeSet {
                    id,
                    base_address: target,
                    working_address: summary.new_address,
                    status: ChangeSetStatus::Open,
                },
            ),
            ..w
        },
        _ => w,
    }
}

/// The workspace after the change set `id` was applied to the head: as
/// after a rebase onto the head, and where that was applied, the head is the
/// new snapshot and the change set is closed as applied.
pub open spec fn applied_state(
    w: WorkspaceView,
    id: ChangeSetId,
    r: Result<RebaseOutcome, StoreError>,
) -> WorkspaceView {
    match r {
        Ok(RebaseOutcome::Applied { summary }) => WorkspaceView {
            snapshots: file_into(w.snapshots, rebased(w, id, w.head))->0,
            change_sets: w.change_sets.update(
                id as int,
                ChangeSet {
                    id,
                    base_address: w.head,
                    working_address: summary.new_address,
                    status: ChangeSetStatus::Applied,
                },
            ),
            head: summary.new_address,
            ..w
        },
        _ => w,
    }
}

pub(crate) proof fn lemma_apply_resolves(
    contents: Map<Seq<u8>, EnvelopeView>,
    m: Map<NodeId, NodeView>,
    ops: Seq<NodeOp>,
)
    requires
        resolves(contents, m),
        forall|k: int|
            0 <= k < ops.len() ==> (content_set_by(#[trigger] ops[k]) matches Some(c)
                ==> contents.contains_key(c@)),
    ensures
        resolves(contents, apply_ops(m, ops)),
    decreases ops.len(),
{
    if ops.len() > 0 {
        let front = ops.drop_last();
        assert forall|k: int| 0 <= k < front.len() implies (content_set_by(
            #[trigger] front[k],
        ) matches Some(c) ==> contents.contains_key(c@)) by {
            assert(front[k] == ops[k]);
        }
        lemma_apply_resolves(contents, m, front);
        let before = apply_ops(m, front);
        let op = ops.last();
        assert(op == ops[ops.len() - 1]);
        assert(resolves(contents, before));
        assert forall|n: NodeId| #[trigger] apply_ops(m, ops).contains_key(n) implies contents.contains_key(
            apply_ops(m, ops)[n].content@,
        ) by {
            if n != op.subject() {
                assert(before.contains_key(n));
            } else if before.contains_key(n) {
                assert(contents.contains_key(before[n].content@));
            }
        }
    }
}

impl Workspace {
    /// Number of change sets that were ever opened.
    pub fn change_set_count(&self) -> (n: usize)
        ensures
            n == self@.change_sets.len(),
    {
        self.change_sets.len()
    }

    /// The change set `id`.
    pub fn change_set(&self, id: ChangeSetId) -> (r: Result<ChangeSet, StoreError>)
        requires
            self.wf(),
        ensures
            match r {
                Ok(cs) => id < self@.change_sets.len() && cs == self@.change_sets[id as int],
                Err(e) => id >= self@.change_sets.len() && e == StoreError::NotFound(
                    Missing::ChangeSet(id),
                ),
            },
    {
        let n = self.change_sets.len();
        if id < n as u64 {
            let i = id as usize;
            Ok(self.change_sets[i])
        } else {
            Err(StoreError::NotFound(Missing::ChangeSet(id)))
        }
    }

    /// The change set `id` and its place in the list, if it is open.
    fn open_one(&self, id: ChangeSetId) -> (r: Result<(usize, ChangeSet), StoreError>)
        requires
            self.wf(),
        ensures
            match r {
                Ok((i, cs)) => not_open(self@, id) is None && i == id && i
                    < self@.change_sets.len() && cs == self@.change_sets[id as int],
                Err(e) => not_open(self@, id) == Some(e),
            },
    {
        let n = self.change_sets.len();
        if id >= n as u64 {
            return Err(StoreError::NotFound(Missing::ChangeSet(id)));
        }
        let i = id as usize;
        let cs = self.change_sets[i];
        match cs.status {
            ChangeSetStatus::Open => Ok((i, cs)),
            _ => Err(StoreError::NotFound(Missing::OpenChangeSet(id))),
        }
    }

    /// Opens a change set that starts from the head, and returns its identifier.
    pub fn open_change_set(&mut self) -> (id: ChangeSetId)
        requires
            old(self).wf(),
        ensures
            final(self).wf(),
            id == old(self)@.change_sets.len(),
            final(self)@ == (WorkspaceView {
                change_sets: old(self)@.change_sets.push(
                    ChangeSet {
                        id,
                        base_address: old(self)@.head,
                        working_address: old(self)@.head,
                        status: ChangeSetStatus::Open,
                    },
                ),
                ..old(self)@
            }),
    {
        let id = self.change_sets.len() as u64;
        let cs = ChangeSet {
            id,
            base_address: self.head,
            working_address: self.head,
            status: ChangeSetStatus::Open,
        };
        self.change_sets.push(cs);
        id
    }

    /// Gives the open change set `id` up. It stays in the list, closed.
    pub fn abandon(&mut self, id: ChangeSetId) -> (r: Result<(), StoreError>)
        requires
            old(self).wf(),
        ensures
            final(self).wf(),
            match r {
                Ok(_) => not_open(old(self)@, id) is None && final(self)@ == (WorkspaceView {
                    change_sets: old(self)@.change_sets.update(
                        id as int,
                        ChangeSet {
                            status: ChangeSetStatus::Abandoned,
                            ..old(self)@.change_sets[id as int]
                        },
                    ),
                    ..old(self)@
                }),
                Err(e) => not_open(old(self)@, id) == Some(e) && final(self)@ == old(self)@,
            },
    {
        let (at, cs) = match self.open_one(id) {
            Ok(found) => found,
            Err(e) => {
                return Err(e);
            },
        };
        self.change_sets[at] = ChangeSet { status: ChangeSetStatus::Abandoned, ..cs };
        Ok(())
    }

    /// Moves the open change set `id` on to the snapshot under `new`, if it
    /// has arrived at `expected`. Where it has arrived elsewhere, nothing
    /// changes and the error says where.
    pub fn compare_and_swap_working(
        &mut self,
        id: ChangeSetId,
        expected: &Address,
        new: &Address,
    ) -> (r: Result<(), StoreError>)
        requires
            old(self).wf(),
        ensures
            final(self).wf(),
            r is Err ==> final(self)@ == old(self)@,
            if not_open(old(self)@, id) is Some {
                r == Err::<(), StoreError>(not_open(old(self)@, id)->0)
            } else if old(self)@.change_sets[id as int].working_address != *expected {
                r == Err::<(), StoreError>(
                    StoreError::ConcurrentModification {
                        current: old(self)@.change_sets[id as int].working_address,
                    },
                )
            } else if !old(self)@.snapshots.contains_key(new@) {
                r == Err::<(), StoreError>(StoreError::NotFound(Missing::Snapshot(*new)))
            } else {
                r is Ok && final(self)@ == (WorkspaceView {
                    change_sets: old(self)@.change_sets.update(
                        id as int,
                        ChangeSet { working_address: *new, ..old(self)@.change_sets[id as int] },
                    ),
                    ..old(self)@
                })
            },
    {
        let (at, cs) = match self.open_one(id) {
            Ok(found) => found,
            Err(e) => {
                return Err(e);
            },
        };
        if !cs.working_address.same(expected) {
            return Err(StoreError::ConcurrentModification { current: cs.working_address });
        }
        if !self.snapshots.contains(new) {
            return Err(StoreError::NotFound(Missing::Snapshot(*new)));
        }
        self.change_sets[at] = ChangeSet { working_address: *new, ..cs };
        Ok(())
    }

    /// Carries out the edits on the working snapshot of the open change set
    /// `id` and moves the change set on to the snapshot that results: see
    /// `derive`. Where the call fails, nothing has changed.
    pub fn edit(&mut self, id: ChangeSetId, edits: &Vec<NodeOp>) -> (r: Result<Address, StoreError>)
        requires
            old(self).wf(),
        ensures
            final(self).wf(),
            r is Err ==> final(self)@ == old(self)@,
            if not_open(old(self)@, id) is Some {
                r == Err::<Address, StoreError>(not_open(old(self)@, id)->0)
            } else {
                &&& derive_result(
                    old(self)@,
                    old(self)@.change_sets[id as int].working_address,
                    edits@,
                    r,
                )
                &&& r matches Ok(a) ==> final(self)@ == (WorkspaceView {
                    change_sets: old(self)@.change_sets.update(
                        id as int,
                        ChangeSet { working_address: a, ..old(self)@.change_sets[id as int] },
                    ),
                    ..derive_state(
                        old(self)@,
                        old(self)@.change_sets[id as int].working_address,
                        edits@,
                        r,
                    )
                })
            },
    {
        let (at, cs) = match self.open_one(id) {
            Ok(found) => found,
            Err(e) => {
                return Err(e);
            },
        };
        let made = match self.derive(&cs.working_address, edits) {
            Ok(a) => a,
            Err(e) => {
                return Err(e);
            },
        };
        proof {
            let v = derived(old(self)@.snapshots[cs.working_address@], edits@);
            assert(self@.snapshots.contains_key(made@));
        }
        self.change_sets[at] = ChangeSet { working_address: made, ..cs };
        Ok(made)
    }

    /// Rebases the open change set `id` onto the snapshot under `target`.
    ///
    /// The change set went from its base to its working snapshot; the
    /// baseline went from that base to the target. Where the two are in
    /// conflict, the conflicts come back and nothing changes. Otherwise the
    /// changes of the change set are carried out on the target, the result is
    /// filed, and the change set starts from the target and has arrived at
    /// the result. Where the call fails, nothing has changed.
    pub fn rebase(&mut self, id: ChangeSetId, target: &Address) -> (r: Result<
        RebaseOutcome,
        StoreError,
    >)
        requires
            old(self).wf(),
        ensures
            final(self).wf(),
            rebase_result(old(self)@, id, *target, r),
            final(self)@ == rebase_state(old(self)@, id, *target, r),
            not_open(old(self)@, id) is None && old(self)@.snapshots.contains_key(target@)
                ==> keeps_both_sides(
                old(self)@.snapshots[old(self)@.change_sets[id as int].base_address@].nodes,
                old(self)@.snapshots[old(self)@.change_sets[id as int].working_address@].nodes,
                old(self)@.snapshots[target@].nodes,
            ),
            not_open(old(self)@, id) is None && *target == old(self)@.change_sets[id as int].base_address
                ==> (r matches Ok(RebaseOutcome::Applied { summary }) && summary.new_address == old(
                self,
            )@.change_sets[id as int].working_address && final(self)@ == old(self)@),
    {
        let (at, cs) = match self.open_one(id) {
            Ok(found) => found,
            Err(e) => {
                return Err(e);
            },
        };
        let upstream = match self.snapshots.get(target) {
            Ok(s) => s,
            Err(e) => {
                return Err(e);
            },
        };
        let base = match self.snapshots.get(&cs.base_address) {
            Ok(s) => s,
            Err(_) => unreached(),
        };
        let working = match self.snapshots.get(&cs.working_address) {
            Ok(s) => s,
            Err(_) => unreached(),
        };
        let ghost w = self@;
        let ghost b = base@.nodes;
        let ghost k = working@.nodes;
        let ghost u = upstream@.nodes;
        proof {
            assert(w.snapshots.contains_key(cs.base_address@));
            assert(w.snapshots.contains_key(cs.working_address@));
            assert(w.snapshots.contains_key(target@));
            working.lemma_wf();
            if *target == cs.base_address {
                assert(upstream@ == base@);
            }
        }
        let result = match rebase_snapshots(base, working, upstream) {
            Ok(result) => result,
            Err(e) => {
                return Err(e);
            },
        };
        match result {
            Rebase::Conflicted { conflicts } => Ok(RebaseOutcome::Conflicted { conflicts }),
            Rebase::Applied { snapshot, node_ops } => {
                let ghost v = snapshot@;
                proof {
                    assert(v == rebased(w, id, *target));
                    assert forall|i: int| 0 <= i < node_ops@.len() implies (content_set_by(
                        #[trigger] node_ops@[i],
                    ) matches Some(c) ==> w.contents.contains_key(c@)) by {
                        assert(is_difference(b, k, node_ops@[i]));
                    }
                    lemma_apply_resolves(w.contents, u, node_ops@);
                    snapshot.lemma_wf();
                    if *target == cs.base_address {
                        assert(w.snapshots.insert(cs.working_address@, v) =~= w.snapshots);
                    }
                }
                let made = match self.snapshots.insert(snapshot) {
                    Ok(a) => a,
                    Err(e) => {
                        return Err(e);
                    },
                };
                let ghost before = self.change_sets@;
                self.change_sets[at] = ChangeSet {
                    id,
                    base_address: *target,
                    working_address: made,
                    status: ChangeSetStatus::Open,
                };
                proof {
                    assert(workspace_inv(self@)) by {
                        assert forall|a: Seq<u8>| #[trigger]
                            self@.snapshots.contains_key(a) implies self@.snapshots[a].root
                            == self@.root && resolves(self@.contents, self@.snapshots[a].nodes) by {
                            if a != address_of(v.root, v.nodes) {
                                assert(w.snapshots.contains_key(a));
                            }
                        }
                        assert forall|i: int| 0 <= i < self@.change_sets.len() implies {
                            &&& (#[trigger] self@.change_sets[i]).id == i
                            &&& self@.snapshots.contains_key(self@.change_sets[i].base_address@)
                            &&& self@.snapshots.contains_key(self@.change_sets[i].working_address@)
                        } by {
                            if i != id {
                                assert(self@.change_sets[i] == w.change_sets[i]);
                            }
                        }
                    }
                    if *target == cs.base_address {
                        assert(self.change_sets@ =~= before);
                    }
                }
                Ok(
                    RebaseOutcome::Applied {
                        summary: ChangeSummary { change_set_id: id, new_address: made, node_ops },
                    },
                )
            },
        }
    }

    /// Applies the open change set `id` to the head: rebases it onto the
    /// head and, where that is applied, makes the result the new head and
    /// closes the change set as applied, in one step.
    pub fn apply_to_head(&mut self, id: ChangeSetId) -> (r: Result<RebaseOutcome, StoreError>)
        requires
            old(self).wf(),
        ensures
            final(self).wf(),
            rebase_result(old(self)@, id, old(self)@.head, r),
            final(self)@ == applied_state(old(self)@, id, r),
    {
        let head = self.head;
        let r = self.rebase(id, &head);
        match &r {
            Ok(RebaseOutcome::Applied { summary }) => {
                let ghost before = self@;
                let n = self.change_sets.len();
                let at = id as usize;
                self.head = summary.new_address;
                self.change_sets[at] = ChangeSet {
                    id,
                    base_address: head,
                    working_address: summary.new_address,
                    status: ChangeSetStatus::Applied,
                };
                proof {
                    assert(self@.change_sets =~= old(self)@.change_sets.update(
                        id as int,
                        ChangeSet {
                            id,
                            base_address: head,
                            working_address: summary.new_address,
                            status: ChangeSetStatus::Applied,
                        },
                    ));
                    assert(workspace_inv(self@)) by {
                        assert forall|i: int| 0 <= i < self@.change_sets.len() implies {
                            &&& (#[trigger] self@.change_sets[i]).id == i
                            &&& self@.snapshots.contains_key(self@.change_sets[i].base_address@)
                            &&& self@.snapshots.contains_key(self@.change_sets[i].working_address@)
                        } by {
                            assert(before.change_sets[i].id == i);
                        }
                    }
                }
            },
            _ => {},
        }
        r
    }
}

} // verus!

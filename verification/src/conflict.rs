//! Conflicts between what a branch changed and what happened upstream.

use vstd::prelude::*;
use crate::diff::{is_change_list, is_difference};
use crate::digest::ContentHash;
use crate::graph::{Edge, NodeId, NodeView};
use crate::ops::NodeOp;

verus! {

/// One of the two lines of change that a rebase reconciles.
#[derive(Clone, Copy, Debug, PartialEq, Eq, Structural)]
pub enum Side {
    /// The change set: from its base to its working snapshot.
    Branch,
    /// The baseline: from the base of the change set to the target.
    Upstream,
}

/// Why the changes of a branch cannot be carried over to the target.
#[derive(Clone, Copy, Debug, PartialEq, Eq)]
pub enum Conflict {
    /// Both sides point the node at content, and not at the same.
    ContentConflict { node: NodeId, branch: ContentHash, upstream: ContentHash },
    /// One side removes the node, the other modifies it.
    RemoveVsModify { node: NodeId, removed_by: Side },
}

impl Conflict {
    /// The node that the conflict is about.
    pub open spec fn spec_node(self) -> NodeId {
        match self {
            Conflict::ContentConflict { node, .. } => node,
            Conflict::RemoveVsModify { node, .. } => node,
        }
    }

    pub fn node(&self) -> (r: NodeId)
        ensures
            r == self.spec_node(),
    {
        match self {
            Conflict::ContentConflict { node, .. } => *node,
            Conflict::RemoveVsModify { node, .. } => *node,
        }
    }

    pub fn same(&self, other: &Conflict) -> (r: bool)
        ensures
            r == (*self == *other),
    {
        match (self, other) {
            (
                Conflict::ContentConflict { node: n1, branch: b1, upstream: u1 },
                Conflict::ContentConflict { node: n2, branch: b2, upstream: u2 },
            ) => *n1 == *n2 && b1.same(b2) && u1.same(u2),
            (
                Conflict::RemoveVsModify { node: n1, removed_by: s1 },
                Conflict::RemoveVsModify { node: n2, removed_by: s2 },
            ) => *n1 == *n2 && *s1 == *s2,
            _ => false,
        }
    }
}

/// `b` has node `n` and `a` has not.
pub open spec fn added(a: Map<NodeId, NodeView>, b: Map<NodeId, NodeView>, n: NodeId) -> bool {
    !a.contains_key(n) && b.contains_key(n)
}

/// `a` has node `n` and `b` has not.
pub open spec fn removed(a: Map<NodeId, NodeView>, b: Map<NodeId, NodeView>, n: NodeId) -> bool {
    a.contains_key(n) && !b.contains_key(n)
}

/// `b` has node `n`, and `a` has it not or has it otherwise.
pub open spec fn modified(a: Map<NodeId, NodeView>, b: Map<NodeId, NodeView>, n: NodeId) -> bool {
    b.contains_key(n) && (!a.contains_key(n) || a[n].content != b[n].content || a[n].edges
        != b[n].edges)
}

/// From `a` to `b` node `n` is added, removed or modified.
pub open spec fn touched(a: Map<NodeId, NodeView>, b: Map<NodeId, NodeView>, n: NodeId) -> bool {
    removed(a, b, n) || modified(a, b, n)
}

/// From `a` to `b` node `n` comes to point at content `c`.
pub open spec fn repointed(
    a: Map<NodeId, NodeView>,
    b: Map<NodeId, NodeView>,
    n: NodeId,
    c: ContentHash,
) -> bool {
    b.contains_key(n) && b[n].content == c && (!a.contains_key(n) || a[n].content != c)
}

/// Whether `c` is a conflict between the branch, which went from `base` to
/// `working`, and upstream, which went from `base` to `target`.
pub open spec fn conflicts_with(
    base: Map<NodeId, NodeView>,
    working: Map<NodeId, NodeView>,
    target: Map<NodeId, NodeView>,
    c: Conflict,
) -> bool {
    match c {
        Conflict::ContentConflict { node, branch, upstream } => repointed(
            base,
            working,
            node,
            branch,
        ) && repointed(base, target, node, upstream) && branch != upstream,
        Conflict::RemoveVsModify { node, removed_by: Side::Branch } => removed(base, working, node)
            && modified(base, target, node),
        Conflict::RemoveVsModify { node, removed_by: Side::Upstream } => removed(base, target, node)
            && modified(base, working, node),
    }
}

/// The content that an operation points its node at, if it does.
pub open spec fn content_set_by(op: NodeOp) -> Option<ContentHash> {
    match op {
        NodeOp::AddNode { content, .. } => Some(content),
        NodeOp::SetContent { content, .. } => Some(content),
        _ => None,
    }
}

/// The conflict between one operation of the branch and one of upstream, if
/// they are in conflict: they are on the same node, and either both point it
/// at content, and not at the same, or one removes it and the other does not.
pub open spec fn pair_conflict(b: NodeOp, u: NodeOp) -> Option<Conflict> {
    if b.subject() != u.subject() {
        None
    } else if b is RemoveNode && u is RemoveNode {
        None
    } else if b is RemoveNode {
        Some(Conflict::RemoveVsModify { node: b.subject(), removed_by: Side::Branch })
    } else if u is RemoveNode {
        Some(Conflict::RemoveVsModify { node: b.subject(), removed_by: Side::Upstream })
    } else if content_set_by(b) is Some && content_set_by(u) is Some && content_set_by(b)->0
        != content_set_by(u)->0 {
        Some(
            Conflict::ContentConflict {
                node: b.subject(),
                branch: content_set_by(b)->0,
                upstream: content_set_by(u)->0,
            },
        )
    } else {
        None
    }
}

/// Whether some operation of the branch and some operation of upstream are
/// in the conflict `c`.
pub open spec fn ops_conflict(branch: Seq<NodeOp>, upstream: Seq<NodeOp>, c: Conflict) -> bool {
    exists|i: int, j: int|
        0 <= i < branch.len() && 0 <= j < upstream.len() && pair_conflict(
            #[trigger] branch[i],
            #[trigger] upstream[j],
        ) == Some(c)
}

fn content_of(op: &NodeOp) -> (r: Option<ContentHash>)
    ensures
        r == content_set_by(*op),
{
    match op {
        NodeOp::AddNode { content, .. } => Some(*content),
        NodeOp::SetContent { content, .. } => Some(*content),
        _ => None,
    }
}

fn is_removal(op: &NodeOp) -> (r: bool)
    ensures
        r == (*op is RemoveNode),
{
    match op {
        NodeOp::RemoveNode { .. } => true,
        _ => false,
    }
}

/// The conflict between an operation of the branch and one of upstream, if any.
pub fn classify(b: &NodeOp, u: &NodeOp) -> (r: Option<Conflict>)
    ensures
        r == pair_conflict(*b, *u),
{
    if b.node() != u.node() {
        return None;
    }
    let b_removes = is_removal(b);
    let u_removes = is_removal(u);
    if b_removes && u_removes {
        None
    } else if b_removes {
        Some(Conflict::RemoveVsModify { node: b.node(), removed_by: Side::Branch })
    } else if u_removes {
        Some(Conflict::RemoveVsModify { node: b.node(), removed_by: Side::Upstream })
    } else {
        match (content_of(b), content_of(u)) {
            (Some(cb), Some(cu)) => {
                if cb.same(&cu) {
                    None
                } else {
                    Some(Conflict::ContentConflict { node: b.node(), branch: cb, upstream: cu })
                }
            },
            _ => None,
        }
    }
}

fn listed(list: &Vec<Conflict>, c: &Conflict) -> (r: bool)
    ensures
        r == list@.contains(*c),
{
    let mut k: usize = 0;
    while k < list.len()
        invariant
            k <= list@.len(),
            forall|t: int| 0 <= t < k ==> list@[t] != *c,
        decreases list@.len() - k,
    {
        if list[k].same(c) {
            return true;
        }
        k += 1;
    }
    false
}

/// The list `found`, and after it the conflicts of the operation `b` of the
/// branch with the first `j` operations of upstream, each where it is met
/// first.
pub open spec fn met_in_row(
    found: Seq<Conflict>,
    b: NodeOp,
    upstream: Seq<NodeOp>,
    j: nat,
) -> Seq<Conflict>
    decreases j,
{
    if j == 0 {
        found
    } else {
        let before = met_in_row(found, b, upstream, (j - 1) as nat);
        match pair_conflict(b, upstream[j - 1]) {
            Some(c) => if before.contains(c) {
                before
            } else {
                before.push(c)
            },
            None => before,
        }
    }
}

/// The conflicts of the first `i` operations of the branch with the
/// operations of upstream, each where it is met first.
pub open spec fn met(branch: Seq<NodeOp>, upstream: Seq<NodeOp>, i: nat) -> Seq<Conflict>
    decreases i,
{
    if i == 0 {
        Seq::<Conflict>::empty()
    } else {
        met_in_row(met(branch, upstream, (i - 1) as nat), branch[i - 1], upstream, upstream.len())
    }
}

/// Conflicts of the pairs `(branch[i], upstream[j])` that come before the
/// pair `(i0, j0)` in the order in which the pairs are tried.
spec fn tried(branch: Seq<NodeOp>, upstream: Seq<NodeOp>, i0: int, j0: int, c: Conflict) -> bool {
    exists|i: int, j: int|
        0 <= i < branch.len() && 0 <= j < upstream.len() && (i < i0 || (i == i0 && j < j0))
            && pair_conflict(#[trigger] branch[i], #[trigger] upstream[j]) == Some(c)
}

/// The conflicts between the operations of the branch and those of
/// upstream, each once, in the order in which the branch meets them: the
/// operations of the branch in turn, each against those of upstream in turn.
pub fn find_conflicts(branch: &Vec<NodeOp>, upstream: &Vec<NodeOp>) -> (out: Vec<Conflict>)
    ensures
        out@ == met(branch@, upstream@, branch@.len()),
        forall|c: Conflict| out@.contains(c) <==> ops_conflict(branch@, upstream@, c),
        out@.no_duplicates(),
{
    let mut out: Vec<Conflict> = Vec::new();
    let mut i: usize = 0;
    while i < branch.len()
        invariant
            i <= branch@.len(),
            out@ == met(branch@, upstream@, i as nat),
            forall|c: Conflict| #[trigger]
                out@.contains(c) ==> tried(branch@, upstream@, i as int, 0, c),
            forall|c: Conflict| #[trigger]
                tried(branch@, upstream@, i as int, 0, c) ==> out@.contains(c),
            out@.no_duplicates(),
        decreases branch@.len() - i,
    {
        let mut j: usize = 0;
        while j < upstream.len()
            invariant
                i < branch@.len(),
                j <= upstream@.len(),
                out@ == met_in_row(
                    met(branch@, upstream@, i as nat),
                    branch@[i as int],
                    upstream@,
                    j as nat,
                ),
                forall|c: Conflict| #[trigger]
                    out@.contains(c) ==> tried(branch@, upstream@, i as int, j as int, c),
                forall|c: Conflict| #[trigger]
                    tried(branch@, upstream@, i as int, j as int, c) ==> out@.contains(c),
                out@.no_duplicates(),
            decreases upstream@.len() - j,
        {
            let ghost before = out@;
            let found = classify(&branch[i], &upstream[j]);
            match found {
                Some(c) => {
                    if !listed(&out, &c) {
                        out.push(c);
                    }
                },
                None => {},
            }
            proof {
                assert(out@ == before || (found matches Some(c0) && !before.contains(c0) && out@
                    == before.push(c0)));
                assert forall|c: Conflict| before.contains(c) implies out@.contains(c) by {
                    let k = choose|k: int| 0 <= k < before.len() && before[k] == c;
                    assert(out@[k] == c);
                }
                assert forall|c: Conflict| out@.contains(c) <==> tried(
                    branch@,
                    upstream@,
                    i as int,
                    j + 1,
                    c,
                ) by {
                    if out@.contains(c) {
                        let k = choose|k: int| 0 <= k < out@.len() && out@[k] == c;
                        if k < before.len() {
                            assert(before[k] == c);
                            assert(before.contains(c));
                            assert(tried(branch@, upstream@, i as int, j as int, c));
                            let (i1, j1) = choose|i1: int, j1: int|
                                0 <= i1 < branch@.len() && 0 <= j1 < upstream@.len() && (i1 < i || (
                                i1 == i && j1 < j)) && pair_conflict(
                                    #[trigger] branch@[i1],
                                    #[trigger] upstream@[j1],
                                ) == Some(c);
                            assert(pair_conflict(branch@[i1], upstream@[j1]) == Some(c));
                        } else {
                            assert(pair_conflict(branch@[i as int], upstream@[j as int]) == Some(c));
                        }
                    }
                    if tried(branch@, upstream@, i as int, j + 1, c) {
                        let (i1, j1) = choose|i1: int, j1: int|
                            0 <= i1 < branch@.len() && 0 <= j1 < upstream@.len() && (i1 < i || (i1
                                == i && j1 < j + 1)) && pair_conflict(
                                #[trigger] branch@[i1],
                                #[trigger] upstream@[j1],
                            ) == Some(c);
                        if i1 == i && j1 == j {
                            if !before.contains(c) {
                                assert(out@[before.len() as int] == c);
                            }
                        } else {
                            assert(pair_conflict(branch@[i1], upstream@[j1]) == Some(c));
                            assert(tried(branch@, upstream@, i as int, j as int, c));
                            assert(before.contains(c));
                        }
                    }
                }
            }
            j += 1;
        }
        proof {
            assert forall|c: Conflict| out@.contains(c) <==> tried(
                branch@,
                upstream@,
                i + 1,
                0,
                c,
            ) by {
                if tried(branch@, upstream@, i as int, upstream@.len() as int, c) {
                    let (i1, j1) = choose|i1: int, j1: int|
                        0 <= i1 < branch@.len() && 0 <= j1 < upstream@.len() && (i1 < i || (i1 == i
                            && j1 < upstream@.len())) && pair_conflict(
                            #[trigger] branch@[i1],
                            #[trigger] upstream@[j1],
                        ) == Some(c);
                    assert(pair_conflict(branch@[i1], upstream@[j1]) == Some(c));
                }
                if tried(branch@, upstream@, i + 1, 0, c) {
                    let (i1, j1) = choose|i1: int, j1: int|
                        0 <= i1 < branch@.len() && 0 <= j1 < upstream@.len() && (i1 < i + 1 || (i1
                            == i + 1 && j1 < 0)) && pair_conflict(
                            #[trigger] branch@[i1],
                            #[trigger] upstream@[j1],
                        ) == Some(c);
                    assert(pair_conflict(branch@[i1], upstream@[j1]) == Some(c));
                }
            }
        }
        i += 1;
    }
    proof {
        assert forall|c: Conflict| out@.contains(c) <==> ops_conflict(branch@, upstream@, c) by {
            if tried(branch@, upstream@, branch@.len() as int, 0, c) {
                let (i1, j1) = choose|i1: int, j1: int|
                    0 <= i1 < branch@.len() && 0 <= j1 < upstream@.len() && (i1 < branch@.len() || (
                    i1 == branch@.len() && j1 < 0)) && pair_conflict(
                        #[trigger] branch@[i1],
                        #[trigger] upstream@[j1],
                    ) == Some(c);
                assert(pair_conflict(branch@[i1], upstream@[j1]) == Some(c));
            }
            if ops_conflict(branch@, upstream@, c) {
                let (i1, j1) = choose|i1: int, j1: int|
                    0 <= i1 < branch@.len() && 0 <= j1 < upstream@.len() && pair_conflict(
                        #[trigger] branch@[i1],
                        #[trigger] upstream@[j1],
                    ) == Some(c);
                assert(pair_conflict(branch@[i1], upstream@[j1]) == Some(c));
            }
        }
    }
    out
}

/// The conflicts between the differences from `base` to `working` and the
/// differences from `base` to `target` are the conflicts between the three.
pub proof fn lemma_conflicts_of_changes(
    base: Map<NodeId, NodeView>,
    working: Map<NodeId, NodeView>,
    target: Map<NodeId, NodeView>,
    branch: Seq<NodeOp>,
    upstream: Seq<NodeOp>,
    c: Conflict,
)
    requires
        is_change_list(base, working, branch),
        is_change_list(base, target, upstream),
    ensures
        ops_conflict(branch, upstream, c) == conflicts_with(base, working, target, c),
{
    if ops_conflict(branch, upstream, c) {
        let (i, j) = choose|i: int, j: int|
            0 <= i < branch.len() && 0 <= j < upstream.len() && pair_conflict(
                #[trigger] branch[i],
                #[trigger] upstream[j],
            ) == Some(c);
        assert(is_difference(base, working, branch[i]));
        assert(is_difference(base, target, upstream[j]));
        assert(conflicts_with(base, working, target, c));
    }
    if conflicts_with(base, working, target, c) {
        let n = c.spec_node();
        match c {
            Conflict::ContentConflict { node, branch: cb, upstream: cu } => {
                let b = if base.contains_key(n) {
                    NodeOp::SetContent { node: n, content: cb }
                } else {
                    NodeOp::AddNode { node: n, content: cb }
                };
                let u = if base.contains_key(n) {
                    NodeOp::SetContent { node: n, content: cu }
                } else {
                    NodeOp::AddNode { node: n, content: cu }
                };
                lemma_pair_found(base, working, target, branch, upstream, b, u, c);
            },
            Conflict::RemoveVsModify { node, removed_by: Side::Branch } => {
                let b = NodeOp::RemoveNode { node: n };
                let u = change_of(base, target, n);
                lemma_change_of(base, target, n);
                lemma_pair_found(base, working, target, branch, upstream, b, u, c);
            },
            Conflict::RemoveVsModify { node, removed_by: Side::Upstream } => {
                let u = NodeOp::RemoveNode { node: n };
                let b = change_of(base, working, n);
                lemma_change_of(base, working, n);
                lemma_pair_found(base, working, target, branch, upstream, b, u, c);
            },
        }
    }
}

proof fn lemma_pair_found(
    base: Map<NodeId, NodeView>,
    working: Map<NodeId, NodeView>,
    target: Map<NodeId, NodeView>,
    branch: Seq<NodeOp>,
    upstream: Seq<NodeOp>,
    b: NodeOp,
    u: NodeOp,
    c: Conflict,
)
    requires
        is_change_list(base, working, branch),
        is_change_list(base, target, upstream),
        is_difference(base, working, b),
        is_difference(base, target, u),
        pair_conflict(b, u) == Some(c),
    ensures
        ops_conflict(branch, upstream, c),
{
    assert(branch.contains(b));
    assert(upstream.contains(u));
    let i = choose|i: int| 0 <= i < branch.len() && branch[i] == b;
    let j = choose|j: int| 0 <= j < upstream.len() && upstream[j] == u;
    assert(pair_conflict(branch[i], upstream[j]) == Some(c));
}

/// A difference on node `n` that does not remove it, where `n` is a node of
/// both `a` and `b` and not the same in them.
spec fn change_of(a: Map<NodeId, NodeView>, b: Map<NodeId, NodeView>, n: NodeId) -> NodeOp {
    if a[n].content != b[n].content {
        NodeOp::SetContent { node: n, content: b[n].content }
    } else {
        let e = choose|e: Edge| a[n].edges.contains(e) != b[n].edges.contains(e);
        if a[n].edges.contains(e) {
            NodeOp::RemoveEdge { node: n, edge: e }
        } else {
            NodeOp::AddEdge { node: n, edge: e }
        }
    }
}

proof fn lemma_change_of(a: Map<NodeId, NodeView>, b: Map<NodeId, NodeView>, n: NodeId)
    requires
        a.contains_key(n),
        modified(a, b, n),
    ensures
        is_difference(a, b, change_of(a, b, n)),
        change_of(a, b, n).subject() == n,
        !(change_of(a, b, n) is RemoveNode),
{
    if a[n].content == b[n].content {
        if forall|e: Edge| a[n].edges.contains(e) == b[n].edges.contains(e) {
            assert(a[n].edges =~= b[n].edges);
        }
    }
}

/// Changes to different nodes are never in conflict: where no node is
/// touched both from `base` to `working` and from `base` to `target`, there
/// is no conflict.
pub proof fn disjoint_changes_do_not_conflict(
    base: Map<NodeId, NodeView>,
    working: Map<NodeId, NodeView>,
    target: Map<NodeId, NodeView>,
    c: Conflict,
)
    requires
        forall|n: NodeId| !(touched(base, working, n) && touched(base, target, n)),
    ensures
        !conflicts_with(base, working, target, c),
{
    let n = c.spec_node();
    assert(!(touched(base, working, n) && touched(base, target, n)));
}

/// A node that both sides leave pointing at the same content is in no
/// conflict, whatever else was done to it.
pub proof fn same_content_is_no_conflict(
    base: Map<NodeId, NodeView>,
    working: Map<NodeId, NodeView>,
    target: Map<NodeId, NodeView>,
    n: NodeId,
    c: Conflict,
)
    requires
        working.contains_key(n),
        target.contains_key(n),
        working[n].content == target[n].content,
        c.spec_node() == n,
    ensures
        !conflicts_with(base, working, target, c),
{
}

/// A node that upstream removed and the branch modified is in conflict, and
/// the conflict says so.
pub proof fn removed_upstream_and_modified_conflicts(
    base: Map<NodeId, NodeView>,
    working: Map<NodeId, NodeView>,
    target: Map<NodeId, NodeView>,
    n: NodeId,
)
    requires
        removed(base, target, n),
        modified(base, working, n),
    ensures
        conflicts_with(
            base,
            working,
            target,
            Conflict::RemoveVsModify { node: n, removed_by: Side::Upstream },
        ),
{
}

} // verus!

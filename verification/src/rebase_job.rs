//! A rebase in steps: from the request to the published outcome, one phase
//! at a time, so that whoever drives it can stop between any two.

use vstd::prelude::*;
use crate::conflict::{conflicts_with, find_conflicts, lemma_conflicts_of_changes, Conflict};
use crate::diff::{changes, diff, is_change_list, is_difference};
use crate::digest::Address;
use crate::error::{ChangeSetId, Integrity, Missing, StoreError};
use crate::ops::{lemma_kept_unless_removed, NodeOp};
use crate::reach::{closed, first_dangling, reachable_part};
use crate::rebase::{compatible, conflicts_of, merged};
use crate::snapshot::{address_of, Snapshot, SnapshotView};
use crate::snapshot_store::file_into;
use crate::workspace::{
    first_unresolved, not_open, rebase_result, rebase_state, rebased, resolves, workspace_inv, ChangeSet, ChangeSetStatus, ChangeSummary, RebaseOutcome,
    Workspace, WorkspaceView,
};

verus! {

/// Where a rebase stands.
#[derive(Clone, Copy, Debug, PartialEq, Eq, Structural, Hash)]
pub enum RebasePhase {
    /// The request is taken; nothing was read.
    Received,
    /// The base, the working snapshot and the target are read.
    BaseResolved,
    /// The changes of the branch and those upstream are known.
    Diffed,
    /// The conflicts between them are known.
    ConflictCheck,
    /// There was no conflict; the merged snapshot is made and not yet published.
    Applied,
    /// There were conflicts; nothing will change.
    Conflicted,
    /// The outcome is out. This is final.
    Published,
}

/// Which phase may come after which.
pub open spec fn may_follow(from: RebasePhase, to: RebasePhase) -> bool {
    match from {
        RebasePhase::Received => to == RebasePhase::BaseResolved,
        RebasePhase::BaseResolved => to == RebasePhase::Diffed,
        RebasePhase::Diffed => to == RebasePhase::ConflictCheck,
        RebasePhase::ConflictCheck => to == RebasePhase::Applied || to == RebasePhase::Conflicted,
        RebasePhase::Applied => to == RebasePhase::Published,
        RebasePhase::Conflicted => to == RebasePhase::Published,
        RebasePhase::Published => false,
    }
}

/// How many steps a rebase in this phase is away from being published, at most.
pub open spec fn steps_left(phase: RebasePhase) -> nat {
    match phase {
        RebasePhase::Received => 5,
        RebasePhase::BaseResolved => 4,
        RebasePhase::Diffed => 3,
        RebasePhase::ConflictCheck => 2,
        RebasePhase::Applied => 1,
        RebasePhase::Conflicted => 1,
        RebasePhase::Published => 0,
    }
}

/// What says on whose behalf a request is made. The rebase carries it and
/// does not look into it.
#[derive(Clone, Copy, Debug, PartialEq, Eq, Structural, Hash)]
pub struct AccessContext {
    pub token: u64,
}

/// A request to rebase a change set onto a target.
#[derive(Clone, Copy, Debug, PartialEq, Eq)]
pub struct RebaseRequest {
    pub change_set_id: ChangeSetId,
    pub target_address: Address,
    pub access_context: AccessContext,
}

/// A rebase under way.
#[derive(Debug)]
pub struct RebaseJob {
    pub(crate) request: RebaseRequest,
    pub(crate) phase: RebasePhase,
    pub(crate) base: Option<Snapshot>,
    pub(crate) working: Option<Snapshot>,
    pub(crate) target: Option<Snapshot>,
    pub(crate) branch_ops: Vec<NodeOp>,
    pub(crate) upstream_ops: Vec<NodeOp>,
    pub(crate) conflicts: Vec<Conflict>,
    pub(crate) merged: Option<Snapshot>,
    pub(crate) outcome: Option<RebaseOutcome>,
}

impl RebaseJob {
    pub open(crate) spec fn spec_phase(&self) -> RebasePhase {
        self.phase
    }

    pub open(crate) spec fn spec_request(&self) -> RebaseRequest {
        self.request
    }

    pub open(crate) spec fn spec_outcome(&self) -> Option<RebaseOutcome> {
        self.outcome
    }

    /// The nodes of the base, of the working snapshot and of the target, as read.
    pub open(crate) spec fn spec_base(&self) -> SnapshotView {
        self.base->0@
    }

    pub open(crate) spec fn spec_working(&self) -> SnapshotView {
        self.working->0@
    }

    pub open(crate) spec fn spec_target(&self) -> SnapshotView {
        self.target->0@
    }

    /// The merged snapshot, once it is made.
    pub open(crate) spec fn spec_made(&self) -> SnapshotView {
        self.merged->0@
    }

    /// The address of the working snapshot, as read.
    pub open(crate) spec fn spec_observed(&self) -> Address {
        self.working->0.spec_address()
    }

    pub open(crate) spec fn resolved(&self) -> bool {
        &&& self.base matches Some(b) && b.wf()
        &&& self.working matches Some(w) && w.wf()
        &&& self.target matches Some(t) && t.wf()
        &&& self.base->0@.root == self.working->0@.root
        &&& self.base->0@.root == self.target->0@.root
        &&& self.target->0.spec_address() == self.request.target_address
    }

    pub open(crate) spec fn diffed(&self) -> bool {
        &&& is_change_list(self.base->0@.nodes, self.working->0@.nodes, self.branch_ops@)
        &&& self.branch_ops@ == changes(self.base->0@.nodes, self.working->0@.nodes)
        &&& is_change_list(self.base->0@.nodes, self.target->0@.nodes, self.upstream_ops@)
        &&& self.upstream_ops@ == changes(self.base->0@.nodes, self.target->0@.nodes)
    }

    pub open(crate) spec fn checked(&self) -> bool {
        &&& self.conflicts@ == conflicts_of(
            self.base->0@.nodes,
            self.working->0@.nodes,
            self.target->0@.nodes,
        )
        &&& self.conflicts@.no_duplicates()
        &&& forall|c: Conflict|
            self.conflicts@.contains(c) <==> conflicts_with(
                self.base->0@.nodes,
                self.working->0@.nodes,
                self.target->0@.nodes,
                c,
            )
    }

    pub open(crate) spec fn made(&self) -> bool {
        &&& self.conflicts@.len() == 0
        &&& self.merged matches Some(s) && s.wf()
        &&& self.merged->0@.root == self.base->0@.root
        &&& self.merged->0@.nodes == reachable_part(
            merged(self.base->0@.nodes, self.working->0@.nodes, self.target->0@.nodes),
            self.base->0@.root,
        )
    }

    /// What holds of a job in each phase.
    pub open(crate) spec fn wf(&self) -> bool {
        match self.phase {
            RebasePhase::Received => self.outcome is None,
            RebasePhase::BaseResolved => self.outcome is None && self.resolved(),
            RebasePhase::Diffed => self.outcome is None && self.resolved() && self.diffed(),
            RebasePhase::ConflictCheck => self.outcome is None && self.resolved() && self.diffed()
                && self.checked(),
            RebasePhase::Applied => self.outcome is None && self.resolved() && self.diffed()
                && self.checked() && self.made(),
            RebasePhase::Conflicted => self.outcome is None && self.resolved() && self.diffed()
                && self.checked() && self.conflicts@.len() > 0,
            RebasePhase::Published => self.outcome is Some,
        }
    }

    /// Takes a request.
    pub fn receive(request: RebaseRequest) -> (job: RebaseJob)
        ensures
            job.wf(),
            job.spec_phase() == RebasePhase::Received,
            job.spec_request() == request,
    {
        RebaseJob {
            request,
            phase: RebasePhase::Received,
            base: None,
            working: None,
            target: None,
            branch_ops: Vec::new(),
            upstream_ops: Vec::new(),
            conflicts: Vec::new(),
            merged: None,
            outcome: None,
        }
    }

    pub fn phase(&self) -> (p: RebasePhase)
        ensures
            p == self.spec_phase(),
    {
        self.phase
    }

    pub fn request(&self) -> (r: RebaseRequest)
        ensures
            r == self.spec_request(),
    {
        self.request
    }

    /// Whether the rebase can still be called off: it can until it is published.
    pub fn can_cancel(&self) -> (r: bool)
        ensures
            r == (self.spec_phase() != RebasePhase::Published),
    {
        match self.phase {
            RebasePhase::Published => false,
            _ => true,
        }
    }

    /// The outcome, once the rebase is published.
    pub fn outcome(&self) -> (r: &Option<RebaseOutcome>)
        requires
            self.wf(),
        ensures
            *r == self.spec_outcome(),
            r is Some <==> self.spec_phase() == RebasePhase::Published,
    {
        &self.outcome
    }

    /// Reads the change set and the three snapshots.
    fn resolve(&mut self, ws: &Workspace) -> (r: Result<(), StoreError>)
        requires
            old(self).wf(),
            old(self).spec_phase() == RebasePhase::Received,
            ws.wf(),
        ensures
            final(self).wf(),
            final(self).spec_request() == old(self).spec_request(),
            read_result(ws@, old(self).spec_request(), r),
            match r {
                Ok(_) => {
                    let cs = ws@.change_sets[old(self).spec_request().change_set_id as int];
                    &&& final(self).spec_phase() == RebasePhase::BaseResolved
                    &&& final(self).spec_base() == ws@.snapshots[cs.base_address@]
                    &&& final(self).spec_working() == ws@.snapshots[cs.working_address@]
                    &&& final(self).spec_target() == ws@.snapshots[old(
                        self,
                    ).spec_request().target_address@]
                    &&& final(self).spec_observed() == cs.working_address
                },
                Err(_) => *final(self) == *old(self),
            },
    {
        let id = self.request.change_set_id;
        let n = ws.change_sets.len();
        if id >= n as u64 {
            return Err(StoreError::NotFound(Missing::ChangeSet(id)));
        }
        let at = id as usize;
        let cs = ws.change_sets[at];
        match cs.status {
            ChangeSetStatus::Open => {},
            _ => {
                return Err(StoreError::NotFound(Missing::OpenChangeSet(id)));
            },
        }
        let target = match ws.snapshots.get(&self.request.target_address) {
            Ok(s) => s.duplicate(),
            Err(e) => {
                return Err(e);
            },
        };
        proof {
            assert(ws@.snapshots.contains_key(cs.base_address@));
            assert(ws@.snapshots.contains_key(cs.working_address@));
            assert(ws@.snapshots.contains_key(self.request.target_address@));
        }
        let base = match ws.snapshots.get(&cs.base_address) {
            Ok(s) => s.duplicate(),
            Err(_) => vstd::pervasive::unreached(),
        };
        let working = match ws.snapshots.get(&cs.working_address) {
            Ok(s) => s.duplicate(),
            Err(_) => vstd::pervasive::unreached(),
        };
        self.base = Some(base);
        self.working = Some(working);
        self.target = Some(target);
        self.phase = RebasePhase::BaseResolved;
        Ok(())
    }

    /// Makes the merged snapshot, where there is no conflict.
    fn decide(&mut self) -> (r: Result<(), StoreError>)
        requires
            old(self).wf(),
            old(self).spec_phase() == RebasePhase::ConflictCheck,
        ensures
            final(self).wf(),
            final(self).spec_request() == old(self).spec_request(),
            final(self).spec_base() == old(self).spec_base(),
            final(self).spec_working() == old(self).spec_working(),
            final(self).spec_target() == old(self).spec_target(),
            final(self).spec_observed() == old(self).spec_observed(),
            merge_result(old(self).spec_base(), old(self).spec_working(), old(self).spec_target(), r),
            match r {
                Ok(_) => if compatible(
                    old(self).spec_base().nodes,
                    old(self).spec_working().nodes,
                    old(self).spec_target().nodes,
                ) {
                    final(self).spec_phase() == RebasePhase::Applied
                } else {
                    final(self).spec_phase() == RebasePhase::Conflicted
                },
                Err(_) => final(self).spec_phase() == RebasePhase::ConflictCheck,
            },
    {
        let ghost b = self.base->0@.nodes;
        let ghost w = self.working->0@.nodes;
        let ghost t = self.target->0@.nodes;
        if self.conflicts.len() > 0 {
            proof {
                assert(self.conflicts@.contains(self.conflicts@[0]));
            }
            self.phase = RebasePhase::Conflicted;
            return Ok(());
        }
        proof {
            assert forall|c: Conflict| !conflicts_with(b, w, t, c) by {
                if self.conflicts@.contains(c) {
                    let k = choose|k: int| 0 <= k < self.conflicts@.len() && self.conflicts@[k] == c;
                }
            }
        }
        let root = match &self.base {
            Some(s) => s.root(),
            None => vstd::pervasive::unreached(),
        };
        let mut graph = match &self.target {
            Some(s) => {
                proof {
                    s.lemma_wf();
                }
                s.graph().duplicate()
            },
            None => vstd::pervasive::unreached(),
        };
        graph.apply_each(&self.branch_ops);
        proof {
            self.working->0.lemma_wf();
            self.target->0.lemma_wf();
            assert forall|k: int| 0 <= k < self.branch_ops@.len() implies #[trigger] self.branch_ops@[k]
                != (NodeOp::RemoveNode { node: root }) by {
                assert(is_difference(b, w, self.branch_ops@[k]));
            }
            lemma_kept_unless_removed(t, self.branch_ops@, root);
        }
        match Snapshot::compute(&graph, root) {
            Ok(snapshot) => {
                self.merged = Some(snapshot);
                self.phase = RebasePhase::Applied;
                Ok(())
            },
            Err(e) => Err(e),
        }
    }

    /// Files the merged snapshot and moves the change set on to it, if the
    /// change set is still where it was read.
    fn publish(&mut self, ws: &mut Workspace) -> (r: Result<(), StoreError>)
        requires
            old(self).wf(),
            old(self).spec_phase() == RebasePhase::Applied,
            old(ws).wf(),
        ensures
            final(self).wf(),
            final(ws).wf(),
            final(self).spec_request() == old(self).spec_request(),
            publish_result(
                old(ws)@,
                old(self).spec_request(),
                old(self).spec_base(),
                old(self).spec_observed(),
                old(self).spec_made(),
                r,
            ),
            match r {
                Ok(_) => {
                    &&& final(self).spec_phase() == RebasePhase::Published
                    &&& final(self).spec_outcome() matches Some(RebaseOutcome::Applied { summary })
                    &&& summary.change_set_id == old(self).spec_request().change_set_id
                    &&& summary.new_address == old(self).merged->0.spec_address()
                    &&& summary.new_address@ == address_of(
                        old(self).spec_made().root,
                        old(self).spec_made().nodes,
                    )
                    &&& summary.node_ops@ == changes(
                        old(self).spec_base().nodes,
                        old(self).spec_working().nodes,
                    )
                    &&& final(ws)@ == (WorkspaceView {
                        snapshots: file_into(old(ws)@.snapshots, old(self).merged->0@)->0,
                        change_sets: old(ws)@.change_sets.update(
                            old(self).spec_request().change_set_id as int,
                            ChangeSet {
                                id: old(self).spec_request().change_set_id,
                                base_address: old(self).spec_request().target_address,
                                working_address: summary.new_address,
                                status: ChangeSetStatus::Open,
                            },
                        ),
                        ..old(ws)@
                    })
                },
                Err(_) => *final(self) == *old(self) && final(ws)@ == old(ws)@,
            },
    {
        let id = self.request.change_set_id;
        let n = ws.change_sets.len();
        if id >= n as u64 {
            return Err(StoreError::NotFound(Missing::ChangeSet(id)));
        }
        let at = id as usize;
        let cs = ws.change_sets[at];
        match cs.status {
            ChangeSetStatus::Open => {},
            _ => {
                return Err(StoreError::NotFound(Missing::OpenChangeSet(id)));
            },
        }
        let observed = match &self.working {
            Some(s) => s.address(),
            None => vstd::pervasive::unreached(),
        };
        if !cs.working_address.same(&observed) {
            return Err(StoreError::ConcurrentModification { current: cs.working_address });
        }
        if !ws.snapshots.contains(&self.request.target_address) {
            return Err(StoreError::NotFound(Missing::Snapshot(self.request.target_address)));
        }
        let made = match &self.merged {
            Some(s) => s,
            None => vstd::pervasive::unreached(),
        };
        if made.root() != ws.root {
            return Err(
                StoreError::IntegrityViolation(
                    Integrity::RootMismatch { expected: ws.root, found: made.root() },
                ),
            );
        }
        match ws.unresolved(made) {
            Some((node, content)) => {
                return Err(
                    StoreError::IntegrityViolation(Integrity::DanglingContent { node, content }),
                );
            },
            None => {},
        }
        let copy = made.duplicate();
        let ghost v = copy@;
        let ghost before = ws@;
        proof {
            copy.lemma_wf();
        }
        let address = match ws.snapshots.insert(copy) {
            Ok(a) => a,
            Err(e) => {
                return Err(e);
            },
        };
        ws.change_sets[at] = ChangeSet {
            id,
            base_address: self.request.target_address,
            working_address: address,
            status: ChangeSetStatus::Open,
        };
        proof {
            assert(workspace_inv(ws@)) by {
                assert forall|a: Seq<u8>| #[trigger] ws@.snapshots.contains_key(a) implies ws@.snapshots[a].root
                    == ws@.root && resolves(ws@.contents, ws@.snapshots[a].nodes) by {
                    if a != address_of(v.root, v.nodes) {
                        assert(before.snapshots.contains_key(a));
                    }
                }
                assert forall|i: int| 0 <= i < ws@.change_sets.len() implies {
                    &&& (#[trigger] ws@.change_sets[i]).id == i
                    &&& ws@.snapshots.contains_key(ws@.change_sets[i].base_address@)
                    &&& ws@.snapshots.contains_key(ws@.change_sets[i].working_address@)
                } by {
                    if i != id {
                        assert(ws@.change_sets[i] == before.change_sets[i]);
                    } else {
                        assert(before.snapshots.contains_key(self.request.target_address@));
                    }
                }
            }
        }
        let mut node_ops: Vec<NodeOp> = Vec::new();
        node_ops.append(&mut self.branch_ops);
        self.outcome = Some(
            RebaseOutcome::Applied {
                summary: ChangeSummary { change_set_id: id, new_address: address, node_ops },
            },
        );
        self.phase = RebasePhase::Published;
        Ok(())
    }

    /// Takes the rebase one phase further.
    ///
    /// From `Received` it reads the change set and the snapshots; then it
    /// finds the changes of both sides; then the conflicts between them;
    /// then, without a conflict, it makes the merged snapshot. The last step
    /// publishes: only this step changes the workspace, and only where the
    /// rebase was applied and the change set is still where it was read.
    /// Where a step fails, the job and the workspace stay as they were.
    pub fn advance(&mut self, ws: &mut Workspace) -> (r: Result<RebasePhase, StoreError>)
        requires
            old(self).wf(),
            old(ws).wf(),
        ensures
            final(self).wf(),
            final(ws).wf(),
            final(self).spec_request() == old(self).spec_request(),
            r matches Ok(p) ==> p == final(self).spec_phase() && (may_follow(
                old(self).spec_phase(),
                p,
            ) || (old(self).spec_phase() == RebasePhase::Published && p == RebasePhase::Published)),
            r is Err ==> final(self).spec_phase() == old(self).spec_phase() && final(ws)@ == old(
                ws,
            )@,
            old(self).spec_phase() != RebasePhase::Applied ==> final(ws)@ == old(ws)@,
            old(self).spec_phase() == RebasePhase::Received ==> read_result(
                old(ws)@,
                old(self).spec_request(),
                match r {
                    Ok(_) => Ok(()),
                    Err(e) => Err(e),
                },
            ),
            old(self).spec_phase() == RebasePhase::BaseResolved || old(self).spec_phase()
                == RebasePhase::Diffed || old(self).spec_phase() == RebasePhase::Conflicted
                || old(self).spec_phase() == RebasePhase::Published ==> r is Ok,
            old(self).spec_phase() == RebasePhase::ConflictCheck ==> merge_result(
                old(self).spec_base(),
                old(self).spec_working(),
                old(self).spec_target(),
                match r {
                    Ok(_) => Ok(()),
                    Err(e) => Err(e),
                },
            ) && (r is Ok ==> (final(self).spec_phase() == RebasePhase::Applied) == compatible(
                old(self).spec_base().nodes,
                old(self).spec_working().nodes,
                old(self).spec_target().nodes,
            )),
            old(self).spec_phase() == RebasePhase::Applied ==> publish_result(
                old(ws)@,
                old(self).spec_request(),
                old(self).spec_base(),
                old(self).spec_observed(),
                old(self).spec_made(),
                match r {
                    Ok(_) => Ok(()),
                    Err(e) => Err(e),
                },
            ),
            old(self).spec_phase() == RebasePhase::Received && r is Ok ==> reads(
                old(ws)@,
                old(self).spec_request(),
                final(self).spec_base(),
                final(self).spec_working(),
                final(self).spec_target(),
                final(self).spec_observed(),
            ),
            old(self).spec_phase() == RebasePhase::BaseResolved || old(self).spec_phase()
                == RebasePhase::Diffed || old(self).spec_phase() == RebasePhase::ConflictCheck ==> {
                &&& final(self).spec_base() == old(self).spec_base()
                &&& final(self).spec_working() == old(self).spec_working()
                &&& final(self).spec_target() == old(self).spec_target()
                &&& final(self).spec_observed() == old(self).spec_observed()
            },
            final(self).spec_phase() == RebasePhase::Applied ==> final(self).spec_made() == (
            SnapshotView {
                root: final(self).spec_base().root,
                nodes: reachable_part(
                    merged(
                        final(self).spec_base().nodes,
                        final(self).spec_working().nodes,
                        final(self).spec_target().nodes,
                    ),
                    final(self).spec_base().root,
                ),
            }),
            old(self).spec_phase() == RebasePhase::Conflicted ==> {
                &&& final(self).spec_outcome() matches Some(RebaseOutcome::Conflicted { conflicts })
                &&& conflicts@.len() > 0
                &&& conflicts@ == conflicts_of(
                    old(self).spec_base().nodes,
                    old(self).spec_working().nodes,
                    old(self).spec_target().nodes,
                )
            },
            old(self).spec_phase() == RebasePhase::Applied && r is Ok ==> {
                &&& final(self).spec_outcome() matches Some(RebaseOutcome::Applied { summary })
                &&& summary.change_set_id == old(self).spec_request().change_set_id
                &&& summary.new_address@ == address_of(
                    old(self).spec_made().root,
                    old(self).spec_made().nodes,
                )
                &&& summary.node_ops@ == changes(
                    old(self).spec_base().nodes,
                    old(self).spec_working().nodes,
                )
                &&& final(ws)@ == (WorkspaceView {
                    snapshots: file_into(old(ws)@.snapshots, old(self).spec_made())->0,
                    change_sets: old(ws)@.change_sets.update(
                        old(self).spec_request().change_set_id as int,
                        ChangeSet {
                            id: old(self).spec_request().change_set_id,
                            base_address: old(self).spec_request().target_address,
                            working_address: summary.new_address,
                            status: ChangeSetStatus::Open,
                        },
                    ),
                    ..old(ws)@
                })
            },
            old(self).spec_phase() == RebasePhase::Published ==> final(self).spec_outcome() == old(
                self,
            ).spec_outcome(),
    {
        match self.phase {
            RebasePhase::Received => {
                match self.resolve(ws) {
                    Ok(_) => Ok(RebasePhase::BaseResolved),
                    Err(e) => Err(e),
                }
            },
            RebasePhase::BaseResolved => {
                let (branch, upstream) = match (&self.base, &self.working, &self.target) {
                    (Some(b), Some(w), Some(t)) => {
                        proof {
                            b.lemma_wf();
                            w.lemma_wf();
                            t.lemma_wf();
                        }
                        (diff(b.graph(), w.graph()), diff(b.graph(), t.graph()))
                    },
                    _ => vstd::pervasive::unreached(),
                };
                self.branch_ops = branch;
                self.upstream_ops = upstream;
                self.phase = RebasePhase::Diffed;
                Ok(RebasePhase::Diffed)
            },
            RebasePhase::Diffed => {
                let conflicts = find_conflicts(&self.branch_ops, &self.upstream_ops);
                proof {
                    assert forall|c: Conflict|
                        conflicts@.contains(c) <==> conflicts_with(
                            self.base->0@.nodes,
                            self.working->0@.nodes,
                            self.target->0@.nodes,
                            c,
                        ) by {
                        lemma_conflicts_of_changes(
                            self.base->0@.nodes,
                            self.working->0@.nodes,
                            self.target->0@.nodes,
                            self.branch_ops@,
                            self.upstream_ops@,
                            c,
                        );
                    }
                }
                self.conflicts = conflicts;
                self.phase = RebasePhase::ConflictCheck;
                Ok(RebasePhase::ConflictCheck)
            },
            RebasePhase::ConflictCheck => {
                match self.decide() {
                    Ok(_) => Ok(self.phase),
                    Err(e) => Err(e),
                }
            },
            RebasePhase::Applied => {
                match self.publish(ws) {
                    Ok(_) => Ok(RebasePhase::Published),
                    Err(e) => Err(e),
                }
            },
            RebasePhase::Conflicted => {
                let mut conflicts: Vec<Conflict> = Vec::new();
                conflicts.append(&mut self.conflicts);
                self.outcome = Some(RebaseOutcome::Conflicted { conflicts });
                self.phase = RebasePhase::Published;
                Ok(RebasePhase::Published)
            },
            RebasePhase::Published => Ok(RebasePhase::Published),
        }
    }
}

impl RebaseJob {
    /// Takes the rebase through its phases until it is published or a step
    /// fails. Where a step fails, the job stays in the phase that it had
    /// reached, and the workspace is as it was before the call. A job that
    /// is run from its start does to the workspace, and has as its outcome,
    /// what `Workspace::rebase` does and returns.
    pub fn run(&mut self, ws: &mut Workspace) -> (r: Result<(), StoreError>)
        requires
            old(self).wf(),
            old(ws).wf(),
        ensures
            final(self).wf(),
            final(ws).wf(),
            final(self).spec_request() == old(self).spec_request(),
            r is Ok ==> final(self).spec_phase() == RebasePhase::Published,
            r is Err ==> final(self).spec_phase() != RebasePhase::Published && final(ws)@ == old(
                ws,
            )@,
            old(self).spec_phase() == RebasePhase::Received ==> {
                let outcome: Result<RebaseOutcome, StoreError> = match r {
                    Ok(_) => Ok(final(self).spec_outcome()->0),
                    Err(e) => Err(e),
                };
                &&& rebase_result(
                    old(ws)@,
                    old(self).spec_request().change_set_id,
                    old(self).spec_request().target_address,
                    outcome,
                )
                &&& final(ws)@ == rebase_state(
                    old(ws)@,
                    old(self).spec_request().change_set_id,
                    old(self).spec_request().target_address,
                    outcome,
                )
            },
    {
        let ghost w0 = ws@;
        let ghost request = self.request;
        let ghost fresh = self.phase == RebasePhase::Received;
        loop
            invariant
                self.wf(),
                ws.wf(),
                old(ws).wf(),
                w0 == old(ws)@,
                request == old(self).spec_request(),
                self.spec_request() == request,
                fresh == (old(self).spec_phase() == RebasePhase::Received),
                self.spec_phase() != RebasePhase::Published ==> ws@ == w0,
                fresh ==> on_course(w0, *self, ws@),
            ensures
                self.spec_phase() == RebasePhase::Published,
                fresh ==> on_course(w0, *self, ws@),
            decreases steps_left(self.spec_phase()),
        {
            match self.phase {
                RebasePhase::Published => {
                    break ;
                },
                _ => {},
            }
            let ghost before = *self;
            match self.advance(ws) {
                Ok(_) => {
                    proof {
                        if fresh {
                            lemma_stays_on_course(w0, before, *self, ws@);
                        }
                    }
                },
                Err(e) => {
                    proof {
                        if fresh {
                            lemma_fails_on_course(old(ws), before, e);
                        }
                    }
                    return Err(e);
                },
            }
        }
        Ok(())
    }
}

/// What holds of a job that was started on the workspace `w0` and has been
/// advanced since, while nothing else touched the workspace.
pub open(crate) spec fn on_course(w0: WorkspaceView, job: RebaseJob, now: WorkspaceView) -> bool {
    let id = job.request.change_set_id;
    let target = job.request.target_address;
    match job.phase {
        RebasePhase::Received => true,
        RebasePhase::Published => rebase_result(
            w0,
            id,
            target,
            Ok::<RebaseOutcome, StoreError>(job.outcome->0),
        ) && now == rebase_state(w0, id, target, Ok::<RebaseOutcome, StoreError>(job.outcome->0)),
        _ => reads(
            w0,
            job.request,
            job.spec_base(),
            job.spec_working(),
            job.spec_target(),
            job.spec_observed(),
        ) && (job.phase == RebasePhase::Applied ==> closed(
            merged(job.spec_base().nodes, job.spec_working().nodes, job.spec_target().nodes),
            job.spec_base().root,
        )),
    }
}

/// The conditions under which a step ends well are those under which a
/// rebase in one go goes on.
proof fn lemma_stays_on_course(
    w0: WorkspaceView,
    before: RebaseJob,
    after: RebaseJob,
    now: WorkspaceView,
)
    requires
        before.wf(),
        after.wf(),
        before.spec_phase() != RebasePhase::Published,
        on_course(w0, before, w0),
        after.spec_request() == before.spec_request(),
        may_follow(before.spec_phase(), after.spec_phase()),
        before.spec_phase() != RebasePhase::Applied ==> now == w0,
        before.spec_phase() == RebasePhase::Received ==> reads(
            w0,
            before.spec_request(),
            after.spec_base(),
            after.spec_working(),
            after.spec_target(),
            after.spec_observed(),
        ),
        before.spec_phase() == RebasePhase::BaseResolved || before.spec_phase()
            == RebasePhase::Diffed || before.spec_phase() == RebasePhase::ConflictCheck ==> {
            &&& after.spec_base() == before.spec_base()
            &&& after.spec_working() == before.spec_working()
            &&& after.spec_target() == before.spec_target()
            &&& after.spec_observed() == before.spec_observed()
        },
        before.spec_phase() == RebasePhase::ConflictCheck ==> merge_result(
            before.spec_base(),
            before.spec_working(),
            before.spec_target(),
            Ok(()),
        ) && ((after.spec_phase() == RebasePhase::Applied) == compatible(
            before.spec_base().nodes,
            before.spec_working().nodes,
            before.spec_target().nodes,
        )),
        before.spec_phase() == RebasePhase::Conflicted ==> {
            &&& after.spec_outcome() matches Some(RebaseOutcome::Conflicted { conflicts })
            &&& conflicts@.len() > 0
            &&& conflicts@ == conflicts_of(
                before.spec_base().nodes,
                before.spec_working().nodes,
                before.spec_target().nodes,
            )
        },
        before.spec_phase() == RebasePhase::Applied ==> {
            &&& publish_result(
                w0,
                before.spec_request(),
                before.spec_base(),
                before.spec_observed(),
                before.spec_made(),
                Ok(()),
            )
            &&& after.spec_outcome() matches Some(RebaseOutcome::Applied { summary })
            &&& summary.change_set_id == before.spec_request().change_set_id
            &&& summary.new_address@ == address_of(
                before.spec_made().root,
                before.spec_made().nodes,
            )
            &&& summary.node_ops@ == changes(
                before.spec_base().nodes,
                before.spec_working().nodes,
            )
            &&& now == (WorkspaceView {
                snapshots: file_into(w0.snapshots, before.spec_made())->0,
                change_sets: w0.change_sets.update(
                    before.spec_request().change_set_id as int,
                    ChangeSet {
                        id: before.spec_request().change_set_id,
                        base_address: before.spec_request().target_address,
                        working_address: summary.new_address,
                        status: ChangeSetStatus::Open,
                    },
                ),
                ..w0
            })
        },
        workspace_inv(w0),
    ensures
        on_course(w0, after, now),
{
    let id = before.request.change_set_id;
    let target = before.request.target_address;
    let b = before.spec_base().nodes;
    let w = before.spec_working().nodes;
    let t = before.spec_target().nodes;
    match before.phase {
        RebasePhase::Conflicted => {
            let conflicts = after.outcome->0->conflicts;
            assert(conflicts@.contains(conflicts@[0]));
            assert(conflicts_with(b, w, t, conflicts@[0]));
            assert(!compatible(b, w, t));
        },
        RebasePhase::Applied => {
            assert(before.spec_made() == rebased(w0, id, target));
            assert(compatible(b, w, t)) by {
                assert forall|c: Conflict| !conflicts_with(b, w, t, c) by {
                    if before.conflicts@.contains(c) {
                        let k = choose|k: int|
                            0 <= k < before.conflicts@.len() && before.conflicts@[k] == c;
                    }
                }
            }
        },
        _ => {},
    }
}

/// The conditions under which a step fails are those under which a rebase
/// in one go fails, with the same error.
proof fn lemma_fails_on_course(ws: &Workspace, job: RebaseJob, e: StoreError)
    requires
        ws.wf(),
        job.wf(),
        job.spec_phase() != RebasePhase::Published,
        on_course(ws@, job, ws@),
        job.spec_phase() == RebasePhase::Received ==> read_result(
            ws@,
            job.spec_request(),
            Err(e),
        ),
        job.spec_phase() == RebasePhase::ConflictCheck ==> merge_result(
            job.spec_base(),
            job.spec_working(),
            job.spec_target(),
            Err(e),
        ),
        job.spec_phase() == RebasePhase::Applied ==> publish_result(
            ws@,
            job.spec_request(),
            job.spec_base(),
            job.spec_observed(),
            job.spec_made(),
            Err(e),
        ),
        job.spec_phase() == RebasePhase::Received || job.spec_phase() == RebasePhase::ConflictCheck
            || job.spec_phase() == RebasePhase::Applied,
    ensures
        rebase_result(
            ws@,
            job.spec_request().change_set_id,
            job.spec_request().target_address,
            Err::<RebaseOutcome, StoreError>(e),
        ),
{
    let w0 = ws@;
    let id = job.request.change_set_id;
    let target = job.request.target_address;
    match job.phase {
        RebasePhase::Applied => {
            let b = job.spec_base().nodes;
            let w = job.spec_working().nodes;
            let t = job.spec_target().nodes;
            let cs = w0.change_sets[id as int];
            assert(w0.snapshots.contains_key(cs.base_address@));
            assert(w0.snapshots.contains_key(cs.working_address@));
            assert(job.spec_made() == rebased(w0, id, target));
            assert(compatible(b, w, t)) by {
                assert forall|c: Conflict| !conflicts_with(b, w, t, c) by {
                    if job.conflicts@.contains(c) {
                        let k = choose|k: int|
                            0 <= k < job.conflicts@.len() && job.conflicts@[k] == c;
                    }
                }
            }
            assert forall|i: int| 0 <= i < job.branch_ops@.len() implies (
            crate::conflict::content_set_by(#[trigger] job.branch_ops@[i]) matches Some(c)
                ==> w0.contents.contains_key(c@)) by {
                assert(is_difference(b, w, job.branch_ops@[i]));
            }
            crate::workspace::lemma_apply_resolves(w0.contents, t, job.branch_ops@);
            assert(resolves(w0.contents, job.spec_made().nodes));
        },
        _ => {},
    }
}

/// What was read is what the workspace holds for the change set of the
/// request and for its target.
pub open spec fn reads(
    w: WorkspaceView,
    request: RebaseRequest,
    base: SnapshotView,
    working: SnapshotView,
    target: SnapshotView,
    observed: Address,
) -> bool {
    let cs = w.change_sets[request.change_set_id as int];
    &&& not_open(w, request.change_set_id) is None
    &&& w.snapshots.contains_key(request.target_address@)
    &&& base == w.snapshots[cs.base_address@]
    &&& working == w.snapshots[cs.working_address@]
    &&& target == w.snapshots[request.target_address@]
    &&& observed == cs.working_address
}

/// What reading the change set and the snapshots returns.
pub open spec fn read_result(w: WorkspaceView, request: RebaseRequest, r: Result<(), StoreError>) -> bool {
    if not_open(w, request.change_set_id) is Some {
        r == Err::<(), StoreError>(not_open(w, request.change_set_id)->0)
    } else if !w.snapshots.contains_key(request.target_address@) {
        r == Err::<(), StoreError>(StoreError::NotFound(Missing::Snapshot(request.target_address)))
    } else {
        r is Ok
    }
}

/// What making the merged snapshot returns: it fails only where there is no
/// conflict and the merge leaves an edge without its node.
pub open spec fn merge_result(
    base: SnapshotView,
    working: SnapshotView,
    target: SnapshotView,
    r: Result<(), StoreError>,
) -> bool {
    let m = merged(base.nodes, working.nodes, target.nodes);
    if !compatible(base.nodes, working.nodes, target.nodes) || closed(m, base.root) {
        r is Ok
    } else {
        r matches Err(StoreError::IntegrityViolation(Integrity::DanglingEdge { from, edge }))
            && first_dangling(m, base.root, from, edge)
    }
}

/// What publishing the merged snapshot `made` returns.
pub open spec fn publish_result(
    w: WorkspaceView,
    request: RebaseRequest,
    base: SnapshotView,
    observed: Address,
    made: SnapshotView,
    r: Result<(), StoreError>,
) -> bool {
    if not_open(w, request.change_set_id) is Some {
        r == Err::<(), StoreError>(not_open(w, request.change_set_id)->0)
    } else if w.change_sets[request.change_set_id as int].working_address != observed {
        r == Err::<(), StoreError>(
            StoreError::ConcurrentModification {
                current: w.change_sets[request.change_set_id as int].working_address,
            },
        )
    } else if !w.snapshots.contains_key(request.target_address@) {
        r == Err::<(), StoreError>(StoreError::NotFound(Missing::Snapshot(request.target_address)))
    } else if made.root != w.root {
        r == Err::<(), StoreError>(
            StoreError::IntegrityViolation(
                Integrity::RootMismatch { expected: w.root, found: made.root },
            ),
        )
    } else if !resolves(w.contents, made.nodes) {
        r matches Err(StoreError::IntegrityViolation(Integrity::DanglingContent { node, content }))
            && first_unresolved(w.contents, made.nodes, node, content)
    } else if file_into(w.snapshots, made) is None {
        r == Err::<(), StoreError>(StoreError::IntegrityViolation(Integrity::HashCollision))
    } else {
        r is Ok
    }
}

} // verus!

use changeset_core::content::{ContentEnvelope, ContentKind, FieldValue};
use changeset_core::digest::{Address, ContentHash};
use changeset_core::error::{Missing, StoreError};
use changeset_core::graph::Edge;
use changeset_core::ops::NodeOp;
use changeset_core::rebase_job::{AccessContext, RebaseJob, RebasePhase, RebaseRequest};
use changeset_core::workspace::{RebaseOutcome, Workspace};

const ROOT: u64 = 1;
const A: u64 = 10;
const B: u64 = 20;

fn request(change_set_id: u64, target_address: Address) -> RebaseRequest {
    RebaseRequest { change_set_id, target_address, access_context: AccessContext { token: 7 } }
}

fn text(t: &str) -> ContentEnvelope {
    let mut e = ContentEnvelope::new(ContentKind::Component, 1);
    e.set(1, FieldValue::Bytes(t.as_bytes().to_vec()));
    e
}

fn setup() -> (Workspace, ContentHash) {
    let mut ws = Workspace::new(ROOT, text("root"));
    let h1 = ws.put(text("one")).unwrap();
    let h2 = ws.put(text("two")).unwrap();
    let cs = ws.open_change_set();
    ws.edit(
        cs,
        &vec![
            NodeOp::AddNode { node: A, content: h1 },
            NodeOp::AddEdge { node: ROOT, edge: Edge { kind: 0, target: A } },
            NodeOp::AddNode { node: B, content: h1 },
            NodeOp::AddEdge { node: ROOT, edge: Edge { kind: 0, target: B } },
        ],
    )
    .unwrap();
    ws.apply_to_head(cs).unwrap();
    (ws, h2)
}

#[test]
fn a_job_walks_through_its_phases() {
    let (mut ws, h2) = setup();
    let branch = ws.open_change_set();
    ws.edit(branch, &vec![NodeOp::SetContent { node: A, content: h2 }]).unwrap();
    let other = ws.open_change_set();
    ws.edit(other, &vec![NodeOp::SetContent { node: B, content: h2 }]).unwrap();
    ws.apply_to_head(other).unwrap();
    let head = ws.head();
    let mut job = RebaseJob::receive(request(branch, head));
    assert_eq!(job.phase(), RebasePhase::Received);
    assert!(job.can_cancel());
    assert!(job.outcome().is_none());
    assert_eq!(job.advance(&mut ws), Ok(RebasePhase::BaseResolved));
    assert_eq!(job.advance(&mut ws), Ok(RebasePhase::Diffed));
    assert_eq!(job.advance(&mut ws), Ok(RebasePhase::ConflictCheck));
    assert_eq!(job.advance(&mut ws), Ok(RebasePhase::Applied));
    let before = ws.change_set(branch).unwrap();
    assert!(job.can_cancel());
    assert_eq!(job.advance(&mut ws), Ok(RebasePhase::Published));
    assert!(!job.can_cancel());
    assert_eq!(job.advance(&mut ws), Ok(RebasePhase::Published));
    let after = ws.change_set(branch).unwrap();
    assert_ne!(before.working_address, after.working_address);
    assert_eq!(after.base_address, head);
    match job.outcome() {
        Some(RebaseOutcome::Applied { summary }) => {
            assert_eq!(summary.new_address, after.working_address);
            assert_eq!(summary.change_set_id, branch);
            assert_eq!(summary.modified(), vec![A]);
            assert_eq!(summary.added(), Vec::<u64>::new());
            assert_eq!(summary.removed(), Vec::<u64>::new());
            let merged = ws.snapshot(&summary.new_address).unwrap();
            assert_eq!(merged.content_of(A), Some(h2));
            assert_eq!(merged.content_of(B), Some(h2));
        }
        other => panic!("expected an applied rebase, got {:?}", other),
    }
}

#[test]
fn a_job_with_conflicts_changes_nothing() {
    let (mut ws, h2) = setup();
    let h3 = ws.put(text("three")).unwrap();
    let branch = ws.open_change_set();
    ws.edit(branch, &vec![NodeOp::SetContent { node: A, content: h2 }]).unwrap();
    let other = ws.open_change_set();
    ws.edit(other, &vec![NodeOp::SetContent { node: A, content: h3 }]).unwrap();
    ws.apply_to_head(other).unwrap();
    let before = ws.change_set(branch).unwrap();
    let mut job =
        RebaseJob::receive(request(branch, ws.head()));
    assert_eq!(job.run(&mut ws), Ok(()));
    assert_eq!(job.phase(), RebasePhase::Published);
    assert!(matches!(job.outcome(), Some(RebaseOutcome::Conflicted { conflicts }) if conflicts.len() == 1));
    assert_eq!(ws.change_set(branch).unwrap(), before);
}

#[test]
fn a_job_does_not_publish_over_a_racing_edit() {
    let (mut ws, h2) = setup();
    let branch = ws.open_change_set();
    ws.edit(branch, &vec![NodeOp::SetContent { node: A, content: h2 }]).unwrap();
    let head = ws.head();
    let mut job = RebaseJob::receive(request(branch, head));
    while job.phase() != RebasePhase::Applied {
        job.advance(&mut ws).unwrap();
    }
    // the branch is edited while the rebase is under way
    let moved = ws.edit(branch, &vec![NodeOp::SetContent { node: B, content: h2 }]).unwrap();
    assert_eq!(
        job.advance(&mut ws),
        Err(StoreError::ConcurrentModification { current: moved })
    );
    assert_eq!(job.phase(), RebasePhase::Applied);
    assert_eq!(ws.change_set(branch).unwrap().working_address, moved);
    // a new attempt sees the edit
    let mut again = RebaseJob::receive(job.request());
    assert_eq!(again.run(&mut ws), Ok(()));
    assert_eq!(ws.change_set(branch).unwrap().working_address, moved);
}

#[test]
fn a_job_for_an_unknown_change_set_fails_at_once() {
    let (mut ws, _) = setup();
    let head = ws.head();
    let mut job = RebaseJob::receive(request(42, head));
    assert_eq!(job.advance(&mut ws), Err(StoreError::NotFound(Missing::ChangeSet(42))));
    assert_eq!(job.phase(), RebasePhase::Received);
    assert_eq!(job.run(&mut ws), Err(StoreError::NotFound(Missing::ChangeSet(42))));
}

#[test]
fn summary_tells_added_modified_and_removed_nodes() {
    let (mut ws, h2) = setup();
    let branch = ws.open_change_set();
    ws.edit(
        branch,
        &vec![
            NodeOp::AddNode { node: 30, content: h2 },
            NodeOp::AddEdge { node: B, edge: Edge { kind: 1, target: 30 } },
            NodeOp::RemoveEdge { node: ROOT, edge: Edge { kind: 0, target: A } },
        ],
    )
    .unwrap();
    let head = ws.head();
    match ws.rebase(branch, &head).unwrap() {
        RebaseOutcome::Applied { summary } => {
            assert_eq!(summary.added(), vec![30]);
            assert_eq!(summary.removed(), vec![A]);
            assert_eq!(summary.modified(), vec![ROOT, B]);
            assert_eq!(
                summary.node_ops,
                vec![
                    NodeOp::RemoveEdge { node: ROOT, edge: Edge { kind: 0, target: A } },
                    NodeOp::RemoveNode { node: A },
                    NodeOp::AddEdge { node: B, edge: Edge { kind: 1, target: 30 } },
                    NodeOp::AddNode { node: 30, content: h2 },
                ]
            );
        }
        RebaseOutcome::Conflicted { conflicts } => panic!("unexpected conflicts {:?}", conflicts),
    }
}

use changeset_core::conflict::{Conflict, Side};
use changeset_core::content::{ContentEnvelope, ContentKind, Field, FieldValue};
use changeset_core::content_store::ContentStore;
use changeset_core::digest::{Address, ContentHash};
use changeset_core::error::{Integrity, Missing, Serialization, StoreError};
use changeset_core::graph::{Edge, Graph};
use changeset_core::ops::NodeOp;
use changeset_core::rebase::{rebase_snapshots, Rebase};
use changeset_core::snapshot::Snapshot;
use changeset_core::workspace::{ChangeSetStatus, RebaseOutcome, Workspace};

const ROOT: u64 = 1;
const A: u64 = 10;
const B: u64 = 20;

fn payload(text: &str) -> ContentEnvelope {
    let mut e = ContentEnvelope::new(ContentKind::Component, 1);
    e.set(1, FieldValue::Bytes(text.as_bytes().to_vec()));
    e
}

fn child(target: u64) -> Edge {
    Edge { kind: 0, target }
}

/// A workspace whose head holds the root with the nodes A and B under it.
fn workspace() -> (Workspace, ContentHash, ContentHash) {
    let mut ws = Workspace::new(ROOT, payload("root"));
    let h1 = ws.put(payload("a one")).unwrap();
    let hb = ws.put(payload("b one")).unwrap();
    let cs = ws.open_change_set();
    ws.edit(
        cs,
        &vec![
            NodeOp::AddNode { node: A, content: h1 },
            NodeOp::AddEdge { node: ROOT, edge: child(A) },
            NodeOp::AddNode { node: B, content: hb },
            NodeOp::AddEdge { node: ROOT, edge: child(B) },
        ],
    )
    .unwrap();
    match ws.apply_to_head(cs).unwrap() {
        RebaseOutcome::Applied { .. } => {}
        RebaseOutcome::Conflicted { .. } => panic!("nothing to conflict with"),
    }
    (ws, h1, hb)
}

#[test]
fn digest_is_blake3() {
    let h = ContentHash::new(b"foo");
    assert_eq!(h.as_bytes(), blake3::hash(b"foo").as_bytes());
    let a = Address::new(b"");
    assert_eq!(a.as_bytes(), blake3::hash(b"").as_bytes());
    assert_ne!(ContentHash::new(b"foo"), ContentHash::new(b"bar"));
}

#[test]
fn put_then_get_gives_the_payload_back() {
    let mut store = ContentStore::new();
    let hash = store.put(payload("hello")).unwrap();
    assert_eq!(store.get(&hash).unwrap(), &payload("hello"));
    assert!(store.contains(&hash));
    assert_eq!(store.len(), 1);
}

#[test]
fn put_twice_gives_one_hash_and_one_entry() {
    let mut store = ContentStore::new();
    let first = store.put(payload("hello")).unwrap();
    let second = store.put(payload("hello")).unwrap();
    assert_eq!(first, second);
    assert_eq!(store.len(), 1);
    let other = store.put(payload("world")).unwrap();
    assert_ne!(first, other);
    assert_eq!(store.len(), 2);
}

#[test]
fn get_of_an_unknown_hash_is_not_found() {
    let store = ContentStore::new();
    let hash = ContentHash::new(b"nothing");
    assert_eq!(store.get(&hash), Err(StoreError::NotFound(Missing::Content(hash))));
    assert!(!store.contains(&hash));
}

#[test]
fn hash_is_the_digest_of_the_canonical_bytes() {
    let mut e = ContentEnvelope::new(ContentKind::Func, 2);
    e.set(7, FieldValue::Number(258));
    e.set(3, FieldValue::Flag(true));
    e.set(9, FieldValue::Bytes(vec![0xAA, 0xBB]));
    let expected: Vec<u8> = vec![
        7, 0, 0, 0, // kind
        2, 0, 0, 0, // version
        3, 0, 0, 0, 0, 0, 0, 0, // number of fields
        3, 0, 0, 0, 0, 1, // key 3: flag, true
        7, 0, 0, 0, 1, 2, 1, 0, 0, 0, 0, 0, 0, // key 7: number 258
        9, 0, 0, 0, 2, 2, 0, 0, 0, 0, 0, 0, 0, 0xAA, 0xBB, // key 9: two bytes
    ];
    assert_eq!(e.encode(), expected);
    assert_eq!(e.hash().as_bytes(), blake3::hash(&expected).as_bytes());
}

#[test]
fn order_of_setting_fields_does_not_matter() {
    let mut one = ContentEnvelope::new(ContentKind::Prop, 1);
    one.set(2, FieldValue::Number(5));
    one.set(1, FieldValue::Flag(false));
    let mut two = ContentEnvelope::new(ContentKind::Prop, 1);
    two.set(1, FieldValue::Flag(false));
    two.set(2, FieldValue::Number(4));
    two.set(2, FieldValue::Number(5));
    assert!(one.same_as(&two));
    assert_eq!(one.encode(), two.encode());
    assert_eq!(one.hash(), two.hash());
    assert_eq!(one.get(2), Some(&FieldValue::Number(5)));
    assert_eq!(one.get(3), None);
    two.unset(1);
    assert!(!one.same_as(&two));
    assert_ne!(one.hash(), two.hash());
}

#[test]
fn from_fields_sorts_and_refuses_a_key_twice() {
    let fields = vec![
        Field { key: 5, value: FieldValue::Number(1) },
        Field { key: 2, value: FieldValue::Flag(true) },
    ];
    let e = ContentEnvelope::from_fields(ContentKind::Schema, 1, fields).unwrap();
    let mut same = ContentEnvelope::new(ContentKind::Schema, 1);
    same.set(2, FieldValue::Flag(true));
    same.set(5, FieldValue::Number(1));
    assert_eq!(e, same);
    let twice = vec![
        Field { key: 5, value: FieldValue::Number(1) },
        Field { key: 5, value: FieldValue::Number(2) },
    ];
    assert_eq!(
        ContentEnvelope::from_fields(ContentKind::Schema, 1, twice),
        Err(StoreError::SerializationError(Serialization::DuplicateKey(5)))
    );
}

#[test]
fn kind_codes_follow_the_list_of_kinds() {
    assert_eq!(ContentKind::Any.code(), 0);
    assert_eq!(ContentKind::Func.code(), 7);
    assert_eq!(ContentKind::OutputSocket.code(), 17);
    assert_eq!(ContentKind::from_code(13), Some(ContentKind::SchemaVariant));
    assert_eq!(ContentKind::from_code(18), None);
}

#[test]
fn snapshot_holds_what_the_walk_arrives_at() {
    let h = ContentHash::new(b"x");
    let mut graph = Graph::new();
    graph.insert_node(ROOT, h);
    graph.insert_node(A, h);
    graph.insert_node(B, h);
    graph.insert_node(30, h);
    assert!(graph.add_edge(ROOT, child(A)));
    assert!(graph.add_edge(A, child(ROOT)));
    assert!(graph.add_edge(30, child(B)));
    let snapshot = Snapshot::compute(&graph, ROOT).unwrap();
    assert_eq!(snapshot.len(), 2);
    assert!(snapshot.contains(ROOT));
    assert!(snapshot.contains(A));
    assert!(!snapshot.contains(B));
    assert!(!snapshot.contains(30));
    assert!(snapshot.has_edge(A, child(ROOT)));
    assert_eq!(snapshot.content_of(A), Some(h));
    assert_eq!(snapshot.content_of(B), None);
}

#[test]
fn snapshot_address_is_the_digest_of_its_bytes() {
    let h = ContentHash::from_bytes([7u8; 32]);
    let mut graph = Graph::new();
    graph.insert_node(2, h);
    graph.insert_node(1, h);
    graph.add_edge(1, Edge { kind: 3, target: 2 });
    let snapshot = Snapshot::compute(&graph, 1).unwrap();
    let mut bytes: Vec<u8> = Vec::new();
    bytes.extend_from_slice(&1u64.to_le_bytes()); // root
    bytes.extend_from_slice(&2u64.to_le_bytes()); // number of nodes
    bytes.extend_from_slice(&1u64.to_le_bytes()); // node 1
    bytes.extend_from_slice(&[7u8; 32]);
    bytes.extend_from_slice(&1u64.to_le_bytes()); // one edge
    bytes.extend_from_slice(&3u32.to_le_bytes());
    bytes.extend_from_slice(&2u64.to_le_bytes());
    bytes.extend_from_slice(&2u64.to_le_bytes()); // node 2
    bytes.extend_from_slice(&[7u8; 32]);
    bytes.extend_from_slice(&0u64.to_le_bytes()); // no edge
    assert_eq!(snapshot.address().as_bytes(), blake3::hash(&bytes).as_bytes());
}

#[test]
fn snapshot_fails_on_missing_root_and_dangling_edge() {
    let h = ContentHash::new(b"x");
    let mut graph = Graph::new();
    graph.insert_node(ROOT, h);
    graph.add_edge(ROOT, child(A));
    assert_eq!(
        Snapshot::compute(&graph, 5).err(),
        Some(StoreError::NotFound(Missing::Node(5)))
    );
    assert_eq!(
        Snapshot::compute(&graph, ROOT).err(),
        Some(StoreError::IntegrityViolation(Integrity::DanglingEdge {
            from: ROOT,
            edge: child(A)
        }))
    );
}

#[test]
fn derive_without_edits_is_the_same_snapshot() {
    let (mut ws, _, _) = workspace();
    let head = ws.head();
    assert_eq!(ws.derive(&head, &vec![]), Ok(head));
    assert_eq!(ws.head(), head);
}

#[test]
fn derive_leaves_the_old_snapshot_as_it_was() {
    let (mut ws, h1, _) = workspace();
    let h2 = ws.put(payload("a two")).unwrap();
    let head = ws.head();
    let made = ws.derive(&head, &vec![NodeOp::SetContent { node: A, content: h2 }]).unwrap();
    assert_ne!(made, head);
    assert_eq!(ws.snapshot(&head).unwrap().content_of(A), Some(h1));
    assert_eq!(ws.snapshot(&made).unwrap().content_of(A), Some(h2));
    assert_eq!(ws.snapshot(&made).unwrap().address(), made);
}

#[test]
fn derive_drops_what_is_no_longer_reachable() {
    let (mut ws, _, _) = workspace();
    let head = ws.head();
    let made = ws.derive(&head, &vec![NodeOp::RemoveEdge { node: ROOT, edge: child(B) }]).unwrap();
    let snapshot = ws.snapshot(&made).unwrap();
    assert!(snapshot.contains(A));
    assert!(!snapshot.contains(B));
    assert_eq!(snapshot.len(), 2);
}

#[test]
fn derive_errors() {
    let (mut ws, h1, _) = workspace();
    let head = ws.head();
    let nowhere = Address::new(b"nowhere");
    assert_eq!(
        ws.derive(&nowhere, &vec![]),
        Err(StoreError::NotFound(Missing::Snapshot(nowhere)))
    );
    assert_eq!(
        ws.derive(&head, &vec![NodeOp::SetContent { node: 99, content: h1 }]),
        Err(StoreError::NotFound(Missing::Node(99)))
    );
    assert_eq!(
        ws.derive(&head, &vec![NodeOp::RemoveNode { node: ROOT }]),
        Err(StoreError::NotFound(Missing::Node(ROOT)))
    );
    assert_eq!(
        ws.derive(&head, &vec![NodeOp::RemoveNode { node: A }]),
        Err(StoreError::IntegrityViolation(Integrity::DanglingEdge {
            from: ROOT,
            edge: child(A)
        }))
    );
    let unknown = ContentHash::new(b"not stored");
    assert_eq!(
        ws.derive(&head, &vec![NodeOp::SetContent { node: A, content: unknown }]),
        Err(StoreError::IntegrityViolation(Integrity::DanglingContent {
            node: A,
            content: unknown
        }))
    );
    assert_eq!(ws.head(), head);
}

#[test]
fn rebase_onto_the_base_keeps_the_working_snapshot() {
    let (mut ws, _, _) = workspace();
    let h2 = ws.put(payload("a two")).unwrap();
    let cs = ws.open_change_set();
    let working = ws.edit(cs, &vec![NodeOp::SetContent { node: A, content: h2 }]).unwrap();
    let base = ws.change_set(cs).unwrap().base_address;
    match ws.rebase(cs, &base).unwrap() {
        RebaseOutcome::Applied { summary } => {
            assert_eq!(summary.new_address, working);
            assert_eq!(summary.change_set_id, cs);
            assert_eq!(summary.node_ops, vec![NodeOp::SetContent { node: A, content: h2 }]);
        }
        RebaseOutcome::Conflicted { .. } => panic!("a rebase onto the base cannot conflict"),
    }
    assert_eq!(ws.change_set(cs).unwrap().working_address, working);
    assert_eq!(ws.change_set(cs).unwrap().base_address, base);
}

#[test]
fn edits_to_different_nodes_are_merged() {
    let (mut ws, _, hb) = workspace();
    let h2 = ws.put(payload("a two")).unwrap();
    let hb2 = ws.put(payload("b two")).unwrap();
    let branch = ws.open_change_set();
    ws.edit(branch, &vec![NodeOp::SetContent { node: A, content: h2 }]).unwrap();
    let other = ws.open_change_set();
    ws.edit(other, &vec![NodeOp::SetContent { node: B, content: hb2 }]).unwrap();
    assert!(matches!(ws.apply_to_head(other), Ok(RebaseOutcome::Applied { .. })));
    let head = ws.head();
    assert_ne!(hb, hb2);
    match ws.rebase(branch, &head).unwrap() {
        RebaseOutcome::Applied { summary } => {
            let merged = ws.snapshot(&summary.new_address).unwrap();
            assert_eq!(merged.content_of(A), Some(h2));
            assert_eq!(merged.content_of(B), Some(hb2));
            assert_eq!(ws.change_set(branch).unwrap().base_address, head);
            assert_eq!(ws.change_set(branch).unwrap().working_address, summary.new_address);
        }
        RebaseOutcome::Conflicted { conflicts } => panic!("unexpected conflicts {:?}", conflicts),
    }
}

#[test]
fn the_same_edit_on_both_sides_is_no_conflict() {
    let (mut ws, _, _) = workspace();
    let h2 = ws.put(payload("a two")).unwrap();
    let branch = ws.open_change_set();
    ws.edit(branch, &vec![NodeOp::SetContent { node: A, content: h2 }]).unwrap();
    let other = ws.open_change_set();
    ws.edit(other, &vec![NodeOp::SetContent { node: A, content: h2 }]).unwrap();
    ws.apply_to_head(other).unwrap();
    let head = ws.head();
    match ws.rebase(branch, &head).unwrap() {
        RebaseOutcome::Applied { summary } => {
            assert_eq!(ws.snapshot(&summary.new_address).unwrap().content_of(A), Some(h2));
            assert_eq!(summary.new_address, head);
        }
        RebaseOutcome::Conflicted { conflicts } => panic!("unexpected conflicts {:?}", conflicts),
    }
}

#[test]
fn different_content_on_both_sides_is_a_content_conflict() {
    let (mut ws, _, _) = workspace();
    let h2 = ws.put(payload("a two")).unwrap();
    let h3 = ws.put(payload("a three")).unwrap();
    let branch = ws.open_change_set();
    let working = ws.edit(branch, &vec![NodeOp::SetContent { node: A, content: h2 }]).unwrap();
    let base = ws.change_set(branch).unwrap().base_address;
    let other = ws.open_change_set();
    ws.edit(other, &vec![NodeOp::SetContent { node: A, content: h3 }]).unwrap();
    ws.apply_to_head(other).unwrap();
    let head = ws.head();
    match ws.rebase(branch, &head).unwrap() {
        RebaseOutcome::Conflicted { conflicts } => {
            assert_eq!(
                conflicts,
                vec![Conflict::ContentConflict { node: A, branch: h2, upstream: h3 }]
            );
        }
        RebaseOutcome::Applied { .. } => panic!("expected a conflict"),
    }
    assert_eq!(ws.change_set(branch).unwrap().working_address, working);
    assert_eq!(ws.change_set(branch).unwrap().base_address, base);
    assert_eq!(ws.change_set(branch).unwrap().status, ChangeSetStatus::Open);
}

#[test]
fn removed_upstream_and_modified_in_the_branch_conflicts() {
    let (mut ws, _, _) = workspace();
    let h2 = ws.put(payload("a two")).unwrap();
    let branch = ws.open_change_set();
    ws.edit(branch, &vec![NodeOp::SetContent { node: A, content: h2 }]).unwrap();
    let other = ws.open_change_set();
    ws.edit(
        other,
        &vec![NodeOp::RemoveEdge { node: ROOT, edge: child(A) }, NodeOp::RemoveNode { node: A }],
    )
    .unwrap();
    ws.apply_to_head(other).unwrap();
    let head = ws.head();
    match ws.rebase(branch, &head).unwrap() {
        RebaseOutcome::Conflicted { conflicts } => {
            assert_eq!(
                conflicts,
                vec![Conflict::RemoveVsModify { node: A, removed_by: Side::Upstream }]
            );
        }
        RebaseOutcome::Applied { .. } => panic!("expected a conflict"),
    }
}

#[test]
fn removed_in_the_branch_and_modified_upstream_conflicts() {
    let (mut ws, _, _) = workspace();
    let h2 = ws.put(payload("a two")).unwrap();
    let branch = ws.open_change_set();
    ws.edit(branch, &vec![NodeOp::RemoveEdge { node: ROOT, edge: child(A) }]).unwrap();
    let other = ws.open_change_set();
    ws.edit(other, &vec![NodeOp::SetContent { node: A, content: h2 }]).unwrap();
    ws.apply_to_head(other).unwrap();
    let head = ws.head();
    match ws.rebase(branch, &head).unwrap() {
        RebaseOutcome::Conflicted { conflicts } => {
            assert_eq!(
                conflicts,
                vec![Conflict::RemoveVsModify { node: A, removed_by: Side::Branch }]
            );
        }
        RebaseOutcome::Applied { .. } => panic!("expected a conflict"),
    }
}

#[test]
fn rebase_can_be_tried_again_after_a_conflict() {
    let (mut ws, h1, _) = workspace();
    let h2 = ws.put(payload("a two")).unwrap();
    let h3 = ws.put(payload("a three")).unwrap();
    let branch = ws.open_change_set();
    ws.edit(branch, &vec![NodeOp::SetContent { node: A, content: h2 }]).unwrap();
    let other = ws.open_change_set();
    ws.edit(other, &vec![NodeOp::SetContent { node: A, content: h3 }]).unwrap();
    ws.apply_to_head(other).unwrap();
    let head = ws.head();
    assert!(matches!(ws.rebase(branch, &head), Ok(RebaseOutcome::Conflicted { .. })));
    assert!(matches!(ws.rebase(branch, &head), Ok(RebaseOutcome::Conflicted { .. })));
    // the branch takes its edit back and tries again
    ws.edit(branch, &vec![NodeOp::SetContent { node: A, content: h1 }]).unwrap();
    match ws.rebase(branch, &head).unwrap() {
        RebaseOutcome::Applied { summary } => {
            assert_eq!(summary.new_address, head);
            assert!(summary.node_ops.is_empty());
        }
        RebaseOutcome::Conflicted { conflicts } => panic!("unexpected conflicts {:?}", conflicts),
    }
}

#[test]
fn change_sets_open_apply_abandon() {
    let (mut ws, _, _) = workspace();
    let head = ws.head();
    let count = ws.change_set_count();
    let one = ws.open_change_set();
    let two = ws.open_change_set();
    assert_eq!(two, one + 1);
    assert_eq!(ws.change_set_count(), count + 2);
    assert_eq!(ws.change_set(one).unwrap().status, ChangeSetStatus::Open);
    assert_eq!(ws.change_set(one).unwrap().base_address, head);
    assert_eq!(ws.change_set(one).unwrap().working_address, head);
    assert_eq!(ws.abandon(one), Ok(()));
    assert_eq!(ws.change_set(one).unwrap().status, ChangeSetStatus::Abandoned);
    assert_eq!(ws.abandon(one), Err(StoreError::NotFound(Missing::OpenChangeSet(one))));
    assert_eq!(
        ws.edit(one, &vec![]),
        Err(StoreError::NotFound(Missing::OpenChangeSet(one)))
    );
    assert_eq!(
        ws.rebase(one, &head).err(),
        Some(StoreError::NotFound(Missing::OpenChangeSet(one)))
    );
    assert_eq!(ws.change_set(77).err(), Some(StoreError::NotFound(Missing::ChangeSet(77))));
    assert_eq!(ws.rebase(77, &head).err(), Some(StoreError::NotFound(Missing::ChangeSet(77))));
    let nowhere = Address::new(b"nowhere");
    assert_eq!(
        ws.rebase(two, &nowhere).err(),
        Some(StoreError::NotFound(Missing::Snapshot(nowhere)))
    );
    assert!(matches!(ws.apply_to_head(two), Ok(RebaseOutcome::Applied { .. })));
    assert_eq!(ws.change_set(two).unwrap().status, ChangeSetStatus::Applied);
    assert_eq!(ws.head(), head);
}

#[test]
fn compare_and_swap_of_the_working_address() {
    let (mut ws, _, _) = workspace();
    let h2 = ws.put(payload("a two")).unwrap();
    let head = ws.head();
    let cs = ws.open_change_set();
    let made = ws.derive(&head, &vec![NodeOp::SetContent { node: A, content: h2 }]).unwrap();
    assert_eq!(ws.compare_and_swap_working(cs, &head, &made), Ok(()));
    assert_eq!(ws.change_set(cs).unwrap().working_address, made);
    assert_eq!(
        ws.compare_and_swap_working(cs, &head, &made),
        Err(StoreError::ConcurrentModification { current: made })
    );
    let nowhere = Address::new(b"nowhere");
    assert_eq!(
        ws.compare_and_swap_working(cs, &made, &nowhere),
        Err(StoreError::NotFound(Missing::Snapshot(nowhere)))
    );
}

fn snapshot_of(root: u64, nodes: &[u64], edges: &[(u64, u64)]) -> Snapshot {
    let h = ContentHash::new(b"content");
    let mut graph = Graph::new();
    for n in nodes {
        graph.insert_node(*n, h);
    }
    for (from, to) in edges {
        assert!(graph.add_edge(*from, child(*to)));
    }
    Snapshot::compute(&graph, root).unwrap()
}

#[test]
fn snapshots_with_different_roots_are_not_rebased() {
    let base = snapshot_of(1, &[1], &[]);
    let working = snapshot_of(1, &[1, 2], &[(1, 2)]);
    let elsewhere = snapshot_of(2, &[2], &[]);
    assert_eq!(
        rebase_snapshots(&base, &working, &elsewhere).err(),
        Some(StoreError::IntegrityViolation(Integrity::RootMismatch { expected: 1, found: 2 }))
    );
    assert_eq!(
        rebase_snapshots(&base, &elsewhere, &working).err(),
        Some(StoreError::IntegrityViolation(Integrity::RootMismatch { expected: 1, found: 2 }))
    );
}

#[test]
fn an_edge_to_a_node_that_upstream_removed_stops_the_rebase() {
    // base: 1 -> 2, 1 -> 3; the branch adds 3 -> 2; upstream drops 2
    let base = snapshot_of(1, &[1, 2, 3], &[(1, 2), (1, 3)]);
    let working = snapshot_of(1, &[1, 2, 3], &[(1, 2), (1, 3), (3, 2)]);
    let target = snapshot_of(1, &[1, 3], &[(1, 3)]);
    assert_eq!(
        rebase_snapshots(&base, &working, &target).err(),
        Some(StoreError::IntegrityViolation(Integrity::DanglingEdge {
            from: 3,
            edge: child(2)
        }))
    );
}

#[test]
fn edges_of_both_sides_are_merged() {
    // both sides hang a new node under the root
    let base = snapshot_of(1, &[1], &[]);
    let working = snapshot_of(1, &[1, 2], &[(1, 2)]);
    let target = snapshot_of(1, &[1, 3], &[(1, 3)]);
    match rebase_snapshots(&base, &working, &target).unwrap() {
        Rebase::Applied { snapshot, node_ops } => {
            assert_eq!(snapshot.len(), 3);
            assert!(snapshot.has_edge(1, child(2)));
            assert!(snapshot.has_edge(1, child(3)));
            assert_eq!(node_ops.len(), 2);
            assert_eq!(snapshot.address(), snapshot_of(1, &[1, 2, 3], &[(1, 2), (1, 3)]).address());
        }
        Rebase::Conflicted { conflicts } => panic!("unexpected conflicts {:?}", conflicts),
    }
}

#[test]
fn what_neither_side_holds_on_to_is_dropped() {
    // base: 1 -> 2 by two edges; each side removes one of them
    let h = ContentHash::new(b"content");
    let make = |kinds: &[u32]| {
        let mut graph = Graph::new();
        graph.insert_node(1, h);
        graph.insert_node(2, h);
        for kind in kinds {
            graph.add_edge(1, Edge { kind: *kind, target: 2 });
        }
        graph
    };
    let base = Snapshot::compute(&make(&[0, 1]), 1).unwrap();
    let working = Snapshot::compute(&make(&[0]), 1).unwrap();
    let target = Snapshot::compute(&make(&[1]), 1).unwrap();
    match rebase_snapshots(&base, &working, &target).unwrap() {
        Rebase::Applied { snapshot, .. } => {
            assert_eq!(snapshot.len(), 1);
            assert!(!snapshot.contains(2));
        }
        Rebase::Conflicted { conflicts } => panic!("unexpected conflicts {:?}", conflicts),
    }
}

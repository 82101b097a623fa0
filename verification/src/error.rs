//! What can go wrong in the stores and in a rebase.

use vstd::prelude::*;
use crate::digest::{Address, ContentHash};
use crate::graph::{Edge, NodeId};

verus! {

/// Identifier of a change set.
pub type ChangeSetId = u64;

/// A broken invariant of the stored data. Never repaired silently.
#[derive(Clone, Copy, Debug, PartialEq, Eq)]
pub enum Integrity {
    /// Two different values have the same digest.
    HashCollision,
    /// Stored bytes do not have the digest they are filed under.
    HashMismatch,
    /// A node points at content that the content store does not hold.
    DanglingContent { node: NodeId, content: ContentHash },
    /// A node has an edge to a node that does not exist.
    DanglingEdge { from: NodeId, edge: Edge },
    /// Snapshots that belong together do not have the same root.
    RootMismatch { expected: NodeId, found: NodeId },
}

/// Something that was looked up and is not there.
#[derive(Clone, Copy, Debug, PartialEq, Eq)]
pub enum Missing {
    Content(ContentHash),
    Snapshot(Address),
    ChangeSet(ChangeSetId),
    /// The change set exists and is no longer open.
    OpenChangeSet(ChangeSetId),
    Node(NodeId),
}

/// Why canonical bytes could not be written or read.
#[derive(Clone, Copy, Debug, PartialEq, Eq)]
pub enum Serialization {
    /// The bytes end before the value does.
    Truncated,
    /// Bytes follow the end of the value.
    TrailingBytes,
    /// A tag that stands for no kind, or a value that is not in canonical form.
    Malformed,
    /// A field key occurs twice.
    DuplicateKey(u32),
}

#[derive(Clone, Copy, Debug, PartialEq, Eq)]
pub enum StoreError {
    IntegrityViolation(Integrity),
    NotFound(Missing),
    /// A compare-and-swap found another value than the expected one; it
    /// carries the value that is stored now.
    ConcurrentModification { current: Address },
    SerializationError(Serialization),
}

} // verus!

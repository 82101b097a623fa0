//! A layered, content-addressed object graph with branchable change sets.
//!
//! Payloads live in a content store under the hash of their canonical
//! bytes. Nodes point at payloads by hash and at each other by identifier;
//! what a walk from a root arrives at is a snapshot, filed under the digest
//! of its canonical bytes and never changed afterwards. A change set
//! branches off the head, moves from snapshot to snapshot by edits, and is
//! brought back by a rebase, which either merges its changes into the
//! target or reports the conflicts and changes nothing.
//!
//! The modules, from the leaves up:
//!
//! - `digest`, `content`, `content_codec`, `content_store`: hashes, payloads
//!   in canonical form, their bytes read back, and the store;
//! - `content_types`: the typed content in its versions, with its upgrades;
//! - `graph`, `ops`, `reach`, `snapshot`, `snapshot_store`: the arena of
//!   nodes, the operations on it, what is reachable, and snapshots;
//! - `diff`, `conflict`, `rebase`, `rebase_job`: differences, conflicts, the
//!   merge, and the merge taken step by step;
//! - `workspace`: the stores, the head and the change sets together;
//! - `visibility`: which record is seen from where;
//! - `diagram`, `views`, `ws_event`, `service`, `job`, `config`,
//!   `asset_sprayer`, `text`: what the services around the graph compute
//!   between their reads and their sends.

pub mod asset_sprayer;
pub mod config;
pub mod conflict;
pub mod content;
pub mod content_codec;
pub mod content_store;
pub mod content_types;
pub mod diagram;
pub mod diff;
pub mod digest;
pub mod error;
pub mod graph;
pub mod job;
pub mod ops;
pub mod reach;
pub mod rebase;
pub mod rebase_job;
pub mod service;
pub mod snapshot;
pub mod snapshot_store;
pub mod text;
pub mod views;
pub mod visibility;
pub mod workspace;
pub mod ws_event;

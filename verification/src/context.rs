//! Transient context types: each carries a reconstructed value together with
//! the baseline it was loaded at, so the commit step knows what to expect
//! for optimistic concurrency. A context lives for one load-mutate-commit
//! cycle and is discarded after.

use vstd::prelude::*;

use crate::aggregate::Aggregate;

verus! {

/// The reconstructed aggregate plus the sequence it was loaded at, as handed
/// out by the plain event store.
pub struct EventStoreAggregateContext<A: Aggregate> {
    /// The identity of the aggregate instance.
    pub aggregate_id: String,
    /// The state reconstructed by replay.
    pub aggregate: A,
    /// The sequence of the last event folded into `aggregate`: the expected
    /// baseline of the next commit.
    pub current_sequence: u64,
}

/// The reconstructed aggregate plus the baselines the snapshot store needs:
/// the event baseline for the commit guard, and the sequence of the snapshot
/// the load started from, for the snapshotting policy.
pub struct SnapshotStoreAggregateContext<A: Aggregate> {
    /// The identity of the aggregate instance.
    pub aggregate_id: String,
    /// The state reconstructed from the snapshot plus the event tail.
    pub aggregate: A,
    /// The sequence of the last event folded into `aggregate`: the expected
    /// baseline of the next commit.
    pub current_sequence: u64,
    /// The sequence the starting snapshot was taken at; 0 where none existed.
    pub snapshot_sequence: u64,
}

/// The watermark state of one view: the version counter guarding view
/// updates, and the highest event sequence already folded into the view.
pub struct QueryContext {
    /// The identity of the view instance.
    pub view_id: String,
    /// The optimistic-concurrency counter of the stored view, incremented by
    /// every accepted update.
    pub version: u64,
    /// The highest event sequence already folded into the view; repeated
    /// delivery at or below this watermark is a no-op.
    pub last_sequence: u64,
}

} // verus!

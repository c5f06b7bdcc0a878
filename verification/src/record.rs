//! The serialized record model: the byte-level representation of an event
//! and of a snapshot, decoupled from any in-memory domain type.
//!
//! These are boundary types with no business logic: the event store works on
//! them without depending on a specific domain type, and any backend or
//! transport must preserve exactly this field set.

use vstd::prelude::*;

use crate::version::SemanticVersion;

verus! {

/// The mathematical value of a `SerializedEvent`.
#[verifier::ext_equal]
pub ghost struct SerializedEventModel {
    pub aggregate_type: Seq<char>,
    pub aggregate_id: Seq<char>,
    pub sequence: u64,
    pub event_type: Seq<char>,
    pub event_version: SemanticVersion,
    pub payload: Seq<u8>,
    pub metadata: Seq<u8>,
}

/// A persisted event record. Uniquely identified by
/// `(aggregate_type, aggregate_id, sequence)`; that triple is the
/// optimistic-concurrency key. Once committed it is never mutated or deleted.
#[derive(Debug, Clone, PartialEq, Eq)]
pub struct SerializedEvent {
    /// The kind of domain entity the event belongs to.
    pub aggregate_type: String,
    /// The identity of the aggregate instance within its kind.
    pub aggregate_id: String,
    /// 1-based position of the event within the aggregate's history.
    pub sequence: u64,
    /// The name of the domain event carried in the payload.
    pub event_type: String,
    /// The schema version the payload was written under.
    pub event_version: SemanticVersion,
    /// The opaque, codec-produced bytes of the domain event.
    pub payload: Vec<u8>,
    /// Opaque bytes carrying application-supplied context.
    pub metadata: Vec<u8>,
}

impl View for SerializedEvent {
    type V = SerializedEventModel;

    open spec fn view(&self) -> SerializedEventModel {
        SerializedEventModel {
            aggregate_type: self.aggregate_type@,
            aggregate_id: self.aggregate_id@,
            sequence: self.sequence,
            event_type: self.event_type@,
            event_version: self.event_version,
            payload: self.payload@,
            metadata: self.metadata@,
        }
    }
}

impl SerializedEvent {
    pub fn new(
        aggregate_type: String,
        aggregate_id: String,
        sequence: u64,
        event_type: String,
        event_version: SemanticVersion,
        payload: Vec<u8>,
        metadata: Vec<u8>,
    ) -> (r: Self)
        ensures
            r@ == (SerializedEventModel {
                aggregate_type: aggregate_type@,
                aggregate_id: aggregate_id@,
                sequence,
                event_type: event_type@,
                event_version,
                payload: payload@,
                metadata: metadata@,
            }),
    {
        let r = SerializedEvent {
            aggregate_type,
            aggregate_id,
            sequence,
            event_type,
            event_version,
            payload,
            metadata,
        };
        proof {
            assert(r@ =~= (SerializedEventModel {
                aggregate_type: r.aggregate_type@,
                aggregate_id: r.aggregate_id@,
                sequence: r.sequence,
                event_type: r.event_type@,
                event_version: r.event_version,
                payload: r.payload@,
                metadata: r.metadata@,
            }));
        }
        r
    }

    /// An owned copy whose model is identical to `self`'s.
    pub fn duplicate(&self) -> (r: Self)
        ensures
            r@ == self@,
    {
        let payload = self.payload.clone();
        let metadata = self.metadata.clone();
        proof {
            assert(payload@ =~= self.payload@);
            assert(metadata@ =~= self.metadata@);
        }
        let r = SerializedEvent {
            aggregate_type: self.aggregate_type.clone(),
            aggregate_id: self.aggregate_id.clone(),
            sequence: self.sequence,
            event_type: self.event_type.clone(),
            event_version: self.event_version,
            payload,
            metadata,
        };
        proof {
            assert(r@ =~= self@);
        }
        r
    }
}

/// The mathematical value of a `SerializedSnapshot`.
#[verifier::ext_equal]
pub ghost struct SerializedSnapshotModel {
    pub aggregate_type: Seq<char>,
    pub aggregate_id: Seq<char>,
    pub current_sequence: u64,
    pub snapshot_version: SemanticVersion,
    pub payload: Seq<u8>,
}

/// A point-in-time encoding of aggregate state as of `current_sequence`.
/// Superseded by any snapshot with a higher `current_sequence` for the same
/// aggregate; never edited in place.
#[derive(Debug, Clone, PartialEq, Eq)]
pub struct SerializedSnapshot {
    /// The kind of domain entity the snapshot belongs to.
    pub aggregate_type: String,
    /// The identity of the aggregate instance within its kind.
    pub aggregate_id: String,
    /// The sequence of the last event folded into this snapshot.
    pub current_sequence: u64,
    /// The schema version the state payload was written under.
    pub snapshot_version: SemanticVersion,
    /// The opaque, codec-produced bytes of the aggregate state.
    pub payload: Vec<u8>,
}

impl View for SerializedSnapshot {
    type V = SerializedSnapshotModel;

    open spec fn view(&self) -> SerializedSnapshotModel {
        SerializedSnapshotModel {
            aggregate_type: self.aggregate_type@,
            aggregate_id: self.aggregate_id@,
            current_sequence: self.current_sequence,
            snapshot_version: self.snapshot_version,
            payload: self.payload@,
        }
    }
}

impl SerializedSnapshot {
    /// An owned copy whose model is identical to `self`'s.
    pub fn duplicate(&self) -> (r: Self)
        ensures
            r@ == self@,
    {
        let payload = self.payload.clone();
        proof {
            assert(payload@ =~= self.payload@);
        }
        let r = SerializedSnapshot {
            aggregate_type: self.aggregate_type.clone(),
            aggregate_id: self.aggregate_id.clone(),
            current_sequence: self.current_sequence,
            snapshot_version: self.snapshot_version,
            payload,
        };
        proof {
            assert(r@ =~= self@);
        }
        r
    }
}

} // verus!

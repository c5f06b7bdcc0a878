//! Persistence core of an event-sourcing / CQRS framework.
//!
//! Aggregate state is reconstructed by replaying a versioned event stream;
//! new events are committed under optimistic concurrency; history is
//! periodically compacted into snapshots; old event schemas are evolved
//! forward by an upcaster chain; and committed events are projected into
//! queryable read-model views.


pub mod aggregate;
pub mod context;
pub mod doc;
pub mod error;
pub mod event_store;
pub mod queries;
pub mod record;
pub mod repository;
pub mod snapshot_store;
pub mod upcaster;
pub mod version;

pub use aggregate::{Aggregate, DomainEvent, EventEnvelope};
pub use context::{EventStoreAggregateContext, QueryContext, SnapshotStoreAggregateContext};
pub use error::{AggregateError, PersistenceError, UserErrorPayload};
pub use event_store::PersistedEventStore;
pub use queries::{GenericQuery, MemoryViewRepository, Projection};
pub use record::{SerializedEvent, SerializedSnapshot};
pub use repository::MemoryEventRepository;
pub use snapshot_store::PersistedSnapshotStore;
pub use upcaster::EventUpcaster;
pub use version::SemanticVersion;

//! The snapshot store: decorates event-sourced persistence with periodic
//! state snapshots, bounding replay cost for long-lived aggregates.
//!
//! A snapshot is a performance optimization, never a correctness
//! requirement: loading from the latest snapshot plus the event tail yields
//! exactly the state a full replay from sequence 0 yields, and that
//! equivalence is part of `load`'s contract.

use vstd::prelude::*;

use crate::aggregate::{
    fold_events, fold_events_spec, lemma_fold_events_append, Aggregate, DomainEvent, EventEnvelope,
};
use crate::context::SnapshotStoreAggregateContext;
use crate::error::AggregateError;
use crate::event_store::{
    build_envelopes, build_records, decode_records, decoded_stream, lemma_decoded_stream_append,
    serialized_records,
};
use crate::record::{SerializedEventModel, SerializedSnapshot};
use crate::repository::{event_models, lemma_event_models_len, MemoryEventRepository};
use crate::upcaster::{lemma_upcast_chain_noop, EventUpcaster};
use crate::version::SemanticVersion;

verus! {

/// The chain is compatible with the codec: no upcaster applies at the
/// version and kind the codec writes, so freshly committed records pass the
/// chain untouched.
pub open spec fn chain_matches_codec<A: Aggregate, U: EventUpcaster>(chain: Seq<U>) -> bool {
    forall|e: <A as Aggregate>::Event, i: int|
        0 <= i < chain.len() ==> !#[trigger] chain[i].applicable_spec(
            e.event_type_spec(),
            e.event_version_spec(),
        )
}

/// Freshly written records pass the chain untouched and decode back to the
/// events they were built from.
proof fn lemma_records_decode<A: Aggregate, U: EventUpcaster>(
    chain: Seq<U>,
    aggregate_id: Seq<char>,
    base: u64,
    metadata: Seq<u8>,
    events: Seq<<A as Aggregate>::Event>,
)
    requires
        chain_matches_codec::<A, U>(chain),
        base + events.len() <= u64::MAX,
    ensures
        decoded_stream::<A, U>(
            chain,
            serialized_records::<A>(aggregate_id, base, metadata, events),
        ) == Some(events),
    decreases events.len(),
{
    let records = serialized_records::<A>(aggregate_id, base, metadata, events);
    if events.len() == 0 {
        assert(records.len() == 0);
        assert(events =~= Seq::<<A as Aggregate>::Event>::empty());
    } else {
        lemma_records_decode::<A, U>(chain, aggregate_id, base, metadata, events.drop_last());
        assert(records.drop_last() =~= serialized_records::<A>(
            aggregate_id,
            base,
            metadata,
            events.drop_last(),
        ));
        let last = events.last();
        let record = records.last();
        assert(record.event_type == last.event_type_spec());
        assert(record.event_version == last.event_version_spec());
        assert(record.payload == last.encode_spec());
        assert forall|i: int| 0 <= i < chain.len() implies !#[trigger] chain[i].applicable_spec(
            record.event_type,
            record.event_version,
        ) by {
            assert(!chain[i].applicable_spec(last.event_type_spec(), last.event_version_spec()));
        }
        lemma_upcast_chain_noop(chain, record);
        last.lemma_codec_round_trip();
        assert(decoded_stream::<A, U>(chain, records).unwrap() =~= events);
    }
}

/// The snapshot store for one kind of aggregate: its repository, the
/// upcaster chain, and the snapshotting policy (write a new snapshot once at
/// least `snapshot_every` events have been committed since the last one).
pub struct PersistedSnapshotStore<A: Aggregate, U: EventUpcaster> {
    repository: MemoryEventRepository,
    upcasters: Vec<U>,
    snapshot_every: u64,
    aggregate_kind: core::marker::PhantomData<A>,
}

impl<A: Aggregate, U: EventUpcaster> PersistedSnapshotStore<A, U> {
    /// The upcaster chain applied on load.
    pub closed spec fn chain(&self) -> Seq<U> {
        self.upcasters@
    }

    /// The serialized stream stored for one aggregate identity of this
    /// store's kind.
    pub closed spec fn stream_model(&self, aggregate_id: Seq<char>) -> Seq<SerializedEventModel> {
        self.repository.stream_model(A::aggregate_type_spec(), aggregate_id)
    }

    /// Whether a snapshot is stored for the identity, and at which sequence.
    pub closed spec fn snapshot_sequence_model(&self, aggregate_id: Seq<char>) -> Option<u64> {
        match self.repository.snapshot_model(A::aggregate_type_spec(), aggregate_id) {
            Some(s) => Some(s.current_sequence),
            None => None,
        }
    }

    /// A stored snapshot is always derivable by replay: it decodes to
    /// exactly the fold of the decodable stream prefix it covers.
    spec fn snapshot_consistent(&self, aggregate_id: Seq<char>) -> bool {
        match self.repository.snapshot_model(A::aggregate_type_spec(), aggregate_id) {
            None => true,
            Some(s) => {
                &&& s.snapshot_version == A::snapshot_version_spec()
                &&& s.current_sequence <= self.stream_model(aggregate_id).len()
                &&& (decoded_stream::<A, U>(
                    self.chain(),
                    self.stream_model(aggregate_id).take(s.current_sequence as int),
                ) matches Some(evs) && A::decode_state_spec(s.snapshot_version, s.payload) == Some(
                    fold_events_spec(A::initial_spec(), evs),
                ))
            },
        }
    }

    pub closed spec fn well_formed(&self) -> bool {
        &&& self.repository.well_formed()
        &&& self.snapshot_every >= 1
        &&& chain_matches_codec::<A, U>(self.upcasters@)
        &&& forall|id: Seq<char>| #[trigger] self.snapshot_consistent(id)
    }

    /// A fresh store over an empty repository.
    pub fn new(upcasters: Vec<U>, snapshot_every: u64) -> (r: Self)
        requires
            snapshot_every >= 1,
            chain_matches_codec::<A, U>(upcasters@),
        ensures
            r.well_formed(),
            r.chain() == upcasters@,
            forall|id: Seq<char>| #[trigger] r.stream_model(id) == Seq::<
                SerializedEventModel,
            >::empty(),
            forall|id: Seq<char>| #[trigger] r.snapshot_sequence_model(id) is None,
    {
        PersistedSnapshotStore {
            repository: MemoryEventRepository::new(),
            upcasters,
            snapshot_every,
            aggregate_kind: core::marker::PhantomData,
        }
    }

    /// Fetch the most recent snapshot, decode it as the starting state, then
    /// fetch and apply only the events past it. Where no snapshot exists,
    /// this behaves exactly like the plain event store: the result is in
    /// either case the state a full replay from sequence 0 yields.
    pub fn load(&self, aggregate_id: &str) -> (r: Result<
        SnapshotStoreAggregateContext<A>,
        AggregateError,
    >)
        requires
            self.well_formed(),
        ensures
            match r {
                Ok(ctx) => ctx.aggregate_id@ == aggregate_id@ && ctx.current_sequence
                    == self.stream_model(aggregate_id@).len() && ctx.snapshot_sequence
                    <= ctx.current_sequence && (decoded_stream::<A, U>(
                    self.chain(),
                    self.stream_model(aggregate_id@),
                ) matches Some(evs) && ctx.aggregate == fold_events_spec(A::initial_spec(), evs)),
                Err(e) => e is TechnicalError && decoded_stream::<A, U>(
                    self.chain(),
                    self.stream_model(aggregate_id@),
                ) is None,
            },
    {
        let ghost stream = self.stream_model(aggregate_id@);
        proof {
            self.repository.lemma_stream_model_wf(A::aggregate_type_spec(), aggregate_id@);
            assert(self.snapshot_consistent(aggregate_id@));
        }
        let aggregate_type = A::aggregate_type();
        match self.repository.load_snapshot(aggregate_type.as_str(), aggregate_id) {
            None => {
                let raw = self.repository.load_events(aggregate_type.as_str(), aggregate_id);
                let decoded = match decode_records::<A, U>(&self.upcasters, &raw) {
                    Ok(evs) => evs,
                    Err(pe) => {
                        return Err(pe.into_aggregate_error());
                    },
                };
                let mut state = A::initial();
                fold_events(&mut state, &decoded);
                proof {
                    lemma_event_models_len(raw@);
                }
                let current_sequence = raw.len() as u64;
                Ok(
                    SnapshotStoreAggregateContext {
                        aggregate_id: aggregate_id.to_owned(),
                        aggregate: state,
                        current_sequence,
                        snapshot_sequence: 0,
                    },
                )
            },
            Some(snapshot) => {
                let baseline = snapshot.current_sequence;
                let mut state = match A::decode_state(
                    &snapshot.snapshot_version,
                    snapshot.payload.as_slice(),
                ) {
                    Ok(s) => s,
                    Err(pe) => {
                        // a stored snapshot always decodes: it was written by
                        // this store from a state the codec had just encoded
                        proof {
                            assert(false);
                        }
                        return Err(pe.into_aggregate_error());
                    },
                };
                let raw_tail = self.repository.load_events_after(
                    aggregate_type.as_str(),
                    aggregate_id,
                    baseline,
                );
                let ghost prefix = stream.take(baseline as int);
                let ghost tail = stream.skip(baseline as int);
                proof {
                    assert(prefix + tail =~= stream);
                }
                let decoded_tail = match decode_records::<A, U>(&self.upcasters, &raw_tail) {
                    Ok(evs) => evs,
                    Err(pe) => {
                        proof {
                            lemma_decoded_stream_append::<A, U>(self.chain(), prefix, tail);
                        }
                        return Err(pe.into_aggregate_error());
                    },
                };
                fold_events(&mut state, &decoded_tail);
                proof {
                    lemma_decoded_stream_append::<A, U>(self.chain(), prefix, tail);
                    let evs_prefix = decoded_stream::<A, U>(self.chain(), prefix).unwrap();
                    let evs_tail = decoded_stream::<A, U>(self.chain(), tail).unwrap();
                    lemma_fold_events_append(A::initial_spec(), evs_prefix, evs_tail);
                    lemma_event_models_len(raw_tail@);
                }
                let current_sequence = baseline + raw_tail.len() as u64;
                Ok(
                    SnapshotStoreAggregateContext {
                        aggregate_id: aggregate_id.to_owned(),
                        aggregate: state,
                        current_sequence,
                        snapshot_sequence: baseline,
                    },
                )
            },
        }
    }

    /// Atomically append the new events after the context's baseline, under
    /// the same optimistic-concurrency guard as the plain event store; then,
    /// where at least `snapshot_every` events have been committed since the
    /// context's snapshot, also write a snapshot of the resulting state at
    /// the now-current sequence. The snapshot write is evaluated only after
    /// the event commit has succeeded and never fails it; a skipped or
    /// superseded snapshot is always derivable by replay.
    pub fn commit(
        &mut self,
        context: SnapshotStoreAggregateContext<A>,
        events: Vec<<A as Aggregate>::Event>,
        metadata: &Vec<u8>,
    ) -> (r: Result<Vec<EventEnvelope<A>>, AggregateError>)
        requires
            old(self).well_formed(),
            context.snapshot_sequence <= context.current_sequence,
            context.current_sequence == old(self).stream_model(context.aggregate_id@).len() ==> (
            decoded_stream::<A, U>(
                old(self).chain(),
                old(self).stream_model(context.aggregate_id@),
            ) matches Some(evs) && context.aggregate == fold_events_spec(A::initial_spec(), evs)),
        ensures
            final(self).well_formed(),
            final(self).chain() == old(self).chain(),
            ({
                let stream = old(self).stream_model(context.aggregate_id@);
                match r {
                    Ok(envelopes) => context.current_sequence + events@.len() <= u64::MAX
                        && stream.len() == context.current_sequence && final(self).stream_model(
                        context.aggregate_id@,
                    ) == stream + serialized_records::<A>(
                        context.aggregate_id@,
                        context.current_sequence,
                        metadata@,
                        events@,
                    ) && envelopes@.len() == events@.len() && (forall|k: int|
                        0 <= k < events@.len() ==> {
                            let env = #[trigger] envelopes@[k];
                            &&& env.aggregate_id@ == context.aggregate_id@
                            &&& env.sequence == context.current_sequence + 1 + k
                            &&& env.payload == events@[k]
                        }),
                    Err(e) => *final(self) == *old(self) && match e {
                        AggregateError::AggregateConflict => context.current_sequence
                            + events@.len() <= u64::MAX && stream.len()
                            != context.current_sequence,
                        AggregateError::TechnicalError(_) => context.current_sequence
                            + events@.len() > u64::MAX,
                        AggregateError::UserError(_) => false,
                    },
                }
            }),
            forall|id: Seq<char>|
                id != context.aggregate_id@ ==> #[trigger] final(self).stream_model(id) == old(
                    self,
                ).stream_model(id) && final(self).snapshot_sequence_model(id) == old(
                    self,
                ).snapshot_sequence_model(id),
    {
        if events.len() as u64 > u64::MAX - context.current_sequence {
            return Err(AggregateError::new_technical_error("sequence overflow"));
        }
        let ghost old_stream = self.stream_model(context.aggregate_id@);
        let aggregate_type = A::aggregate_type();
        let records = build_records::<A>(
            &aggregate_type,
            &context.aggregate_id,
            context.current_sequence,
            metadata,
            &events,
        );
        let outcome = self.repository.persist_events(
            aggregate_type.as_str(),
            context.aggregate_id.as_str(),
            context.current_sequence,
            &records,
        );
        match outcome {
            Err(pe) => Err(pe.into_aggregate_error()),
            Ok(()) => {
                let ghost written = serialized_records::<A>(
                    context.aggregate_id@,
                    context.current_sequence,
                    metadata@,
                    events@,
                );
                proof {
                    assert(self.stream_model(context.aggregate_id@).take(old_stream.len() as int)
                        =~= old_stream);
                    self.lemma_snapshots_still_consistent(*old(self), context.aggregate_id@);
                }
                let new_sequence = context.current_sequence + events.len() as u64;
                if new_sequence - context.snapshot_sequence >= self.snapshot_every {
                    let mut state = context.aggregate;
                    fold_events(&mut state, &events);
                    let snapshot = SerializedSnapshot {
                        aggregate_type: aggregate_type.clone(),
                        aggregate_id: context.aggregate_id.clone(),
                        current_sequence: new_sequence,
                        snapshot_version: A::snapshot_version(),
                        payload: A::encode_state(&state),
                    };
                    let ghost mid = *self;
                    proof {
                        let chain = self.chain();
                        let evs0 = decoded_stream::<A, U>(chain, old_stream).unwrap();
                        lemma_records_decode::<A, U>(
                            chain,
                            context.aggregate_id@,
                            context.current_sequence,
                            metadata@,
                            events@,
                        );
                        lemma_decoded_stream_append::<A, U>(chain, old_stream, written);
                        lemma_fold_events_append(A::initial_spec(), evs0, events@);
                        state.lemma_state_codec_round_trip();
                        assert(snapshot@.aggregate_type =~= A::aggregate_type_spec());
                        assert(snapshot@.payload =~= state.encode_state_spec());
                    }
                    let _ = self.repository.persist_snapshot(snapshot);
                    proof {
                        let this = context.aggregate_id@;
                        assert(self.stream_model(this).take(new_sequence as int) =~= self
                            .stream_model(this));
                        assert(self.snapshot_consistent(this));
                        assert forall|id: Seq<char>| #[trigger] self.snapshot_consistent(id) by {
                            if id != this {
                                assert(mid.snapshot_consistent(id));
                                assert(self.stream_model(id) == mid.stream_model(id));
                            }
                        }
                    }
                }
                Ok(build_envelopes::<A>(&context.aggregate_id, context.current_sequence, events))
            },
        }
    }

    /// Handle one command end to end: load the aggregate (snapshot-assisted),
    /// let it validate the command, and commit exactly the events it
    /// produced, snapshotting by policy. Success is owed exactly when the
    /// stream decodes, the replayed state accepts the command, and the new
    /// sequence fits; each failure names its source: a record that does not
    /// decode is a technical error, a rejection is the handler's own user
    /// error carried to the caller unchanged, a sequence past the counter's
    /// range is a technical error. A failure commits nothing, and under this
    /// store's exclusive access the commit baseline cannot go stale, so the
    /// cycle never reports a conflict.
    pub fn execute(&mut self, aggregate_id: &str, command: &<A as Aggregate>::Command) -> (r:
        Result<(), AggregateError>)
        requires
            old(self).well_formed(),
        ensures
            final(self).well_formed(),
            final(self).chain() == old(self).chain(),
            ({
                let stream = old(self).stream_model(aggregate_id@);
                let decoded = decoded_stream::<A, U>(old(self).chain(), stream);
                match r {
                    Ok(()) => decoded matches Some(evs) && (fold_events_spec(
                        A::initial_spec(),
                        evs,
                    ).handle_spec(*command) matches Ok(produced) && stream.len() + produced.len()
                        <= u64::MAX && final(self).stream_model(aggregate_id@) == stream
                        + serialized_records::<A>(
                        aggregate_id@,
                        stream.len() as u64,
                        Seq::<u8>::empty(),
                        produced,
                    )),
                    Err(e) => *final(self) == *old(self) && {
                        ||| (decoded is None && e is TechnicalError)
                        ||| (decoded matches Some(evs) && (fold_events_spec(
                            A::initial_spec(),
                            evs,
                        ).handle_spec(*command) matches Err(rejection) && (e matches AggregateError::UserError(
                            p,
                        ) && p@ == rejection)))
                        ||| (decoded matches Some(evs) && (fold_events_spec(
                            A::initial_spec(),
                            evs,
                        ).handle_spec(*command) matches Ok(produced) && stream.len()
                            + produced.len() > u64::MAX && e is TechnicalError))
                    },
                }
            }),
            forall|id: Seq<char>|
                id != aggregate_id@ ==> #[trigger] final(self).stream_model(id) == old(
                    self,
                ).stream_model(id),
    {
        let ghost stream = old(self).stream_model(aggregate_id@);
        let ghost decoded = decoded_stream::<A, U>(old(self).chain(), stream);
        let context = match self.load(aggregate_id) {
            Ok(ctx) => ctx,
            Err(e) => {
                return Err(e);
            },
        };
        let events = match context.aggregate.handle(command) {
            Ok(events) => events,
            Err(e) => {
                return Err(e);
            },
        };
        let ghost produced = events@;
        let ghost baseline = context.current_sequence;
        let metadata: Vec<u8> = Vec::new();
        match self.commit(context, events, &metadata) {
            Ok(_) => {
                proof {
                    assert(Seq::<u8>::empty() =~= metadata@);
                    assert(baseline == stream.len() as u64);
                    assert(self.stream_model(aggregate_id@) == stream + serialized_records::<A>(
                        aggregate_id@,
                        stream.len() as u64,
                        Seq::<u8>::empty(),
                        produced,
                    ));
                }
                Ok(())
            },
            Err(e) => Err(e),
        }
    }

    /// After an append to one identity's stream, every stored snapshot still
    /// covers a prefix of its stream and still decodes to that prefix's
    /// fold: appends never invalidate earlier snapshots.
    proof fn lemma_snapshots_still_consistent(
        &self,
        before: Self,
        appended_id: Seq<char>,
    )
        requires
            before.well_formed(),
            self.repository.well_formed(),
            self.upcasters == before.upcasters,
            self.snapshot_every == before.snapshot_every,
            before.stream_model(appended_id).len() <= self.stream_model(appended_id).len(),
            self.stream_model(appended_id).take(
                before.stream_model(appended_id).len() as int,
            ) == before.stream_model(appended_id),
            forall|id: Seq<char>|
                id != appended_id ==> #[trigger] self.stream_model(id) == before.stream_model(id),
            forall|id: Seq<char>| #[trigger] self.repository.snapshot_model(
                A::aggregate_type_spec(),
                id,
            ) == before.repository.snapshot_model(A::aggregate_type_spec(), id),
        ensures
            self.well_formed(),
    {
        assert forall|id: Seq<char>| #[trigger] self.snapshot_consistent(id) by {
            assert(before.snapshot_consistent(id));
            if id == appended_id {
                match self.repository.snapshot_model(A::aggregate_type_spec(), id) {
                    None => {},
                    Some(s) => {
                        assert(self.stream_model(id).take(s.current_sequence as int)
                            =~= before.stream_model(id).take(s.current_sequence as int));
                    },
                }
            }
        }
    }
}

} // verus!

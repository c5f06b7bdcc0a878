//! The event store: reconstructs an aggregate by replaying its serialized
//! event stream through the upcaster chain, and commits newly produced
//! events under optimistic concurrency.

use vstd::prelude::*;

use crate::aggregate::{fold_events, fold_events_spec, Aggregate, DomainEvent, EventEnvelope};
use crate::context::EventStoreAggregateContext;
use crate::error::{AggregateError, PersistenceError};
use crate::record::{SerializedEvent, SerializedEventModel};
use crate::repository::{
    event_models, lemma_event_models_index, lemma_event_models_len, MemoryEventRepository,
};
use crate::upcaster::{upcast_chain_spec, upcast_event, EventUpcaster};

verus! {

/// The domain events a stored stream yields: each record is upcast through
/// the chain and then decoded; `None` where any record fails to decode.
pub open spec fn decoded_stream<A: Aggregate, U: EventUpcaster>(
    chain: Seq<U>,
    events: Seq<SerializedEventModel>,
) -> Option<Seq<<A as Aggregate>::Event>>
    decreases events.len(),
{
    if events.len() == 0 {
        Some(Seq::empty())
    } else {
        match decoded_stream::<A, U>(chain, events.drop_last()) {
            None => None,
            Some(prefix) => {
                let up = upcast_chain_spec(chain, events.last());
                match <A::Event as DomainEvent>::decode_spec(
                    up.event_type,
                    up.event_version,
                    up.payload,
                ) {
                    Some(e) => Some(prefix.push(e)),
                    None => None,
                }
            },
        }
    }
}

/// Whether one record fails to decode after upcasting sinks the whole
/// stream.
proof fn lemma_decoded_stream_failure<A: Aggregate, U: EventUpcaster>(
    chain: Seq<U>,
    events: Seq<SerializedEventModel>,
    i: int,
)
    requires
        0 <= i < events.len(),
        ({
            let up = upcast_chain_spec(chain, events[i]);
            <A::Event as DomainEvent>::decode_spec(up.event_type, up.event_version, up.payload)
                is None
        }),
    ensures
        decoded_stream::<A, U>(chain, events) is None,
    decreases events.len(),
{
    if i < events.len() - 1 {
        assert(events.drop_last()[i] == events[i]);
        lemma_decoded_stream_failure::<A, U>(chain, events.drop_last(), i);
    }
}

/// Decoding a concatenation decodes each part: a failed part sinks the
/// whole, and two decoded parts concatenate.
pub proof fn lemma_decoded_stream_append<A: Aggregate, U: EventUpcaster>(
    chain: Seq<U>,
    prefix: Seq<SerializedEventModel>,
    tail: Seq<SerializedEventModel>,
)
    ensures
        decoded_stream::<A, U>(chain, prefix) is None ==> decoded_stream::<A, U>(
            chain,
            prefix + tail,
        ) is None,
        decoded_stream::<A, U>(chain, tail) is None ==> decoded_stream::<A, U>(
            chain,
            prefix + tail,
        ) is None,
        ({
            match (decoded_stream::<A, U>(chain, prefix), decoded_stream::<A, U>(chain, tail)) {
                (Some(a), Some(b)) => decoded_stream::<A, U>(chain, prefix + tail) == Some(a + b),
                _ => true,
            }
        }),
    decreases tail.len(),
{
    if tail.len() == 0 {
        assert(prefix + tail =~= prefix);
        if decoded_stream::<A, U>(chain, prefix) is Some {
            let a = decoded_stream::<A, U>(chain, prefix).unwrap();
            assert(a + Seq::<<A as Aggregate>::Event>::empty() =~= a);
        }
    } else {
        lemma_decoded_stream_append::<A, U>(chain, prefix, tail.drop_last());
        assert((prefix + tail).drop_last() =~= prefix + tail.drop_last());
        assert((prefix + tail).last() == tail.last());
        if decoded_stream::<A, U>(chain, prefix) is Some && decoded_stream::<A, U>(
            chain,
            tail,
        ) is Some {
            let a = decoded_stream::<A, U>(chain, prefix).unwrap();
            let b = decoded_stream::<A, U>(chain, tail).unwrap();
            let bp = decoded_stream::<A, U>(chain, tail.drop_last()).unwrap();
            assert(a + bp.push(b.last()) =~= (a + bp).push(b.last()));
            assert(b =~= bp.push(b.last()));
        }
    }
}

/// Upcast each record of `raw` through the chain, in order, and decode it.
pub(crate) fn decode_records<A: Aggregate, U: EventUpcaster>(
    upcasters: &Vec<U>,
    raw: &Vec<SerializedEvent>,
) -> (r: Result<Vec<<A as Aggregate>::Event>, PersistenceError>)
    ensures
        match r {
            Ok(evs) => decoded_stream::<A, U>(upcasters@, event_models(raw@)) == Some(evs@),
            Err(e) => e is Technical && decoded_stream::<A, U>(
                upcasters@,
                event_models(raw@),
            ) is None,
        },
{
    let ghost stream = event_models(raw@);
    proof {
        lemma_event_models_len(raw@);
    }
    let mut decoded: Vec<<A as Aggregate>::Event> = Vec::new();
    let mut i: usize = 0;
    while i < raw.len()
        invariant
            0 <= i <= raw@.len(),
            stream == event_models(raw@),
            raw@.len() == stream.len(),
            decoded_stream::<A, U>(upcasters@, stream.take(i as int)) == Some(decoded@),
        decreases raw@.len() - i,
    {
        proof {
            lemma_event_models_index(raw@, i as int);
        }
        let upcast = upcast_event(upcasters, raw[i].duplicate());
        let decoded_one = <A::Event as DomainEvent>::decode(
            upcast.event_type.as_str(),
            &upcast.event_version,
            upcast.payload.as_slice(),
        );
        match decoded_one {
            Ok(ev) => {
                decoded.push(ev);
                proof {
                    assert(stream.take(i + 1 as int).drop_last() =~= stream.take(i as int));
                    assert(stream.take(i + 1 as int).last() == stream[i as int]);
                }
            },
            Err(pe) => {
                proof {
                    lemma_decoded_stream_failure::<A, U>(upcasters@, stream, i as int);
                }
                return Err(pe);
            },
        }
        i = i + 1;
    }
    proof {
        assert(stream.take(stream.len() as int) =~= stream);
    }
    Ok(decoded)
}

/// The records a commit writes for a run of new events: appended immediately
/// after `base`, keyed by the aggregate's identity, each event encoded by
/// its own codec.
pub open spec fn serialized_records<A: Aggregate>(
    aggregate_id: Seq<char>,
    base: u64,
    metadata: Seq<u8>,
    events: Seq<<A as Aggregate>::Event>,
) -> Seq<SerializedEventModel> {
    Seq::new(
        events.len(),
        |k: int|
            SerializedEventModel {
                aggregate_type: A::aggregate_type_spec(),
                aggregate_id: aggregate_id,
                sequence: (base + 1 + k) as u64,
                event_type: events[k].event_type_spec(),
                event_version: events[k].event_version_spec(),
                payload: events[k].encode_spec(),
                metadata: metadata,
            },
    )
}

/// Wrap each new event into the serialized record that commits it.
pub(crate) fn build_records<A: Aggregate>(
    aggregate_type: &String,
    aggregate_id: &String,
    base: u64,
    metadata: &Vec<u8>,
    events: &Vec<<A as Aggregate>::Event>,
) -> (r: Vec<SerializedEvent>)
    requires
        aggregate_type@ == A::aggregate_type_spec(),
        base + events@.len() <= u64::MAX,
    ensures
        event_models(r@) == serialized_records::<A>(aggregate_id@, base, metadata@, events@),
        r@.len() == events@.len(),
        forall|j: int|
            0 <= j < r@.len() ==> {
                let ev = (#[trigger] r@[j])@;
                &&& ev.aggregate_type == A::aggregate_type_spec()
                &&& ev.aggregate_id == aggregate_id@
                &&& ev.sequence == base + j + 1
            },
{
    let mut records: Vec<SerializedEvent> = Vec::new();
    let mut k: usize = 0;
    while k < events.len()
        invariant
            0 <= k <= events@.len(),
            base + events@.len() <= u64::MAX,
            aggregate_type@ == A::aggregate_type_spec(),
            records@.len() == k,
            forall|j: int|
                0 <= j < k ==> (#[trigger] records@[j])@ == serialized_records::<A>(
                    aggregate_id@,
                    base,
                    metadata@,
                    events@,
                )[j],
        decreases events@.len() - k,
    {
        let event = &events[k];
        let record = SerializedEvent::new(
            aggregate_type.clone(),
            aggregate_id.clone(),
            base + (k as u64) + 1,
            event.event_type(),
            event.event_version(),
            event.encode(),
            metadata.clone(),
        );
        proof {
            assert(metadata@ =~= record@.metadata);
        }
        records.push(record);
        k = k + 1;
    }
    proof {
        assert(event_models(records@) =~= serialized_records::<A>(
            aggregate_id@,
            base,
            metadata@,
            events@,
        ));
        assert forall|j: int| 0 <= j < records@.len() implies {
            let ev = (#[trigger] records@[j])@;
            &&& ev.aggregate_type == A::aggregate_type_spec()
            &&& ev.aggregate_id == aggregate_id@
            &&& ev.sequence == base + j + 1
        } by {
            lemma_event_models_index(records@, j);
        }
    }
    records
}

/// Wrap each committed event into the envelope delivered to the read side.
pub(crate) fn build_envelopes<A: Aggregate>(
    aggregate_id: &String,
    base: u64,
    events: Vec<<A as Aggregate>::Event>,
) -> (r: Vec<EventEnvelope<A>>)
    requires
        base + events@.len() <= u64::MAX,
    ensures
        r@.len() == events@.len(),
        forall|m: int|
            0 <= m < events@.len() ==> {
                let env = #[trigger] r@[m];
                &&& env.aggregate_id@ == aggregate_id@
                &&& env.sequence == base + 1 + m
                &&& env.payload == events@[m]
            },
{
    let mut remaining = events;
    let total = remaining.len();
    let mut envelopes: Vec<EventEnvelope<A>> = Vec::new();
    let mut j: usize = 0;
    let ghost all = remaining@;
    proof {
        assert(all.len() == total);
    }
    while remaining.len() > 0
        invariant
            0 <= j <= all.len(),
            all.len() <= usize::MAX,
            base + all.len() <= u64::MAX,
            remaining@ =~= all.skip(j as int),
            envelopes@.len() == j,
            forall|m: int|
                0 <= m < j ==> {
                    let env = #[trigger] envelopes@[m];
                    &&& env.aggregate_id@ == aggregate_id@
                    &&& env.sequence == base + 1 + m
                    &&& env.payload == all[m]
                },
        decreases remaining@.len(),
    {
        let payload = remaining.remove(0);
        let envelope = EventEnvelope {
            aggregate_id: aggregate_id.clone(),
            sequence: base + (j as u64) + 1,
            payload,
        };
        envelopes.push(envelope);
        proof {
            assert(remaining@ =~= all.skip(j + 1 as int));
        }
        j = j + 1;
    }
    envelopes
}

/// The event store for one kind of aggregate: its repository and the
/// upcaster chain applied to every loaded record.
pub struct PersistedEventStore<A: Aggregate, U: EventUpcaster> {
    repository: MemoryEventRepository,
    upcasters: Vec<U>,
    aggregate_kind: core::marker::PhantomData<A>,
}

impl<A: Aggregate, U: EventUpcaster> PersistedEventStore<A, U> {
    /// The upcaster chain applied on load.
    pub closed spec fn chain(&self) -> Seq<U> {
        self.upcasters@
    }

    /// The serialized stream stored for one aggregate identity of this
    /// store's kind.
    pub closed spec fn stream_model(&self, aggregate_id: Seq<char>) -> Seq<SerializedEventModel> {
        self.repository.stream_model(A::aggregate_type_spec(), aggregate_id)
    }

    pub closed spec fn well_formed(&self) -> bool {
        self.repository.well_formed()
    }

    /// A fresh store over an empty repository.
    pub fn new(upcasters: Vec<U>) -> (r: Self)
        ensures
            r.well_formed(),
            r.chain() == upcasters@,
            forall|id: Seq<char>| #[trigger] r.stream_model(id) == Seq::<
                SerializedEventModel,
            >::empty(),
    {
        PersistedEventStore {
            repository: MemoryEventRepository::new(),
            upcasters,
            aggregate_kind: core::marker::PhantomData,
        }
    }

    /// A store over an existing repository, as when history written by an
    /// earlier deployment is taken over.
    pub fn with_repository(repository: MemoryEventRepository, upcasters: Vec<U>) -> (r: Self)
        requires
            repository.well_formed(),
        ensures
            r.well_formed(),
            r.chain() == upcasters@,
            forall|id: Seq<char>| #[trigger] r.stream_model(id) == repository.stream_model(
                A::aggregate_type_spec(),
                id,
            ),
    {
        PersistedEventStore { repository, upcasters, aggregate_kind: core::marker::PhantomData }
    }

    /// Fetch the identity's whole history, upcast every record, decode it,
    /// and fold the events in order from the fresh initial state. An empty
    /// history yields the initial state at sequence 0, not an error; a record
    /// that cannot be brought to a decodable schema is a technical error.
    pub fn load(&self, aggregate_id: &str) -> (r: Result<
        EventStoreAggregateContext<A>,
        AggregateError,
    >)
        requires
            self.well_formed(),
        ensures
            match r {
                Ok(ctx) => ctx.aggregate_id@ == aggregate_id@ && ctx.current_sequence
                    == self.stream_model(aggregate_id@).len() && (decoded_stream::<A, U>(
                    self.chain(),
                    self.stream_model(aggregate_id@),
                ) matches Some(evs) && ctx.aggregate == fold_events_spec(A::initial_spec(), evs)),
                Err(e) => e is TechnicalError && decoded_stream::<A, U>(
                    self.chain(),
                    self.stream_model(aggregate_id@),
                ) is None,
            },
    {
        proof {
            self.repository.lemma_stream_model_wf(A::aggregate_type_spec(), aggregate_id@);
        }
        let aggregate_type = A::aggregate_type();
        let raw = self.repository.load_events(aggregate_type.as_str(), aggregate_id);
        let decoded = match decode_records::<A, U>(&self.upcasters, &raw) {
            Ok(evs) => evs,
            Err(pe) => {
                return Err(pe.into_aggregate_error());
            },
        };
        let mut state = A::initial();
        fold_events(&mut state, &decoded);
        proof {
            lemma_event_models_len(raw@);
        }
        let current_sequence = raw.len() as u64;
        Ok(
            EventStoreAggregateContext {
                aggregate_id: aggregate_id.to_owned(),
                aggregate: state,
                current_sequence,
            },
        )
    }

    /// Atomically append the new events immediately after the context's
    /// baseline sequence. A baseline that another commit has already advanced
    /// past fails with an aggregate conflict and changes nothing; the
    /// caller's remedy is to reload and retry from scratch. On success the
    /// stream is advanced by exactly the new events, and the committed events
    /// are returned as envelopes for delivery to the read side.
    pub fn commit(
        &mut self,
        context: EventStoreAggregateContext<A>,
        events: Vec<<A as Aggregate>::Event>,
        metadata: &Vec<u8>,
    ) -> (r: Result<Vec<EventEnvelope<A>>, AggregateError>)
        requires
            old(self).well_formed(),
        ensures
            final(self).well_formed(),
            final(self).chain() == old(self).chain(),
            ({
                let stream = old(self).stream_model(context.aggregate_id@);
                match r {
                    Ok(envelopes) => context.current_sequence + events@.len() <= u64::MAX
                        && stream.len() == context.current_sequence && final(self).stream_model(
                        context.aggregate_id@,
                    ) == stream + serialized_records::<A>(
                        context.aggregate_id@,
                        context.current_sequence,
                        metadata@,
                        events@,
                    ) && envelopes@.len() == events@.len() && (forall|k: int|
                        0 <= k < events@.len() ==> {
                            let env = #[trigger] envelopes@[k];
                            &&& env.aggregate_id@ == context.aggregate_id@
                            &&& env.sequence == context.current_sequence + 1 + k
                            &&& env.payload == events@[k]
                        }),
                    Err(e) => *final(self) == *old(self) && match e {
                        AggregateError::AggregateConflict => context.current_sequence
                            + events@.len() <= u64::MAX && stream.len()
                            != context.current_sequence,
                        AggregateError::TechnicalError(_) => context.current_sequence
                            + events@.len() > u64::MAX,
                        AggregateError::UserError(_) => false,
                    },
                }
            }),
            forall|id: Seq<char>|
                id != context.aggregate_id@ ==> #[trigger] final(self).stream_model(id) == old(
                    self,
                ).stream_model(id),
    {
        if events.len() as u64 > u64::MAX - context.current_sequence {
            return Err(AggregateError::new_technical_error("sequence overflow"));
        }
        let aggregate_type = A::aggregate_type();
        let records = build_records::<A>(
            &aggregate_type,
            &context.aggregate_id,
            context.current_sequence,
            metadata,
            &events,
        );
        let outcome = self.repository.persist_events(
            aggregate_type.as_str(),
            context.aggregate_id.as_str(),
            context.current_sequence,
            &records,
        );
        match outcome {
            Err(pe) => Err(pe.into_aggregate_error()),
            Ok(()) => Ok(
                build_envelopes::<A>(&context.aggregate_id, context.current_sequence, events),
            ),
        }
    }

    /// Handle one command end to end: load the aggregate, let it validate the
    /// command, and commit exactly the events it produced. Success is owed
    /// exactly when the stream decodes, the replayed state accepts the
    /// command, and the new sequence fits; each failure names its source: a
    /// record that does not decode is a technical error, a rejection is the
    /// handler's own user error carried to the caller unchanged, a sequence
    /// past the counter's range is a technical error. A failure commits
    /// nothing, and under this store's exclusive access the commit baseline
    /// cannot go stale, so the cycle never reports a conflict.
    pub fn execute(&mut self, aggregate_id: &str, command: &<A as Aggregate>::Command) -> (r:
        Result<(), AggregateError>)
        requires
            old(self).well_formed(),
        ensures
            final(self).well_formed(),
            final(self).chain() == old(self).chain(),
            ({
                let stream = old(self).stream_model(aggregate_id@);
                let decoded = decoded_stream::<A, U>(old(self).chain(), stream);
                match r {
                    Ok(()) => decoded matches Some(evs) && (fold_events_spec(
                        A::initial_spec(),
                        evs,
                    ).handle_spec(*command) matches Ok(produced) && stream.len() + produced.len()
                        <= u64::MAX && final(self).stream_model(aggregate_id@) == stream
                        + serialized_records::<A>(
                        aggregate_id@,
                        stream.len() as u64,
                        Seq::<u8>::empty(),
                        produced,
                    )),
                    Err(e) => *final(self) == *old(self) && {
                        ||| (decoded is None && e is TechnicalError)
                        ||| (decoded matches Some(evs) && (fold_events_spec(
                            A::initial_spec(),
                            evs,
                        ).handle_spec(*command) matches Err(rejection) && (e matches AggregateError::UserError(
                            p,
                        ) && p@ == rejection)))
                        ||| (decoded matches Some(evs) && (fold_events_spec(
                            A::initial_spec(),
                            evs,
                        ).handle_spec(*command) matches Ok(produced) && stream.len()
                            + produced.len() > u64::MAX && e is TechnicalError))
                    },
                }
            }),
            forall|id: Seq<char>|
                id != aggregate_id@ ==> #[trigger] final(self).stream_model(id) == old(
                    self,
                ).stream_model(id),
    {
        let ghost stream = old(self).stream_model(aggregate_id@);
        let ghost decoded = decoded_stream::<A, U>(old(self).chain(), stream);
        let context = match self.load(aggregate_id) {
            Ok(ctx) => ctx,
            Err(e) => {
                return Err(e);
            },
        };
        let events = match context.aggregate.handle(command) {
            Ok(events) => events,
            Err(e) => {
                return Err(e);
            },
        };
        let ghost produced = events@;
        let ghost baseline = context.current_sequence;
        let metadata: Vec<u8> = Vec::new();
        match self.commit(context, events, &metadata) {
            Ok(_) => {
                proof {
                    assert(Seq::<u8>::empty() =~= metadata@);
                    assert(baseline == stream.len() as u64);
                    assert(self.stream_model(aggregate_id@) == stream + serialized_records::<A>(
                        aggregate_id@,
                        stream.len() as u64,
                        Seq::<u8>::empty(),
                        produced,
                    ));
                }
                Ok(())
            },
            Err(e) => Err(e),
        }
    }
}

} // verus!

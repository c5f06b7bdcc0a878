//! The capability set a concrete domain supplies: a domain event with its
//! codec, and an aggregate with its apply and command-handling steps.
//!
//! The store is generic over these capabilities; it never depends on a
//! specific domain type.

use vstd::prelude::*;

use crate::error::{AggregateError, PersistenceError, UserErrorPayloadModel};
use crate::version::SemanticVersion;

verus! {

/// An immutable, versioned fact produced by a successfully handled command.
///
/// Implementors also supply the codec between the event and the opaque
/// payload bytes of a serialized record, and must prove that the codec
/// round-trips.
pub trait DomainEvent: Sized {
    /// The name of the event kind.
    spec fn event_type_spec(self) -> Seq<char>;

    /// The schema version the codec writes the event under.
    spec fn event_version_spec(self) -> SemanticVersion;

    /// The payload bytes the codec writes for the event.
    spec fn encode_spec(self) -> Seq<u8>;

    /// The event read back from a `(event_type, event_version, payload)`
    /// triple, or `None` where the triple does not decode.
    spec fn decode_spec(
        event_type: Seq<char>,
        event_version: SemanticVersion,
        payload: Seq<u8>,
    ) -> Option<Self>;

    fn event_type(&self) -> (r: String)
        ensures
            r@ == self.event_type_spec(),
    ;

    fn event_version(&self) -> (r: SemanticVersion)
        ensures
            r == self.event_version_spec(),
    ;

    fn encode(&self) -> (r: Vec<u8>)
        ensures
            r@ == self.encode_spec(),
    ;

    /// Decoding fails with a technical error exactly where the triple does
    /// not decode; a malformed payload is never a user error or a conflict.
    fn decode(event_type: &str, event_version: &SemanticVersion, payload: &[u8]) -> (r: Result<
        Self,
        PersistenceError,
    >)
        ensures
            match Self::decode_spec(event_type@, *event_version, payload@) {
                Some(e) => r matches Ok(d) && d == e,
                None => r matches Err(e) && e is Technical,
            },
    ;

    /// Law: decoding what the codec encoded returns the original event, all
    /// fields and version included.
    proof fn lemma_codec_round_trip(self)
        ensures
            Self::decode_spec(
                self.event_type_spec(),
                self.event_version_spec(),
                self.encode_spec(),
            ) == Some(self),
    ;
}

/// A domain entity whose state is derived solely by replaying its event
/// history: the state at sequence N is exactly the fold of events 1..N in
/// order, and there is no other way to reach that state.
pub trait Aggregate: Sized {
    /// The facts this aggregate records.
    type Event: DomainEvent;

    /// The requests this aggregate validates.
    type Command;

    /// The name of this kind of domain entity.
    spec fn aggregate_type_spec() -> Seq<char>;

    /// The fresh state before any event has been applied.
    spec fn initial_spec() -> Self;

    /// The pure state-transition step of the replay fold.
    spec fn apply_spec(self, event: Self::Event) -> Self;

    /// The pure decision of command handling: the events the command
    /// produces against this state, or the user error that rejects it.
    spec fn handle_spec(self, command: Self::Command) -> Result<
        Seq<Self::Event>,
        UserErrorPayloadModel,
    >;

    /// The schema version the state codec writes snapshots under.
    spec fn snapshot_version_spec() -> SemanticVersion;

    /// The payload bytes the state codec writes for a snapshot of `self`.
    spec fn encode_state_spec(self) -> Seq<u8>;

    /// The state read back from a `(snapshot_version, payload)` pair, or
    /// `None` where the pair does not decode.
    spec fn decode_state_spec(snapshot_version: SemanticVersion, payload: Seq<u8>) -> Option<Self>;

    fn aggregate_type() -> (r: String)
        ensures
            r@ == Self::aggregate_type_spec(),
    ;

    fn initial() -> (r: Self)
        ensures
            r == Self::initial_spec(),
    ;

    fn apply(&mut self, event: &Self::Event)
        ensures
            *final(self) == Self::apply_spec(*old(self), *event),
    ;

    /// Validate a command against the current state: produce exactly the
    /// events `handle_spec` decides, or reject the command with exactly the
    /// user error it decides. A rejection is always a business-rule
    /// violation: only command handling may raise a user error, and it may
    /// raise nothing else.
    fn handle(&self, command: &Self::Command) -> (r: Result<Vec<Self::Event>, AggregateError>)
        ensures
            match self.handle_spec(*command) {
                Ok(evs) => r matches Ok(v) && v@ == evs,
                Err(rejection) => r matches Err(e) && (e matches AggregateError::UserError(p)
                    && p@ == rejection),
            },
    ;

    fn snapshot_version() -> (r: SemanticVersion)
        ensures
            r == Self::snapshot_version_spec(),
    ;

    fn encode_state(&self) -> (r: Vec<u8>)
        ensures
            r@ == self.encode_state_spec(),
    ;

    /// Decoding fails with a technical error exactly where the pair does not
    /// decode.
    fn decode_state(snapshot_version: &SemanticVersion, payload: &[u8]) -> (r: Result<
        Self,
        PersistenceError,
    >)
        ensures
            match Self::decode_state_spec(*snapshot_version, payload@) {
                Some(a) => r matches Ok(d) && d == a,
                None => r matches Err(e) && e is Technical,
            },
    ;

    /// Law: decoding what the state codec encoded returns the original state.
    proof fn lemma_state_codec_round_trip(self)
        ensures
            Self::decode_state_spec(Self::snapshot_version_spec(), self.encode_state_spec())
                == Some(self),
    ;
}

/// The replay fold: the state reached from `init` after applying `events` in
/// order.
pub open spec fn fold_events_spec<A: Aggregate>(init: A, events: Seq<A::Event>) -> A
    decreases events.len(),
{
    if events.len() == 0 {
        init
    } else {
        A::apply_spec(fold_events_spec(init, events.drop_last()), events.last())
    }
}

/// The state an aggregate's full history reconstructs: the fold of the
/// history from the fresh initial state.
pub open spec fn replay_spec<A: Aggregate>(events: Seq<A::Event>) -> A {
    fold_events_spec(A::initial_spec(), events)
}

/// Replay determinism: replay is a pure fold, so folding the same ordered
/// event sequence twice from the default initial state yields identical
/// state both times.
pub proof fn lemma_replay_deterministic<A: Aggregate>(
    first: A,
    second: A,
    events_first: Seq<A::Event>,
    events_second: Seq<A::Event>,
)
    requires
        first == A::initial_spec(),
        second == A::initial_spec(),
        events_first == events_second,
    ensures
        fold_events_spec(first, events_first) == fold_events_spec(second, events_second),
{
}

/// Folding a concatenation is folding the first part, then the second from
/// the state the first part reached.
pub proof fn lemma_fold_events_append<A: Aggregate>(
    init: A,
    prefix: Seq<A::Event>,
    tail: Seq<A::Event>,
)
    ensures
        fold_events_spec(init, prefix + tail) == fold_events_spec(
            fold_events_spec(init, prefix),
            tail,
        ),
    decreases tail.len(),
{
    if tail.len() == 0 {
        assert(prefix + tail =~= prefix);
    } else {
        lemma_fold_events_append(init, prefix, tail.drop_last());
        assert((prefix + tail).drop_last() =~= prefix + tail.drop_last());
        assert((prefix + tail).last() == tail.last());
    }
}

/// Apply each event of `events`, in order, to `state`.
pub fn fold_events<A: Aggregate>(state: &mut A, events: &Vec<A::Event>)
    ensures
        *final(state) == fold_events_spec(*old(state), events@),
{
    let mut i: usize = 0;
    while i < events.len()
        invariant
            0 <= i <= events.len(),
            *state == fold_events_spec(*old(state), events@.take(i as int)),
        decreases events.len() - i,
    {
        state.apply(&events[i]);
        proof {
            assert(events@.take(i + 1 as int).drop_last() =~= events@.take(i as int));
            assert(events@.take(i + 1 as int).last() == events@[i as int]);
        }
        i = i + 1;
    }
    proof {
        assert(events@.take(events@.len() as int) =~= events@);
    }
}

/// A committed event together with the identity and position it was
/// committed under, as delivered to the read side.
pub struct EventEnvelope<A: Aggregate> {
    /// The identity of the aggregate instance the event belongs to.
    pub aggregate_id: String,
    /// 1-based position of the event within that aggregate's history.
    pub sequence: u64,
    /// The domain event itself.
    pub payload: A::Event,
}

} // verus!

//! The reference event repository: an in-memory backend holding every
//! aggregate's event stream and latest snapshot.
//!
//! The repository enforces the optimistic-concurrency guard: an append is
//! accepted only when the expected baseline sequence still matches the
//! stored stream, so among concurrent attempts against the same baseline
//! exactly the first to reach the store succeeds.

use vstd::prelude::*;

use crate::error::PersistenceError;
use crate::record::{
    SerializedEvent, SerializedEventModel, SerializedSnapshot, SerializedSnapshotModel,
};

verus! {

/// The models of a sequence of serialized events.
pub open spec fn event_models(events: Seq<SerializedEvent>) -> Seq<SerializedEventModel> {
    events.map_values(|e: SerializedEvent| e@)
}

/// The model sequence is as long as the event sequence.
pub proof fn lemma_event_models_len(events: Seq<SerializedEvent>)
    ensures
        event_models(events).len() == events.len(),
{
}

/// The model sequence is the pointwise model of the event sequence.
pub proof fn lemma_event_models_index(events: Seq<SerializedEvent>, j: int)
    requires
        0 <= j < events.len(),
    ensures
        event_models(events).len() == events.len(),
        event_models(events)[j] == events[j]@,
{
}

/// One aggregate instance's persisted data: its ordered event stream and its
/// most recent snapshot, if any.
struct StreamEntry {
    aggregate_type: String,
    aggregate_id: String,
    events: Vec<SerializedEvent>,
    snapshot: Option<SerializedSnapshot>,
}

spec fn key_matches(entry: StreamEntry, aggregate_type: Seq<char>, aggregate_id: Seq<char>) -> bool {
    entry.aggregate_type@ == aggregate_type && entry.aggregate_id@ == aggregate_id
}

spec fn lookup_events(
    entries: Seq<StreamEntry>,
    aggregate_type: Seq<char>,
    aggregate_id: Seq<char>,
) -> Seq<SerializedEventModel>
    decreases entries.len(),
{
    if entries.len() == 0 {
        Seq::empty()
    } else if key_matches(entries.first(), aggregate_type, aggregate_id) {
        event_models(entries.first().events@)
    } else {
        lookup_events(entries.drop_first(), aggregate_type, aggregate_id)
    }
}

spec fn snapshot_model_of(entry: StreamEntry) -> Option<SerializedSnapshotModel> {
    match entry.snapshot {
        Some(s) => Some(s@),
        None => None,
    }
}

spec fn lookup_snapshot(
    entries: Seq<StreamEntry>,
    aggregate_type: Seq<char>,
    aggregate_id: Seq<char>,
) -> Option<SerializedSnapshotModel>
    decreases entries.len(),
{
    if entries.len() == 0 {
        None
    } else if key_matches(entries.first(), aggregate_type, aggregate_id) {
        snapshot_model_of(entries.first())
    } else {
        lookup_snapshot(entries.drop_first(), aggregate_type, aggregate_id)
    }
}

spec fn entry_wf(entry: StreamEntry) -> bool {
    &&& entry.events@.len() <= u64::MAX
    &&& forall|k: int|
        0 <= k < entry.events@.len() ==> {
            let ev = (#[trigger] entry.events@[k])@;
            &&& ev.aggregate_type == entry.aggregate_type@
            &&& ev.aggregate_id == entry.aggregate_id@
            &&& ev.sequence == k + 1
        }
    &&& match entry.snapshot {
        Some(s) => s@.aggregate_type == entry.aggregate_type@ && s@.aggregate_id
            == entry.aggregate_id@ && s@.current_sequence <= entry.events@.len(),
        None => true,
    }
}

/// The in-memory event repository. Events are append-only and a snapshot is
/// superseded, never edited; all access is keyed by the
/// `(aggregate_type, aggregate_id)` identity.
pub struct MemoryEventRepository {
    streams: Vec<StreamEntry>,
}

impl MemoryEventRepository {
    /// The ordered event stream stored for one aggregate identity.
    pub closed spec fn stream_model(
        &self,
        aggregate_type: Seq<char>,
        aggregate_id: Seq<char>,
    ) -> Seq<SerializedEventModel> {
        lookup_events(self.streams@, aggregate_type, aggregate_id)
    }

    /// The most recent snapshot stored for one aggregate identity.
    pub closed spec fn snapshot_model(
        &self,
        aggregate_type: Seq<char>,
        aggregate_id: Seq<char>,
    ) -> Option<SerializedSnapshotModel> {
        lookup_snapshot(self.streams@, aggregate_type, aggregate_id)
    }

    /// Every stored record carries the identity it is stored under, the
    /// stream's sequences are exactly 1..len in order, and a stored snapshot
    /// never lies past the end of its stream.
    pub closed spec fn well_formed(&self) -> bool {
        &&& forall|a: int, b: int|
            #![trigger self.streams@[a], self.streams@[b]]
            0 <= a < b < self.streams@.len() ==> !(self.streams@[a].aggregate_type@
                == self.streams@[b].aggregate_type@ && self.streams@[a].aggregate_id@
                == self.streams@[b].aggregate_id@)
        &&& forall|a: int| 0 <= a < self.streams@.len() ==> entry_wf(#[trigger] self.streams@[a])
    }

    /// An empty repository: no stream and no snapshot for any identity.
    pub fn new() -> (r: Self)
        ensures
            r.well_formed(),
            forall|t: Seq<char>, id: Seq<char>| #[trigger] r.stream_model(t, id) == Seq::<
                SerializedEventModel,
            >::empty(),
            forall|t: Seq<char>, id: Seq<char>| #[trigger] r.snapshot_model(t, id) is None,
    {
        MemoryEventRepository { streams: Vec::new() }
    }

    fn find_stream(&self, aggregate_type: &str, aggregate_id: &str) -> (r: Option<usize>)
        ensures
            match r {
                Some(idx) => idx < self.streams@.len() && key_matches(
                    self.streams@[idx as int],
                    aggregate_type@,
                    aggregate_id@,
                ) && (forall|j: int|
                    0 <= j < idx ==> !key_matches(
                        #[trigger] self.streams@[j],
                        aggregate_type@,
                        aggregate_id@,
                    )),
                None => forall|j: int|
                    0 <= j < self.streams@.len() ==> !key_matches(
                        #[trigger] self.streams@[j],
                        aggregate_type@,
                        aggregate_id@,
                    ),
            },
    {
        let owned_type = aggregate_type.to_owned();
        let owned_id = aggregate_id.to_owned();
        let mut i: usize = 0;
        while i < self.streams.len()
            invariant
                0 <= i <= self.streams@.len(),
                owned_type@ == aggregate_type@,
                owned_id@ == aggregate_id@,
                forall|j: int|
                    0 <= j < i ==> !key_matches(
                        #[trigger] self.streams@[j],
                        aggregate_type@,
                        aggregate_id@,
                    ),
            decreases self.streams@.len() - i,
        {
            if self.streams[i].aggregate_type == owned_type && self.streams[i].aggregate_id
                == owned_id {
                return Some(i);
            }
            i = i + 1;
        }
        None
    }

    /// Fetch all serialized events for the identity, in ascending sequence
    /// order.
    pub fn load_events(&self, aggregate_type: &str, aggregate_id: &str) -> (r: Vec<
        SerializedEvent,
    >)
        ensures
            event_models(r@) == self.stream_model(aggregate_type@, aggregate_id@),
    {
        match self.find_stream(aggregate_type, aggregate_id) {
            Some(idx) => {
                proof {
                    lemma_lookup_first_match(self.streams@, aggregate_type@, aggregate_id@,
                        idx as int);
                }
                clone_events(&self.streams[idx].events)
            },
            None => {
                proof {
                    lemma_lookup_no_match(self.streams@, aggregate_type@, aggregate_id@);
                    assert(event_models(Seq::<SerializedEvent>::empty()) =~= Seq::<
                        SerializedEventModel,
                    >::empty());
                }
                Vec::new()
            },
        }
    }

    /// Fetch only the events with sequence greater than `after`, in
    /// ascending sequence order: the tail a snapshot-assisted load replays.
    pub fn load_events_after(&self, aggregate_type: &str, aggregate_id: &str, after: u64) -> (r:
        Vec<SerializedEvent>)
        requires
            self.well_formed(),
            after <= self.stream_model(aggregate_type@, aggregate_id@).len(),
        ensures
            event_models(r@) == self.stream_model(aggregate_type@, aggregate_id@).skip(
                after as int,
            ),
    {
        let ghost stream = self.stream_model(aggregate_type@, aggregate_id@);
        match self.find_stream(aggregate_type, aggregate_id) {
            Some(idx) => {
                proof {
                    lemma_lookup_first_match(self.streams@, aggregate_type@, aggregate_id@,
                        idx as int);
                    lemma_event_models_len(self.streams@[idx as int].events@);
                }
                let events = &self.streams[idx].events;
                let total = events.len();
                proof {
                    assert(after <= total);
                }
                let mut r: Vec<SerializedEvent> = Vec::new();
                let mut i: usize = after as usize;
                while i < events.len()
                    invariant
                        after <= i <= events@.len(),
                        stream == event_models(events@),
                        r@.len() == i - after,
                        forall|j: int|
                            0 <= j < r@.len() ==> (#[trigger] r@[j])@ == events@[j + after]@,
                    decreases events@.len() - i,
                {
                    r.push(events[i].duplicate());
                    i = i + 1;
                }
                proof {
                    assert forall|j: int|
                        0 <= j < r@.len() implies event_models(r@)[j] == stream.skip(after as int)[j]
                    by {
                        lemma_event_models_index(r@, j);
                        lemma_event_models_index(events@, j + after);
                    }
                    lemma_event_models_len(r@);
                    assert(event_models(r@) =~= stream.skip(after as int));
                }
                r
            },
            None => {
                proof {
                    lemma_lookup_no_match(self.streams@, aggregate_type@, aggregate_id@);
                    assert(event_models(Seq::<SerializedEvent>::empty()) =~= Seq::<
                        SerializedEventModel,
                    >::empty());
                    assert(stream.skip(after as int) =~= Seq::<SerializedEventModel>::empty());
                }
                Vec::new()
            },
        }
    }

    /// Fetch the most recent snapshot for the identity, if any.
    pub fn load_snapshot(&self, aggregate_type: &str, aggregate_id: &str) -> (r: Option<
        SerializedSnapshot,
    >)
        ensures
            match r {
                Some(s) => self.snapshot_model(aggregate_type@, aggregate_id@) == Some(s@),
                None => self.snapshot_model(aggregate_type@, aggregate_id@) is None,
            },
    {
        match self.find_stream(aggregate_type, aggregate_id) {
            Some(idx) => {
                proof {
                    lemma_lookup_first_match(self.streams@, aggregate_type@, aggregate_id@,
                        idx as int);
                }
                match &self.streams[idx].snapshot {
                    Some(s) => Some(s.duplicate()),
                    None => None,
                }
            },
            None => {
                proof {
                    lemma_lookup_no_match(self.streams@, aggregate_type@, aggregate_id@);
                }
                None
            },
        }
    }

    /// Atomically append `new_events` immediately after `expected_sequence`,
    /// using the stored stream's length as the optimistic-concurrency guard:
    /// the append succeeds exactly when the stream is still at the expected
    /// baseline, and fails with an optimistic-lock conflict otherwise,
    /// changing nothing. No partial append is possible.
    pub fn persist_events(
        &mut self,
        aggregate_type: &str,
        aggregate_id: &str,
        expected_sequence: u64,
        new_events: &Vec<SerializedEvent>,
    ) -> (r: Result<(), PersistenceError>)
        requires
            old(self).well_formed(),
            expected_sequence + new_events@.len() <= u64::MAX,
            forall|k: int|
                0 <= k < new_events@.len() ==> {
                    let ev = (#[trigger] new_events@[k])@;
                    &&& ev.aggregate_type == aggregate_type@
                    &&& ev.aggregate_id == aggregate_id@
                    &&& ev.sequence == expected_sequence + k + 1
                },
        ensures
            final(self).well_formed(),
            r is Ok <==> old(self).stream_model(aggregate_type@, aggregate_id@).len()
                == expected_sequence,
            r matches Err(e) ==> e == PersistenceError::OptimisticLock && *final(self) == *old(self),
            r is Ok ==> final(self).stream_model(aggregate_type@, aggregate_id@) == old(self).stream_model(aggregate_type@, aggregate_id@) + event_models(new_events@),
            forall|t: Seq<char>, id: Seq<char>|
                !(t == aggregate_type@ && id == aggregate_id@) ==> #[trigger] final(self).stream_model(t, id) == old(self).stream_model(t, id),
            forall|t: Seq<char>, id: Seq<char>| #[trigger] final(self).snapshot_model(t, id) == old(self).snapshot_model(t, id),
    {
        match self.find_stream(aggregate_type, aggregate_id) {
            Some(idx) => {
                proof {
                    lemma_lookup_first_match(self.streams@, aggregate_type@, aggregate_id@,
                        idx as int);
                }
                let stored = self.streams[idx].events.len() as u64;
                if stored != expected_sequence {
                    return Err(PersistenceError::OptimisticLock);
                }
                let mut appended = clone_events(&self.streams[idx].events);
                append_copies(&mut appended, new_events);
                let ghost old_streams = self.streams@;
                let ghost old_entry = self.streams@[idx as int];
                self.streams[idx].events = appended;
                proof {
                    let new_entry = self.streams@[idx as int];
                    assert(self.streams@ =~= old_streams.update(idx as int, new_entry));
                    assert(event_models(new_entry.events@) =~= event_models(old_entry.events@)
                        + event_models(new_events@));
                    assert(entry_wf(old_entry));
                    assert(event_models(old_entry.events@).len() == old_entry.events@.len());
                    lemma_event_models_len(new_entry.events@);
                    lemma_event_models_len(new_events@);
                    assert(new_entry.snapshot == old_entry.snapshot);
                    assert(new_entry.aggregate_type == old_entry.aggregate_type);
                    assert(new_entry.aggregate_id == old_entry.aggregate_id);
                    assert(old_entry.events@.len() == expected_sequence);
                    assert(new_entry.events@.len() == expected_sequence + new_events@.len());
                    assert forall|k: int| 0 <= k < new_entry.events@.len() implies {
                        let ev = (#[trigger] new_entry.events@[k])@;
                        &&& ev.aggregate_type == new_entry.aggregate_type@
                        &&& ev.aggregate_id == new_entry.aggregate_id@
                        &&& ev.sequence == k + 1
                    } by {
                        lemma_event_models_index(new_entry.events@, k);
                        if k < old_entry.events@.len() {
                            lemma_event_models_index(old_entry.events@, k);
                        } else {
                            lemma_event_models_index(new_events@, k - old_entry.events@.len());
                        }
                    }
                    assert(entry_wf(new_entry));
                    lemma_lookup_first_match(self.streams@, aggregate_type@, aggregate_id@,
                        idx as int);
                    assert forall|t: Seq<char>, id: Seq<char>|
                        !(t == aggregate_type@ && id == aggregate_id@) implies #[trigger] lookup_events(
                        self.streams@,
                        t,
                        id,
                    ) == lookup_events(old_streams, t, id) && lookup_snapshot(self.streams@, t, id)
                        == lookup_snapshot(old_streams, t, id) by {
                        lemma_lookup_update_unaffected(old_streams, idx as int, new_entry, t, id);
                    }
                    assert forall|t: Seq<char>, id: Seq<char>| #[trigger] lookup_snapshot(
                        self.streams@,
                        t,
                        id,
                    ) == lookup_snapshot(old_streams, t, id) by {
                        if t == aggregate_type@ && id == aggregate_id@ {
                            lemma_lookup_first_match(old_streams, t, id, idx as int);
                            lemma_lookup_first_match(self.streams@, t, id, idx as int);
                        } else {
                            lemma_lookup_update_unaffected(old_streams, idx as int, new_entry, t,
                                id);
                        }
                    }
                }
                Ok(())
            },
            None => {
                if expected_sequence != 0 {
                    proof {
                        lemma_lookup_no_match(self.streams@, aggregate_type@, aggregate_id@);
                    }
                    return Err(PersistenceError::OptimisticLock);
                }
                let mut events = Vec::new();
                append_copies(&mut events, new_events);
                let entry = StreamEntry {
                    aggregate_type: aggregate_type.to_owned(),
                    aggregate_id: aggregate_id.to_owned(),
                    events,
                    snapshot: None,
                };
                let ghost old_streams = self.streams@;
                proof {
                    lemma_lookup_no_match(old_streams, aggregate_type@, aggregate_id@);
                    assert(event_models(entry.events@) =~= Seq::<SerializedEventModel>::empty()
                        + event_models(new_events@));
                    assert(event_models(entry.events@).len() == entry.events@.len());
                    assert forall|k: int| 0 <= k < entry.events@.len() implies {
                        let ev = (#[trigger] entry.events@[k])@;
                        &&& ev.aggregate_type == entry.aggregate_type@
                        &&& ev.aggregate_id == entry.aggregate_id@
                        &&& ev.sequence == k + 1
                    } by {
                        lemma_event_models_index(entry.events@, k);
                        lemma_event_models_index(new_events@, k);
                    }
                    assert(entry_wf(entry));
                }
                self.streams.push(entry);
                proof {
                    assert(self.streams@ =~= old_streams.push(entry));
                    lemma_lookup_push(old_streams, entry, aggregate_type@, aggregate_id@);
                    assert(event_models(entry.events@) =~= Seq::<SerializedEventModel>::empty()
                        + event_models(new_events@));
                    assert forall|t: Seq<char>, id: Seq<char>|
                        !(t == aggregate_type@ && id == aggregate_id@) implies #[trigger] lookup_events(
                        self.streams@,
                        t,
                        id,
                    ) == lookup_events(old_streams, t, id) && lookup_snapshot(self.streams@, t, id)
                        == lookup_snapshot(old_streams, t, id) by {
                        lemma_lookup_push(old_streams, entry, t, id);
                    }
                    assert forall|t: Seq<char>, id: Seq<char>| #[trigger] lookup_snapshot(
                        self.streams@,
                        t,
                        id,
                    ) == lookup_snapshot(old_streams, t, id) by {
                        lemma_lookup_push(old_streams, entry, t, id);
                        if t == aggregate_type@ && id == aggregate_id@ {
                            lemma_lookup_no_match(old_streams, t, id);
                        }
                    }
                    assert(lookup_events(old_streams, aggregate_type@, aggregate_id@) =~= Seq::<
                        SerializedEventModel,
                    >::empty());
                }
                Ok(())
            },
        }
    }

    /// Store a snapshot for its identity, superseding any earlier one. A
    /// snapshot write never touches any event stream.
    pub fn persist_snapshot(&mut self, snapshot: SerializedSnapshot) -> (r: Result<
        (),
        PersistenceError,
    >)
        requires
            old(self).well_formed(),
            snapshot@.current_sequence <= old(self).stream_model(
                snapshot@.aggregate_type,
                snapshot@.aggregate_id,
            ).len(),
        ensures
            final(self).well_formed(),
            r is Ok,
            final(self).snapshot_model(snapshot@.aggregate_type, snapshot@.aggregate_id) == Some(
                snapshot@,
            ),
            forall|t: Seq<char>, id: Seq<char>| #[trigger] final(self).stream_model(t, id) == old(self).stream_model(t, id),
            forall|t: Seq<char>, id: Seq<char>|
                !(t == snapshot@.aggregate_type && id == snapshot@.aggregate_id)
                    ==> #[trigger] final(self).snapshot_model(t, id) == old(self).snapshot_model(
                    t,
                    id,
                ),
    {
        let aggregate_type = snapshot.aggregate_type.clone();
        let aggregate_id = snapshot.aggregate_id.clone();
        match self.find_stream(aggregate_type.as_str(), aggregate_id.as_str()) {
            Some(idx) => {
                proof {
                    lemma_lookup_first_match(self.streams@, aggregate_type@, aggregate_id@,
                        idx as int);
                }
                let ghost old_streams = self.streams@;
                let ghost old_entry = self.streams@[idx as int];
                self.streams[idx].snapshot = Some(snapshot);
                proof {
                    let new_entry = self.streams@[idx as int];
                    assert(self.streams@ =~= old_streams.update(idx as int, new_entry));
                    assert(entry_wf(new_entry));
                    lemma_lookup_first_match(self.streams@, aggregate_type@, aggregate_id@,
                        idx as int);
                    assert forall|t: Seq<char>, id: Seq<char>| #[trigger] lookup_events(
                        self.streams@,
                        t,
                        id,
                    ) == lookup_events(old_streams, t, id) by {
                        if t == aggregate_type@ && id == aggregate_id@ {
                            lemma_lookup_first_match(old_streams, t, id, idx as int);
                        } else {
                            lemma_lookup_update_unaffected(old_streams, idx as int, new_entry, t,
                                id);
                        }
                    }
                    assert forall|t: Seq<char>, id: Seq<char>|
                        !(t == aggregate_type@ && id == aggregate_id@) implies #[trigger] lookup_snapshot(
                        self.streams@,
                        t,
                        id,
                    ) == lookup_snapshot(old_streams, t, id) by {
                        lemma_lookup_update_unaffected(old_streams, idx as int, new_entry, t, id);
                    }
                }
                Ok(())
            },
            None => {
                let ghost old_streams = self.streams@;
                let entry = StreamEntry {
                    aggregate_type,
                    aggregate_id,
                    events: Vec::new(),
                    snapshot: Some(snapshot),
                };
                proof {
                    lemma_lookup_no_match(old_streams, entry.aggregate_type@, entry.aggregate_id@);
                    assert(entry_wf(entry));
                }
                self.streams.push(entry);
                proof {
                    assert(self.streams@ =~= old_streams.push(entry));
                    lemma_lookup_push(old_streams, entry, entry.aggregate_type@,
                        entry.aggregate_id@);
                    assert forall|t: Seq<char>, id: Seq<char>| #[trigger] lookup_events(
                        self.streams@,
                        t,
                        id,
                    ) == lookup_events(old_streams, t, id) by {
                        lemma_lookup_push(old_streams, entry, t, id);
                        if t == entry.aggregate_type@ && id == entry.aggregate_id@ {
                            lemma_lookup_no_match(old_streams, t, id);
                            assert(event_models(entry.events@) =~= Seq::<
                                SerializedEventModel,
                            >::empty());
                        }
                    }
                    assert forall|t: Seq<char>, id: Seq<char>|
                        !(t == entry.aggregate_type@ && id == entry.aggregate_id@) implies #[trigger] lookup_snapshot(
                        self.streams@,
                        t,
                        id,
                    ) == lookup_snapshot(old_streams, t, id) by {
                        lemma_lookup_push(old_streams, entry, t, id);
                    }
                }
                Ok(())
            },
        }
    }

    /// What well-formedness yields about one identity's stored data: every
    /// record carries that identity, the sequences are exactly 1..len, and a
    /// snapshot never lies past the end of the stream.
    pub proof fn lemma_stream_model_wf(&self, aggregate_type: Seq<char>, aggregate_id: Seq<char>)
        requires
            self.well_formed(),
        ensures
            self.stream_model(aggregate_type, aggregate_id).len() <= u64::MAX,
            forall|k: int|
                0 <= k < self.stream_model(aggregate_type, aggregate_id).len() ==> {
                    let ev = #[trigger] self.stream_model(aggregate_type, aggregate_id)[k];
                    &&& ev.aggregate_type == aggregate_type
                    &&& ev.aggregate_id == aggregate_id
                    &&& ev.sequence == k + 1
                },
            match self.snapshot_model(aggregate_type, aggregate_id) {
                Some(s) => s.aggregate_type == aggregate_type && s.aggregate_id == aggregate_id
                    && s.current_sequence <= self.stream_model(aggregate_type, aggregate_id).len(),
                None => true,
            },
    {
        lemma_lookup_wf(self.streams@, aggregate_type, aggregate_id);
    }
}

/// Optimistic concurrency: among any number of commit attempts against the
/// same baseline, at most one succeeds. `persist_events` accepts an attempt
/// exactly when the stored stream is still at the expected baseline, and a
/// successful attempt appends its events; once one attempt lands, the
/// stream has moved past the baseline, so the acceptance condition refuses
/// every further attempt expecting it.
pub proof fn lemma_baseline_commits_exactly_once(
    stream: Seq<SerializedEventModel>,
    appended: Seq<SerializedEventModel>,
    expected_sequence: u64,
)
    requires
        stream.len() == expected_sequence,
        appended.len() >= 1,
    ensures
        (stream + appended).len() != expected_sequence,
{
}

/// An owned copy of each event, models preserved.
fn clone_events(events: &Vec<SerializedEvent>) -> (r: Vec<SerializedEvent>)
    ensures
        event_models(r@) == event_models(events@),
{
    let mut r: Vec<SerializedEvent> = Vec::new();
    let mut i: usize = 0;
    while i < events.len()
        invariant
            0 <= i <= events@.len(),
            r@.len() == i,
            forall|j: int| 0 <= j < i ==> (#[trigger] r@[j])@ == events@[j]@,
        decreases events@.len() - i,
    {
        r.push(events[i].duplicate());
        i = i + 1;
    }
    proof {
        assert(event_models(r@) =~= event_models(events@));
    }
    r
}

/// Append an owned copy of each of `src`'s events to `dst`, models preserved.
fn append_copies(dst: &mut Vec<SerializedEvent>, src: &Vec<SerializedEvent>)
    ensures
        event_models(final(dst)@) == event_models(old(dst)@) + event_models(src@),
{
    let mut i: usize = 0;
    while i < src.len()
        invariant
            0 <= i <= src@.len(),
            dst@.len() == old(dst)@.len() + i,
            forall|j: int| 0 <= j < old(dst)@.len() ==> (#[trigger] dst@[j])@ == old(dst)@[j]@,
            forall|j: int|
                0 <= j < i ==> (#[trigger] dst@[old(dst)@.len() + j])@ == src@[j]@,
        decreases src@.len() - i,
    {
        dst.push(src[i].duplicate());
        i = i + 1;
    }
    proof {
        assert forall|j: int|
            0 <= j < dst@.len() implies event_models(dst@)[j] == (event_models(old(dst)@)
            + event_models(src@))[j] by {
            lemma_event_models_len(old(dst)@);
            lemma_event_models_len(src@);
            lemma_event_models_index(dst@, j);
            if j < old(dst)@.len() {
                lemma_event_models_index(old(dst)@, j);
            } else {
                let d = j - old(dst)@.len();
                lemma_event_models_index(src@, d);
                assert((#[trigger] dst@[old(dst)@.len() + d])@ == src@[d]@);
            }
        }
        assert(event_models(dst@) =~= event_models(old(dst)@) + event_models(src@));
    }
}

proof fn lemma_lookup_first_match(
    entries: Seq<StreamEntry>,
    aggregate_type: Seq<char>,
    aggregate_id: Seq<char>,
    idx: int,
)
    requires
        0 <= idx < entries.len(),
        key_matches(entries[idx], aggregate_type, aggregate_id),
        forall|j: int| 0 <= j < idx ==> !key_matches(#[trigger] entries[j], aggregate_type, aggregate_id),
    ensures
        lookup_events(entries, aggregate_type, aggregate_id) == event_models(
            entries[idx].events@,
        ),
        lookup_snapshot(entries, aggregate_type, aggregate_id) == snapshot_model_of(entries[idx]),
    decreases idx,
{
    if idx > 0 {
        assert(!key_matches(entries[0], aggregate_type, aggregate_id));
        assert(forall|j: int|
            0 <= j < entries.drop_first().len() ==> entries.drop_first()[j] == entries[j + 1]);
        lemma_lookup_first_match(entries.drop_first(), aggregate_type, aggregate_id, idx - 1);
    }
}

proof fn lemma_lookup_no_match(
    entries: Seq<StreamEntry>,
    aggregate_type: Seq<char>,
    aggregate_id: Seq<char>,
)
    requires
        forall|j: int|
            0 <= j < entries.len() ==> !key_matches(
                #[trigger] entries[j],
                aggregate_type,
                aggregate_id,
            ),
    ensures
        lookup_events(entries, aggregate_type, aggregate_id) == Seq::<
            SerializedEventModel,
        >::empty(),
        lookup_snapshot(entries, aggregate_type, aggregate_id) is None,
    decreases entries.len(),
{
    if entries.len() > 0 {
        assert(entries[0] == entries.first());
        assert(forall|j: int|
            0 <= j < entries.drop_first().len() ==> entries.drop_first()[j] == entries[j + 1]);
        lemma_lookup_no_match(entries.drop_first(), aggregate_type, aggregate_id);
    }
}

proof fn lemma_lookup_update_unaffected(
    entries: Seq<StreamEntry>,
    idx: int,
    replacement: StreamEntry,
    aggregate_type: Seq<char>,
    aggregate_id: Seq<char>,
)
    requires
        0 <= idx < entries.len(),
        !key_matches(entries[idx], aggregate_type, aggregate_id),
        !key_matches(replacement, aggregate_type, aggregate_id),
    ensures
        lookup_events(entries.update(idx, replacement), aggregate_type, aggregate_id)
            == lookup_events(entries, aggregate_type, aggregate_id),
        lookup_snapshot(entries.update(idx, replacement), aggregate_type, aggregate_id)
            == lookup_snapshot(entries, aggregate_type, aggregate_id),
    decreases idx,
{
    let updated = entries.update(idx, replacement);
    if idx == 0 {
        assert(updated.first() == replacement);
        assert(updated.drop_first() =~= entries.drop_first());
    } else {
        assert(updated.first() == entries.first());
        assert(updated.drop_first() =~= entries.drop_first().update(idx - 1, replacement));
        if !key_matches(entries.first(), aggregate_type, aggregate_id) {
            lemma_lookup_update_unaffected(entries.drop_first(), idx - 1, replacement,
                aggregate_type, aggregate_id);
        }
    }
}

proof fn lemma_lookup_push(
    entries: Seq<StreamEntry>,
    pushed: StreamEntry,
    aggregate_type: Seq<char>,
    aggregate_id: Seq<char>,
)
    ensures
        !key_matches(pushed, aggregate_type, aggregate_id) ==> lookup_events(
            entries.push(pushed),
            aggregate_type,
            aggregate_id,
        ) == lookup_events(entries, aggregate_type, aggregate_id) && lookup_snapshot(
            entries.push(pushed),
            aggregate_type,
            aggregate_id,
        ) == lookup_snapshot(entries, aggregate_type, aggregate_id),
        (key_matches(pushed, aggregate_type, aggregate_id) && (forall|j: int|
            0 <= j < entries.len() ==> !key_matches(
                #[trigger] entries[j],
                aggregate_type,
                aggregate_id,
            ))) ==> lookup_events(entries.push(pushed), aggregate_type, aggregate_id)
            == event_models(pushed.events@) && lookup_snapshot(
            entries.push(pushed),
            aggregate_type,
            aggregate_id,
        ) == snapshot_model_of(pushed),
    decreases entries.len(),
{
    let extended = entries.push(pushed);
    if entries.len() == 0 {
        assert(extended.first() == pushed);
        assert(extended.drop_first() =~= Seq::<StreamEntry>::empty());
        assert(lookup_events(extended.drop_first(), aggregate_type, aggregate_id) == Seq::<
            SerializedEventModel,
        >::empty());
        assert(lookup_snapshot(extended.drop_first(), aggregate_type, aggregate_id) is None);
    } else {
        assert(extended.first() == entries.first());
        assert(extended.drop_first() =~= entries.drop_first().push(pushed));
        lemma_lookup_push(entries.drop_first(), pushed, aggregate_type, aggregate_id);
        assert(forall|j: int|
            0 <= j < entries.drop_first().len() ==> entries.drop_first()[j] == entries[j + 1]);
        if key_matches(entries.first(), aggregate_type, aggregate_id) {
            assert(lookup_events(extended, aggregate_type, aggregate_id) == event_models(
                entries.first().events@,
            ));
        } else {
            assert(lookup_events(extended, aggregate_type, aggregate_id) == lookup_events(
                extended.drop_first(),
                aggregate_type,
                aggregate_id,
            ));
        }
    }
}

proof fn lemma_lookup_wf(
    entries: Seq<StreamEntry>,
    aggregate_type: Seq<char>,
    aggregate_id: Seq<char>,
)
    requires
        forall|a: int| 0 <= a < entries.len() ==> entry_wf(#[trigger] entries[a]),
    ensures
        lookup_events(entries, aggregate_type, aggregate_id).len() <= u64::MAX,
        forall|k: int|
            0 <= k < lookup_events(entries, aggregate_type, aggregate_id).len() ==> {
                let ev = #[trigger] lookup_events(entries, aggregate_type, aggregate_id)[k];
                &&& ev.aggregate_type == aggregate_type
                &&& ev.aggregate_id == aggregate_id
                &&& ev.sequence == k + 1
            },
        match lookup_snapshot(entries, aggregate_type, aggregate_id) {
            Some(s) => s.aggregate_type == aggregate_type && s.aggregate_id == aggregate_id
                && s.current_sequence <= lookup_events(entries, aggregate_type, aggregate_id).len(),
            None => true,
        },
    decreases entries.len(),
{
    if entries.len() > 0 {
        assert(entries[0] == entries.first());
        assert(forall|j: int|
            0 <= j < entries.drop_first().len() ==> entries.drop_first()[j] == entries[j + 1]);
        lemma_lookup_wf(entries.drop_first(), aggregate_type, aggregate_id);
    }
}

} // verus!

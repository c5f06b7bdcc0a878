//! The generic query projector: maintains materialized read-model views by
//! folding committed events, independent of any specific view shape.
//!
//! Delivery is at-least-once and eventually consistent: the projector keeps,
//! per view, the highest event sequence already folded, so duplicate
//! delivery is a no-op, and it rejects a batch that would skip past the
//! watermark, preventing silent gaps.

use vstd::prelude::*;

use crate::aggregate::{Aggregate, EventEnvelope};
use crate::context::QueryContext;
use crate::error::PersistenceError;

verus! {

/// An application-defined projection of events, identified by a view
/// identity; owned and mutated exclusively by the projector, never by
/// command handling.
pub trait Projection<A: Aggregate>: Sized {
    /// The view before any event has been folded into it.
    spec fn default_spec() -> Self;

    /// The pure fold step of the projection.
    spec fn update_spec(self, event: <A as Aggregate>::Event) -> Self;

    fn default_view() -> (r: Self)
        ensures
            r == Self::default_spec(),
    ;

    fn update(&mut self, event: &<A as Aggregate>::Event)
        ensures
            *final(self) == Self::update_spec(*old(self), *event),
    ;

    /// An owned copy equal to `self`.
    fn clone_view(&self) -> (r: Self)
        ensures
            r == *self,
    ;
}

/// The projector's transition on one delivered batch: each envelope at or
/// below the watermark has already been folded and is skipped; one
/// immediately above it is folded and advances the watermark; a gap rejects
/// the whole batch.
pub open spec fn apply_batch_spec<A: Aggregate, V: Projection<A>>(
    view: V,
    watermark: u64,
    batch: Seq<EventEnvelope<A>>,
) -> Option<(V, u64)>
    decreases batch.len(),
{
    if batch.len() == 0 {
        Some((view, watermark))
    } else {
        let env = batch.first();
        if env.sequence <= watermark {
            apply_batch_spec(view, watermark, batch.drop_first())
        } else if env.sequence == watermark + 1 {
            apply_batch_spec(
                V::update_spec(view, env.payload),
                (watermark + 1) as u64,
                batch.drop_first(),
            )
        } else {
            None
        }
    }
}

/// An accepted batch never rewinds the watermark, and leaves every
/// delivered sequence at or below it.
pub proof fn lemma_apply_batch_bounds<A: Aggregate, V: Projection<A>>(
    view: V,
    watermark: u64,
    batch: Seq<EventEnvelope<A>>,
)
    ensures
        match apply_batch_spec::<A, V>(view, watermark, batch) {
            Some((view1, watermark1)) => watermark <= watermark1 && (forall|i: int|
                0 <= i < batch.len() ==> (#[trigger] batch[i]).sequence <= watermark1),
            None => true,
        },
    decreases batch.len(),
{
    if batch.len() > 0 {
        let env = batch.first();
        assert(batch[0] == env);
        if env.sequence <= watermark {
            lemma_apply_batch_bounds::<A, V>(view, watermark, batch.drop_first());
        } else if env.sequence == watermark + 1 {
            lemma_apply_batch_bounds::<A, V>(
                V::update_spec(view, env.payload),
                (watermark + 1) as u64,
                batch.drop_first(),
            );
        }
        if apply_batch_spec::<A, V>(view, watermark, batch) is Some {
            let (view1, watermark1) = apply_batch_spec::<A, V>(view, watermark, batch).unwrap();
            assert forall|i: int| 0 <= i < batch.len() implies (#[trigger] batch[i]).sequence
                <= watermark1 by {
                if i > 0 {
                    assert(batch.drop_first()[i - 1] == batch[i]);
                }
            }
        }
    }
}

/// A batch wholly at or below the watermark is a no-op.
pub proof fn lemma_apply_batch_noop<A: Aggregate, V: Projection<A>>(
    view: V,
    watermark: u64,
    batch: Seq<EventEnvelope<A>>,
)
    requires
        forall|i: int| 0 <= i < batch.len() ==> (#[trigger] batch[i]).sequence <= watermark,
    ensures
        apply_batch_spec::<A, V>(view, watermark, batch) == Some((view, watermark)),
    decreases batch.len(),
{
    if batch.len() > 0 {
        assert(batch[0] == batch.first());
        assert(forall|i: int|
            0 <= i < batch.drop_first().len() ==> batch.drop_first()[i] == batch[i + 1]);
        lemma_apply_batch_noop::<A, V>(view, watermark, batch.drop_first());
    }
}

/// View idempotence: delivering the same event batch twice changes the view
/// at most once. The second delivery finds every sequence at or below the
/// recorded watermark and folds nothing.
pub proof fn lemma_apply_batch_idempotent<A: Aggregate, V: Projection<A>>(
    view: V,
    watermark: u64,
    batch: Seq<EventEnvelope<A>>,
)
    ensures
        match apply_batch_spec::<A, V>(view, watermark, batch) {
            Some((view1, watermark1)) => apply_batch_spec::<A, V>(view1, watermark1, batch)
                == Some((view1, watermark1)),
            None => true,
        },
{
    lemma_apply_batch_bounds::<A, V>(view, watermark, batch);
    if apply_batch_spec::<A, V>(view, watermark, batch) is Some {
        let (view1, watermark1) = apply_batch_spec::<A, V>(view, watermark, batch).unwrap();
        lemma_apply_batch_noop::<A, V>(view1, watermark1, batch);
    }
}

struct ViewEntry<A: Aggregate, V: Projection<A>> {
    view_id: String,
    view: V,
    version: u64,
    last_sequence: u64,
    aggregate_kind: core::marker::PhantomData<A>,
}

spec fn view_key_matches<A: Aggregate, V: Projection<A>>(entry: ViewEntry<A, V>, view_id: Seq<char>) -> bool {
    entry.view_id@ == view_id
}

spec fn lookup_view<A: Aggregate, V: Projection<A>>(
    entries: Seq<ViewEntry<A, V>>,
    view_id: Seq<char>,
) -> Option<(V, u64, u64)>
    decreases entries.len(),
{
    if entries.len() == 0 {
        None
    } else if view_key_matches(entries.first(), view_id) {
        Some((entries.first().view, entries.first().version, entries.first().last_sequence))
    } else {
        lookup_view(entries.drop_first(), view_id)
    }
}

/// The in-memory view repository: the persisted views, each guarded by a
/// version counter for optimistic concurrency and stamped with the
/// watermark of the last folded event.
pub struct MemoryViewRepository<A: Aggregate, V: Projection<A>> {
    entries: Vec<ViewEntry<A, V>>,
}

impl<A: Aggregate, V: Projection<A>> MemoryViewRepository<A, V> {
    /// The stored view, version counter and watermark for one view
    /// identity; the fresh default at version 0, watermark 0, where nothing
    /// is stored yet.
    pub closed spec fn view_state(&self, view_id: Seq<char>) -> (V, u64, u64) {
        match lookup_view(self.entries@, view_id) {
            Some(s) => s,
            None => (V::default_spec(), 0, 0),
        }
    }

    /// An empty repository: every view is at its default.
    pub fn new() -> (r: Self)
        ensures
            forall|id: Seq<char>| #[trigger] r.view_state(id) == (V::default_spec(), 0u64, 0u64),
    {
        MemoryViewRepository { entries: Vec::new() }
    }

    fn find_view(&self, view_id: &str) -> (r: Option<usize>)
        ensures
            match r {
                Some(idx) => idx < self.entries@.len() && view_key_matches(
                    self.entries@[idx as int],
                    view_id@,
                ) && (forall|j: int|
                    0 <= j < idx ==> !view_key_matches(#[trigger] self.entries@[j], view_id@))
                    && self.view_state(view_id@) == (
                    self.entries@[idx as int].view,
                    self.entries@[idx as int].version,
                    self.entries@[idx as int].last_sequence,
                ),
                None => self.view_state(view_id@) == (V::default_spec(), 0u64, 0u64) && (forall|
                    j: int,
                |
                    0 <= j < self.entries@.len() ==> !view_key_matches(
                        #[trigger] self.entries@[j],
                        view_id@,
                    )),
            },
    {
        let owned_id = view_id.to_owned();
        let mut i: usize = 0;
        while i < self.entries.len()
            invariant
                0 <= i <= self.entries@.len(),
                owned_id@ == view_id@,
                forall|j: int| 0 <= j < i ==> !view_key_matches(#[trigger] self.entries@[j], view_id@),
            decreases self.entries@.len() - i,
        {
            if self.entries[i].view_id == owned_id {
                proof {
                    lemma_lookup_view_first_match(self.entries@, view_id@, i as int);
                }
                return Some(i);
            }
            i = i + 1;
        }
        proof {
            lemma_lookup_view_no_match(self.entries@, view_id@);
        }
        None
    }

    /// The stored view and its query context, or `None` where nothing has
    /// been stored for the identity yet.
    pub fn load_view(&self, view_id: &str) -> (r: Option<(V, QueryContext)>)
        ensures
            match r {
                Some((view, context)) => self.view_state(view_id@) == (
                    view,
                    context.version,
                    context.last_sequence,
                ) && context.view_id@ == view_id@,
                None => self.view_state(view_id@) == (V::default_spec(), 0u64, 0u64),
            },
    {
        match self.find_view(view_id) {
            Some(idx) => {
                let entry = &self.entries[idx];
                Some(
                    (
                        entry.view.clone_view(),
                        QueryContext {
                            view_id: view_id.to_owned(),
                            version: entry.version,
                            last_sequence: entry.last_sequence,
                        },
                    ),
                )
            },
            None => None,
        }
    }

    /// Persist a view guarded by the expected version: the write is accepted
    /// exactly when the expected version still matches the stored one (0
    /// where nothing is stored), and bumps the version; a stale expectation
    /// fails with an optimistic-lock conflict and changes nothing.
    pub fn update_view(&mut self, view: V, context: QueryContext) -> (r: Result<
        (),
        PersistenceError,
    >)
        ensures
            ({
                let (old_view, old_version, old_watermark) = old(self).view_state(
                    context.view_id@,
                );
                match r {
                    Ok(()) => old_version == context.version && old_version < u64::MAX && final(self).view_state(context.view_id@) == (
                        view,
                        (old_version + 1) as u64,
                        context.last_sequence,
                    ),
                    Err(PersistenceError::OptimisticLock) => old_version != context.version
                        && *final(self) == *old(self),
                    Err(PersistenceError::Technical(_)) => old_version == u64::MAX && *final(self)
                        == *old(self),
                }
            }),
            forall|id: Seq<char>|
                id != context.view_id@ ==> #[trigger] final(self).view_state(id) == old(self).view_state(id),
    {
        match self.find_view(context.view_id.as_str()) {
            Some(idx) => {
                let stored_version = self.entries[idx].version;
                if stored_version != context.version {
                    return Err(PersistenceError::OptimisticLock);
                }
                if stored_version == u64::MAX {
                    return Err(
                        PersistenceError::Technical("view version counter exhausted".to_owned()),
                    );
                }
                let ghost old_entries = self.entries@;
                self.entries[idx].view = view;
                self.entries[idx].version = stored_version + 1;
                self.entries[idx].last_sequence = context.last_sequence;
                proof {
                    let new_entry = self.entries@[idx as int];
                    assert(self.entries@ =~= old_entries.update(idx as int, new_entry));
                    lemma_lookup_view_first_match(self.entries@, context.view_id@, idx as int);
                    assert forall|id: Seq<char>|
                        id != context.view_id@ implies #[trigger] lookup_view(self.entries@, id)
                        == lookup_view(old_entries, id) by {
                        lemma_lookup_view_update_unaffected(old_entries, idx as int, new_entry, id);
                        assert(old_entries.update(idx as int, new_entry) =~= self.entries@);
                    }
                }
                Ok(())
            },
            None => {
                if context.version != 0 {
                    return Err(PersistenceError::OptimisticLock);
                }
                let entry = ViewEntry {
                    view_id: context.view_id.clone(),
                    view,
                    version: 1,
                    last_sequence: context.last_sequence,
                    aggregate_kind: core::marker::PhantomData,
                };
                let ghost old_entries = self.entries@;
                self.entries.push(entry);
                proof {
                    assert(self.entries@ =~= old_entries.push(entry));
                    lemma_lookup_view_push(old_entries, entry, context.view_id@);
                    lemma_lookup_view_no_match(old_entries, context.view_id@);
                    assert forall|id: Seq<char>|
                        id != context.view_id@ implies #[trigger] lookup_view(self.entries@, id)
                        == lookup_view(old_entries, id) by {
                        lemma_lookup_view_push(old_entries, entry, id);
                    }
                }
                Ok(())
            },
        }
    }
}

proof fn lemma_lookup_view_first_match<A: Aggregate, V: Projection<A>>(
    entries: Seq<ViewEntry<A, V>>,
    view_id: Seq<char>,
    idx: int,
)
    requires
        0 <= idx < entries.len(),
        view_key_matches(entries[idx], view_id),
        forall|j: int| 0 <= j < idx ==> !view_key_matches(#[trigger] entries[j], view_id),
    ensures
        lookup_view(entries, view_id) == Some(
            (entries[idx].view, entries[idx].version, entries[idx].last_sequence),
        ),
    decreases idx,
{
    if idx > 0 {
        assert(!view_key_matches(entries[0], view_id));
        assert(forall|j: int|
            0 <= j < entries.drop_first().len() ==> entries.drop_first()[j] == entries[j + 1]);
        lemma_lookup_view_first_match(entries.drop_first(), view_id, idx - 1);
    }
}

proof fn lemma_lookup_view_no_match<A: Aggregate, V: Projection<A>>(
    entries: Seq<ViewEntry<A, V>>,
    view_id: Seq<char>,
)
    requires
        forall|j: int| 0 <= j < entries.len() ==> !view_key_matches(#[trigger] entries[j], view_id),
    ensures
        lookup_view(entries, view_id) is None,
    decreases entries.len(),
{
    if entries.len() > 0 {
        assert(entries[0] == entries.first());
        assert(forall|j: int|
            0 <= j < entries.drop_first().len() ==> entries.drop_first()[j] == entries[j + 1]);
        lemma_lookup_view_no_match(entries.drop_first(), view_id);
    }
}

proof fn lemma_lookup_view_update_unaffected<A: Aggregate, V: Projection<A>>(
    entries: Seq<ViewEntry<A, V>>,
    idx: int,
    replacement: ViewEntry<A, V>,
    view_id: Seq<char>,
)
    requires
        0 <= idx < entries.len(),
        !view_key_matches(entries[idx], view_id),
        !view_key_matches(replacement, view_id),
    ensures
        lookup_view(entries.update(idx, replacement), view_id) == lookup_view(entries, view_id),
    decreases idx,
{
    let updated = entries.update(idx, replacement);
    if idx == 0 {
        assert(updated.first() == replacement);
        assert(updated.drop_first() =~= entries.drop_first());
    } else {
        assert(updated.first() == entries.first());
        assert(updated.drop_first() =~= entries.drop_first().update(idx - 1, replacement));
        if !view_key_matches(entries.first(), view_id) {
            lemma_lookup_view_update_unaffected(entries.drop_first(), idx - 1, replacement,
                view_id);
        }
    }
}

proof fn lemma_lookup_view_push<A: Aggregate, V: Projection<A>>(
    entries: Seq<ViewEntry<A, V>>,
    pushed: ViewEntry<A, V>,
    view_id: Seq<char>,
)
    ensures
        !view_key_matches(pushed, view_id) ==> lookup_view(entries.push(pushed), view_id)
            == lookup_view(entries, view_id),
        (view_key_matches(pushed, view_id) && (forall|j: int|
            0 <= j < entries.len() ==> !view_key_matches(#[trigger] entries[j], view_id)))
            ==> lookup_view(entries.push(pushed), view_id) == Some(
            (pushed.view, pushed.version, pushed.last_sequence),
        ),
    decreases entries.len(),
{
    let extended = entries.push(pushed);
    if entries.len() == 0 {
        assert(extended.first() == pushed);
        assert(extended.drop_first() =~= Seq::<ViewEntry<A, V>>::empty());
        assert(lookup_view::<A, V>(extended.drop_first(), view_id) is None);
    } else {
        assert(extended.first() == entries.first());
        assert(extended.drop_first() =~= entries.drop_first().push(pushed));
        lemma_lookup_view_push(entries.drop_first(), pushed, view_id);
        assert(forall|j: int|
            0 <= j < entries.drop_first().len() ==> entries.drop_first()[j] == entries[j + 1]);
        if view_key_matches(entries.first(), view_id) {
            assert(lookup_view(extended, view_id) == Some(
                (entries.first().view, entries.first().version, entries.first().last_sequence),
            ));
        } else {
            assert(lookup_view(extended, view_id) == lookup_view(
                extended.drop_first(),
                view_id,
            ));
        }
    }
}

/// The generic query projector: folds delivered event batches into its
/// repository's views, watermark-guarded so that duplicate delivery
/// converges and gaps are rejected.
pub struct GenericQuery<A: Aggregate, V: Projection<A>> {
    repository: MemoryViewRepository<A, V>,
}

impl<A: Aggregate, V: Projection<A>> GenericQuery<A, V> {
    /// The stored view, version counter and watermark for one view
    /// identity.
    pub closed spec fn view_state(&self, view_id: Seq<char>) -> (V, u64, u64) {
        self.repository.view_state(view_id)
    }

    /// A fresh projector over an empty view repository.
    pub fn new() -> (r: Self)
        ensures
            forall|id: Seq<char>| #[trigger] r.view_state(id) == (V::default_spec(), 0u64, 0u64),
    {
        GenericQuery { repository: MemoryViewRepository::new() }
    }

    /// The current view for an identity, the default where none is stored.
    pub fn load_view(&self, view_id: &str) -> (r: V)
        ensures
            r == self.view_state(view_id@).0,
    {
        match self.repository.load_view(view_id) {
            Some((view, _)) => view,
            None => V::default_view(),
        }
    }

    /// Deliver one ordered batch of committed events to the view: load the
    /// view and its watermark, fold each event that immediately follows the
    /// watermark, skip each already-folded one, and persist the result
    /// guarded by the view's version. A batch that would leave a gap past
    /// the watermark is rejected whole, changing nothing.
    pub fn dispatch(&mut self, view_id: &str, events: &Vec<EventEnvelope<A>>) -> (r: Result<
        (),
        PersistenceError,
    >)
        ensures
            ({
                let (old_view, old_version, old_watermark) = old(self).view_state(view_id@);
                match apply_batch_spec::<A, V>(old_view, old_watermark, events@) {
                    Some((new_view, new_watermark)) => match r {
                        Ok(()) => old_version < u64::MAX && final(self).view_state(view_id@) == (
                            new_view,
                            (old_version + 1) as u64,
                            new_watermark,
                        ),
                        Err(e) => e is Technical && old_version == u64::MAX && *final(self)
                            == *old(self),
                    },
                    None => r matches Err(e) && e is Technical && *final(self) == *old(self),
                }
            }),
            forall|id: Seq<char>|
                id != view_id@ ==> #[trigger] final(self).view_state(id) == old(self).view_state(
                    id,
                ),
    {
        let ghost (old_view, old_version, old_watermark) = self.view_state(view_id@);
        let (mut view, context) = match self.repository.load_view(view_id) {
            Some((view, context)) => (view, context),
            None => (
                V::default_view(),
                QueryContext { view_id: view_id.to_owned(), version: 0, last_sequence: 0 },
            ),
        };
        let mut watermark = context.last_sequence;
        let mut i: usize = 0;
        proof {
            assert(events@.skip(0) =~= events@);
        }
        while i < events.len()
            invariant
                0 <= i <= events@.len(),
                *self == *old(self),
                (old_view, old_version, old_watermark) == old(self).view_state(view_id@),
                apply_batch_spec::<A, V>(old_view, old_watermark, events@) == apply_batch_spec::<
                    A,
                    V,
                >(view, watermark, events@.skip(i as int)),
            decreases events@.len() - i,
        {
            proof {
                assert(events@.skip(i as int).first() == events@[i as int]);
                assert(events@.skip(i as int).drop_first() =~= events@.skip(i + 1 as int));
            }
            let env = &events[i];
            if env.sequence <= watermark {
                // already folded: duplicate delivery is a no-op
            } else if env.sequence - watermark == 1 {
                view.update(&env.payload);
                watermark = env.sequence;
            } else {
                proof {
                    assert(apply_batch_spec::<A, V>(view, watermark, events@.skip(i as int)) is None);
                    assert(apply_batch_spec::<A, V>(old_view, old_watermark, events@) is None);
                }
                return Err(
                    PersistenceError::Technical(
                        "event batch does not follow the view watermark".to_owned(),
                    ),
                );
            }
            i = i + 1;
        }
        proof {
            assert(events@.skip(events@.len() as int) =~= Seq::<EventEnvelope<A>>::empty());
        }
        let outcome = self.repository.update_view(
            view,
            QueryContext {
                view_id: context.view_id,
                version: context.version,
                last_sequence: watermark,
            },
        );
        match outcome {
            Ok(()) => Ok(()),
            Err(PersistenceError::OptimisticLock) => {
                // the context was loaded under the same exclusive access that
                // persists it, so its version cannot have gone stale
                proof {
                    assert(false);
                }
                Err(PersistenceError::OptimisticLock)
            },
            Err(e) => Err(e),
        }
    }
}

} // verus!

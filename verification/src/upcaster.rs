//! The event upcaster chain: rewrites a serialized event written under an
//! older schema into the current schema before deserialization, so that
//! replay of old history keeps working as event schemas evolve.

use vstd::prelude::*;

use crate::record::{SerializedEvent, SerializedEventModel};
use crate::version::SemanticVersion;

verus! {

/// A pure, stateless transformation of one serialized event. An upcaster
/// declares which event kind and versions it handles, and rewrites an
/// applicable record's payload, advancing its nominal version to a fixed
/// target.
///
/// Chains are walked in ascending target-version order; the walk applies
/// each applicable upcaster once.
pub trait EventUpcaster: Sized {
    /// Whether this upcaster transforms records of the given kind and
    /// version.
    spec fn applicable_spec(&self, event_type: Seq<char>, event_version: SemanticVersion) -> bool;

    /// The version an applicable record is advanced to.
    spec fn target_version_spec(&self) -> SemanticVersion;

    /// The rewritten record.
    spec fn upcast_spec(&self, event: SerializedEventModel) -> SerializedEventModel;

    fn applicable(&self, event_type: &str, event_version: &SemanticVersion) -> (b: bool)
        ensures
            b == self.applicable_spec(event_type@, *event_version),
    ;

    fn upcast(&self, event: SerializedEvent) -> (r: SerializedEvent)
        requires
            self.applicable_spec(event@.event_type, event@.event_version),
        ensures
            r@ == self.upcast_spec(event@),
    ;

    /// Law: an upcaster applies only to records strictly below its target
    /// version.
    proof fn lemma_applicable_below_target(
        &self,
        event_type: Seq<char>,
        event_version: SemanticVersion,
    )
        requires
            self.applicable_spec(event_type, event_version),
        ensures
            event_version.lt_spec(self.target_version_spec()),
    ;

    /// Law: upcasting rewrites only the payload and the nominal version; the
    /// record's kind, identity and position are untouched, and the version is
    /// advanced exactly to the target. Upcasters therefore never reorder
    /// events relative to each other.
    proof fn lemma_upcast_shape(&self, event: SerializedEventModel)
        requires
            self.applicable_spec(event.event_type, event.event_version),
        ensures
            self.upcast_spec(event).aggregate_type == event.aggregate_type,
            self.upcast_spec(event).aggregate_id == event.aggregate_id,
            self.upcast_spec(event).sequence == event.sequence,
            self.upcast_spec(event).event_type == event.event_type,
            self.upcast_spec(event).event_version == self.target_version_spec(),
    ;
}

/// One walk of the chain, front to back: each applicable upcaster rewrites
/// the record once.
pub open spec fn upcast_chain_spec<U: EventUpcaster>(
    chain: Seq<U>,
    event: SerializedEventModel,
) -> SerializedEventModel
    decreases chain.len(),
{
    if chain.len() == 0 {
        event
    } else {
        let stepped = if chain.first().applicable_spec(event.event_type, event.event_version) {
            chain.first().upcast_spec(event)
        } else {
            event
        };
        upcast_chain_spec(chain.drop_first(), stepped)
    }
}

/// Walk the chain over one serialized event, in order, applying each
/// applicable upcaster once.
pub fn upcast_event<U: EventUpcaster>(upcasters: &Vec<U>, event: SerializedEvent) -> (r:
    SerializedEvent)
    ensures
        r@ == upcast_chain_spec(upcasters@, event@),
{
    let ghost original = event@;
    let mut current = event;
    let mut i: usize = 0;
    proof {
        assert(upcasters@.skip(0) =~= upcasters@);
    }
    while i < upcasters.len()
        invariant
            0 <= i <= upcasters.len(),
            upcast_chain_spec(upcasters@.skip(i as int), current@) == upcast_chain_spec(
                upcasters@,
                original,
            ),
        decreases upcasters.len() - i,
    {
        proof {
            assert(upcasters@.skip(i as int).first() == upcasters@[i as int]);
            assert(upcasters@.skip(i as int).drop_first() =~= upcasters@.skip(i + 1 as int));
        }
        if upcasters[i].applicable(current.event_type.as_str(), &current.event_version) {
            current = upcasters[i].upcast(current);
        }
        i = i + 1;
    }
    proof {
        assert(upcasters@.skip(upcasters@.len() as int) =~= Seq::<U>::empty());
    }
    current
}

/// A chain none of whose upcasters applies to a record leaves the record
/// unchanged.
pub proof fn lemma_upcast_chain_noop<U: EventUpcaster>(chain: Seq<U>, event: SerializedEventModel)
    requires
        forall|i: int|
            0 <= i < chain.len() ==> !#[trigger] chain[i].applicable_spec(
                event.event_type,
                event.event_version,
            ),
    ensures
        upcast_chain_spec(chain, event) == event,
    decreases chain.len(),
{
    if chain.len() > 0 {
        assert(chain[0] == chain.first());
        assert(forall|i: int|
            0 <= i < chain.drop_first().len() ==> chain.drop_first()[i] == chain[i + 1]);
        lemma_upcast_chain_noop(chain.drop_first(), event);
    }
}

/// Upcast convergence, first half: applying the chain to an event already at
/// the current version is a no-op, whenever every upcaster of the chain
/// targets at most the current version.
pub proof fn lemma_upcast_chain_noop_at_current<U: EventUpcaster>(
    chain: Seq<U>,
    event: SerializedEventModel,
    current: SemanticVersion,
)
    requires
        forall|i: int|
            0 <= i < chain.len() ==> (#[trigger] chain[i].target_version_spec()).le_spec(current),
        current.le_spec(event.event_version),
    ensures
        upcast_chain_spec(chain, event) == event,
{
    assert forall|i: int| 0 <= i < chain.len() implies !#[trigger] chain[i].applicable_spec(
        event.event_type,
        event.event_version,
    ) by {
        if chain[i].applicable_spec(event.event_type, event.event_version) {
            chain[i].lemma_applicable_below_target(event.event_type, event.event_version);
            SemanticVersion::lemma_order_total(current, event.event_version);
            SemanticVersion::lemma_order_total(chain[i].target_version_spec(), current);
            if current.lt_spec(event.event_version) {
                SemanticVersion::lemma_order_transitive(
                    event.event_version,
                    chain[i].target_version_spec(),
                    current,
                );
            }
            if chain[i].target_version_spec().lt_spec(current) {
                SemanticVersion::lemma_order_transitive(
                    event.event_version,
                    chain[i].target_version_spec(),
                    current,
                );
            }
            SemanticVersion::lemma_order_total(event.event_version, chain[i].target_version_spec());
        }
    }
    lemma_upcast_chain_noop(chain, event);
}

/// If a walk changes a record at all, some upcaster of the chain applies to
/// the record as given: the version is untouched until the first
/// application.
proof fn lemma_walk_changed_implies_applicable<U: EventUpcaster>(
    chain: Seq<U>,
    event: SerializedEventModel,
)
    requires
        upcast_chain_spec(chain, event) != event,
    ensures
        exists|i: int|
            0 <= i < chain.len() && #[trigger] chain[i].applicable_spec(
                event.event_type,
                event.event_version,
            ),
    decreases chain.len(),
{
    if chain.len() > 0 {
        assert(chain[0] == chain.first());
        if !chain.first().applicable_spec(event.event_type, event.event_version) {
            lemma_walk_changed_implies_applicable(chain.drop_first(), event);
            let j = choose|j: int|
                0 <= j < chain.drop_first().len() && #[trigger] chain.drop_first()[j].applicable_spec(
                    event.event_type,
                    event.event_version,
                );
            assert(chain.drop_first()[j] == chain[j + 1]);
            assert(chain[j + 1].applicable_spec(event.event_type, event.event_version));
        }
    }
}

/// The version a walk ends at is the version it started at, or the target
/// of some upcaster of the chain.
proof fn lemma_walk_lands_on_target<U: EventUpcaster>(chain: Seq<U>, event: SerializedEventModel)
    ensures
        upcast_chain_spec(chain, event).event_version == event.event_version || exists|i: int|
            0 <= i < chain.len() && upcast_chain_spec(chain, event).event_version == (
            #[trigger] chain[i].target_version_spec()),
    decreases chain.len(),
{
    if chain.len() > 0 {
        let first = chain.first();
        assert(chain[0] == first);
        let stepped = if first.applicable_spec(event.event_type, event.event_version) {
            first.upcast_spec(event)
        } else {
            event
        };
        if first.applicable_spec(event.event_type, event.event_version) {
            first.lemma_upcast_shape(event);
        }
        lemma_walk_lands_on_target(chain.drop_first(), stepped);
        let result = upcast_chain_spec(chain, event);
        if result.event_version != stepped.event_version {
            let j = choose|j: int|
                0 <= j < chain.drop_first().len() && result.event_version == (
                #[trigger] chain.drop_first()[j].target_version_spec());
            assert(chain.drop_first()[j] == chain[j + 1]);
            assert(result.event_version == chain[j + 1].target_version_spec());
        } else if stepped.event_version != event.event_version {
            assert(result.event_version == chain[0].target_version_spec());
        }
    }
}

/// How many of the chain's targets still lie above a version: the bound on
/// how many further passes can change a record at that version.
pub open spec fn targets_above<U: EventUpcaster>(chain: Seq<U>, version: SemanticVersion) -> nat
    decreases chain.len(),
{
    if chain.len() == 0 {
        0
    } else {
        targets_above(chain.drop_last(), version) + (if version.lt_spec(
            chain.last().target_version_spec(),
        ) {
            1nat
        } else {
            0nat
        })
    }
}

proof fn lemma_targets_above_zero<U: EventUpcaster>(chain: Seq<U>, version: SemanticVersion)
    requires
        targets_above(chain, version) == 0,
    ensures
        forall|i: int|
            0 <= i < chain.len() ==> !version.lt_spec(#[trigger] chain[i].target_version_spec()),
    decreases chain.len(),
{
    if chain.len() > 0 {
        lemma_targets_above_zero(chain.drop_last(), version);
        assert(forall|i: int|
            0 <= i < chain.drop_last().len() ==> chain.drop_last()[i] == chain[i]);
        assert(chain[chain.len() - 1] == chain.last());
    }
}

proof fn lemma_targets_above_strictly_fewer<U: EventUpcaster>(
    chain: Seq<U>,
    before: SemanticVersion,
    after: SemanticVersion,
    reached: int,
)
    requires
        before.lt_spec(after),
        0 <= reached < chain.len(),
        after == chain[reached].target_version_spec(),
    ensures
        targets_above(chain, after) < targets_above(chain, before),
    decreases chain.len(),
{
    assert forall|i: int|
        0 <= i < chain.len() && after.lt_spec(
            #[trigger] chain[i].target_version_spec(),
        ) implies before.lt_spec(chain[i].target_version_spec()) by {
        SemanticVersion::lemma_order_transitive(before, after, chain[i].target_version_spec());
    }
    lemma_targets_above_le(chain.drop_last(), before, after);
    assert(chain[chain.len() - 1] == chain.last());
    SemanticVersion::lemma_order_total(after, after);
    if reached == chain.len() - 1 {
        // the reached target contributes to the count at `before` but not at `after`
        assert(before.lt_spec(chain.last().target_version_spec()));
        assert(!after.lt_spec(chain.last().target_version_spec()));
    } else {
        assert(forall|i: int|
            0 <= i < chain.drop_last().len() ==> chain.drop_last()[i] == chain[i]);
        lemma_targets_above_strictly_fewer(chain.drop_last(), before, after, reached);
        if after.lt_spec(chain.last().target_version_spec()) {
            SemanticVersion::lemma_order_transitive(
                before,
                after,
                chain.last().target_version_spec(),
            );
        }
    }
}

proof fn lemma_targets_above_le<U: EventUpcaster>(
    chain: Seq<U>,
    before: SemanticVersion,
    after: SemanticVersion,
)
    requires
        before.le_spec(after),
    ensures
        targets_above(chain, after) <= targets_above(chain, before),
    decreases chain.len(),
{
    if chain.len() > 0 {
        lemma_targets_above_le(chain.drop_last(), before, after);
        if after.lt_spec(chain.last().target_version_spec()) && before.lt_spec(after) {
            SemanticVersion::lemma_order_transitive(
                before,
                after,
                chain.last().target_version_spec(),
            );
        }
    }
}

/// The record after `passes` walks of the chain.
pub open spec fn upcast_passes_spec<U: EventUpcaster>(
    chain: Seq<U>,
    event: SerializedEventModel,
    passes: nat,
) -> SerializedEventModel
    decreases passes,
{
    if passes == 0 {
        event
    } else {
        upcast_passes_spec(chain, upcast_chain_spec(chain, event), (passes - 1) as nat)
    }
}

proof fn lemma_fixpoint_stays<U: EventUpcaster>(
    chain: Seq<U>,
    event: SerializedEventModel,
    passes: nat,
)
    requires
        upcast_chain_spec(chain, event) == event,
    ensures
        upcast_passes_spec(chain, event, passes) == event,
    decreases passes,
{
    if passes > 0 {
        lemma_fixpoint_stays(chain, event, (passes - 1) as nat);
    }
}

/// Upcast convergence, second half: a record N targets behind the chain
/// stops changing within N passes. Each pass either leaves the record fixed
/// for good or advances its version onto one of the chain's targets,
/// strictly consuming the targets still above it; so at most
/// `targets_above` passes, and never more than the chain's length, do any
/// work.
pub proof fn lemma_upcast_chain_converges<U: EventUpcaster>(
    chain: Seq<U>,
    event: SerializedEventModel,
    passes: nat,
)
    requires
        targets_above(chain, event.event_version) <= passes,
    ensures
        upcast_chain_spec(chain, upcast_passes_spec(chain, event, passes)) == upcast_passes_spec(
            chain,
            event,
            passes,
        ),
    decreases passes,
{
    let stepped = upcast_chain_spec(chain, event);
    if stepped == event {
        lemma_fixpoint_stays(chain, event, passes);
    } else {
        lemma_walk_changed_implies_applicable(chain, event);
        lemma_upcast_chain_progress(chain, event);
        lemma_walk_lands_on_target(chain, event);
        SemanticVersion::lemma_order_total(event.event_version, stepped.event_version);
        let reached = choose|i: int|
            0 <= i < chain.len() && stepped.event_version == (
            #[trigger] chain[i].target_version_spec());
        lemma_targets_above_strictly_fewer(
            chain,
            event.event_version,
            stepped.event_version,
            reached,
        );
        lemma_upcast_chain_converges(chain, stepped, (passes - 1) as nat);
    }
}

/// At a fixpoint of the chain no upcaster applies any more: with a chain
/// that covers every version below the current one for the record's kind, a
/// fixpoint is therefore at or past the current version.
pub proof fn lemma_fixpoint_no_upcaster_applies<U: EventUpcaster>(
    chain: Seq<U>,
    event: SerializedEventModel,
)
    requires
        upcast_chain_spec(chain, event) == event,
    ensures
        forall|i: int|
            0 <= i < chain.len() ==> !#[trigger] chain[i].applicable_spec(
                event.event_type,
                event.event_version,
            ),
{
    if exists|i: int|
        0 <= i < chain.len() && #[trigger] chain[i].applicable_spec(
            event.event_type,
            event.event_version,
        ) {
        lemma_upcast_chain_progress(chain, event);
        SemanticVersion::lemma_order_total(
            event.event_version,
            upcast_chain_spec(chain, event).event_version,
        );
    }
}

/// A chain walk never rewinds a record: the version only moves forward, the
/// record's kind, identity and position are untouched, and whenever some
/// upcaster of the chain applies to the record as given, the version
/// strictly advances.
pub proof fn lemma_upcast_chain_progress<U: EventUpcaster>(
    chain: Seq<U>,
    event: SerializedEventModel,
)
    ensures
        event.event_version.le_spec(upcast_chain_spec(chain, event).event_version),
        upcast_chain_spec(chain, event).aggregate_type == event.aggregate_type,
        upcast_chain_spec(chain, event).aggregate_id == event.aggregate_id,
        upcast_chain_spec(chain, event).sequence == event.sequence,
        upcast_chain_spec(chain, event).event_type == event.event_type,
        (exists|i: int|
            0 <= i < chain.len() && #[trigger] chain[i].applicable_spec(
                event.event_type,
                event.event_version,
            )) ==> event.event_version.lt_spec(upcast_chain_spec(chain, event).event_version),
    decreases chain.len(),
{
    if chain.len() > 0 {
        let first = chain.first();
        assert(chain[0] == first);
        if first.applicable_spec(event.event_type, event.event_version) {
            first.lemma_applicable_below_target(event.event_type, event.event_version);
            first.lemma_upcast_shape(event);
            let stepped = first.upcast_spec(event);
            lemma_upcast_chain_progress(chain.drop_first(), stepped);
            let result = upcast_chain_spec(chain, event);
            if stepped.event_version.lt_spec(result.event_version) {
                SemanticVersion::lemma_order_transitive(
                    event.event_version,
                    stepped.event_version,
                    result.event_version,
                );
            }
        } else {
            lemma_upcast_chain_progress(chain.drop_first(), event);
            assert(forall|i: int|
                0 <= i < chain.drop_first().len() ==> chain.drop_first()[i] == chain[i + 1]);
            if exists|i: int|
                0 <= i < chain.len() && #[trigger] chain[i].applicable_spec(
                    event.event_type,
                    event.event_version,
                ) {
                let i = choose|i: int|
                    0 <= i < chain.len() && #[trigger] chain[i].applicable_spec(
                        event.event_type,
                        event.event_version,
                    );
                assert(i != 0);
                assert(chain.drop_first()[i - 1].applicable_spec(
                    event.event_type,
                    event.event_version,
                ));
            }
        }
    }
}

} // verus!

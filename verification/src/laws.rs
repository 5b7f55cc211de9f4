//! What holds of a tick as a whole, proved from the definitions that the
//! stages' contracts are stated in.

use vstd::prelude::*;
use crate::message::{frame_message, outcome_message, MessageView, ReadOutcome};
use crate::outbound::{after_writes, batch_of, batch_taken, written, OutboundView};
use crate::store::{
    distinct_ids, entity_index, has_entity, ids_of, lemma_components_keep_ids, lemma_entity_index,
    lemma_without_twice, same_ids, stays, without, EntityId, EntityView,
};
use crate::tick::{broadcast_view, carried, events_of, failed_in, staged_by, ReadEvent};

verus! {

/// Every write in the run succeeded.
pub open spec fn all_written(results: Seq<bool>) -> bool {
    forall|i: int| 0 <= i < results.len() ==> #[trigger] results[i]
}

/// A batch that has not been started.
pub open spec fn fresh_batch(entity: EntityId, batch: Seq<MessageView>) -> OutboundView {
    OutboundView { entity, batch, sent: 0, failed: false }
}

/// The event is the read of a text or binary frame that carries exactly
/// `message`.
pub open spec fn read_payload(event: ReadEvent, message: MessageView) -> bool {
    match event.outcome {
        ReadOutcome::Frame(frame) => !frame.spec_is_control() && frame_message(frame) == Some(
            message,
        ),
        _ => false,
    }
}

/// The staging list holds the message of every payload frame that was read.
pub proof fn lemma_payload_is_staged(events: Seq<ReadEvent>, k: int)
    requires
        0 <= k < events.len(),
        outcome_message(events[k].outcome) is Some,
    ensures
        staged_by(events).contains(outcome_message(events[k].outcome).unwrap()),
    decreases events.len(),
{
    let message = outcome_message(events[k].outcome).unwrap();
    let front = events.drop_last();
    let rest = staged_by(front);
    if k == events.len() - 1 {
        let staged = staged_by(events);
        assert(staged == rest + seq![message]);
        assert(staged[rest.len() as int] == message);
    } else {
        assert(front[k] == events[k]);
        lemma_payload_is_staged(front, k);
        let at = choose|i: int| 0 <= i < rest.len() && rest[i] == message;
        match carried()(events.last()) {
            Some(other) => {
                assert(staged_by(events) == rest + seq![other]);
                assert(staged_by(events)[at] == message);
            },
            None => {},
        }
    }
}

/// Every staged message is the message of a text or binary frame among the
/// read events: nothing else is ever staged.
pub proof fn lemma_staged_is_payload(events: Seq<ReadEvent>, i: int)
    requires
        0 <= i < staged_by(events).len(),
    ensures
        exists|k: int|
            0 <= k < events.len() && read_payload(#[trigger] events[k], staged_by(events)[i]),
{
    let message = staged_by(events)[i];
    assert(staged_by(events).contains(message));
    events.lemma_filter_map_contains(carried(), message);
    let event = choose|t: ReadEvent| #[trigger] events.contains(t) && carried()(t) == Some(message);
    let k = choose|k: int| 0 <= k < events.len() && events[k] == event;
    assert(events[k].outcome is Frame);
    assert(read_payload(events[k], message));
}

/// A read event that carries no message leaves the staging list as it would
/// be without it.
pub proof fn law_silent_reads_add_nothing(events: Seq<ReadEvent>, k: int)
    requires
        0 <= k < events.len(),
        outcome_message(events[k].outcome) is None,
    ensures
        staged_by(events) == staged_by(events.remove(k)),
    decreases events.len(),
{
    let front = events.drop_last();
    if k == events.len() - 1 {
        assert(events.remove(k) =~= front);
    } else {
        assert(front[k] == events[k]);
        law_silent_reads_add_nothing(front, k);
        let removed = events.remove(k);
        assert(removed.drop_last() =~= front.remove(k));
        assert(removed.last() == events.last());
    }
}

/// A run of successful writes moves a batch forward by its length, up to the
/// end of the batch, and never marks it failed.
pub proof fn lemma_successful_writes(outbound: OutboundView, results: Seq<bool>)
    requires
        !outbound.failed,
        outbound.sent <= outbound.batch.len(),
        all_written(results),
    ensures
        after_writes(outbound, results) == (OutboundView {
            entity: outbound.entity,
            batch: outbound.batch,
            sent: if outbound.sent + results.len() <= outbound.batch.len() {
                outbound.sent + results.len()
            } else {
                outbound.batch.len()
            },
            failed: false,
        }),
    decreases results.len(),
{
    if results.len() > 0 {
        let front = results.drop_last();
        assert forall|i: int| 0 <= i < front.len() implies #[trigger] front[i] by {
            assert(front[i] == results[i]);
        }
        lemma_successful_writes(outbound, front);
        assert(results.last() == results[results.len() - 1]);
    }
}

/// A failed write stops a batch: whatever results follow, what counts as
/// written stays what it was.
pub proof fn law_failure_stops_writes(outbound: OutboundView, results: Seq<bool>)
    requires
        outbound.failed,
    ensures
        after_writes(outbound, results) == outbound,
    decreases results.len(),
{
    if results.len() > 0 {
        law_failure_stops_writes(outbound, results.drop_last());
    }
}

/// The broadcast changes no entity's handle, connection or place.
pub proof fn lemma_broadcast_keeps_entities<C>(
    entities: Seq<EntityView<C>>,
    staged: Seq<MessageView>,
    flagged: Set<EntityId>,
)
    ensures
        broadcast_view(entities, staged, flagged).len() == entities.len(),
        ids_of(broadcast_view(entities, staged, flagged)) == ids_of(entities),
        distinct_ids(entities) ==> distinct_ids(broadcast_view(entities, staged, flagged)),
        forall|i: int|
            0 <= i < entities.len() ==> (#[trigger] broadcast_view(
                entities,
                staged,
                flagged,
            )[i]).connection == entities[i].connection,
{
    lemma_components_keep_ids(entities, broadcast_view(entities, staged, flagged), 0);
}

/// With distinct ids, the read stage flags exactly the entities whose own
/// read attempt failed.
pub proof fn lemma_flagged_by_read<C>(
    entities: Seq<EntityView<C>>,
    outcomes: Seq<ReadOutcome>,
    j: int,
)
    requires
        distinct_ids(entities),
        0 <= j < entities.len(),
    ensures
        failed_in(events_of(entities, outcomes)).contains(entities[j].id) == (j < outcomes.len()
            && outcomes[j] is Failed),
{
    let events = events_of(entities, outcomes);
    if failed_in(events).contains(entities[j].id) {
        let k = choose|k: int|
            0 <= k < events.len() && (#[trigger] events[k]).entity == entities[j].id
                && events[k].outcome is Failed;
        if k < j {
            assert(entities[k].id != entities[j].id);
        } else if j < k {
            assert(entities[j].id != entities[k].id);
        }
    }
    if j < outcomes.len() && outcomes[j] is Failed {
        assert(events[j].entity == entities[j].id);
    }
}

/// A payload frame read from any client in a tick is, unmodified, in what is
/// written in that tick to every client that stays connected, the client it
/// came from included: each such client is sent what it had queued, followed
/// by the tick's staged messages in the order in which they were read.
///
/// A client stays connected when its read did not fail, nothing else flagged
/// it before its turn to be written to (`later` holds who was flagged after
/// the read stage), and every one of its writes succeeds. When its turn
/// comes the store is `at_write`: what the broadcast left, but for the queues
/// of other clients, which may have been written out already.
pub proof fn law_payload_reaches_every_client<C>(
    entities: Seq<EntityView<C>>,
    outcomes: Seq<ReadOutcome>,
    sender: int,
    receiver: int,
    later: Set<EntityId>,
    at_write: Seq<EntityView<C>>,
    results: Seq<bool>,
)
    requires
        distinct_ids(entities),
        0 <= sender < entities.len(),
        sender < outcomes.len(),
        outcome_message(outcomes[sender]) is Some,
        0 <= receiver < entities.len(),
        !(receiver < outcomes.len() && outcomes[receiver] is Failed),
        !later.contains(entities[receiver].id),
        same_ids(entities, at_write),
        at_write[receiver] == broadcast_view(
            entities,
            staged_by(events_of(entities, outcomes)),
            failed_in(events_of(entities, outcomes)),
        )[receiver],
        all_written(results),
        results.len() >= entities[receiver].queue.len() + staged_by(
            events_of(entities, outcomes),
        ).len(),
    ensures
        ({
            let events = events_of(entities, outcomes);
            let message = outcome_message(outcomes[sender]).unwrap();
            let staged = staged_by(events);
            let flagged = failed_in(events).union(later);
            let batch = batch_of(at_write, flagged, entities[receiver].id);
            let stream = written(after_writes(fresh_batch(entities[receiver].id, batch), results));
            &&& staged.contains(message)
            &&& stream == entities[receiver].queue + staged
            &&& stream.contains(message)
        }),
{
    let events = events_of(entities, outcomes);
    let message = outcome_message(outcomes[sender]).unwrap();
    let staged = staged_by(events);
    let after = broadcast_view(entities, staged, failed_in(events));
    let flagged = failed_in(events).union(later);
    let id = entities[receiver].id;
    lemma_flagged_by_read(entities, outcomes, receiver);
    lemma_components_keep_ids(entities, at_write, 0);
    lemma_entity_index(at_write, receiver);
    let batch = batch_of(at_write, flagged, id);
    assert(after[receiver].queue == entities[receiver].queue + staged);
    assert(batch == entities[receiver].queue + staged);
    lemma_successful_writes(fresh_batch(id, batch), results);
    let stream = written(after_writes(fresh_batch(id, batch), results));
    assert(stream =~= batch);
    assert(events[sender].outcome == outcomes[sender]);
    lemma_payload_is_staged(events, sender);
    let at = choose|i: int| 0 <= i < staged.len() && staged[i] == message;
    assert(stream[entities[receiver].queue.len() + at] == message);
}

/// Taking one entity's batch leaves every other entity as it was, and all of
/// them where they were.
pub proof fn law_turns_do_not_interfere<C>(
    entities: Seq<EntityView<C>>,
    flagged: Set<EntityId>,
    entity: EntityId,
    j: int,
)
    requires
        distinct_ids(entities),
        0 <= j < entities.len(),
        entities[j].id != entity,
    ensures
        same_ids(entities, batch_taken(entities, flagged, entity)),
        batch_taken(entities, flagged, entity)[j] == entities[j],
{
    if has_entity(entities, entity) && !flagged.contains(entity) {
        let i = entity_index(entities, entity);
        assert(entities[i].id == entity);
    }
}

/// The broadcast reaches a client that stays connected whoever else is
/// flagged in the same tick, and the sweep that removes the flagged clients
/// leaves it in the store with its handle, its connection and its queue.
/// Those that stay are iterated in the order they had, none of them skipped.
pub proof fn law_disconnect_is_isolated<C>(
    entities: Seq<EntityView<C>>,
    staged: Seq<MessageView>,
    flagged: Set<EntityId>,
    gone: EntityId,
    j: int,
)
    requires
        distinct_ids(entities),
        flagged.contains(gone),
        0 <= j < entities.len(),
        !flagged.contains(entities[j].id),
    ensures
        ({
            let after = broadcast_view(entities, staged, flagged);
            let swept = without(after, flagged);
            &&& after[j] == (EntityView {
                id: entities[j].id,
                connection: entities[j].connection,
                queue: entities[j].queue + staged,
            })
            &&& after[j] == broadcast_view(entities, staged, flagged.remove(gone))[j]
            &&& has_entity(swept, entities[j].id)
            &&& swept[entity_index(swept, entities[j].id)] == after[j]
            &&& !has_entity(swept, gone)
            &&& ids_of(swept) == ids_of(entities).filter(|id: EntityId| !flagged.contains(id))
        }),
{
    let after = broadcast_view(entities, staged, flagged);
    let swept = without(after, flagged);
    let id = entities[j].id;
    lemma_broadcast_keeps_entities(entities, staged, flagged);
    lemma_survivors(after, flagged);
    assert(after[j].id == id);
    assert(swept.contains(after[j]));
    let at = choose|i: int| 0 <= i < swept.len() && swept[i] == after[j];
    assert(swept[at].id == id);
    lemma_entity_index(swept, at);
    if has_entity(swept, gone) {
        let i = entity_index(swept, gone);
        assert(swept[i].id == gone);
    }
}

/// What the sweep leaves: exactly the entities that were not flagged, each
/// as it was, in the order they had.
pub proof fn lemma_survivors<C>(entities: Seq<EntityView<C>>, flagged: Set<EntityId>)
    ensures
        forall|i: int|
            0 <= i < without(entities, flagged).len() ==> !flagged.contains(
                (#[trigger] without(entities, flagged)[i]).id,
            ) && entities.contains(without(entities, flagged)[i]),
        forall|i: int|
            0 <= i < entities.len() && !flagged.contains(entities[i].id) ==> without(
                entities,
                flagged,
            ).contains(#[trigger] entities[i]),
        ids_of(without(entities, flagged)) == ids_of(entities).filter(
            |id: EntityId| !flagged.contains(id),
        ),
        distinct_ids(entities) ==> distinct_ids(without(entities, flagged)),
    decreases entities.len(),
{
    reveal(Seq::filter);
    let kept = without(entities, flagged);
    let keep_id = |id: EntityId| !flagged.contains(id);
    if entities.len() == 0 {
        assert(ids_of(kept) =~= ids_of(entities).filter(keep_id));
    } else {
        let front = entities.drop_last();
        let last = entities.last();
        let kept_front = without(front, flagged);
        lemma_survivors(front, flagged);
        assert(ids_of(entities).drop_last() =~= ids_of(front));
        assert(ids_of(entities).last() == last.id);
        assert forall|i: int| 0 <= i < kept.len() implies !flagged.contains(
            (#[trigger] kept[i]).id,
        ) && entities.contains(kept[i]) by {
            if i < kept_front.len() {
                assert(kept[i] == kept_front[i]);
                assert(front.contains(kept_front[i]));
                let at = choose|at: int| 0 <= at < front.len() && front[at] == kept_front[i];
                assert(entities[at] == kept[i]);
            } else {
                assert(kept[i] == last);
                assert(entities[entities.len() - 1] == last);
            }
        }
        assert forall|i: int|
            0 <= i < entities.len() && !flagged.contains(entities[i].id) implies kept.contains(
            #[trigger] entities[i],
        ) by {
            if i < front.len() {
                assert(front[i] == entities[i]);
                assert(kept_front.contains(front[i]));
                let at = choose|at: int| 0 <= at < kept_front.len() && kept_front[at] == front[i];
                assert(kept[at] == entities[i]);
            } else {
                assert(kept[kept.len() - 1] == entities[i]);
            }
        }
        if stays::<C>(flagged)(last) {
            assert(ids_of(kept) =~= ids_of(kept_front).push(last.id));
        } else {
            assert(ids_of(kept) =~= ids_of(kept_front));
        }
        if distinct_ids(entities) {
            assert(distinct_ids(front)) by {
                assert forall|a: int, b: int| 0 <= a < b < front.len() implies (
                #[trigger] front[a]).id != (#[trigger] front[b]).id by {
                    assert(front[a] == entities[a]);
                    assert(front[b] == entities[b]);
                }
            }
            assert forall|a: int, b: int| 0 <= a < b < kept.len() implies (#[trigger] kept[a]).id
                != (#[trigger] kept[b]).id by {
                if b < kept_front.len() {
                    assert(kept[a] == kept_front[a]);
                    assert(kept[b] == kept_front[b]);
                } else {
                    assert(kept[b] == last);
                    assert(kept[a] == kept_front[a]);
                    assert(front.contains(kept_front[a]));
                    let at = choose|at: int| 0 <= at < front.len() && front[at] == kept_front[a];
                    assert(entities[at] == kept[a]);
                    assert(entities[at].id != entities[entities.len() - 1].id);
                }
            }
        }
    }
}

/// Ping, pong and close frames are never broadcast: every message that a
/// tick appends to a queue is the message of a text or binary frame read in
/// that tick.
pub proof fn law_control_frames_not_broadcast<C>(
    entities: Seq<EntityView<C>>,
    events: Seq<ReadEvent>,
    j: int,
    i: int,
)
    requires
        0 <= j < entities.len(),
        entities[j].queue.len() <= i < broadcast_view(
            entities,
            staged_by(events),
            failed_in(events),
        )[j].queue.len(),
    ensures
        exists|k: int|
            0 <= k < events.len() && read_payload(
                #[trigger] events[k],
                broadcast_view(entities, staged_by(events), failed_in(events))[j].queue[i],
            ),
{
    let staged = staged_by(events);
    let after = broadcast_view(entities, staged, failed_in(events));
    assert(after[j].queue == entities[j].queue + staged);
    let at = i - entities[j].queue.len();
    assert(after[j].queue[i] == staged[at]);
    lemma_staged_is_payload(events, at);
    let k = choose|k: int| 0 <= k < events.len() && read_payload(#[trigger] events[k], staged[at]);
    assert(read_payload(events[k], after[j].queue[i]));
}

/// Removing an entity twice leaves the store as removing it once does.
pub proof fn law_removal_is_idempotent<C>(entities: Seq<EntityView<C>>, id: EntityId)
    ensures
        without(without(entities, set![id]), set![id]) == without(entities, set![id]),
        !has_entity(without(entities, set![id]), id),
{
    lemma_without_twice(entities, set![id], set![id]);
    assert(set![id].union(set![id]) =~= set![id]);
    lemma_survivors(entities, set![id]);
    let left = without(entities, set![id]);
    if has_entity(left, id) {
        let i = entity_index(left, id);
        assert(left[i].id == id);
    }
}

} // verus!

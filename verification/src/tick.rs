//! The state of one tick and the stages that work on it.
//!
//! A tick reads at most one frame from every connection, stages the payload
//! frames, appends the staged messages to the queue of every entity that is
//! not flagged, lets the queues be written out, and ends with the sweep that
//! removes the flagged entities.

use vstd::prelude::*;
use crate::message::{outcome_message, Message, MessageView, ReadOutcome};
use crate::removal::RemovalSet;
use crate::store::{
    has_entity, lemma_without_absent, lemma_without_twice, messages_view, without, EntityId,
    EntityView, Store,
};

verus! {

/// The result of the one read attempt made on an entity in a tick.
pub struct ReadEvent {
    pub entity: EntityId,
    pub outcome: ReadOutcome,
}

/// The read events of a tick: the entities in iteration order, each with the
/// outcome of its one read attempt. An entity without an outcome was not read;
/// an outcome without an entity is dropped.
pub open spec fn events_of<C>(entities: Seq<EntityView<C>>, outcomes: Seq<ReadOutcome>) -> Seq<
    ReadEvent,
> {
    Seq::new(
        if outcomes.len() <= entities.len() {
            outcomes.len()
        } else {
            entities.len()
        },
        |i: int| ReadEvent { entity: entities[i].id, outcome: outcomes[i] },
    )
}

/// What a read event contributes to the staging list.
pub open spec fn carried() -> spec_fn(ReadEvent) -> Option<MessageView> {
    |event: ReadEvent| outcome_message(event.outcome)
}

/// The staging list after these read events: the messages of the payload
/// frames among them, in the order of the events.
pub open spec fn staged_by(events: Seq<ReadEvent>) -> Seq<MessageView> {
    events.filter_map(carried())
}

/// The entities whose read attempt failed.
pub open spec fn failed_in(events: Seq<ReadEvent>) -> Set<EntityId> {
    Set::new(
        |id: EntityId|
            exists|k: int|
                0 <= k < events.len() && (#[trigger] events[k]).entity == id
                    && events[k].outcome is Failed,
    )
}

/// What the broadcast does to one entity: a flagged entity is left alone,
/// any other gets the staged messages behind what it had queued.
pub open spec fn delivered_to<C>(
    entity: EntityView<C>,
    staged: Seq<MessageView>,
    flagged: Set<EntityId>,
) -> EntityView<C> {
    if flagged.contains(entity.id) {
        entity
    } else {
        EntityView { id: entity.id, connection: entity.connection, queue: entity.queue + staged }
    }
}

/// The store after the broadcast of `staged`.
pub open spec fn broadcast_view<C>(
    entities: Seq<EntityView<C>>,
    staged: Seq<MessageView>,
    flagged: Set<EntityId>,
) -> Seq<EntityView<C>> {
    Seq::new(entities.len(), |i: int| delivered_to(entities[i], staged, flagged))
}

/// Where an entity stands in its life, as the stages of a tick see it.
#[derive(Clone, Copy, PartialEq, Eq, Structural, Debug)]
pub enum EntityState {
    /// In the store and not flagged.
    Active,
    /// Flagged for removal; the sweep at the end of the tick removes it.
    Closing,
}

/// The staging list and the removal set of the tick in progress.
pub struct Tick {
    staged: Vec<Message>,
    removals: RemovalSet,
}

impl Tick {
    /// The messages staged for broadcast, in the order in which they were
    /// read.
    pub closed spec fn staged_view(&self) -> Seq<MessageView> {
        messages_view(self.staged@)
    }

    /// The entities flagged for removal.
    pub closed spec fn flagged(&self) -> Set<EntityId> {
        self.removals@
    }

    /// The removal set holds no entity twice.
    pub closed spec fn wf(&self) -> bool {
        self.removals.wf()
    }

    /// A tick in which nothing has happened yet.
    pub fn new() -> (tick: Tick)
        ensures
            tick.wf(),
            tick.staged_view() == Seq::<MessageView>::empty(),
            tick.flagged() == Set::<EntityId>::empty(),
    {
        let tick = Tick { staged: Vec::new(), removals: RemovalSet::new() };
        assert(tick.staged_view() =~= Seq::<MessageView>::empty());
        tick
    }

    /// Takes in what the read attempt on `entity` produced. A payload frame
    /// is staged as a message; a failure flags the entity; an idle socket and
    /// a control frame leave the tick as it was.
    fn record_read(&mut self, entity: EntityId, outcome: ReadOutcome)
        requires
            old(self).wf(),
        ensures
            final(self).wf(),
            final(self).staged_view() == match outcome_message(outcome) {
                Some(message) => old(self).staged_view().push(message),
                None => old(self).staged_view(),
            },
            final(self).flagged() == if outcome is Failed {
                old(self).flagged().insert(entity)
            } else {
                old(self).flagged()
            },
    {
        match outcome {
            ReadOutcome::Idle => {},
            ReadOutcome::Frame(frame) => {
                match frame.into_message() {
                    Some(message) => {
                        self.staged.push(message);
                        assert(self.staged_view() =~= old(self).staged_view().push(message@));
                    },
                    None => {},
                }
            },
            ReadOutcome::Failed => {
                self.removals.insert(entity);
            },
        }
    }

    /// Flags the entity for removal at the end of the tick; says whether it
    /// was not flagged before.
    pub fn flag_removal(&mut self, entity: EntityId) -> (newly: bool)
        requires
            old(self).wf(),
        ensures
            final(self).wf(),
            newly == !old(self).flagged().contains(entity),
            final(self).flagged() == old(self).flagged().insert(entity),
            final(self).staged_view() == old(self).staged_view(),
    {
        self.removals.insert(entity)
    }

    /// Whether the entity is flagged for removal.
    pub fn is_flagged(&self, entity: EntityId) -> (b: bool)
        ensures
            b == self.flagged().contains(entity),
    {
        self.removals.contains(entity)
    }

    /// The staged messages.
    pub fn staged(&self) -> (messages: &Vec<Message>)
        ensures
            messages_view(messages@) == self.staged_view(),
    {
        &self.staged
    }

    /// The removal set.
    pub fn removals(&self) -> (set: &RemovalSet)
        ensures
            set@ == self.flagged(),
            self.wf() ==> set.wf(),
    {
        &self.removals
    }

    /// The state of an entity: none if the store does not hold it.
    pub fn entity_state<C>(&self, store: &Store<C>, entity: EntityId) -> (state: Option<
        EntityState,
    >)
        requires
            store.wf(),
        ensures
            state == if !has_entity(store@, entity) {
                None
            } else if self.flagged().contains(entity) {
                Some(EntityState::Closing)
            } else {
                Some(EntityState::Active)
            },
    {
        if !store.contains(entity) {
            None
        } else if self.removals.contains(entity) {
            Some(EntityState::Closing)
        } else {
            Some(EntityState::Active)
        }
    }
}

/// No tick stages more messages than it made read attempts.
pub proof fn lemma_staged_bounded(events: Seq<ReadEvent>)
    ensures
        staged_by(events).len() <= events.len(),
    decreases events.len(),
{
    if events.len() > 0 {
        lemma_staged_bounded(events.drop_last());
    }
}

/// One more read event flags its entity if it failed and nobody else.
pub proof fn lemma_failed_in_next(events: Seq<ReadEvent>, done: int)
    requires
        0 <= done < events.len(),
    ensures
        failed_in(events.take(done + 1)) == if events[done].outcome is Failed {
            failed_in(events.take(done)).insert(events[done].entity)
        } else {
            failed_in(events.take(done))
        },
{
    let before = events.take(done);
    let after = events.take(done + 1);
    let expected = if events[done].outcome is Failed {
        failed_in(before).insert(events[done].entity)
    } else {
        failed_in(before)
    };
    assert(after[done] == events[done]);
    assert forall|id: EntityId| failed_in(after).contains(id) implies expected.contains(id) by {
        let k = choose|k: int|
            0 <= k < after.len() && (#[trigger] after[k]).entity == id
                && after[k].outcome is Failed;
        if k < done {
            assert(before[k] == after[k]);
            assert(failed_in(before).contains(id));
        }
    }
    assert forall|id: EntityId| expected.contains(id) implies failed_in(after).contains(id) by {
        if failed_in(before).contains(id) {
            let k = choose|k: int|
                0 <= k < before.len() && (#[trigger] before[k]).entity == id
                    && before[k].outcome is Failed;
            assert(after[k] == before[k]);
        } else {
            assert(after[done].entity == id);
        }
    }
    assert(failed_in(after) =~= expected);
}

/// The read stage: takes in the outcome of the one read attempt made on each
/// entity, `outcomes[i]` being that of the entity at position `i`. Payload
/// frames are staged in that order, control frames are discarded, and every
/// entity whose read failed is flagged for removal.
pub fn read_stage<C>(store: &Store<C>, outcomes: Vec<ReadOutcome>) -> (tick: Tick)
    ensures
        tick.wf(),
        tick.staged_view() == staged_by(events_of(store@, outcomes@)),
        tick.flagged() == failed_in(events_of(store@, outcomes@)),
        tick.staged_view().len() <= store@.len(),
{
    let mut tick = Tick::new();
    let count = store.len();
    let total = outcomes.len();
    let mut index: usize = 0;
    let ghost given = outcomes@;
    let ghost events = events_of(store@, given);
    proof {
        assert(tick.flagged() =~= failed_in(events.take(0)));
    }
    for outcome in it: outcomes
        invariant
            given == it.seq(),
            given.len() == total,
            count == store@.len(),
            events == events_of(store@, given),
            index == it.index(),
            tick.wf(),
            index <= count ==> tick.staged_view() == staged_by(events.take(index as int))
                && tick.flagged() == failed_in(events.take(index as int)),
            index > count ==> tick.staged_view() == staged_by(events) && tick.flagged()
                == failed_in(events),
    {
        if index < count {
            let entity = store.id_at(index);
            proof {
                assert(events[index as int] == ReadEvent { entity, outcome });
                events.lemma_filter_map_take_succ(carried(), index as int);
                lemma_failed_in_next(events, index as int);
            }
            tick.record_read(entity, outcome);
        } else {
            proof {
                assert(events.take(events.len() as int) =~= events);
            }
        }
        index = index + 1;
    }
    proof {
        assert(events.take(events.len() as int) =~= events);
        lemma_staged_bounded(events);
    }
    tick
}

/// The broadcast stage: appends the staged messages, in their order, to the
/// queue of every entity that is not flagged, the sender's own included, and
/// empties the staging list.
pub fn broadcast_stage<C>(store: &mut Store<C>, tick: &mut Tick)
    requires
        old(store).wf(),
        old(tick).wf(),
    ensures
        final(store).wf(),
        final(store).issued() == old(store).issued(),
        final(store)@ == broadcast_view(old(store)@, old(tick).staged_view(), old(tick).flagged()),
        final(tick).wf(),
        final(tick).staged_view() == Seq::<MessageView>::empty(),
        final(tick).flagged() == old(tick).flagged(),
{
    let count = store.len();
    let mut i: usize = 0;
    while i < count
        invariant
            store.wf(),
            store.issued() == old(store).issued(),
            *tick == *old(tick),
            tick.wf(),
            count == old(store)@.len(),
            store@.len() == count,
            i <= count,
            forall|j: int|
                0 <= j < i ==> (#[trigger] store@[j]) == delivered_to(
                    old(store)@[j],
                    tick.staged_view(),
                    tick.flagged(),
                ),
            forall|j: int| i <= j < count ==> (#[trigger] store@[j]) == old(store)@[j],
        decreases count - i,
    {
        let id = store.id_at(i);
        if !tick.removals.contains(id) {
            store.extend_queue_at(i, &tick.staged);
        }
        i = i + 1;
    }
    tick.staged.clear();
    proof {
        assert(tick.staged_view() =~= Seq::<MessageView>::empty());
        assert(store@ =~= broadcast_view(
            old(store)@,
            old(tick).staged_view(),
            old(tick).flagged(),
        ));
    }
}

/// The sweep that ends a tick: removes every flagged entity, each once, and
/// releases its connection. The other entities keep their order and their
/// components. Returns how many entities were removed.
pub fn sweep<C>(store: &mut Store<C>, tick: Tick) -> (removed: usize)
    requires
        old(store).wf(),
        tick.wf(),
    ensures
        final(store).wf(),
        final(store).issued() == old(store).issued(),
        final(store)@ == without(old(store)@, tick.flagged()),
        removed == old(store)@.len() - final(store)@.len(),
{
    let before = store.len();
    let total = tick.removals.count();
    let mut k: usize = 0;
    let ghost order = tick.removals.order();
    proof {
        assert(order.subrange(0, 0).to_set() =~= Set::<EntityId>::empty());
        lemma_without_absent(store@, Set::<EntityId>::empty());
    }
    while k < total
        invariant
            store.wf(),
            store.issued() == old(store).issued(),
            order == tick.removals.order(),
            total == order.len(),
            k <= total,
            store@ == without(old(store)@, order.subrange(0, k as int).to_set()),
        decreases total - k,
    {
        let id = tick.removals.get(k);
        let _ = store.remove_entity(id);
        proof {
            let head = order.subrange(0, k as int);
            let longer = order.subrange(0, k as int + 1);
            let done = head.to_set();
            let next = longer.to_set();
            lemma_without_twice(old(store)@, done, set![id]);
            assert(next =~= done.union(set![id])) by {
                assert forall|x: EntityId| next.contains(x) implies done.union(set![id]).contains(
                    x,
                ) by {
                    let j = choose|j: int| 0 <= j < longer.len() && longer[j] == x;
                    if j < k {
                        assert(head[j] == x);
                    }
                }
                assert forall|x: EntityId| done.union(set![id]).contains(x) implies next.contains(
                    x,
                ) by {
                    if done.contains(x) {
                        let j = choose|j: int| 0 <= j < head.len() && head[j] == x;
                        assert(longer[j] == x);
                    } else {
                        assert(longer[k as int] == x);
                    }
                }
            }
        }
        k = k + 1;
    }
    proof {
        assert(order.subrange(0, k as int) =~= order);
        tick.removals.lemma_order();
        old(store)@.lemma_filter_len(crate::store::stays(tick.flagged()));
    }
    before - store.len()
}

} // verus!

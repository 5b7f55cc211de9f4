//! The write stage: one entity's queued messages on their way to its socket.
//!
//! The caller writes the message that [`Outbound::next`] names and reports
//! the result with [`Outbound::record`], until there is no next message. A
//! failed write ends the entity's writes for the tick and gets the entity
//! flagged when the batch is handed back.

use vstd::prelude::*;
use crate::message::{Message, MessageView};
use crate::store::{
    entity_index, has_entity, lemma_entity_index, messages_view, with_queue, EntityId, EntityView,
    Store,
};
use crate::tick::Tick;

verus! {

/// What an [`Outbound`] is: the batch taken from an entity's queue, how many
/// of its messages have been written, and whether a write has failed.
pub struct OutboundView {
    pub entity: EntityId,
    pub batch: Seq<MessageView>,
    pub sent: nat,
    pub failed: bool,
}

/// A message is still waiting to be written.
pub open spec fn is_pending(outbound: OutboundView) -> bool {
    !outbound.failed && outbound.sent < outbound.batch.len()
}

/// The batch after the result of one write attempt: a success moves on to
/// the next message, a failure stops the batch where it is. Once nothing is
/// pending, results change nothing.
pub open spec fn after_write(outbound: OutboundView, written: bool) -> OutboundView {
    if !is_pending(outbound) {
        outbound
    } else if written {
        OutboundView {
            entity: outbound.entity,
            batch: outbound.batch,
            sent: outbound.sent + 1,
            failed: false,
        }
    } else {
        OutboundView {
            entity: outbound.entity,
            batch: outbound.batch,
            sent: outbound.sent,
            failed: true,
        }
    }
}

/// The batch after a run of write results.
pub open spec fn after_writes(outbound: OutboundView, results: Seq<bool>) -> OutboundView
    decreases results.len(),
{
    if results.len() == 0 {
        outbound
    } else {
        after_write(after_writes(outbound, results.drop_last()), results.last())
    }
}

/// The messages that reached the socket, in the order in which they were
/// queued.
pub open spec fn written(outbound: OutboundView) -> Seq<MessageView> {
    outbound.batch.take(outbound.sent as int)
}

/// The batch the write stage takes from an entity: its whole queue, or
/// nothing when the entity is flagged or not in the store.
pub open spec fn batch_of<C>(
    entities: Seq<EntityView<C>>,
    flagged: Set<EntityId>,
    entity: EntityId,
) -> Seq<MessageView> {
    if has_entity(entities, entity) && !flagged.contains(entity) {
        entities[entity_index(entities, entity)].queue
    } else {
        Seq::empty()
    }
}

/// The store once the write stage has taken an entity's batch: the queue it
/// came from is empty.
pub open spec fn batch_taken<C>(
    entities: Seq<EntityView<C>>,
    flagged: Set<EntityId>,
    entity: EntityId,
) -> Seq<EntityView<C>> {
    if has_entity(entities, entity) && !flagged.contains(entity) {
        with_queue(entities, entity_index(entities, entity), Seq::empty())
    } else {
        entities
    }
}

/// One entity's batch of outbound messages and how far writing it has come.
pub struct Outbound {
    entity: EntityId,
    batch: Vec<Message>,
    sent: usize,
    failed: bool,
}

impl View for Outbound {
    type V = OutboundView;

    closed spec fn view(&self) -> OutboundView {
        OutboundView {
            entity: self.entity,
            batch: messages_view(self.batch@),
            sent: self.sent as nat,
            failed: self.failed,
        }
    }
}

impl Outbound {
    /// No more messages count as written than the batch holds.
    pub open spec fn wf(&self) -> bool {
        self@.sent <= self@.batch.len()
    }

    /// The entity whose messages these are.
    pub fn entity(&self) -> (id: EntityId)
        ensures
            id == self@.entity,
    {
        self.entity
    }

    /// The message to write now, or nothing when the batch is done or a
    /// write has failed.
    pub fn next(&self) -> (message: Option<&Message>)
        requires
            self.wf(),
        ensures
            match message {
                Some(m) => is_pending(self@) && m@ == self@.batch[self@.sent as int],
                None => !is_pending(self@),
            },
    {
        if !self.failed && self.sent < self.batch.len() {
            Some(&self.batch[self.sent])
        } else {
            None
        }
    }

    /// Takes in the result of writing the message that `next` named.
    pub fn record(&mut self, was_written: bool)
        requires
            old(self).wf(),
        ensures
            final(self).wf(),
            final(self)@ == after_write(old(self)@, was_written),
    {
        if !self.failed && self.sent < self.batch.len() {
            if was_written {
                self.sent = self.sent + 1;
            } else {
                self.failed = true;
            }
        }
    }

    /// How many messages have been written.
    pub fn sent(&self) -> (n: usize)
        ensures
            n == self@.sent,
    {
        self.sent
    }

    /// Whether a write has failed.
    pub fn has_failed(&self) -> (b: bool)
        ensures
            b == self@.failed,
    {
        self.failed
    }

    /// How many messages the batch holds.
    pub fn len(&self) -> (n: usize)
        ensures
            n == self@.batch.len(),
    {
        self.batch.len()
    }
}

/// Opens the write stage for the entity at position `index`: takes every
/// queued message and leaves the queue empty. For a flagged entity the batch
/// is empty and the store stays as it is.
pub fn begin_write_at<C>(store: &mut Store<C>, tick: &Tick, index: usize) -> (outbound: Outbound)
    requires
        old(store).wf(),
        index < old(store)@.len(),
    ensures
        final(store).wf(),
        final(store).issued() == old(store).issued(),
        final(store)@ == batch_taken(old(store)@, tick.flagged(), old(store)@[index as int].id),
        outbound.wf(),
        outbound@ == (OutboundView {
            entity: old(store)@[index as int].id,
            batch: batch_of(old(store)@, tick.flagged(), old(store)@[index as int].id),
            sent: 0,
            failed: false,
        }),
{
    let entity = store.id_at(index);
    proof {
        lemma_entity_index(store@, index as int);
    }
    let batch = if tick.is_flagged(entity) {
        Vec::new()
    } else {
        store.take_queue_at(index)
    };
    let outbound = Outbound { entity, batch, sent: 0, failed: false };
    proof {
        assert(messages_view(Seq::<Message>::empty()) =~= Seq::<MessageView>::empty());
        assert(outbound@.batch =~= batch_of(old(store)@, tick.flagged(), entity));
    }
    outbound
}

/// Opens the write stage for one entity, as [`begin_write_at`] does for a
/// position. For an entity that is not in the store the batch is empty and
/// the store stays as it is.
pub fn begin_write<C>(store: &mut Store<C>, tick: &Tick, entity: EntityId) -> (outbound: Outbound)
    requires
        old(store).wf(),
    ensures
        final(store).wf(),
        final(store).issued() == old(store).issued(),
        final(store)@ == batch_taken(old(store)@, tick.flagged(), entity),
        outbound.wf(),
        outbound@ == (OutboundView {
            entity,
            batch: batch_of(old(store)@, tick.flagged(), entity),
            sent: 0,
            failed: false,
        }),
{
    match store.index_of(entity) {
        Some(index) => begin_write_at(store, tick, index),
        None => {
            let outbound = Outbound { entity, batch: Vec::new(), sent: 0, failed: false };
            assert(messages_view(Seq::<Message>::empty()) =~= Seq::<MessageView>::empty());
            outbound
        },
    }
}

/// Closes the write stage for one entity: if a write failed, the entity is
/// flagged for removal. Messages of the batch that were not written are
/// dropped. Returns how many were written.
pub fn finish_write(tick: &mut Tick, outbound: Outbound) -> (sent: usize)
    requires
        old(tick).wf(),
    ensures
        final(tick).wf(),
        final(tick).staged_view() == old(tick).staged_view(),
        final(tick).flagged() == if outbound@.failed {
            old(tick).flagged().insert(outbound@.entity)
        } else {
            old(tick).flagged()
        },
        sent == outbound@.sent,
{
    if outbound.failed {
        tick.flag_removal(outbound.entity);
    }
    outbound.sent
}

} // verus!

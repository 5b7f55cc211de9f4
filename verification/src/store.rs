//! The registry of connected clients.
//!
//! Every entity carries a connection and an outbound queue. The two are kept
//! in parallel arrays beside the array of ids, so that an entity always has
//! both or is not there at all.

use vstd::prelude::*;
use crate::message::{Message, MessageView};

verus! {

/// An opaque handle for one connected client. Handles are never reused.
#[derive(Clone, Copy, PartialEq, Eq, Structural, Debug, Hash)]
pub struct EntityId {
    raw: u64,
}

impl EntityId {
    /// The number behind the handle.
    pub closed spec fn spec_raw(self) -> u64 {
        self.raw
    }

    /// The number behind the handle: handles count up from zero in the order
    /// in which a store gives them out.
    #[verifier::when_used_as_spec(spec_raw)]
    pub fn raw(self) -> (n: u64)
        ensures
            n == self.spec_raw(),
    {
        self.raw
    }

    /// Two handles with the same number are the same handle.
    pub proof fn lemma_raw_identifies(a: EntityId, b: EntityId)
        requires
            a.spec_raw() == b.spec_raw(),
        ensures
            a == b,
    {
    }
}

/// What the store holds for one entity.
pub struct EntityView<C> {
    pub id: EntityId,
    pub connection: C,
    pub queue: Seq<MessageView>,
}

/// The messages of a queue, oldest first.
pub open spec fn messages_view(queue: Seq<Message>) -> Seq<MessageView> {
    queue.map_values(|m: Message| m@)
}

/// Some entry of `entities` has this id.
pub open spec fn has_entity<C>(entities: Seq<EntityView<C>>, id: EntityId) -> bool {
    exists|i: int| 0 <= i < entities.len() && (#[trigger] entities[i]).id == id
}

/// Where the entity with this id stands, if there is one.
pub open spec fn entity_index<C>(entities: Seq<EntityView<C>>, id: EntityId) -> int {
    choose|i: int| 0 <= i < entities.len() && (#[trigger] entities[i]).id == id
}

/// No id occurs twice.
pub open spec fn distinct_ids<C>(entities: Seq<EntityView<C>>) -> bool {
    forall|i: int, j: int|
        0 <= i < j < entities.len() ==> (#[trigger] entities[i]).id != (#[trigger] entities[j]).id
}

/// The ids in iteration order.
pub open spec fn ids_of<C>(entities: Seq<EntityView<C>>) -> Seq<EntityId> {
    entities.map_values(|e: EntityView<C>| e.id)
}

/// Every id in use is below `bound`.
pub open spec fn ids_below<C>(entities: Seq<EntityView<C>>, bound: nat) -> bool {
    forall|i: int| 0 <= i < entities.len() ==> (#[trigger] entities[i]).id.spec_raw() < bound
}

/// The same entities, the one at `index` holding `connection` instead of its
/// own.
pub open spec fn with_connection<C>(
    entities: Seq<EntityView<C>>,
    index: int,
    connection: C,
) -> Seq<EntityView<C>> {
    entities.update(
        index,
        EntityView { id: entities[index].id, connection, queue: entities[index].queue },
    )
}

/// The same entities, the one at `index` holding `queue` instead of its own.
pub open spec fn with_queue<C>(
    entities: Seq<EntityView<C>>,
    index: int,
    queue: Seq<MessageView>,
) -> Seq<EntityView<C>> {
    entities.update(
        index,
        EntityView { id: entities[index].id, connection: entities[index].connection, queue },
    )
}

/// The same ids at the same places, whatever the components.
pub open spec fn same_ids<C>(entities: Seq<EntityView<C>>, changed: Seq<EntityView<C>>) -> bool {
    &&& changed.len() == entities.len()
    &&& forall|i: int| 0 <= i < entities.len() ==> (#[trigger] changed[i]).id == entities[i].id
}

/// Changing components leaves alone what is said of ids.
pub proof fn lemma_components_keep_ids<C>(
    entities: Seq<EntityView<C>>,
    changed: Seq<EntityView<C>>,
    bound: nat,
)
    requires
        same_ids(entities, changed),
    ensures
        ids_of(changed) == ids_of(entities),
        distinct_ids(entities) ==> distinct_ids(changed),
        ids_below(entities, bound) ==> ids_below(changed, bound),
        forall|id: EntityId| has_entity(entities, id) == has_entity(changed, id),
{
    assert(ids_of(changed) =~= ids_of(entities));
    if distinct_ids(entities) {
        assert forall|a: int, b: int| 0 <= a < b < changed.len() implies (#[trigger] changed[a]).id
            != (#[trigger] changed[b]).id by {
            assert(changed[a].id == entities[a].id);
            assert(changed[b].id == entities[b].id);
            assert(entities[a].id != entities[b].id);
        }
    }
    if ids_below(entities, bound) {
        assert forall|i: int| 0 <= i < changed.len() implies (#[trigger] changed[i]).id.spec_raw()
            < bound by {
            assert(changed[i].id == entities[i].id);
            assert(entities[i].id.spec_raw() < bound);
        }
    }
    assert forall|id: EntityId| has_entity(entities, id) == has_entity(changed, id) by {
        if has_entity(entities, id) {
            let i = entity_index(entities, id);
            assert(changed[i].id == id);
        }
        if has_entity(changed, id) {
            let i = entity_index(changed, id);
            assert(changed[i].id == entities[i].id);
            assert(entities[i].id == id);
        }
    }
}

/// The test `without` keeps an entity by.
pub open spec fn stays<C>(gone: Set<EntityId>) -> spec_fn(EntityView<C>) -> bool {
    |e: EntityView<C>| !gone.contains(e.id)
}

/// The entities that are left, in their old order, once those in `gone` have
/// been taken away.
pub open spec fn without<C>(entities: Seq<EntityView<C>>, gone: Set<EntityId>) -> Seq<
    EntityView<C>,
> {
    entities.filter(stays(gone))
}

/// With distinct ids an id names one position only.
pub proof fn lemma_entity_index<C>(entities: Seq<EntityView<C>>, i: int)
    requires
        distinct_ids(entities),
        0 <= i < entities.len(),
    ensures
        has_entity(entities, entities[i].id),
        entity_index(entities, entities[i].id) == i,
{
    let id = entities[i].id;
    let j = entity_index(entities, id);
    assert(0 <= j < entities.len() && entities[j].id == id);
    if j < i {
        assert(entities[j].id != entities[i].id);
    } else if i < j {
        assert(entities[i].id != entities[j].id);
    }
}

/// Taking away ids that are not there changes nothing.
pub proof fn lemma_without_absent<C>(entities: Seq<EntityView<C>>, gone: Set<EntityId>)
    requires
        forall|i: int| 0 <= i < entities.len() ==> !gone.contains((#[trigger] entities[i]).id),
    ensures
        without(entities, gone) == entities,
    decreases entities.len(),
{
    reveal(Seq::filter);
    if entities.len() > 0 {
        let front = entities.drop_last();
        assert forall|i: int| 0 <= i < front.len() implies !gone.contains(
            (#[trigger] front[i]).id,
        ) by {
            assert(front[i] == entities[i]);
        }
        lemma_without_absent(front, gone);
        assert(stays::<C>(gone)(entities.last()));
        assert(front.push(entities.last()) =~= entities);
    }
}

/// Taking away the one id at position `i` removes that position.
pub proof fn lemma_without_one<C>(entities: Seq<EntityView<C>>, i: int)
    requires
        distinct_ids(entities),
        0 <= i < entities.len(),
    ensures
        without(entities, set![entities[i].id]) == entities.remove(i),
    decreases entities.len(),
{
    reveal(Seq::filter);
    let gone = set![entities[i].id];
    let front = entities.drop_last();
    let last = entities.last();
    if i == entities.len() - 1 {
        assert forall|k: int| 0 <= k < front.len() implies !gone.contains(
            (#[trigger] front[k]).id,
        ) by {
            assert(front[k] == entities[k]);
            assert(entities[k].id != entities[i].id);
        }
        lemma_without_absent(front, gone);
        assert(!stays::<C>(gone)(last));
        assert(entities.remove(i) =~= front);
    } else {
        assert(entities[i].id != last.id);
        assert(stays::<C>(gone)(last));
        assert(front[i] == entities[i]);
        assert(distinct_ids(front)) by {
            assert forall|a: int, b: int| 0 <= a < b < front.len() implies (#[trigger] front[a]).id
                != (#[trigger] front[b]).id by {
                assert(front[a] == entities[a]);
                assert(front[b] == entities[b]);
            }
        }
        lemma_without_one(front, i);
        assert(front.remove(i).push(last) =~= entities.remove(i));
    }
}

/// Taking away two sets in turn is taking away their union.
pub proof fn lemma_without_twice<C>(
    entities: Seq<EntityView<C>>,
    first: Set<EntityId>,
    second: Set<EntityId>,
)
    ensures
        without(without(entities, first), second) == without(entities, first.union(second)),
    decreases entities.len(),
{
    reveal(Seq::filter);
    if entities.len() > 0 {
        let front = entities.drop_last();
        let last = entities.last();
        lemma_without_twice(front, first, second);
        let both = first.union(second);
        if first.contains(last.id) {
            assert(!stays::<C>(first)(last));
            assert(!stays::<C>(both)(last));
        } else {
            assert(stays::<C>(first)(last));
            let kept = without(front, first);
            assert(without(entities, first) == kept.push(last));
            assert(kept.push(last).drop_last() =~= kept);
            assert(kept.push(last).last() == last);
            if second.contains(last.id) {
                assert(!stays::<C>(second)(last));
                assert(!stays::<C>(both)(last));
            } else {
                assert(stays::<C>(second)(last));
                assert(stays::<C>(both)(last));
            }
        }
    }
}

/// The authoritative registry of entities, in the order in which they were
/// created.
pub struct Store<C> {
    ids: Vec<EntityId>,
    connections: Vec<C>,
    queues: Vec<Vec<Message>>,
    issued: u64,
}

impl<C> View for Store<C> {
    type V = Seq<EntityView<C>>;

    closed spec fn view(&self) -> Seq<EntityView<C>> {
        Seq::new(
            self.ids@.len(),
            |i: int|
                EntityView {
                    id: self.ids@[i],
                    connection: self.connections@[i],
                    queue: messages_view(self.queues@[i]@),
                },
        )
    }
}

impl<C> Store<C> {
    /// How many handles have been given out since the store was made.
    pub closed spec fn issued(&self) -> nat {
        self.issued as nat
    }

    /// The three arrays describe the same entities.
    pub closed spec fn coherent(&self) -> bool {
        &&& self.ids@.len() == self.connections@.len()
        &&& self.ids@.len() == self.queues@.len()
    }

    /// The store's invariant: every entity has both of its components, no id
    /// occurs twice, and every id in use was given out by this store.
    pub open spec fn wf(&self) -> bool {
        &&& self.coherent()
        &&& distinct_ids(self@)
        &&& ids_below(self@, self.issued())
        &&& self.issued() <= u64::MAX
    }

    /// An empty store.
    pub fn new() -> (store: Store<C>)
        ensures
            store.wf(),
            store@ == Seq::<EntityView<C>>::empty(),
            store.issued() == 0,
    {
        let store =
            Store { ids: Vec::new(), connections: Vec::new(), queues: Vec::new(), issued: 0 };
        assert(store@ =~= Seq::<EntityView<C>>::empty());
        store
    }

    /// The number of entities, as contracts write it.
    pub open spec fn spec_len(&self) -> usize {
        self@.len() as usize
    }

    /// The number of entities.
    #[verifier::when_used_as_spec(spec_len)]
    pub fn len(&self) -> (n: usize)
        ensures
            n == self@.len(),
    {
        self.ids.len()
    }

    /// Whether the store holds no entity.
    pub fn is_empty(&self) -> (b: bool)
        ensures
            b == (self@.len() == 0),
    {
        self.ids.len() == 0
    }

    /// Whether another entity can be created: the supply of handles is
    /// finite.
    pub fn has_room(&self) -> (b: bool)
        ensures
            b == (self.issued() < u64::MAX),
    {
        self.issued < u64::MAX
    }

    /// Registers a new entity with `connection` and an empty outbound queue,
    /// after all the others, and gives back its handle, one that no entity of
    /// this store has had before.
    pub fn create_entity(&mut self, connection: C) -> (id: EntityId)
        requires
            old(self).wf(),
            old(self).issued() < u64::MAX,
        ensures
            final(self).wf(),
            final(self)@ == old(self)@.push(
                EntityView { id, connection, queue: Seq::<MessageView>::empty() },
            ),
            id.spec_raw() == old(self).issued(),
            final(self).issued() == old(self).issued() + 1,
            !has_entity(old(self)@, id),
    {
        let id = EntityId { raw: self.issued };
        self.ids.push(id);
        self.connections.push(connection);
        self.queues.push(Vec::new());
        self.issued = self.issued + 1;
        proof {
            let before = old(self)@;
            let after = self@;
            let entry = EntityView { id, connection, queue: Seq::<MessageView>::empty() };
            assert(messages_view(Seq::<Message>::empty()) =~= Seq::<MessageView>::empty());
            assert(after =~= before.push(entry));
            assert forall|i: int| 0 <= i < before.len() implies (#[trigger] before[i]).id
                != id by {
                assert(before[i].id.spec_raw() < old(self).issued());
            }
            assert(distinct_ids(after)) by {
                assert forall|i: int, j: int| 0 <= i < j < after.len() implies (
                #[trigger] after[i]).id != (#[trigger] after[j]).id by {
                    if j < before.len() {
                        assert(after[i] == before[i]);
                        assert(after[j] == before[j]);
                    } else {
                        assert(after[i] == before[i]);
                    }
                }
            }
            assert forall|i: int| 0 <= i < after.len() implies (#[trigger] after[i]).id.spec_raw()
                < self.issued() by {
                if i < before.len() {
                    assert(after[i] == before[i]);
                }
            }
        }
        id
    }

    /// Where the entity with this handle stands in iteration order.
    pub fn index_of(&self, id: EntityId) -> (found: Option<usize>)
        requires
            self.wf(),
        ensures
            match found {
                Some(i) => i < self@.len() && self@[i as int].id == id && entity_index(self@, id)
                    == i,
                None => !has_entity(self@, id),
            },
    {
        let mut i: usize = 0;
        while i < self.ids.len()
            invariant
                self.wf(),
                i <= self.ids@.len(),
                forall|k: int| 0 <= k < i ==> (#[trigger] self@[k]).id != id,
            decreases self.ids@.len() - i,
        {
            if self.ids[i] == id {
                proof {
                    assert(self@[i as int].id == id);
                    lemma_entity_index(self@, i as int);
                }
                return Some(i);
            }
            assert(self@[i as int].id != id);
            i = i + 1;
        }
        None
    }

    /// Whether the entity is in the store.
    pub fn contains(&self, id: EntityId) -> (b: bool)
        requires
            self.wf(),
        ensures
            b == has_entity(self@, id),
    {
        self.index_of(id).is_some()
    }

    /// Detaches the entity's components and hands its connection back to be
    /// closed. Removing an entity that is not there changes nothing.
    pub fn remove_entity(&mut self, id: EntityId) -> (released: Option<C>)
        requires
            old(self).wf(),
        ensures
            final(self).wf(),
            final(self).issued() == old(self).issued(),
            final(self)@ == without(old(self)@, set![id]),
            match released {
                Some(connection) => {
                    &&& has_entity(old(self)@, id)
                    &&& connection == old(self)@[entity_index(old(self)@, id)].connection
                    &&& final(self)@ == old(self)@.remove(entity_index(old(self)@, id))
                },
                None => !has_entity(old(self)@, id) && final(self)@ == old(self)@,
            },
            !has_entity(final(self)@, id),
    {
        match self.index_of(id) {
            Some(i) => {
                self.ids.remove(i);
                let connection = self.connections.remove(i);
                self.queues.remove(i);
                proof {
                    let before = old(self)@;
                    let after = self@;
                    assert(after =~= before.remove(i as int));
                    lemma_without_one(before, i as int);
                    assert forall|k: int| 0 <= k < after.len() implies (#[trigger] after[k]).id
                        != id by {
                        if k < i {
                            assert(after[k] == before[k]);
                            assert(before[k].id != before[i as int].id);
                        } else {
                            assert(after[k] == before[k + 1]);
                            assert(before[i as int].id != before[k + 1].id);
                        }
                    }
                    assert(distinct_ids(after)) by {
                        assert forall|a: int, b: int| 0 <= a < b < after.len() implies (
                        #[trigger] after[a]).id != (#[trigger] after[b]).id by {
                            let a0 = if a < i { a } else { a + 1 };
                            let b0 = if b < i { b } else { b + 1 };
                            assert(after[a] == before[a0]);
                            assert(after[b] == before[b0]);
                        }
                    }
                    assert forall|k: int| 0 <= k < after.len() implies (
                    #[trigger] after[k]).id.spec_raw() < self.issued() by {
                        let k0 = if k < i { k } else { k + 1 };
                        assert(after[k] == before[k0]);
                    }
                }
                Some(connection)
            },
            None => {
                proof {
                    let before = old(self)@;
                    assert forall|k: int| 0 <= k < before.len() implies !set![id].contains(
                        (#[trigger] before[k]).id,
                    ) by {}
                    lemma_without_absent(before, set![id]);
                }
                None
            },
        }
    }

    /// The handles of all entities, in iteration order: a snapshot that stays
    /// valid while entities are flagged and the store is swept afterwards.
    pub fn entity_ids(&self) -> (ids: Vec<EntityId>)
        ensures
            ids@ == ids_of(self@),
    {
        let mut ids: Vec<EntityId> = Vec::new();
        let mut i: usize = 0;
        while i < self.ids.len()
            invariant
                i <= self.ids@.len(),
                ids@ == self.ids@.subrange(0, i as int),
            decreases self.ids@.len() - i,
        {
            ids.push(self.ids[i]);
            assert(ids@ =~= self.ids@.subrange(0, i as int + 1));
            i = i + 1;
        }
        assert(ids@ =~= ids_of(self@));
        ids
    }

    /// The handle of the entity at position `index`.
    pub fn id_at(&self, index: usize) -> (id: EntityId)
        requires
            index < self@.len(),
        ensures
            id == self@[index as int].id,
    {
        self.ids[index]
    }

    /// Read access to the connection at position `index`.
    pub fn connection_at(&self, index: usize) -> (connection: &C)
        requires
            self.wf(),
            index < self@.len(),
        ensures
            *connection == self@[index as int].connection,
    {
        &self.connections[index]
    }

    /// Exclusive access to the connection at position `index`. Whatever the
    /// caller does to the connection, the entity keeps its handle, its place
    /// and its queue, and no other entity is touched.
    pub fn connection_mut_at(&mut self, index: usize) -> (connection: &mut C)
        requires
            old(self).wf(),
            index < old(self)@.len(),
        ensures
            *connection == old(self)@[index as int].connection,
            final(self)@ == with_connection(old(self)@, index as int, *final(connection)),
            final(self).wf(),
            final(self).issued() == old(self).issued(),
    {
        proof {
            let before = self@;
            assert forall|c: C|
                distinct_ids(#[trigger] with_connection(before, index as int, c)) && ids_below(
                    with_connection(before, index as int, c),
                    self.issued(),
                ) by {
                lemma_components_keep_ids(
                    before,
                    with_connection(before, index as int, c),
                    self.issued(),
                );
            }
        }
        &mut self.connections[index]
    }

    /// The outbound queue at position `index`, oldest message first.
    pub fn queue_at(&self, index: usize) -> (queue: &Vec<Message>)
        requires
            self.wf(),
            index < self@.len(),
        ensures
            messages_view(queue@) == self@[index as int].queue,
    {
        &self.queues[index]
    }

    /// Appends one message to the queue at position `index`.
    pub fn enqueue_at(&mut self, index: usize, message: Message)
        requires
            old(self).wf(),
            index < old(self)@.len(),
        ensures
            final(self).wf(),
            final(self).issued() == old(self).issued(),
            final(self)@ == with_queue(
                old(self)@,
                index as int,
                old(self)@[index as int].queue.push(message@),
            ),
    {
        self.queues[index].push(message);
        proof {
            let before = old(self)@;
            let after = self@;
            let queue = before[index as int].queue.push(message@);
            assert(messages_view(self.queues@[index as int]@) =~= queue);
            assert(after =~= with_queue(before, index as int, queue));
            lemma_components_keep_ids(before, after, self.issued());
        }
    }

    /// Appends copies of `messages`, in their order, to the queue at position
    /// `index`.
    pub fn extend_queue_at(&mut self, index: usize, messages: &Vec<Message>)
        requires
            old(self).wf(),
            index < old(self)@.len(),
        ensures
            final(self).wf(),
            final(self).issued() == old(self).issued(),
            final(self)@ == with_queue(
                old(self)@,
                index as int,
                old(self)@[index as int].queue + messages_view(messages@),
            ),
    {
        let mut k: usize = 0;
        while k < messages.len()
            invariant
                self.wf(),
                self.issued() == old(self).issued(),
                index < old(self)@.len(),
                k <= messages@.len(),
                self@ == with_queue(
                    old(self)@,
                    index as int,
                    old(self)@[index as int].queue + messages_view(messages@.subrange(0, k as int)),
                ),
            decreases messages@.len() - k,
        {
            let copy = messages[k].clone();
            self.enqueue_at(index, copy);
            proof {
                let start = old(self)@[index as int].queue;
                let done = messages_view(messages@.subrange(0, k as int));
                let next = messages_view(messages@.subrange(0, k as int + 1));
                assert(next =~= done.push(messages@[k as int]@));
                assert((start + done).push(copy@) =~= start + next);
                assert(self@ =~= with_queue(old(self)@, index as int, start + next));
            }
            k = k + 1;
        }
        proof {
            assert(messages@.subrange(0, k as int) =~= messages@);
        }
    }

    /// Takes every message out of the queue at position `index`, oldest
    /// first, and leaves the queue empty.
    pub fn take_queue_at(&mut self, index: usize) -> (taken: Vec<Message>)
        requires
            old(self).wf(),
            index < old(self)@.len(),
        ensures
            final(self).wf(),
            final(self).issued() == old(self).issued(),
            messages_view(taken@) == old(self)@[index as int].queue,
            final(self)@ == with_queue(old(self)@, index as int, Seq::<MessageView>::empty()),
    {
        let mut taken: Vec<Message> = Vec::new();
        std::mem::swap(&mut taken, &mut self.queues[index]);
        proof {
            let before = old(self)@;
            let after = self@;
            assert(messages_view(self.queues@[index as int]@) =~= Seq::<MessageView>::empty());
            assert(after =~= with_queue(before, index as int, Seq::<MessageView>::empty()));
            lemma_components_keep_ids(before, after, self.issued());
        }
        taken
    }

    /// Removes every entity, releasing all connections.
    pub fn clear(&mut self)
        requires
            old(self).wf(),
        ensures
            final(self).wf(),
            final(self).issued() == old(self).issued(),
            final(self)@ == Seq::<EntityView<C>>::empty(),
    {
        self.ids.clear();
        self.connections.clear();
        self.queues.clear();
        assert(self@ =~= Seq::<EntityView<C>>::empty());
    }

    /// Read access to an entity's connection, if the entity is in the store.
    pub fn connection(&self, id: EntityId) -> (connection: Option<&C>)
        requires
            self.wf(),
        ensures
            match connection {
                Some(c) => has_entity(self@, id) && *c == self@[entity_index(self@, id)].connection,
                None => !has_entity(self@, id),
            },
    {
        match self.index_of(id) {
            Some(index) => Some(self.connection_at(index)),
            None => None,
        }
    }

    /// Exclusive access to an entity's connection, if the entity is in the
    /// store. See [`Store::connection_mut_at`].
    pub fn connection_mut(&mut self, id: EntityId) -> (connection: Option<&mut C>)
        requires
            old(self).wf(),
        ensures
            final(self).wf(),
            final(self).issued() == old(self).issued(),
            match connection {
                Some(c) => {
                    &&& has_entity(old(self)@, id)
                    &&& *c == old(self)@[entity_index(old(self)@, id)].connection
                    &&& final(self)@ == with_connection(
                        old(self)@,
                        entity_index(old(self)@, id),
                        *final(c),
                    )
                },
                None => !has_entity(old(self)@, id) && final(self)@ == old(self)@,
            },
    {
        match self.index_of(id) {
            Some(index) => Some(self.connection_mut_at(index)),
            None => None,
        }
    }

    /// An entity's outbound queue, oldest message first, if the entity is in
    /// the store.
    pub fn queue(&self, id: EntityId) -> (queue: Option<&Vec<Message>>)
        requires
            self.wf(),
        ensures
            match queue {
                Some(q) => has_entity(self@, id) && messages_view(q@) == self@[entity_index(
                    self@,
                    id,
                )].queue,
                None => !has_entity(self@, id),
            },
    {
        match self.index_of(id) {
            Some(index) => Some(self.queue_at(index)),
            None => None,
        }
    }

    /// Appends one message to an entity's queue; says whether the entity is
    /// in the store. If it is not, nothing changes.
    pub fn enqueue(&mut self, id: EntityId, message: Message) -> (queued: bool)
        requires
            old(self).wf(),
        ensures
            final(self).wf(),
            final(self).issued() == old(self).issued(),
            queued == has_entity(old(self)@, id),
            final(self)@ == if queued {
                with_queue(
                    old(self)@,
                    entity_index(old(self)@, id),
                    old(self)@[entity_index(old(self)@, id)].queue.push(message@),
                )
            } else {
                old(self)@
            },
    {
        match self.index_of(id) {
            Some(index) => {
                self.enqueue_at(index, message);
                true
            },
            None => false,
        }
    }
}

} // verus!

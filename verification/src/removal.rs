//! The entities flagged for removal during one tick.

use vstd::prelude::*;
use crate::store::EntityId;

verus! {

/// A set of entity handles, each held once.
pub struct RemovalSet {
    ids: Vec<EntityId>,
}

impl View for RemovalSet {
    type V = Set<EntityId>;

    closed spec fn view(&self) -> Set<EntityId> {
        self.ids@.to_set()
    }
}

impl RemovalSet {
    /// The flagged handles, first flagged first.
    pub(crate) closed spec fn order(&self) -> Seq<EntityId> {
        self.ids@
    }

    /// No handle is held twice.
    pub closed spec fn wf(&self) -> bool {
        self.ids@.no_duplicates()
    }

    /// The set is what the sequence of flagged handles holds.
    pub(crate) proof fn lemma_order(&self)
        ensures
            self.order().to_set() == self@,
            self.wf() ==> self.order().no_duplicates(),
    {
    }

    /// The empty set.
    pub fn new() -> (set: RemovalSet)
        ensures
            set.wf(),
            set@ == Set::<EntityId>::empty(),
    {
        let set = RemovalSet { ids: Vec::new() };
        assert(set@ =~= Set::<EntityId>::empty());
        set
    }

    /// Whether the entity is flagged.
    pub fn contains(&self, id: EntityId) -> (b: bool)
        ensures
            b == self@.contains(id),
    {
        let mut i: usize = 0;
        while i < self.ids.len()
            invariant
                i <= self.ids@.len(),
                forall|k: int| 0 <= k < i ==> self.ids@[k] != id,
            decreases self.ids@.len() - i,
        {
            if self.ids[i] == id {
                assert(self.order()[i as int] == id);
                return true;
            }
            i = i + 1;
        }
        false
    }

    /// Flags the entity; says whether it was not flagged before.
    pub fn insert(&mut self, id: EntityId) -> (newly: bool)
        requires
            old(self).wf(),
        ensures
            final(self).wf(),
            newly == !old(self)@.contains(id),
            final(self)@ == old(self)@.insert(id),
    {
        if self.contains(id) {
            assert(self@ =~= old(self)@.insert(id));
            false
        } else {
            self.ids.push(id);
            proof {
                let before = old(self).order();
                let after = self.order();
                assert(after =~= before.push(id));
                assert forall|a: int, b: int| 0 <= a < after.len() && 0 <= b < after.len() && a
                    != b implies after[a] != after[b] by {
                    if a < before.len() && b < before.len() {
                        assert(before[a] != before[b]);
                    } else if a < before.len() {
                        assert(before.to_set().contains(before[a]));
                    } else {
                        assert(before.to_set().contains(before[b]));
                    }
                }
                assert(after.to_set() =~= before.to_set().insert(id)) by {
                    assert forall|x: EntityId| after.to_set().contains(x) implies before.to_set().insert(
                        id,
                    ).contains(x) by {
                        let k = choose|k: int| 0 <= k < after.len() && after[k] == x;
                        if k < before.len() {
                            assert(before[k] == x);
                        }
                    }
                    assert forall|x: EntityId| before.to_set().insert(id).contains(
                        x,
                    ) implies after.to_set().contains(x) by {
                        if x == id {
                            assert(after[before.len() as int] == id);
                        } else {
                            let k = choose|k: int| 0 <= k < before.len() && before[k] == x;
                            assert(after[k] == x);
                        }
                    }
                }
            }
            true
        }
    }

    /// How many entities are flagged.
    pub fn len(&self) -> (n: usize)
        requires
            self.wf(),
        ensures
            n == self@.len(),
    {
        proof {
            self.order().unique_seq_to_set();
        }
        self.ids.len()
    }

    /// Whether no entity is flagged.
    pub fn is_empty(&self) -> (b: bool)
        ensures
            b == (self@ == Set::<EntityId>::empty()),
    {
        proof {
            if self.order().len() == 0 {
                assert(self@ =~= Set::<EntityId>::empty());
            } else {
                assert(self@.contains(self.order()[0]));
            }
        }
        self.ids.len() == 0
    }

    /// How many handles are held, for walking through them.
    pub(crate) fn count(&self) -> (n: usize)
        ensures
            n == self.order().len(),
    {
        self.ids.len()
    }

    /// The handle that was flagged as number `index`.
    pub(crate) fn get(&self, index: usize) -> (id: EntityId)
        requires
            index < self.order().len(),
        ensures
            id == self.order()[index as int],
    {
        self.ids[index]
    }
}

} // verus!

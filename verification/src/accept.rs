//! The acceptor's decisions: what to do with each result of a non-blocking
//! accept, and when to stop draining the listener for this tick.

use vstd::prelude::*;
use crate::message::MessageView;
use crate::store::{EntityId, EntityView, Store};

verus! {

/// What one non-blocking accept, followed by the handshake, produced.
pub enum AcceptOutcome<C> {
    /// A client connected and completed the handshake.
    Connected(C),
    /// A client connected but the handshake failed.
    HandshakeFailed,
    /// No connection is waiting.
    NoPending,
    /// The accept call itself failed.
    Failed,
}

/// What the acceptor did with an outcome.
#[derive(Clone, Copy, PartialEq, Eq, Structural, Debug)]
pub enum AcceptStep {
    /// A new entity stands in the store; there may be more to accept.
    Registered(EntityId),
    /// The candidate was dropped; there may be more to accept.
    Dropped,
    /// Nothing more is taken in this tick.
    Done,
}

impl AcceptStep {
    /// Every step but the last leaves more to accept.
    pub open spec fn spec_keeps_draining(&self) -> bool {
        !(self is Done)
    }

    /// Whether the caller should try another accept in this tick.
    #[verifier::when_used_as_spec(spec_keeps_draining)]
    pub fn keeps_draining(&self) -> (b: bool)
        ensures
            b == self.spec_keeps_draining(),
    {
        match self {
            AcceptStep::Done => false,
            _ => true,
        }
    }
}

/// Takes in one accept outcome. A connected client becomes a new entity with
/// an empty queue, unless the store has run out of handles, in which case the
/// connection is dropped. A failed handshake creates nothing. When nothing is
/// pending, or the accept call failed, draining ends for this tick.
pub fn accept_step<C>(store: &mut Store<C>, outcome: AcceptOutcome<C>) -> (step: AcceptStep)
    requires
        old(store).wf(),
    ensures
        final(store).wf(),
        match outcome {
            AcceptOutcome::Connected(connection) => if old(store).issued() < u64::MAX {
                &&& step matches AcceptStep::Registered(id)
                &&& id.spec_raw() == old(store).issued()
                &&& final(store).issued() == old(store).issued() + 1
                &&& final(store)@ == old(store)@.push(
                    EntityView { id, connection, queue: Seq::<MessageView>::empty() },
                )
            } else {
                &&& step == AcceptStep::Dropped
                &&& final(store)@ == old(store)@
                &&& final(store).issued() == old(store).issued()
            },
            AcceptOutcome::HandshakeFailed => {
                &&& step == AcceptStep::Dropped
                &&& final(store)@ == old(store)@
                &&& final(store).issued() == old(store).issued()
            },
            _ => {
                &&& step == AcceptStep::Done
                &&& final(store)@ == old(store)@
                &&& final(store).issued() == old(store).issued()
            },
        },
{
    match outcome {
        AcceptOutcome::Connected(connection) => {
            if store.has_room() {
                AcceptStep::Registered(store.create_entity(connection))
            } else {
                AcceptStep::Dropped
            }
        },
        AcceptOutcome::HandshakeFailed => AcceptStep::Dropped,
        AcceptOutcome::NoPending => AcceptStep::Done,
        AcceptOutcome::Failed => AcceptStep::Done,
    }
}

} // verus!

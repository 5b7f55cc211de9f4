//! A tick-driven message relay with the transport left outside.
//!
//! Clients are entities in a [`store::Store`]. Once per tick every text or
//! binary frame that was read from any client is appended, unmodified, to
//! the outbound queue of every client that is still connected, the sender
//! included, and the queues are then written out. A client whose socket
//! fails is flagged and removed at the end of the tick, without touching the
//! others.
//!
//! The library does no socket work. The caller makes each accept, read and
//! write attempt and tells the library what it produced; the library decides
//! what happens next:
//!
//! * [`scheduler`] names the stage to run and the time to sleep;
//! * [`accept`] takes in the result of each accept;
//! * [`tick`] holds the read stage, the broadcast stage and the sweep;
//! * [`outbound`] walks through the writes of one entity;
//! * [`laws`] proves what holds of a tick as a whole.

pub mod message;
pub mod store;
pub mod removal;
pub mod tick;
pub mod outbound;
pub mod accept;
pub mod scheduler;
pub mod laws;

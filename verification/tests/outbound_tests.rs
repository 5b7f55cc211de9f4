use tick_relay::message::Message;
use tick_relay::outbound::{begin_write, begin_write_at, finish_write};
use tick_relay::store::{EntityId, Store};
use tick_relay::tick::Tick;

fn text(s: &str) -> Message {
    Message::text(s.as_bytes().to_vec())
}

fn queued(messages: &[&str]) -> (Store<u8>, EntityId) {
    let mut store = Store::new();
    let id = store.create_entity(0);
    for m in messages {
        store.enqueue(id, text(m));
    }
    (store, id)
}

#[test]
fn begin_write_takes_the_whole_queue() {
    let (mut store, id) = queued(&["1", "2", "3"]);
    let tick = Tick::new();
    let out = begin_write(&mut store, &tick, id);
    assert_eq!(out.entity(), id);
    assert_eq!(out.len(), 3);
    assert_eq!(out.sent(), 0);
    assert!(!out.has_failed());
    assert_eq!(store.queue(id), Some(&Vec::new()));
}

#[test]
fn begin_write_at_takes_the_queue_at_that_position() {
    let mut store: Store<u8> = Store::new();
    let a = store.create_entity(0);
    let b = store.create_entity(1);
    store.enqueue(a, text("for a"));
    store.enqueue(b, text("for b"));
    let tick = Tick::new();
    let out = begin_write_at(&mut store, &tick, 1);
    assert_eq!(out.entity(), b);
    assert_eq!(out.next(), Some(&text("for b")));
    assert_eq!(store.queue(a), Some(&vec![text("for a")]));
    assert_eq!(store.queue(b), Some(&Vec::new()));
}

#[test]
fn messages_come_out_in_enqueue_order() {
    let (mut store, id) = queued(&["1", "2", "3"]);
    let mut tick = Tick::new();
    let mut out = begin_write(&mut store, &tick, id);
    assert_eq!(out.next(), Some(&text("1")));
    assert_eq!(out.next(), Some(&text("1")));
    out.record(true);
    assert_eq!(out.next(), Some(&text("2")));
    out.record(true);
    assert_eq!(out.next(), Some(&text("3")));
    out.record(true);
    assert_eq!(out.next(), None);
    assert_eq!(out.sent(), 3);
    assert!(!out.has_failed());
    assert_eq!(finish_write(&mut tick, out), 3);
    assert!(!tick.is_flagged(id));
}

#[test]
fn empty_queue_has_nothing_to_write() {
    let (mut store, id) = queued(&[]);
    let mut tick = Tick::new();
    let mut out = begin_write(&mut store, &tick, id);
    assert_eq!(out.next(), None);
    out.record(false);
    assert!(!out.has_failed());
    assert_eq!(out.sent(), 0);
    assert_eq!(finish_write(&mut tick, out), 0);
    assert!(!tick.is_flagged(id));
}

#[test]
fn failed_write_stops_the_batch_and_flags_the_entity() {
    let (mut store, id) = queued(&["1", "2", "3"]);
    let mut tick = Tick::new();
    let mut out = begin_write(&mut store, &tick, id);
    out.record(true);
    out.record(false);
    assert!(out.has_failed());
    assert_eq!(out.next(), None);
    assert_eq!(out.sent(), 1);
    out.record(true);
    assert_eq!(out.sent(), 1);
    assert!(out.has_failed());
    assert_eq!(finish_write(&mut tick, out), 1);
    assert!(tick.is_flagged(id));
    assert_eq!(tick.removals().len(), 1);
}

#[test]
fn results_after_the_last_message_change_nothing() {
    let (mut store, id) = queued(&["only"]);
    let tick = Tick::new();
    let mut out = begin_write(&mut store, &tick, id);
    out.record(true);
    out.record(false);
    out.record(true);
    assert_eq!(out.sent(), 1);
    assert!(!out.has_failed());
}

#[test]
fn flagged_entity_is_not_written_to() {
    let (mut store, id) = queued(&["kept in the queue"]);
    let mut tick = Tick::new();
    tick.flag_removal(id);
    let out = begin_write(&mut store, &tick, id);
    assert_eq!(out.len(), 0);
    assert_eq!(out.next(), None);
    assert_eq!(store.queue(id), Some(&vec![text("kept in the queue")]));
    let out = begin_write_at(&mut store, &tick, 0);
    assert_eq!(out.len(), 0);
    assert_eq!(store.queue(id), Some(&vec![text("kept in the queue")]));
}

#[test]
fn unknown_entity_has_an_empty_batch() {
    let (mut store, id) = queued(&["x"]);
    store.remove_entity(id);
    let mut tick = Tick::new();
    let out = begin_write(&mut store, &tick, id);
    assert_eq!(out.entity(), id);
    assert_eq!(out.len(), 0);
    assert_eq!(out.next(), None);
    assert_eq!(finish_write(&mut tick, out), 0);
    assert!(!tick.is_flagged(id));
}

#[test]
fn finish_write_keeps_the_staging_list() {
    let (mut store, id) = queued(&["q"]);
    let mut tick = tick_relay::tick::read_stage(
        &store,
        vec![tick_relay::message::ReadOutcome::Frame(tick_relay::message::Frame::Text(
            b"staged".to_vec(),
        ))],
    );
    let mut out = begin_write(&mut store, &tick, id);
    out.record(false);
    finish_write(&mut tick, out);
    assert_eq!(tick.staged(), &vec![text("staged")]);
    assert!(tick.is_flagged(id));
}

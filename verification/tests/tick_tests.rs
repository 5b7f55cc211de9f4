use tick_relay::message::{Frame, Message, ReadOutcome};
use tick_relay::store::{EntityId, Store};
use tick_relay::tick::{broadcast_stage, read_stage, sweep, EntityState, Tick};

fn store_of(n: u32) -> (Store<u32>, Vec<EntityId>) {
    let mut store = Store::new();
    let mut ids = Vec::new();
    for k in 0..n {
        ids.push(store.create_entity(k));
    }
    (store, ids)
}

fn text(s: &str) -> Message {
    Message::text(s.as_bytes().to_vec())
}

fn read_text(s: &str) -> ReadOutcome {
    ReadOutcome::Frame(Frame::Text(s.as_bytes().to_vec()))
}

#[test]
fn new_tick_is_blank() {
    let tick = Tick::new();
    assert_eq!(tick.staged(), &Vec::<Message>::new());
    assert!(tick.removals().is_empty());
    assert_eq!(tick.removals().len(), 0);
}

#[test]
fn read_stage_stages_payload_frames_in_entity_order() {
    let (store, _) = store_of(3);
    let tick = read_stage(
        &store,
        vec![
            read_text("first"),
            ReadOutcome::Frame(Frame::Binary(vec![2, 2])),
            read_text("third"),
        ],
    );
    assert_eq!(tick.staged(), &vec![text("first"), Message::binary(vec![2, 2]), text("third")]);
    assert!(tick.removals().is_empty());
}

#[test]
fn read_stage_ignores_idle_sockets() {
    let (store, ids) = store_of(2);
    let tick = read_stage(&store, vec![ReadOutcome::Idle, ReadOutcome::Idle]);
    assert_eq!(tick.staged().len(), 0);
    assert!(!tick.is_flagged(ids[0]));
    assert!(!tick.is_flagged(ids[1]));
}

#[test]
fn read_stage_discards_control_frames() {
    let (store, ids) = store_of(4);
    let tick = read_stage(
        &store,
        vec![
            ReadOutcome::Frame(Frame::Ping(b"ping".to_vec())),
            ReadOutcome::Frame(Frame::Pong(b"pong".to_vec())),
            ReadOutcome::Frame(Frame::Close),
            read_text("payload"),
        ],
    );
    assert_eq!(tick.staged(), &vec![text("payload")]);
    for id in ids {
        assert!(!tick.is_flagged(id));
    }
}

#[test]
fn read_stage_flags_failed_reads() {
    let (store, ids) = store_of(3);
    let tick = read_stage(&store, vec![ReadOutcome::Failed, read_text("ok"), ReadOutcome::Failed]);
    assert!(tick.is_flagged(ids[0]));
    assert!(!tick.is_flagged(ids[1]));
    assert!(tick.is_flagged(ids[2]));
    assert_eq!(tick.removals().len(), 2);
    assert!(tick.removals().contains(ids[0]));
    assert!(!tick.removals().contains(ids[1]));
    assert_eq!(tick.staged(), &vec![text("ok")]);
}

#[test]
fn read_stage_leaves_entities_without_outcome_unread() {
    let (store, ids) = store_of(3);
    let tick = read_stage(&store, vec![read_text("only")]);
    assert_eq!(tick.staged(), &vec![text("only")]);
    assert!(!tick.is_flagged(ids[1]));
    assert!(!tick.is_flagged(ids[2]));
}

#[test]
fn read_stage_drops_outcomes_without_entity() {
    let (store, ids) = store_of(1);
    let tick = read_stage(&store, vec![read_text("mine"), read_text("nobody's"), ReadOutcome::Failed]);
    assert_eq!(tick.staged(), &vec![text("mine")]);
    assert!(!tick.is_flagged(ids[0]));
    assert!(tick.removals().is_empty());
}

#[test]
fn read_stage_on_empty_store_stages_nothing() {
    let store: Store<u32> = Store::new();
    let tick = read_stage(&store, vec![read_text("x")]);
    assert_eq!(tick.staged().len(), 0);
    let tick = read_stage(&store, Vec::new());
    assert_eq!(tick.staged().len(), 0);
}

#[test]
fn flag_removal_reports_first_flag_only() {
    let (_, ids) = store_of(2);
    let mut tick = Tick::new();
    assert!(tick.flag_removal(ids[1]));
    assert!(!tick.flag_removal(ids[1]));
    assert!(tick.is_flagged(ids[1]));
    assert!(!tick.is_flagged(ids[0]));
    assert_eq!(tick.removals().len(), 1);
}

#[test]
fn broadcast_appends_to_every_queue_sender_included() {
    let (mut store, ids) = store_of(3);
    let mut tick = read_stage(&store, vec![read_text("a"), ReadOutcome::Idle, read_text("c")]);
    broadcast_stage(&mut store, &mut tick);
    for id in ids {
        assert_eq!(store.queue(id), Some(&vec![text("a"), text("c")]));
    }
}

#[test]
fn broadcast_appends_behind_what_was_queued() {
    let (mut store, ids) = store_of(2);
    store.enqueue(ids[1], text("earlier"));
    let mut tick = read_stage(&store, vec![read_text("now"), ReadOutcome::Idle]);
    broadcast_stage(&mut store, &mut tick);
    assert_eq!(store.queue(ids[0]), Some(&vec![text("now")]));
    assert_eq!(store.queue(ids[1]), Some(&vec![text("earlier"), text("now")]));
}

#[test]
fn broadcast_skips_flagged_entities() {
    let (mut store, ids) = store_of(3);
    store.enqueue(ids[1], text("stale"));
    let mut tick = read_stage(&store, vec![read_text("news"), ReadOutcome::Failed, ReadOutcome::Idle]);
    broadcast_stage(&mut store, &mut tick);
    assert_eq!(store.queue(ids[0]), Some(&vec![text("news")]));
    assert_eq!(store.queue(ids[1]), Some(&vec![text("stale")]));
    assert_eq!(store.queue(ids[2]), Some(&vec![text("news")]));
    assert!(tick.is_flagged(ids[1]));
}

#[test]
fn broadcast_empties_the_staging_list() {
    let (mut store, ids) = store_of(1);
    let mut tick = read_stage(&store, vec![read_text("once")]);
    broadcast_stage(&mut store, &mut tick);
    assert_eq!(tick.staged().len(), 0);
    broadcast_stage(&mut store, &mut tick);
    assert_eq!(store.queue(ids[0]), Some(&vec![text("once")]));
}

#[test]
fn broadcast_keeps_binary_payload_byte_for_byte() {
    let (mut store, ids) = store_of(2);
    let bytes: Vec<u8> = (0..=255).collect();
    let mut tick =
        read_stage(&store, vec![ReadOutcome::Frame(Frame::Binary(bytes.clone())), ReadOutcome::Idle]);
    broadcast_stage(&mut store, &mut tick);
    assert_eq!(store.queue(ids[1]), Some(&vec![Message::binary(bytes)]));
}

#[test]
fn broadcast_with_nothing_staged_changes_nothing() {
    let (mut store, ids) = store_of(2);
    store.enqueue(ids[0], text("kept"));
    let mut tick = read_stage(&store, vec![ReadOutcome::Idle, ReadOutcome::Frame(Frame::Close)]);
    broadcast_stage(&mut store, &mut tick);
    assert_eq!(store.queue(ids[0]), Some(&vec![text("kept")]));
    assert_eq!(store.queue(ids[1]), Some(&Vec::new()));
}

#[test]
fn sweep_removes_flagged_entities_and_counts_them() {
    let (mut store, ids) = store_of(4);
    let tick = read_stage(
        &store,
        vec![ReadOutcome::Failed, ReadOutcome::Idle, ReadOutcome::Failed, ReadOutcome::Idle],
    );
    assert_eq!(sweep(&mut store, tick), 2);
    assert_eq!(store.entity_ids(), vec![ids[1], ids[3]]);
    assert_eq!(store.connection(ids[1]), Some(&1));
    assert_eq!(store.connection(ids[3]), Some(&3));
}

#[test]
fn sweep_without_flags_removes_nothing() {
    let (mut store, ids) = store_of(2);
    assert_eq!(sweep(&mut store, Tick::new()), 0);
    assert_eq!(store.entity_ids(), ids);
}

#[test]
fn sweep_skips_flags_of_entities_already_gone() {
    let (mut store, ids) = store_of(3);
    let mut tick = Tick::new();
    tick.flag_removal(ids[0]);
    tick.flag_removal(ids[2]);
    store.remove_entity(ids[0]);
    assert_eq!(sweep(&mut store, tick), 1);
    assert_eq!(store.entity_ids(), vec![ids[1]]);
}

#[test]
fn sweep_leaves_survivors_queues_alone() {
    let (mut store, ids) = store_of(3);
    let mut tick = read_stage(&store, vec![read_text("m"), ReadOutcome::Failed, ReadOutcome::Idle]);
    broadcast_stage(&mut store, &mut tick);
    assert_eq!(sweep(&mut store, tick), 1);
    assert_eq!(store.queue(ids[0]), Some(&vec![text("m")]));
    assert_eq!(store.queue(ids[2]), Some(&vec![text("m")]));
    assert_eq!(store.queue(ids[1]), None);
}

#[test]
fn entity_state_follows_the_flags() {
    let (mut store, ids) = store_of(2);
    let mut tick = Tick::new();
    assert_eq!(tick.entity_state(&store, ids[0]), Some(EntityState::Active));
    tick.flag_removal(ids[0]);
    assert_eq!(tick.entity_state(&store, ids[0]), Some(EntityState::Closing));
    assert_eq!(tick.entity_state(&store, ids[1]), Some(EntityState::Active));
    assert_eq!(sweep(&mut store, tick), 1);
    let next = Tick::new();
    assert_eq!(next.entity_state(&store, ids[0]), None);
    assert_eq!(next.entity_state(&store, ids[1]), Some(EntityState::Active));
}

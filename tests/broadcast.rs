use radar_link::{remove_failed, BroadcastCoordinator, ConnectionRegistry, TickAction};

fn ready_pair() -> (ConnectionRegistry<u8>, usize, usize) {
    let mut reg = ConnectionRegistry::new();
    let a = reg.register().unwrap();
    let b = reg.register().unwrap();
    reg.store_writer(a, 0);
    reg.store_writer(b, 1);
    reg.mark_ready(a);
    reg.mark_ready(b);
    (reg, a, b)
}

fn sent_id(action: TickAction) -> Option<u64> {
    match action {
        TickAction::Wait => None,
        TickAction::Broadcast { sequence_id, .. } => Some(sequence_id),
    }
}

#[test]
fn sequence_increases_while_pair_stays_ready() {
    let (reg, _, _) = ready_pair();
    let mut coord = BroadcastCoordinator::new();
    let ids: Vec<Option<u64>> = (0..4).map(|_| sent_id(coord.on_tick(&reg))).collect();
    assert_eq!(ids, vec![Some(1), Some(2), Some(3), Some(4)]);
}

#[test]
fn sequence_resets_on_each_new_pair() {
    let (mut reg, a, _) = ready_pair();
    let mut coord = BroadcastCoordinator::new();
    assert_eq!(sent_id(coord.on_tick(&reg)), Some(1));
    assert_eq!(sent_id(coord.on_tick(&reg)), Some(2));
    reg.mark_not_ready(a);
    assert_eq!(sent_id(coord.on_tick(&reg)), None);
    assert_eq!(coord.sequence_counter, 2);
    reg.mark_ready(a);
    assert_eq!(sent_id(coord.on_tick(&reg)), Some(1));
    assert_eq!(sent_id(coord.on_tick(&reg)), Some(2));
}

#[test]
fn tick_counts_directly() {
    let mut coord = BroadcastCoordinator::new();
    assert_eq!(coord.tick(1), None);
    assert_eq!(coord.tick(2), Some(1));
    assert_eq!(coord.tick(2), Some(2));
    assert_eq!(coord.tick(3), Some(3));
    assert_eq!(coord.tick(2), Some(4));
    assert_eq!(coord.tick(0), None);
    assert_eq!(coord.last_ready_count, 0);
}

#[test]
fn one_ready_connection_gets_nothing() {
    let mut reg: ConnectionRegistry<u8> = ConnectionRegistry::new();
    let a = reg.register().unwrap();
    reg.store_writer(a, 0);
    reg.mark_ready(a);
    let mut coord = BroadcastCoordinator::new();
    for _ in 0..3 {
        assert!(matches!(coord.on_tick(&reg), TickAction::Wait));
    }
    assert!(reg.is_ready(a));
    assert_eq!(reg.ready_count(), 1);
    assert_eq!(coord.sequence_counter, 0);
}

#[test]
fn recipients_are_lowest_live_ready_ids() {
    let mut reg: ConnectionRegistry<u8> = ConnectionRegistry::new();
    let ids: Vec<usize> = (0..4).map(|_| reg.register().unwrap()).collect();
    for &id in &ids {
        reg.store_writer(id, 0);
    }
    reg.mark_ready(ids[3]);
    reg.mark_ready(ids[1]);
    reg.mark_ready(ids[2]);
    assert_eq!(reg.recipients(), vec![ids[1], ids[2]]);
    assert_eq!(reg.ready_list(), vec![ids[1], ids[2], ids[3]]);
    let mut coord = BroadcastCoordinator::new();
    match coord.on_tick(&reg) {
        TickAction::Broadcast { sequence_id, recipients } => {
            assert_eq!(sequence_id, 1);
            assert_eq!(recipients, vec![ids[1], ids[2]]);
        }
        TickAction::Wait => panic!("two or more ready connections get a sweep"),
    }
}

#[test]
fn ready_without_writer_is_counted_but_not_sent_to() {
    let mut reg: ConnectionRegistry<u8> = ConnectionRegistry::new();
    let a = reg.register().unwrap();
    let b = reg.register().unwrap();
    reg.store_writer(b, 0);
    reg.mark_ready(a);
    reg.mark_ready(b);
    assert_eq!(reg.ready_count(), 2);
    assert_eq!(reg.recipients(), vec![b]);
}

#[test]
fn failed_peer_is_removed_and_gets_no_more_sweeps() {
    let (mut reg, a, b) = ready_pair();
    let mut coord = BroadcastCoordinator::new();
    match coord.on_tick(&reg) {
        TickAction::Broadcast { recipients, .. } => assert_eq!(recipients, vec![a, b]),
        TickAction::Wait => panic!("the pair is ready"),
    }
    remove_failed(&mut reg, &vec![b]);
    assert!(!reg.is_ready(b));
    assert!(!reg.is_connected(b));
    assert!(reg.is_ready(a));
    assert!(reg.is_connected(a));
    for _ in 0..3 {
        assert!(matches!(coord.on_tick(&reg), TickAction::Wait));
        assert!(!reg.recipients().contains(&b));
    }
}

//! Forward/delay stage, forwarded-packet marking, stake map and leader
//! schedule tests.

use jito_relayer::addr::Address;
use jito_relayer::forwarder::{
    clone_batches, mark_batch_forwarded, ready_at_micros, ForwardDelayStage,
};
use jito_relayer::queue::Packet;
use jito_relayer::schedule::{build_absolute_schedule, LeaderScheduleEntry, ScheduleMap};
use jito_relayer::stake::try_refresh_pk_to_stake;

fn addr(b: u8) -> Address {
    Address::from_bytes(vec![b; 32]).expect("32 bytes")
}

fn packet() -> Packet {
    Packet { discard: false, forwarded: false, tx: None }
}

#[test]
fn test_forward_delay_stage_stamps_and_tees() {
    let mut stage = ForwardDelayStage::new(200, 2);
    stage.on_verified_batch(vec![vec![packet(), packet()]], 111);
    stage.on_verified_batch(vec![vec![packet()]], 222);

    let first = stage.pop_delayed().expect("first batch");
    assert_eq!(first.stamp_micros, 111);
    assert_eq!(first.banking_packet_batch[0].len(), 2);
    let second = stage.pop_delayed().expect("second batch");
    assert_eq!(second.stamp_micros, 222);
    assert!(stage.pop_delayed().is_none());

    // both batches were tee'd towards the block engine
    assert_eq!(stage.pop_block_engine().expect("tee one")[0].len(), 2);
    assert_eq!(stage.pop_block_engine().expect("tee two")[0].len(), 1);
    assert!(stage.pop_block_engine().is_none());
}

#[test]
fn test_block_engine_full_drops_never_blocks() {
    let mut stage = ForwardDelayStage::new(0, 1);
    stage.on_verified_batch(vec![vec![packet()]], 1);
    stage.on_verified_batch(vec![vec![packet()]], 2);
    stage.on_verified_batch(vec![vec![packet()]], 3);
    // the delay queue towards the relayer core got everything
    assert!(stage.pop_delayed().is_some());
    assert!(stage.pop_delayed().is_some());
    assert!(stage.pop_delayed().is_some());
    // the block engine queue kept one and dropped two, counted
    assert!(stage.pop_block_engine().is_some());
    assert!(stage.pop_block_engine().is_none());
}

#[test]
fn test_ready_at_micros() {
    assert_eq!(ready_at_micros(1_000, 200), 1_000 + 200_000);
    assert_eq!(ready_at_micros(u64::MAX - 5, 1), u64::MAX);
}

#[test]
fn test_mark_batch_forwarded() {
    let mut batch = vec![
        Packet { discard: true, forwarded: false, tx: None },
        Packet { discard: false, forwarded: false, tx: None },
    ];
    mark_batch_forwarded(&mut batch);
    assert_eq!(batch.len(), 2);
    assert!(batch[0].forwarded && batch[1].forwarded);
    // the discard flag is untouched
    assert!(batch[0].discard);
    assert!(!batch[1].discard);
}

#[test]
fn test_clone_batches_keeps_contents() {
    let source_batches = vec![vec![packet(), packet()], vec![packet()]];
    let copy = clone_batches(&source_batches);
    assert_eq!(copy.len(), 2);
    assert_eq!(copy[0].len(), 2);
    assert_eq!(copy[1].len(), 1);
}

#[test]
fn test_stake_overrides_replace_fetched() {
    let fetched = vec![(addr(1), 100u64), (addr(2), 200u64)];
    let overrides = vec![(addr(2), 999u64), (addr(3), 50u64)];
    let map = try_refresh_pk_to_stake(fetched, &overrides);
    assert_eq!(map.stake_of(&addr(1)), Some(100));
    assert_eq!(map.stake_of(&addr(2)), Some(999));
    assert_eq!(map.stake_of(&addr(3)), Some(50));
    assert_eq!(map.stake_of(&addr(4)), None);
}

#[test]
fn test_build_absolute_schedule() {
    // epoch starting at absolute slot 1000: relative indexes shift by the
    // epoch offset
    let entries = vec![
        LeaderScheduleEntry { leader: addr(1), slots: vec![0, 2] },
        LeaderScheduleEntry { leader: addr(2), slots: vec![1] },
    ];
    let schedule = build_absolute_schedule(&entries, 1000);
    let l0 = schedule.leader_for_slot(1000).expect("slot 1000");
    assert_eq!(l0.as_bytes(), addr(1).as_bytes());
    let l1 = schedule.leader_for_slot(1001).expect("slot 1001");
    assert_eq!(l1.as_bytes(), addr(2).as_bytes());
    let l2 = schedule.leader_for_slot(1002).expect("slot 1002");
    assert_eq!(l2.as_bytes(), addr(1).as_bytes());
    assert!(schedule.leader_for_slot(1003).is_none());
    assert!(schedule.is_scheduled_validator(&addr(2)));
    assert!(!schedule.is_scheduled_validator(&addr(3)));
}

#[test]
fn test_leaders_for_slots_window() {
    let mut schedule = ScheduleMap::new();
    schedule.assign(10, addr(1));
    schedule.assign(11, addr(2));
    schedule.assign(12, addr(1));
    let leaders = schedule.leaders_for_slots(&vec![10, 11]);
    assert!(leaders.contains(&addr(1)));
    assert!(leaders.contains(&addr(2)));
    let narrow = schedule.leaders_for_slots(&vec![12, 13]);
    assert!(narrow.contains(&addr(1)));
    assert!(!narrow.contains(&addr(2)));
}

//! Relayer event-loop tests: leader fan-out, backpressure, disconnects, the
//! health-gated subscription entry point and the port rotation.

use jito_relayer::addr::{Address, AddressSet};
use jito_relayer::filter::TableCache;
use jito_relayer::health::{HealthState, StatusError};
use jito_relayer::queue::{Packet, SubscriberMessage, SubscriberQueue};
use jito_relayer::relayer::{
    subscribe_packets, RelayerImpl, RelayerPacketBatches, Subscription,
    SUBSCRIBER_QUEUE_CAPACITY,
};
use jito_relayer::schedule::ScheduleMap;

fn addr(b: u8) -> Address {
    Address::from_bytes(vec![b; 32]).expect("32 bytes")
}

fn packet() -> Packet {
    Packet { discard: false, forwarded: false, tx: None }
}

fn new_core() -> RelayerImpl {
    RelayerImpl::new(AddressSet::new(), vec![11228], vec![11229], 2, false, 2)
}

fn subscribe(relayer: &mut RelayerImpl, id: u8, capacity: usize) {
    relayer.handle_subscription(Subscription::ValidatorPacketSubscription {
        pubkey: addr(id),
        sender: SubscriberQueue::new(capacity),
    });
}

fn batch_sizes(relayer: &mut RelayerImpl, id: u8) -> Vec<usize> {
    let mut sizes = Vec::new();
    while let Some(m) = relayer.packet_subscriptions.pop_message(&addr(id)) {
        match m {
            SubscriberMessage::Batch(b) => sizes.push(b.len()),
            SubscriberMessage::Heartbeat(_) => {}
        }
    }
    sizes
}

#[test]
fn test_healthy_one_leader_fan_out() {
    // subscribers {A, B, C}; slot 100 with lookahead 2; schedule
    // 100 -> A, 101 -> B, 102 -> D; three packets, batch size two:
    // A and B each get a batch of two and a batch of one; C and D nothing
    let mut relayer = new_core();
    subscribe(&mut relayer, 1, SUBSCRIBER_QUEUE_CAPACITY); // A
    subscribe(&mut relayer, 2, SUBSCRIBER_QUEUE_CAPACITY); // B
    subscribe(&mut relayer, 3, SUBSCRIBER_QUEUE_CAPACITY); // C

    let mut schedule = ScheduleMap::new();
    schedule.assign(100, addr(1));
    schedule.assign(101, addr(2));
    schedule.assign(102, addr(4)); // D, not subscribed
    relayer.update_highest_slot(100, &schedule);

    let cache = TableCache::new();
    let batches = RelayerPacketBatches {
        stamp_micros: 0,
        banking_packet_batch: vec![vec![packet(), packet(), packet()]],
    };
    let failed = relayer.forward_packets(batches, &cache);
    assert!(failed.is_empty());

    assert_eq!(batch_sizes(&mut relayer, 1), vec![2, 1]);
    assert_eq!(batch_sizes(&mut relayer, 2), vec![2, 1]);
    assert_eq!(batch_sizes(&mut relayer, 3), Vec::<usize>::new());
    let a_stats = relayer.relayer_metrics.packet_stats_per_validator.get(&addr(1));
    assert_eq!(a_stats.num_packets_forwarded, 3);
    assert_eq!(a_stats.num_packets_dropped, 0);
}

#[test]
fn test_discard_packets_not_forwarded() {
    let mut relayer = new_core();
    subscribe(&mut relayer, 1, SUBSCRIBER_QUEUE_CAPACITY);
    let mut schedule = ScheduleMap::new();
    schedule.assign(100, addr(1));
    relayer.update_highest_slot(100, &schedule);

    let cache = TableCache::new();
    let discarded = Packet { discard: true, forwarded: false, tx: None };
    let batches = RelayerPacketBatches {
        stamp_micros: 0,
        banking_packet_batch: vec![vec![discarded, packet()]],
    };
    relayer.forward_packets(batches, &cache);
    // only the surviving packet is delivered
    assert_eq!(batch_sizes(&mut relayer, 1), vec![1]);
}

#[test]
fn test_full_queue_drops_counted_others_receive() {
    // B's queue has no room: the batch still reaches A, and B's dropped
    // counter grows by the batch's packet count
    let mut relayer = new_core();
    subscribe(&mut relayer, 1, SUBSCRIBER_QUEUE_CAPACITY);
    subscribe(&mut relayer, 2, 0); // full from the start
    let mut schedule = ScheduleMap::new();
    schedule.assign(100, addr(1));
    schedule.assign(101, addr(2));
    relayer.update_highest_slot(100, &schedule);

    let cache = TableCache::new();
    let batches = RelayerPacketBatches {
        stamp_micros: 0,
        banking_packet_batch: vec![vec![packet(), packet(), packet()]],
    };
    let failed = relayer.forward_packets(batches, &cache);
    assert!(failed.is_empty());

    assert_eq!(batch_sizes(&mut relayer, 1), vec![2, 1]);
    assert_eq!(batch_sizes(&mut relayer, 2), Vec::<usize>::new());
    let b_stats = relayer.relayer_metrics.packet_stats_per_validator.get(&addr(2));
    assert_eq!(b_stats.num_packets_dropped, 3);
    assert_eq!(b_stats.num_packets_forwarded, 0);
    let a_stats = relayer.relayer_metrics.packet_stats_per_validator.get(&addr(1));
    assert_eq!(a_stats.num_packets_forwarded, 3);
}

#[test]
fn test_closed_queue_removed_before_next_batch() {
    let mut relayer = new_core();
    subscribe(&mut relayer, 1, SUBSCRIBER_QUEUE_CAPACITY);
    subscribe(&mut relayer, 2, SUBSCRIBER_QUEUE_CAPACITY);
    relayer.packet_subscriptions.close_queue(&addr(2));
    let mut schedule = ScheduleMap::new();
    schedule.assign(100, addr(1));
    schedule.assign(101, addr(2));
    relayer.update_highest_slot(100, &schedule);

    let cache = TableCache::new();
    let batches = RelayerPacketBatches {
        stamp_micros: 0,
        banking_packet_batch: vec![vec![packet()]],
    };
    let failed = relayer.forward_packets(batches, &cache);
    assert_eq!(failed.len(), 1);
    assert_eq!(failed[0].as_bytes(), addr(2).as_bytes());
    // the closed subscriber is out of the map before the next batch arm
    assert_eq!(relayer.packet_subscriptions.len(), 1);
    assert_eq!(batch_sizes(&mut relayer, 1), vec![1]);
}

#[test]
fn test_forward_all_reaches_every_subscriber() {
    // under forward_all a packet reaches every subscriber, leader or not
    let mut relayer =
        RelayerImpl::new(AddressSet::new(), vec![11228], vec![11229], 4, true, 2);
    subscribe(&mut relayer, 1, SUBSCRIBER_QUEUE_CAPACITY);
    subscribe(&mut relayer, 2, SUBSCRIBER_QUEUE_CAPACITY);
    // no slot update at all: the leader set is empty
    let cache = TableCache::new();
    let batches = RelayerPacketBatches {
        stamp_micros: 0,
        banking_packet_batch: vec![vec![packet(), packet()]],
    };
    relayer.forward_packets(batches, &cache);
    assert_eq!(batch_sizes(&mut relayer, 1), vec![2]);
    assert_eq!(batch_sizes(&mut relayer, 2), vec![2]);
}

#[test]
fn test_per_subscriber_order_preserved() {
    // batches accepted by the relayer arrive on the stream in the same order
    let mut relayer = new_core();
    subscribe(&mut relayer, 1, SUBSCRIBER_QUEUE_CAPACITY);
    let mut schedule = ScheduleMap::new();
    schedule.assign(100, addr(1));
    relayer.update_highest_slot(100, &schedule);
    let cache = TableCache::new();
    for n in 1..4usize {
        let batches = RelayerPacketBatches {
            stamp_micros: 0,
            banking_packet_batch: vec![vec![packet(); n]],
        };
        relayer.forward_packets(batches, &cache);
    }
    // batch size 2 cuts: [1], [2], [2, 1]
    assert_eq!(batch_sizes(&mut relayer, 1), vec![1, 2, 2, 1]);
}

#[test]
fn test_unhealthy_mass_disconnect() {
    // subscribers {A, B}; an unhealthy heartbeat tick disconnects both,
    // and a new subscribe call fails until health returns
    let mut relayer = new_core();
    subscribe(&mut relayer, 1, SUBSCRIBER_QUEUE_CAPACITY);
    subscribe(&mut relayer, 2, SUBSCRIBER_QUEUE_CAPACITY);
    assert_eq!(relayer.packet_subscriptions.len(), 2);

    relayer.heartbeat_tick(HealthState::Unhealthy);
    assert_eq!(relayer.packet_subscriptions.len(), 0);

    let denied = subscribe_packets(HealthState::Unhealthy, addr(3));
    assert!(matches!(denied, Err(StatusError::Internal)));
    let allowed = subscribe_packets(HealthState::Healthy, addr(3));
    assert!(allowed.is_ok());
}

#[test]
fn test_healthy_heartbeat_and_closed_cleanup() {
    let mut relayer = new_core();
    subscribe(&mut relayer, 1, SUBSCRIBER_QUEUE_CAPACITY);
    subscribe(&mut relayer, 2, SUBSCRIBER_QUEUE_CAPACITY);
    relayer.packet_subscriptions.close_queue(&addr(2));

    relayer.heartbeat_tick(HealthState::Healthy);
    // the closed subscriber is dropped; the open one got a heartbeat
    assert_eq!(relayer.packet_subscriptions.len(), 1);
    match relayer.packet_subscriptions.pop_message(&addr(1)) {
        Some(SubscriberMessage::Heartbeat(count)) => assert_eq!(count, 0),
        other => panic!("expected a heartbeat, got {:?}", other.is_some()),
    }
    assert_eq!(relayer.relayer_metrics.num_heartbeats, 1);
}

#[test]
fn test_duplicate_subscription_replaces_queue() {
    let mut relayer = new_core();
    subscribe(&mut relayer, 1, SUBSCRIBER_QUEUE_CAPACITY);
    subscribe(&mut relayer, 1, SUBSCRIBER_QUEUE_CAPACITY);
    // one queue per identity, and only the first counts as a new connection
    assert_eq!(relayer.packet_subscriptions.len(), 1);
    assert_eq!(relayer.relayer_metrics.num_added_connections, 1);
}

#[test]
fn test_get_tpu_configs_round_robin() {
    let mut relayer =
        RelayerImpl::new(AddressSet::new(), vec![11228, 11230], vec![11229], 4, false, 2);
    let c0 = relayer.get_tpu_configs();
    assert_eq!(c0.tpu_port, 11222);
    assert_eq!(c0.tpu_forward_port, 11223);
    let c1 = relayer.get_tpu_configs();
    assert_eq!(c1.tpu_port, 11224);
    let c2 = relayer.get_tpu_configs();
    assert_eq!(c2.tpu_port, 11222);
}

#[test]
fn test_subscribe_packets_queue_shape() {
    let s = subscribe_packets(HealthState::Healthy, addr(7)).expect("healthy");
    match s {
        Subscription::ValidatorPacketSubscription { pubkey, mut sender } => {
            assert_eq!(pubkey.as_bytes(), addr(7).as_bytes());
            assert_eq!(sender.len(), 0);
            assert!(sender.pop_front().is_none());
        }
    }
}

#[test]
fn test_heartbeat_full_counter() {
    // a heartbeat into a full queue is counted, once per full subscriber
    let mut relayer = new_core();
    subscribe(&mut relayer, 1, SUBSCRIBER_QUEUE_CAPACITY);
    subscribe(&mut relayer, 2, 0); // full from the start
    relayer.heartbeat_tick(HealthState::Healthy);
    assert_eq!(relayer.relayer_metrics.num_try_send_channel_full, 1);
    assert_eq!(relayer.relayer_metrics.num_heartbeats, 1);
    // both subscribers stay connected: full is a drop, not a disconnect
    assert_eq!(relayer.packet_subscriptions.len(), 2);
}

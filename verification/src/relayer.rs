//! The relayer core: owns one outbound queue per subscribed validator and
//! routes filtered packet batches to the validators that lead the upcoming
//! slots.
//!
//! The surrounding application runs the event loop (channel selects,
//! timers); each arm of that loop is a verified function here: the slot
//! arm, the packet arm, the subscription arm and the heartbeat arm.

use vstd::prelude::*;

use crate::addr::{Address, AddressSet};
use crate::filter::{spec_tx_denied, TableCache};
use crate::health::{check_health, HealthState, StatusError};
use crate::queue::{clone_packets, packets_view, MsgView, Packet, PacketView, SubscriberMessage, SubscriberQueue, TrySendOutcome};
use crate::schedule::ScheduleMap;

verus! {

/// Fixed capacity of each subscriber's outbound queue.
pub const SUBSCRIBER_QUEUE_CAPACITY: usize = 50000;

/// The subscriber map: one outbound queue per connected validator
/// identity.  At any moment a validator has at most one queue.
pub struct SubscriberMap {
    entries: Vec<(Address, SubscriberQueue)>,
}

impl SubscriberMap {
    /// Internal invariant: identities are pairwise distinct.
    pub closed spec fn wf(&self) -> bool {
        forall|i: int, j: int|
            0 <= i < j < self.entries@.len() ==> self.entries@[i].0@ != self.entries@[j].0@
    }

    /// The identities with a queue.
    pub closed spec fn contains_id(&self, a: Seq<u8>) -> bool {
        exists|i: int| 0 <= i < self.entries@.len() && self.entries@[i].0@ == a
    }

    /// The queue of a subscribed identity.
    pub closed spec fn queue_of(&self, a: Seq<u8>) -> SubscriberQueue {
        let i = choose|i: int| 0 <= i < self.entries@.len() && self.entries@[i].0@ == a;
        self.entries@[i].1
    }

    /// Number of subscribers.
    pub closed spec fn spec_len(&self) -> nat {
        self.entries@.len()
    }

    /// The empty map.
    pub fn new() -> (r: SubscriberMap)
        ensures
            r.wf(),
            r.spec_len() == 0,
            forall|a: Seq<u8>| !r.contains_id(a),
    {
        SubscriberMap { entries: Vec::new() }
    }

    /// Number of subscribers.
    pub fn len(&self) -> (r: usize)
        ensures
            r == self.spec_len(),
    {
        self.entries.len()
    }

    /// With distinct identities, any stored entry is what the map reports
    /// under that entry's identity.
    proof fn lemma_at(m: SubscriberMap, i: int)
        requires
            m.wf(),
            0 <= i < m.entries@.len(),
        ensures
            m.contains_id(m.entries@[i].0@),
            m.queue_of(m.entries@[i].0@) == m.entries@[i].1,
    {
        let a = m.entries@[i].0@;
        let j = choose|j: int| 0 <= j < m.entries@.len() && m.entries@[j].0@ == a;
        if j < i {
            assert(m.entries@[j].0@ != m.entries@[i].0@);
        } else if i < j {
            assert(m.entries@[i].0@ != m.entries@[j].0@);
        }
    }

    /// Registers a subscription, replacing any queue the identity already
    /// had (the old stream is dropped).  Returns true iff the identity was
    /// already subscribed.
    pub fn insert(&mut self, pubkey: Address, queue: SubscriberQueue) -> (duplicate: bool)
        requires
            old(self).wf(),
        ensures
            final(self).wf(),
            duplicate == old(self).contains_id(pubkey@),
            final(self).contains_id(pubkey@),
            final(self).queue_of(pubkey@) == queue,
            forall|a: Seq<u8>|
                a != pubkey@ ==> final(self).contains_id(a) == old(self).contains_id(a),
            forall|a: Seq<u8>|
                a != pubkey@ && old(self).contains_id(a) ==> final(self).queue_of(a) == old(self).queue_of(a),
            final(self).spec_len() == if old(self).contains_id(pubkey@) {
                old(self).spec_len()
            } else {
                old(self).spec_len() + 1
            },
    {
        let ghost k0 = pubkey@;
        let mut i: usize = 0;
        while i < self.entries.len()
            invariant
                self.wf(),
                *old(self) == *self,
                pubkey@ == k0,
                i <= self.entries@.len(),
                forall|j: int| 0 <= j < i ==> self.entries@[j].0@ != pubkey@,
            decreases self.entries@.len() - i,
        {
            if self.entries[i].0.same_as(&pubkey) {
                let ghost prev = *self;
                let ghost e = (pubkey, queue);
                self.entries.set(i, (pubkey, queue));
                proof {
                    let newm = *self;
                    assert(newm.entries@ =~= prev.entries@.update(i as int, e));
                    assert forall|p: int| 0 <= p < newm.entries@.len() implies
                        #[trigger] newm.entries@[p].0@ == prev.entries@[p].0@ by {}
                    assert(newm.wf());
                    Self::lemma_at(prev, i as int);
                    Self::lemma_at(newm, i as int);
                    assert forall|a: Seq<u8>| a != k0 implies newm.contains_id(a) == prev.contains_id(
                        a,
                    ) by {
                        if newm.contains_id(a) {
                            let j = choose|j: int|
                                0 <= j < newm.entries@.len() && newm.entries@[j].0@ == a;
                            assert(j != i);
                            assert(prev.entries@[j].0@ == a);
                        }
                        if prev.contains_id(a) {
                            let j = choose|j: int|
                                0 <= j < prev.entries@.len() && prev.entries@[j].0@ == a;
                            assert(j != i);
                            assert(newm.entries@[j].0@ == a);
                        }
                    }
                    assert forall|a: Seq<u8>| a != k0 && prev.contains_id(a) implies
                        newm.queue_of(a) == prev.queue_of(a) by {
                        let j = choose|j: int|
                            0 <= j < prev.entries@.len() && prev.entries@[j].0@ == a;
                        assert(j != i);
                        Self::lemma_at(prev, j);
                        Self::lemma_at(newm, j);
                    }
                }
                return true;
            }
            i = i + 1;
        }
        let ghost prev = *self;
        let ghost e = (pubkey, queue);
        self.entries.push((pubkey, queue));
        proof {
            let newm = *self;
            let n = prev.entries@.len() as int;
            assert(newm.entries@ =~= prev.entries@.push(e));
            assert forall|p: int, q: int|
                0 <= p < q < newm.entries@.len() implies newm.entries@[p].0@
                != newm.entries@[q].0@ by {
                if q < n {
                    assert(prev.entries@[p].0@ != prev.entries@[q].0@);
                } else {
                    assert(newm.entries@[q].0@ == k0);
                    assert(prev.entries@[p].0@ != k0);
                }
            }
            Self::lemma_at(newm, n);
            assert forall|a: Seq<u8>| a != k0 implies newm.contains_id(a) == prev.contains_id(
                a,
            ) by {
                if newm.contains_id(a) {
                    let j = choose|j: int|
                        0 <= j < newm.entries@.len() && newm.entries@[j].0@ == a;
                    assert(j != n);
                    assert(prev.entries@[j].0@ == a);
                }
                if prev.contains_id(a) {
                    let j = choose|j: int|
                        0 <= j < prev.entries@.len() && prev.entries@[j].0@ == a;
                    assert(newm.entries@[j].0@ == a);
                }
            }
            assert forall|a: Seq<u8>| a != k0 && prev.contains_id(a) implies newm.queue_of(a)
                == prev.queue_of(a) by {
                let j = choose|j: int| 0 <= j < prev.entries@.len() && prev.entries@[j].0@ == a;
                Self::lemma_at(prev, j);
                Self::lemma_at(newm, j);
            }
            assert(!prev.contains_id(k0));
        }
        false
    }

    /// Removes an identity's queue, if it has one.
    pub fn remove(&mut self, pubkey: &Address) -> (removed: bool)
        requires
            old(self).wf(),
        ensures
            final(self).wf(),
            removed == old(self).contains_id(pubkey@),
            !final(self).contains_id(pubkey@),
            forall|a: Seq<u8>|
                a != pubkey@ ==> final(self).contains_id(a) == old(self).contains_id(a),
            forall|a: Seq<u8>|
                a != pubkey@ && old(self).contains_id(a) ==> final(self).queue_of(a) == old(self).queue_of(a),
            final(self).spec_len() == if old(self).contains_id(pubkey@) {
                (old(self).spec_len() - 1) as nat
            } else {
                old(self).spec_len()
            },
    {
        let ghost k0 = pubkey@;
        let mut i: usize = 0;
        while i < self.entries.len()
            invariant
                self.wf(),
                *old(self) == *self,
                pubkey@ == k0,
                i <= self.entries@.len(),
                forall|j: int| 0 <= j < i ==> self.entries@[j].0@ != pubkey@,
            decreases self.entries@.len() - i,
        {
            if self.entries[i].0.same_as(pubkey) {
                let ghost prev = *self;
                let _ = self.entries.remove(i);
                proof {
                    let newm = *self;
                    assert(newm.entries@ =~= prev.entries@.remove(i as int));
                    assert forall|p: int| 0 <= p < newm.entries@.len() implies
                        #[trigger] newm.entries@[p] == if p < i {
                        prev.entries@[p]
                    } else {
                        prev.entries@[p + 1]
                    } by {}
                    assert forall|p: int, q: int|
                        0 <= p < q < newm.entries@.len() implies newm.entries@[p].0@
                        != newm.entries@[q].0@ by {
                        let p2 = if p < i { p } else { p + 1 };
                        let q2 = if q < i { q } else { q + 1 };
                        assert(prev.entries@[p2].0@ != prev.entries@[q2].0@);
                    }
                    assert forall|a: Seq<u8>| #[trigger] newm.contains_id(a) implies a != k0
                        && prev.contains_id(a) by {
                        let j = choose|j: int|
                            0 <= j < newm.entries@.len() && newm.entries@[j].0@ == a;
                        let j2 = if j < i { j } else { j + 1 };
                        assert(prev.entries@[j2].0@ == a);
                        assert(j2 != i);
                        assert(prev.entries@[i as int].0@ != prev.entries@[j2].0@ || j2 == i);
                    }
                    assert forall|a: Seq<u8>| a != k0 && prev.contains_id(a) implies
                        newm.contains_id(a) && newm.queue_of(a) == prev.queue_of(a) by {
                        let j = choose|j: int|
                            0 <= j < prev.entries@.len() && prev.entries@[j].0@ == a;
                        assert(j != i);
                        let j2 = if j < i { j } else { j - 1 };
                        assert(newm.entries@[j2].0@ == a);
                        assert(newm.entries@[j2].1 == prev.entries@[j].1);
                        Self::lemma_at(prev, j);
                        Self::lemma_at(newm, j2);
                    }
                }
                return true;
            }
            i = i + 1;
        }
        false
    }

    /// Total messages pending across all subscriber queues, clamped.
    pub closed spec fn spec_total_queued(&self) -> nat {
        Self::sum_queued(self.entries@)
    }

    /// Sum of pending message counts over a list of entries.
    closed spec fn sum_queued(entries: Seq<(Address, SubscriberQueue)>) -> nat
        decreases entries.len(),
    {
        if entries.len() == 0 {
            0
        } else {
            Self::sum_queued(entries.drop_last()) + entries.last().1.messages().len()
        }
    }

    /// Total messages pending across all subscriber queues, clamped to
    /// the counter's range.
    pub fn total_queued(&self) -> (r: u64)
        ensures
            r == nat_sat(self.spec_total_queued()),
    {
        let mut total: u64 = 0;
        let ghost mut acc: nat = 0;
        let mut i: usize = 0;
        while i < self.entries.len()
            invariant
                i <= self.entries@.len(),
                acc == Self::sum_queued(self.entries@.take(i as int)),
                total == nat_sat(acc),
            decreases self.entries@.len() - i,
        {
            let n = self.entries[i].1.len() as u64;
            proof {
                assert(self.entries@.take(i + 1).drop_last() =~= self.entries@.take(i as int));
                assert(self.entries@.take(i + 1).last() == self.entries@[i as int]);
                acc = acc + self.entries@[i as int].1.messages().len();
            }
            total = sat_add_u64(total, n);
            i = i + 1;
        }
        proof {
            assert(self.entries@.take(self.entries@.len() as int) =~= self.entries@);
        }
        total
    }

    /// The identities currently subscribed.
    pub fn connected_validators(&self) -> (r: Vec<Address>)
        requires
            self.wf(),
        ensures
            r@.len() == self.spec_len(),
            forall|j: int|
                0 <= j < r@.len() ==> self.contains_id(#[trigger] r@[j]@),
            forall|a: Seq<u8>|
                self.contains_id(a) ==> exists|j: int| 0 <= j < r@.len() && r@[j]@ == a,
    {
        let mut r: Vec<Address> = Vec::new();
        let mut i: usize = 0;
        while i < self.entries.len()
            invariant
                self.wf(),
                i <= self.entries@.len(),
                r@.len() == i,
                forall|j: int| 0 <= j < i ==> (#[trigger] r@[j])@ == self.entries@[j].0@,
            decreases self.entries@.len() - i,
        {
            r.push(self.entries[i].0.clone());
            i = i + 1;
        }
        proof {
            assert forall|j: int| 0 <= j < r@.len() implies self.contains_id(
                #[trigger] r@[j]@,
            ) by {
                Self::lemma_at(*self, j);
            }
            assert forall|a: Seq<u8>| self.contains_id(a) implies exists|j: int|
                0 <= j < r@.len() && r@[j]@ == a by {
                let j = choose|j: int|
                    0 <= j < self.entries@.len() && self.entries@[j].0@ == a;
                assert(r@[j]@ == a);
            }
        }
        r
    }
}

/// Saturating addition on `u64`.
pub open spec fn sat_add(a: u64, b: u64) -> u64 {
    if a + b > u64::MAX {
        u64::MAX
    } else {
        (a + b) as u64
    }
}

/// Clamps a mathematical count into `u64`.
pub open spec fn nat_sat(n: nat) -> u64 {
    if n > u64::MAX {
        u64::MAX
    } else {
        n as u64
    }
}

/// Saturating addition on `u64`.
fn sat_add_u64(a: u64, b: u64) -> (r: u64)
    ensures
        r == sat_add(a, b),
{
    if b > u64::MAX - a {
        u64::MAX
    } else {
        a + b
    }
}

/// Forwarding statistics for one validator.
#[derive(PartialEq, Eq, Structural, Clone, Copy, Debug)]
pub struct PacketForwardStats {
    /// Packets successfully enqueued for this validator.
    pub num_packets_forwarded: u64,
    /// Packets dropped because this validator's queue was full.
    pub num_packets_dropped: u64,
}

/// Per-validator forwarding statistics, zero until first touched.
pub struct StatsMap {
    entries: Vec<(Address, PacketForwardStats)>,
}

impl StatsMap {
    /// Internal invariant: identities are pairwise distinct.
    pub closed spec fn wf(&self) -> bool {
        forall|i: int, j: int|
            0 <= i < j < self.entries@.len() ==> self.entries@[i].0@ != self.entries@[j].0@
    }

    /// The counters recorded for an identity; zero if never touched.
    pub closed spec fn stats_of(&self, a: Seq<u8>) -> PacketForwardStats {
        if exists|i: int| 0 <= i < self.entries@.len() && self.entries@[i].0@ == a {
            let i = choose|i: int| 0 <= i < self.entries@.len() && self.entries@[i].0@ == a;
            self.entries@[i].1
        } else {
            PacketForwardStats { num_packets_forwarded: 0, num_packets_dropped: 0 }
        }
    }

    /// Fresh statistics: everything zero.
    pub fn new() -> (r: StatsMap)
        ensures
            r.wf(),
            forall|a: Seq<u8>| r.stats_of(a) == (PacketForwardStats {
                num_packets_forwarded: 0,
                num_packets_dropped: 0,
            }),
    {
        StatsMap { entries: Vec::new() }
    }

    /// With distinct identities, any stored entry is what the map reports.
    proof fn lemma_at(m: StatsMap, i: int)
        requires
            m.wf(),
            0 <= i < m.entries@.len(),
        ensures
            m.stats_of(m.entries@[i].0@) == m.entries@[i].1,
    {
        let a = m.entries@[i].0@;
        let j = choose|j: int| 0 <= j < m.entries@.len() && m.entries@[j].0@ == a;
        if j < i {
            assert(m.entries@[j].0@ != m.entries@[i].0@);
        } else if i < j {
            assert(m.entries@[i].0@ != m.entries@[j].0@);
        }
    }

    /// Adds to one identity's counters, saturating.
    fn add(&mut self, validator_id: &Address, forwarded: u64, dropped: u64)
        requires
            old(self).wf(),
        ensures
            final(self).wf(),
            final(self).stats_of(validator_id@) == (PacketForwardStats {
                num_packets_forwarded: sat_add(
                    old(self).stats_of(validator_id@).num_packets_forwarded,
                    forwarded,
                ),
                num_packets_dropped: sat_add(
                    old(self).stats_of(validator_id@).num_packets_dropped,
                    dropped,
                ),
            }),
            forall|a: Seq<u8>|
                a != validator_id@ ==> final(self).stats_of(a) == old(self).stats_of(a),
    {
        let ghost k0 = validator_id@;
        let mut i: usize = 0;
        while i < self.entries.len()
            invariant
                self.wf(),
                *old(self) == *self,
                validator_id@ == k0,
                i <= self.entries@.len(),
                forall|j: int| 0 <= j < i ==> self.entries@[j].0@ != validator_id@,
            decreases self.entries@.len() - i,
        {
            if self.entries[i].0.same_as(validator_id) {
                let ghost prev = *self;
                let id = self.entries[i].0.clone();
                let st = self.entries[i].1;
                let newst = PacketForwardStats {
                    num_packets_forwarded: sat_add_u64(st.num_packets_forwarded, forwarded),
                    num_packets_dropped: sat_add_u64(st.num_packets_dropped, dropped),
                };
                let ghost e = (id, newst);
                self.entries.set(i, (id, newst));
                proof {
                    let newm = *self;
                    assert(newm.entries@ =~= prev.entries@.update(i as int, e));
                    assert(newm.entries@[i as int] == e);
                    assert(e.0@ == k0);
                    assert forall|p: int| 0 <= p < newm.entries@.len() implies
                        #[trigger] newm.entries@[p].0@ == prev.entries@[p].0@ by {}
                    assert(newm.wf());
                    Self::lemma_at(prev, i as int);
                    Self::lemma_at(newm, i as int);
                    assert forall|a: Seq<u8>| a != k0 implies newm.stats_of(a) == prev.stats_of(
                        a,
                    ) by {
                        if exists|j: int|
                            0 <= j < newm.entries@.len() && newm.entries@[j].0@ == a {
                            let j = choose|j: int|
                                0 <= j < newm.entries@.len() && newm.entries@[j].0@ == a;
                            assert(j != i);
                            Self::lemma_at(prev, j);
                            Self::lemma_at(newm, j);
                        } else {
                            assert(!exists|j: int|
                                0 <= j < prev.entries@.len() && prev.entries@[j].0@ == a) by {
                                if exists|j: int|
                                    0 <= j < prev.entries@.len() && prev.entries@[j].0@ == a {
                                    let j = choose|j: int|
                                        0 <= j < prev.entries@.len() && prev.entries@[j].0@
                                            == a;
                                    assert(newm.entries@[j].0@ == a);
                                }
                            }
                        }
                    }
                }
                return ;
            }
            i = i + 1;
        }
        let ghost prev = *self;
        let id = validator_id.clone();
        let newst = PacketForwardStats {
            num_packets_forwarded: sat_add_u64(0, forwarded),
            num_packets_dropped: sat_add_u64(0, dropped),
        };
        let ghost e = (id, newst);
        self.entries.push((id, newst));
        proof {
            let newm = *self;
            let n = prev.entries@.len() as int;
            assert(newm.entries@ =~= prev.entries@.push(e));
            assert forall|p: int, q: int|
                0 <= p < q < newm.entries@.len() implies newm.entries@[p].0@
                != newm.entries@[q].0@ by {
                if q < n {
                    assert(prev.entries@[p].0@ != prev.entries@[q].0@);
                } else {
                    assert(newm.entries@[q].0@ == k0);
                    assert(prev.entries@[p].0@ != k0);
                }
            }
            Self::lemma_at(newm, n);
            assert(!exists|j: int| 0 <= j < prev.entries@.len() && prev.entries@[j].0@ == k0);
            assert forall|a: Seq<u8>| a != k0 implies newm.stats_of(a) == prev.stats_of(a) by {
                if exists|j: int| 0 <= j < newm.entries@.len() && newm.entries@[j].0@ == a {
                    let j = choose|j: int|
                        0 <= j < newm.entries@.len() && newm.entries@[j].0@ == a;
                    assert(j != n);
                    assert(prev.entries@[j].0@ == a);
                    Self::lemma_at(prev, j);
                    Self::lemma_at(newm, j);
                } else {
                    assert(!exists|j: int|
                        0 <= j < prev.entries@.len() && prev.entries@[j].0@ == a) by {
                        if exists|j: int|
                            0 <= j < prev.entries@.len() && prev.entries@[j].0@ == a {
                            let j = choose|j: int|
                                0 <= j < prev.entries@.len() && prev.entries@[j].0@ == a;
                            assert(newm.entries@[j].0@ == a);
                        }
                    }
                }
            }
        }
    }
}

impl StatsMap {
    /// The counters recorded for an identity; zero if never touched.
    pub fn get(&self, validator_id: &Address) -> (r: PacketForwardStats)
        requires
            self.wf(),
        ensures
            r == self.stats_of(validator_id@),
    {
        let mut i: usize = 0;
        while i < self.entries.len()
            invariant
                self.wf(),
                i <= self.entries@.len(),
                forall|j: int| 0 <= j < i ==> self.entries@[j].0@ != validator_id@,
            decreases self.entries@.len() - i,
        {
            if self.entries[i].0.same_as(validator_id) {
                proof {
                    Self::lemma_at(*self, i as int);
                }
                return self.entries[i].1;
            }
            i = i + 1;
        }
        PacketForwardStats { num_packets_forwarded: 0, num_packets_dropped: 0 }
    }
}

/// Counters the relayer core accumulates between metric reports.
pub struct RelayerMetrics {
    /// Highest slot seen from the network.
    pub highest_slot: u64,
    /// New subscriptions this period.
    pub num_added_connections: u64,
    /// Subscriptions dropped this period.
    pub num_removed_connections: u64,
    /// Subscriptions at the last metrics tick.
    pub num_current_connections: u64,
    /// Heartbeats sent this period.
    pub num_heartbeats: u64,
    /// Sends that found a full queue this period.
    pub num_try_send_channel_full: u64,
    /// Messages pending across all subscriber queues at the last tick.
    pub packet_subscriptions_total_queued: u64,
    /// Per-validator forwarded/dropped counts.
    pub packet_stats_per_validator: StatsMap,
}

impl RelayerMetrics {
    /// Fresh, all-zero counters.
    pub fn new() -> (r: RelayerMetrics)
        ensures
            r.packet_stats_per_validator.wf(),
            r.highest_slot == 0,
            r.num_added_connections == 0,
            r.num_removed_connections == 0,
            r.num_current_connections == 0,
            r.num_heartbeats == 0,
            r.num_try_send_channel_full == 0,
            r.packet_subscriptions_total_queued == 0,
            forall|a: Seq<u8>|
                r.packet_stats_per_validator.stats_of(a) == (PacketForwardStats {
                    num_packets_forwarded: 0,
                    num_packets_dropped: 0,
                }),
    {
        RelayerMetrics {
            highest_slot: 0,
            num_added_connections: 0,
            num_removed_connections: 0,
            num_current_connections: 0,
            num_heartbeats: 0,
            num_try_send_channel_full: 0,
            packet_subscriptions_total_queued: 0,
            packet_stats_per_validator: StatsMap::new(),
        }
    }

    /// Snapshot of the queued-message total across all subscribers.
    pub fn update_packet_subscription_total_capacity(
        &mut self,
        packet_subscriptions: &SubscriberMap,
    )
        ensures
            final(self).packet_subscriptions_total_queued == nat_sat(
                packet_subscriptions.spec_total_queued(),
            ),
            final(self).packet_stats_per_validator == old(self).packet_stats_per_validator,
            final(self).num_heartbeats == old(self).num_heartbeats,
            final(self).num_added_connections == old(self).num_added_connections,
            final(self).num_removed_connections == old(self).num_removed_connections,
            final(self).num_try_send_channel_full == old(self).num_try_send_channel_full,
            final(self).num_current_connections == old(self).num_current_connections,
            final(self).highest_slot == old(self).highest_slot,
    {
        self.packet_subscriptions_total_queued = packet_subscriptions.total_queued();
    }

    /// Counts packets enqueued for a validator.
    pub fn increment_packets_forwarded(&mut self, validator_id: &Address, num_packets: u64)
        requires
            old(self).packet_stats_per_validator.wf(),
        ensures
            final(self).packet_stats_per_validator.wf(),
            final(self).packet_stats_per_validator.stats_of(validator_id@)
                == (PacketForwardStats {
                num_packets_forwarded: sat_add(
                    old(self).packet_stats_per_validator.stats_of(
                        validator_id@,
                    ).num_packets_forwarded,
                    num_packets,
                ),
                num_packets_dropped: old(self).packet_stats_per_validator.stats_of(
                    validator_id@,
                ).num_packets_dropped,
            }),
            forall|a: Seq<u8>|
                a != validator_id@ ==> final(self).packet_stats_per_validator.stats_of(a)
                    == old(self).packet_stats_per_validator.stats_of(a),
            final(self).highest_slot == old(self).highest_slot,
            final(self).num_added_connections == old(self).num_added_connections,
            final(self).num_removed_connections == old(self).num_removed_connections,
            final(self).num_current_connections == old(self).num_current_connections,
            final(self).num_heartbeats == old(self).num_heartbeats,
            final(self).num_try_send_channel_full == old(self).num_try_send_channel_full,
    {
        self.packet_stats_per_validator.add(validator_id, num_packets, 0);
    }

    /// Counts packets dropped for a validator because its queue was full.
    pub fn increment_packets_dropped(&mut self, validator_id: &Address, num_packets: u64)
        requires
            old(self).packet_stats_per_validator.wf(),
        ensures
            final(self).packet_stats_per_validator.wf(),
            final(self).packet_stats_per_validator.stats_of(validator_id@)
                == (PacketForwardStats {
                num_packets_forwarded: old(self).packet_stats_per_validator.stats_of(
                    validator_id@,
                ).num_packets_forwarded,
                num_packets_dropped: sat_add(
                    old(self).packet_stats_per_validator.stats_of(
                        validator_id@,
                    ).num_packets_dropped,
                    num_packets,
                ),
            }),
            forall|a: Seq<u8>|
                a != validator_id@ ==> final(self).packet_stats_per_validator.stats_of(a)
                    == old(self).packet_stats_per_validator.stats_of(a),
            final(self).highest_slot == old(self).highest_slot,
            final(self).num_added_connections == old(self).num_added_connections,
            final(self).num_removed_connections == old(self).num_removed_connections,
            final(self).num_current_connections == old(self).num_current_connections,
            final(self).num_heartbeats == old(self).num_heartbeats,
            final(self).num_try_send_channel_full == old(self).num_try_send_channel_full,
    {
        self.packet_stats_per_validator.add(validator_id, 0, num_packets);
    }
}

/// Spec-level outcome of delivering a list of chunks into one queue.
pub struct DeliveryEffect {
    /// The queue contents afterwards.
    pub queue: Seq<MsgView>,
    /// Packets enqueued.
    pub forwarded: nat,
    /// Packets dropped because the queue was full.
    pub dropped: nat,
    /// The queue turned out closed: disconnect the subscriber.
    pub disconnect: bool,
}

/// What a sequence of non-blocking sends of packet chunks does to one
/// subscriber queue: each chunk in turn is enqueued if there is room,
/// dropped (counted) if the queue is full, and on a closed queue the
/// subscriber is marked for disconnection and no further chunk is tried.
pub open spec fn spec_deliver(
    q: Seq<MsgView>,
    closed: bool,
    cap: nat,
    chunks: Seq<Seq<PacketView>>,
) -> DeliveryEffect
    decreases chunks.len(),
{
    if chunks.len() == 0 {
        DeliveryEffect { queue: q, forwarded: 0, dropped: 0, disconnect: false }
    } else if closed {
        DeliveryEffect { queue: q, forwarded: 0, dropped: 0, disconnect: true }
    } else if q.len() >= cap {
        let rest = spec_deliver(q, closed, cap, chunks.drop_first());
        DeliveryEffect {
            queue: rest.queue,
            forwarded: rest.forwarded,
            dropped: rest.dropped + chunks.first().len(),
            disconnect: rest.disconnect,
        }
    } else {
        let rest = spec_deliver(
            q.push(MsgView::Batch(chunks.first())),
            closed,
            cap,
            chunks.drop_first(),
        );
        DeliveryEffect {
            queue: rest.queue,
            forwarded: rest.forwarded + chunks.first().len(),
            dropped: rest.dropped,
            disconnect: rest.disconnect,
        }
    }
}

/// The views of a list of packet chunks.
pub open spec fn chunks_view(v: Vec<Vec<Packet>>) -> Seq<Seq<PacketView>> {
    v@.map_values(|c: Vec<Packet>| packets_view(c))
}

/// Sends every chunk into one subscriber queue with non-blocking sends,
/// counting enqueued and dropped packets and detecting a closed queue.
fn deliver_chunks_to_queue(q: &mut SubscriberQueue, chunks: &Vec<Vec<Packet>>) -> (r: (
    u64,
    u64,
    bool,
))
    ensures
        final(q).capacity() == old(q).capacity(),
        final(q).is_closed() == old(q).is_closed(),
        ({
            let eff = spec_deliver(
                old(q).messages(),
                old(q).is_closed(),
                old(q).capacity(),
                chunks_view(*chunks),
            );
            &&& final(q).messages() == eff.queue
            &&& r.0 == nat_sat(eff.forwarded)
            &&& r.1 == nat_sat(eff.dropped)
            &&& r.2 == eff.disconnect
        }),
{
    let ghost cv = chunks_view(*chunks);
    let ghost q0 = q.messages();
    let ghost closed0 = q.is_closed();
    let ghost cap0 = q.capacity();
    let ghost eff0 = spec_deliver(q0, closed0, cap0, cv);
    let mut fwd_acc: u64 = 0;
    let mut drp_acc: u64 = 0;
    let ghost mut fwd_done: nat = 0;
    let ghost mut drp_done: nat = 0;
    let mut i: usize = 0;
    proof {
        assert(cv.skip(0) =~= cv);
    }
    while i < chunks.len()
        invariant
            i <= chunks@.len(),
            cv == chunks_view(*chunks),
            cv.len() == chunks@.len(),
            q0 == old(q).messages(),
            closed0 == old(q).is_closed(),
            cap0 == old(q).capacity(),
            q.capacity() == cap0,
            q.is_closed() == closed0,
            eff0 == spec_deliver(q0, closed0, cap0, cv),
            ({
                let rest = spec_deliver(q.messages(), closed0, cap0, cv.skip(i as int));
                &&& eff0.queue == rest.queue
                &&& eff0.forwarded == fwd_done + rest.forwarded
                &&& eff0.dropped == drp_done + rest.dropped
                &&& eff0.disconnect == rest.disconnect
            }),
            fwd_acc == nat_sat(fwd_done),
            drp_acc == nat_sat(drp_done),
        decreases chunks@.len() - i,
    {
        let chunk = clone_packets(&chunks[i]);
        let chunk_len = chunk.len() as u64;
        let ghost qb = q.messages();
        proof {
            assert(cv.skip(i as int).first() == cv[i as int]);
            assert(cv.skip(i as int).drop_first() =~= cv.skip(i + 1));
            assert(packets_view(chunk) == cv[i as int]);
            assert(chunk_len == cv[i as int].len());
        }
        match q.try_send(SubscriberMessage::Batch(chunk)) {
            TrySendOutcome::Sent => {
                proof {
                    fwd_done = fwd_done + cv[i as int].len();
                }
                fwd_acc = sat_add_u64(fwd_acc, chunk_len);
            },
            TrySendOutcome::Full => {
                proof {
                    drp_done = drp_done + cv[i as int].len();
                }
                drp_acc = sat_add_u64(drp_acc, chunk_len);
            },
            TrySendOutcome::Closed => {
                proof {
                    assert(cv.skip(i as int).len() > 0);
                    let rest = spec_deliver(qb, closed0, cap0, cv.skip(i as int));
                    assert(rest.queue == qb && rest.forwarded == 0 && rest.dropped == 0
                        && rest.disconnect);
                }
                return (fwd_acc, drp_acc, true);
            },
        }
        i = i + 1;
    }
    proof {
        assert(cv.skip(cv.len() as int) =~= Seq::<Seq<PacketView>>::empty());
    }
    (fwd_acc, drp_acc, false)
}

/// Whether a packet survives the admission filter: not marked discard,
/// and, when a denylist is configured, decodable to a transaction that the
/// denylist filter keeps.
pub open spec fn spec_keep_packet(
    p: PacketView,
    denied: Set<Seq<u8>>,
    cache: Map<Seq<u8>, Seq<Seq<u8>>>,
) -> bool {
    &&& !p.discard
    &&& (denied =~= Set::<Seq<u8>>::empty() || (p.tx is Some && !spec_tx_denied(
        p.tx->0,
        cache,
        denied,
    )))
}

/// The views of a list of packet batches.
pub open spec fn batches_view(v: Vec<Vec<Packet>>) -> Seq<Seq<PacketView>> {
    v@.map_values(|b: Vec<Packet>| packets_view(b))
}

/// Filtering a one-element sequence keeps or drops that element.
proof fn lemma_filter_singleton(x: PacketView, pred: spec_fn(PacketView) -> bool)
    ensures
        seq![x].filter(pred) == if pred(x) {
            seq![x]
        } else {
            Seq::<PacketView>::empty()
        },
{
    reveal(Seq::filter);
    let s1 = seq![x];
    assert(s1.drop_last() =~= Seq::<PacketView>::empty());
    assert(s1.last() == x);
    assert(Seq::<PacketView>::empty().filter(pred) == Seq::<PacketView>::empty());
    if pred(x) {
        assert(s1.filter(pred) =~= seq![x]);
    } else {
        assert(s1.filter(pred) =~= Seq::<PacketView>::empty());
    }
}

/// Flattens the incoming batches and keeps exactly the packets that pass
/// the admission filter, in arrival order.
fn prepare_packets(
    batches: &Vec<Vec<Packet>>,
    ofac_addresses: &AddressSet,
    address_lookup_table_cache: &TableCache,
) -> (r: Vec<Packet>)
    requires
        address_lookup_table_cache.wf(),
    ensures
        packets_view(r) == batches_view(*batches).flatten().filter(
            |p: PacketView|
                spec_keep_packet(p, ofac_addresses@, address_lookup_table_cache@),
        ),
{
    broadcast use vstd::seq_lib::group_seq_properties;
    broadcast use Seq::lemma_flatten_push;

    let ghost pred = |p: PacketView|
        spec_keep_packet(p, ofac_addresses@, address_lookup_table_cache@);
    let ghost bv = batches_view(*batches);
    let denylist_empty = ofac_addresses.is_empty();
    let mut r: Vec<Packet> = Vec::new();
    let mut i: usize = 0;
    proof {
        assert(bv.take(0) =~= Seq::<Seq<PacketView>>::empty());
        assert(bv.take(0).flatten() =~= Seq::<PacketView>::empty());
        assert(packets_view(r) =~= Seq::<PacketView>::empty());
        assert(Seq::<PacketView>::empty().filter(pred) =~= Seq::<PacketView>::empty()) by {
            reveal(Seq::filter);
        }
    }
    while i < batches.len()
        invariant
            address_lookup_table_cache.wf(),
            pred == (|p: PacketView|
                spec_keep_packet(p, ofac_addresses@, address_lookup_table_cache@)),
            bv == batches_view(*batches),
            bv.len() == batches@.len(),
            denylist_empty == (ofac_addresses@ =~= Set::<Seq<u8>>::empty()),
            i <= batches@.len(),
            packets_view(r) == bv.take(i as int).flatten().filter(pred),
        decreases batches@.len() - i,
    {
        let batch = &batches[i];
        let ghost pv = packets_view(*batch);
        let mut j: usize = 0;
        while j < batch.len()
            invariant
                address_lookup_table_cache.wf(),
                pred == (|p: PacketView|
                    spec_keep_packet(p, ofac_addresses@, address_lookup_table_cache@)),
                bv == batches_view(*batches),
                bv.len() == batches@.len(),
                denylist_empty == (ofac_addresses@ =~= Set::<Seq<u8>>::empty()),
                i < batches@.len(),
                batch == &batches@[i as int],
                pv == packets_view(*batch),
                pv == bv[i as int],
                j <= pv.len(),
                pv.len() == batch@.len(),
                packets_view(r) == (bv.take(i as int).flatten() + pv.take(j as int)).filter(
                    pred,
                ),
            decreases pv.len() - j,
        {
            let p = &batch[j];
            let keep = if p.discard {
                false
            } else if denylist_empty {
                true
            } else {
                match &p.tx {
                    Some(tx) => !crate::filter::is_tx_ofac_related(
                        tx,
                        ofac_addresses,
                        address_lookup_table_cache,
                    ),
                    None => false,
                }
            };
            proof {
                assert(pv[j as int] == p@);
                assert(keep == pred(p@));
                assert(pv.take(j + 1) =~= pv.take(j as int).push(pv[j as int]));
                let base = bv.take(i as int).flatten();
                assert((base + pv.take(j + 1)) =~= (base + pv.take(j as int)) + seq![
                    pv[j as int],
                ]);
                Seq::filter_distributes_over_add(
                    base + pv.take(j as int),
                    seq![pv[j as int]],
                    pred,
                );
                lemma_filter_singleton(pv[j as int], pred);
            }
            if keep {
                let ghost prevr = packets_view(r);
                r.push(p.clone());
                proof {
                    assert(packets_view(r) =~= prevr.push(p@));
                    assert(packets_view(r) =~= (bv.take(i as int).flatten() + pv.take(j + 1)).filter(
                        pred,
                    ));
                }
            }
            j = j + 1;
        }
        proof {
            assert(pv.take(pv.len() as int) =~= pv);
            assert(bv.take(i + 1) =~= bv.take(i as int).push(bv[i as int]));
            bv.take(i as int).lemma_flatten_push(bv[i as int]);
            assert(bv.take(i + 1).flatten() =~= bv.take(i as int).flatten() + bv[i as int]);
        }
        i = i + 1;
    }
    proof {
        assert(bv.take(bv.len() as int) =~= bv);
    }
    r
}

/// Greedy left-to-right chunking of a packet list into chunks of at most
/// `sz` packets; every chunk but the last holds exactly `sz`.
pub open spec fn spec_chunks(s: Seq<PacketView>, sz: nat) -> Seq<Seq<PacketView>>
    decreases s.len(),
    when sz > 0
{
    if s.len() == 0 {
        Seq::empty()
    } else if s.len() <= sz {
        seq![s]
    } else {
        seq![s.take(sz as int)] + spec_chunks(s.skip(sz as int), sz)
    }
}

/// Splits the kept packets into protocol batches of at most
/// `validator_packet_batch_size` packets each.
fn chunk_packets(packets: &Vec<Packet>, validator_packet_batch_size: usize) -> (r: Vec<
    Vec<Packet>,
>)
    requires
        validator_packet_batch_size > 0,
    ensures
        chunks_view(r) == spec_chunks(
            packets_view(*packets),
            validator_packet_batch_size as nat,
        ),
{
    let ghost all = packets_view(*packets);
    let ghost sz = validator_packet_batch_size as nat;
    let mut r: Vec<Vec<Packet>> = Vec::new();
    let mut start: usize = 0;
    let n = packets.len();
    proof {
        assert(all.skip(0) =~= all);
        assert(chunks_view(r) =~= Seq::<Seq<PacketView>>::empty());
    }
    while start < n
        invariant
            0 < sz,
            sz == validator_packet_batch_size as nat,
            n == all.len(),
            all == packets_view(*packets),
            start <= n,
            spec_chunks(all, sz) =~= chunks_view(r) + spec_chunks(all.skip(start as int), sz),
        decreases n - start,
    {
        let end = if n - start < validator_packet_batch_size {
            n
        } else {
            start + validator_packet_batch_size
        };
        let mut chunk: Vec<Packet> = Vec::new();
        let mut k = start;
        while k < end
            invariant
                start <= k <= end <= n,
                n == all.len(),
                all == packets_view(*packets),
                packets_view(chunk) =~= all.subrange(start as int, k as int),
            decreases end - k,
        {
            let ghost prevc = packets_view(chunk);
            chunk.push(packets[k].clone());
            proof {
                assert(packets_view(chunk) =~= prevc.push(all[k as int]));
                assert(all.subrange(start as int, k + 1) =~= all.subrange(
                    start as int,
                    k as int,
                ).push(all[k as int]));
            }
            k = k + 1;
        }
        let ghost chunkv = packets_view(chunk);
        let ghost rem = all.skip(start as int);
        proof {
            assert(rem.len() == n - start);
            if n - start <= sz {
                assert(chunkv =~= rem);
                assert(spec_chunks(rem, sz) =~= seq![chunkv]);
                assert(all.skip(n as int) =~= Seq::<PacketView>::empty());
                assert(spec_chunks(all.skip(n as int), sz) =~= Seq::<Seq<PacketView>>::empty());
            } else {
                assert(rem.take(sz as int) =~= chunkv);
                assert(rem.skip(sz as int) =~= all.skip(start + sz));
                assert(spec_chunks(rem, sz) =~= seq![chunkv] + spec_chunks(
                    all.skip(start + sz),
                    sz,
                ));
            }
        }
        let ghost prevr = chunks_view(r);
        r.push(chunk);
        proof {
            assert(chunks_view(r) =~= prevr.push(chunkv));
            assert(chunks_view(r) + spec_chunks(all.skip(end as int), sz) =~= prevr + (seq![
                chunkv,
            ] + spec_chunks(all.skip(end as int), sz)));
        }
        start = end;
    }
    proof {
        assert(all.skip(n as int) =~= Seq::<PacketView>::empty());
        assert(spec_chunks(all.skip(n as int), sz) =~= Seq::<Seq<PacketView>>::empty());
        assert(chunks_view(r) + Seq::<Seq<PacketView>>::empty() =~= chunks_view(r));
    }
    r
}

/// The effect of delivering the chunk list into one subscriber's queue.
pub open spec fn queue_effect(q: SubscriberQueue, cv: Seq<Seq<PacketView>>) -> DeliveryEffect {
    spec_deliver(q.messages(), q.is_closed(), q.capacity(), cv)
}

/// The counters of a validator after one delivery.
pub open spec fn stats_after(st: PacketForwardStats, eff: DeliveryEffect) -> PacketForwardStats {
    PacketForwardStats {
        num_packets_forwarded: sat_add(st.num_packets_forwarded, nat_sat(eff.forwarded)),
        num_packets_dropped: sat_add(st.num_packets_dropped, nat_sat(eff.dropped)),
    }
}

impl SubscriberMap {
    /// Sends every chunk to every current recipient with non-blocking
    /// sends.  A recipient is every subscriber when `forward_all` is set,
    /// otherwise the subscribers among the slot leaders.  A subscriber
    /// whose queue turned out closed is removed and returned.
    pub fn deliver_to_recipients(
        &mut self,
        chunks: &Vec<Vec<Packet>>,
        forward_all: bool,
        slot_leaders: &AddressSet,
        stats: &mut StatsMap,
    ) -> (failed: Vec<Address>)
        requires
            old(self).wf(),
            old(stats).wf(),
        ensures
            final(self).wf(),
            final(stats).wf(),
            ({
                let cv = chunks_view(*chunks);
                &&& forall|a: Seq<u8>|
                    old(self).contains_id(a) && !(forward_all || slot_leaders@.contains(a))
                        ==> final(self).contains_id(a)
                            && final(self).queue_of(a) == old(self).queue_of(a)
                &&& forall|a: Seq<u8>|
                    !old(self).contains_id(a) ==> !final(self).contains_id(a)
                &&& forall|a: Seq<u8>|
                    #![trigger old(self).queue_of(a)]
                    old(self).contains_id(a) && (forward_all || slot_leaders@.contains(a))
                        ==> {
                        let eff = queue_effect(old(self).queue_of(a), cv);
                        &&& (eff.disconnect ==> !final(self).contains_id(a))
                        &&& (!eff.disconnect ==> final(self).contains_id(a)
                            && final(self).queue_of(a).messages() == eff.queue
                            && final(self).queue_of(a).capacity() == old(self).queue_of(a).capacity()
                            && final(self).queue_of(a).is_closed() == old(self).queue_of(a).is_closed())
                        &&& final(stats).stats_of(a) == stats_after(old(stats).stats_of(a), eff)
                    }
                &&& forall|a: Seq<u8>|
                    !(old(self).contains_id(a) && (forward_all || slot_leaders@.contains(a)))
                        ==> final(stats).stats_of(a) == old(stats).stats_of(a)
                &&& forall|j: int|
                    0 <= j < failed@.len() ==> old(self).contains_id(
                        (#[trigger] failed@[j])@,
                    ) && (forward_all || slot_leaders@.contains(failed@[j]@)) && queue_effect(
                        old(self).queue_of(failed@[j]@),
                        cv,
                    ).disconnect
                &&& forall|a: Seq<u8>|
                    old(self).contains_id(a) && (forward_all || slot_leaders@.contains(a))
                        && queue_effect(old(self).queue_of(a), cv).disconnect ==> exists|
                        j: int,
                    | 0 <= j < failed@.len() && (#[trigger] failed@[j])@ == a
            }),
    {
        let ghost cv = chunks_view(*chunks);
        let ghost all = self.entries@;
        let ghost stats0 = *stats;
        let n = self.entries.len();
        let mut new_entries: Vec<(Address, SubscriberQueue)> = Vec::new();
        let mut failed: Vec<Address> = Vec::new();
        let ghost mut dst: Seq<Option<int>> = Seq::empty();
        let ghost mut fdst: Seq<Option<int>> = Seq::empty();
        let ghost mut src: Seq<int> = Seq::empty();
        let ghost mut fsrc: Seq<int> = Seq::empty();
        let mut i: usize = 0;
        while i < n
            invariant
                cv == chunks_view(*chunks),
                forall|p: int, q: int| 0 <= p < q < all.len() ==> all[p].0@ != all[q].0@,
                stats.wf(),
                stats0 == *old(stats),
                stats0.wf(),
                n == all.len(),
                i <= n,
                self.entries@ =~= all.skip(i as int),
                dst.len() == i,
                fdst.len() == i,
                src.len() == new_entries@.len(),
                fsrc.len() == failed@.len(),
                forall|p: int, q: int| 0 <= p < q < src.len() ==> src[p] < src[q],
                forall|p: int|
                    0 <= p < src.len() ==> 0 <= #[trigger] src[p] < i
                        && new_entries@[p].0@ == all[src[p]].0@ && dst[src[p]] == Some(p),
                forall|q: int|
                    0 <= q < fsrc.len() ==> 0 <= #[trigger] fsrc[q] < i
                        && failed@[q]@ == all[fsrc[q]].0@ && (forward_all
                        || slot_leaders@.contains(all[fsrc[q]].0@)) && queue_effect(
                        all[fsrc[q]].1,
                        cv,
                    ).disconnect,
                forall|j: int|
                    0 <= j < i ==> match #[trigger] dst[j] {
                        Some(p) => 0 <= p < new_entries@.len() && new_entries@[p].0@
                            == all[j].0@ && (if forward_all || slot_leaders@.contains(
                            all[j].0@,
                        ) {
                            let eff = queue_effect(all[j].1, cv);
                            &&& !eff.disconnect
                            &&& new_entries@[p].1.messages() == eff.queue
                            &&& new_entries@[p].1.capacity() == all[j].1.capacity()
                            &&& new_entries@[p].1.is_closed() == all[j].1.is_closed()
                        } else {
                            new_entries@[p].1 == all[j].1
                        }),
                        None => (forward_all || slot_leaders@.contains(all[j].0@))
                            && queue_effect(all[j].1, cv).disconnect && (match fdst[j] {
                            Some(q) => 0 <= q < failed@.len() && failed@[q]@ == all[j].0@,
                            None => false,
                        }),
                    },
                forall|j: int|
                    0 <= j < i && (forward_all || slot_leaders@.contains(
                        (#[trigger] all[j]).0@,
                    )) ==> stats.stats_of(all[j].0@) == stats_after(
                        stats0.stats_of(all[j].0@),
                        queue_effect(all[j].1, cv),
                    ),
                forall|a: Seq<u8>|
                    !(exists|j: int|
                        0 <= j < i && (#[trigger] all[j]).0@ == a && (forward_all
                            || slot_leaders@.contains(a))) ==> stats.stats_of(a)
                        == stats0.stats_of(a),
            decreases n - i,
        {
            proof {
                assert(self.entries@[0] == all[i as int]);
            }
            let (id, mut q) = self.entries.remove(0);
            proof {
                assert(self.entries@ =~= all.skip(i + 1));
                assert(id@ == all[i as int].0@ && q == all[i as int].1);
            }
            let is_recipient = forward_all || slot_leaders.contains(&id);
            if is_recipient {
                let ghost q_before = q;
                let (fwd, drp, disc) = deliver_chunks_to_queue(&mut q, chunks);
                let ghost eff = queue_effect(q_before, cv);
                stats.add(&id, fwd, drp);
                proof {
                    assert(stats.stats_of(id@) == stats_after(stats0.stats_of(id@), eff));
                }
                if disc {
                    let ghost fp = failed@.len() as int;
                    failed.push(id);
                    proof {
                        dst = dst.push(None);
                        fdst = fdst.push(Some(fp));
                        fsrc = fsrc.push(i as int);
                        assert(failed@[fp]@ == all[i as int].0@);
                    }
                } else {
                    let ghost p = new_entries@.len() as int;
                    new_entries.push((id, q));
                    proof {
                        dst = dst.push(Some(p));
                        fdst = fdst.push(None);
                        src = src.push(i as int);
                        assert(new_entries@[p].0@ == all[i as int].0@);
                        assert(new_entries@[p].1.messages() == eff.queue);
                    }
                }
            } else {
                let ghost p = new_entries@.len() as int;
                new_entries.push((id, q));
                proof {
                    dst = dst.push(Some(p));
                    fdst = fdst.push(None);
                    src = src.push(i as int);
                    assert(new_entries@[p].0@ == all[i as int].0@);
                    assert(new_entries@[p].1 == all[i as int].1);
                }
            }
            i = i + 1;
        }
        self.entries = new_entries;
        proof {
            let newm = *self;
            let oldm = *old(self);
            assert(oldm.entries@ == all);
            assert forall|p: int, q: int|
                0 <= p < q < newm.entries@.len() implies newm.entries@[p].0@
                != newm.entries@[q].0@ by {
                assert(all[src[p]].0@ != all[src[q]].0@);
            }
            assert forall|a: Seq<u8>| #[trigger] newm.contains_id(a) implies oldm.contains_id(
                a,
            ) by {
                let p = choose|p: int|
                    0 <= p < newm.entries@.len() && newm.entries@[p].0@ == a;
                assert(all[src[p]].0@ == a);
            }
            assert forall|a: Seq<u8>| oldm.contains_id(a) implies {
                let j = choose|j: int| 0 <= j < all.len() && all[j].0@ == a;
                match dst[j] {
                    Some(p) => newm.contains_id(a) && newm.queue_of(a)
                        == newm.entries@[p].1,
                    None => !newm.contains_id(a),
                }
            } by {
                let j = choose|j: int| 0 <= j < all.len() && all[j].0@ == a;
                match dst[j] {
                    Some(p) => {
                        assert(newm.entries@[p].0@ == a);
                        Self::lemma_at(newm, p);
                    },
                    None => {
                        if newm.contains_id(a) {
                            let p = choose|p: int|
                                0 <= p < newm.entries@.len() && newm.entries@[p].0@ == a;
                            let j2 = src[p];
                            assert(all[j2].0@ == a);
                            assert(j2 == j);
                            assert(dst[j2] == Some(p));
                        }
                    },
                }
            }
            assert forall|a: Seq<u8>| oldm.contains_id(a) implies #[trigger] oldm.queue_of(a)
                == all[choose|j: int| 0 <= j < all.len() && all[j].0@ == a].1 by {
                let j = choose|j: int| 0 <= j < all.len() && all[j].0@ == a;
                Self::lemma_at(oldm, j);
            }
            assert forall|a: Seq<u8>|
                oldm.contains_id(a) && !(forward_all || slot_leaders@.contains(a)) implies
                newm.contains_id(a) && newm.queue_of(a) == oldm.queue_of(a) by {
                let j = choose|j: int| 0 <= j < all.len() && all[j].0@ == a;
                Self::lemma_at(oldm, j);
                match dst[j] {
                    Some(p) => {
                        assert(newm.entries@[p].0@ == a);
                        Self::lemma_at(newm, p);
                        assert(newm.entries@[p].1 == all[j].1);
                    },
                    None => {
                        assert(false);
                    },
                }
            }
            assert forall|a: Seq<u8>|
                #![trigger oldm.queue_of(a)]
                oldm.contains_id(a) && (forward_all || slot_leaders@.contains(a)) implies {
                let eff = queue_effect(oldm.queue_of(a), cv);
                &&& (eff.disconnect ==> !newm.contains_id(a))
                &&& (!eff.disconnect ==> newm.contains_id(a) && newm.queue_of(a).messages()
                    == eff.queue && newm.queue_of(a).capacity() == oldm.queue_of(a).capacity()
                    && newm.queue_of(a).is_closed() == oldm.queue_of(a).is_closed())
                &&& stats.stats_of(a) == stats_after(stats0.stats_of(a), eff)
            } by {
                let j = choose|j: int| 0 <= j < all.len() && all[j].0@ == a;
                Self::lemma_at(oldm, j);
                assert(oldm.queue_of(a) == all[j].1);
                let eff = queue_effect(all[j].1, cv);
                match dst[j] {
                    Some(p) => {
                        assert(!eff.disconnect);
                        assert(newm.entries@[p].0@ == a);
                        Self::lemma_at(newm, p);
                    },
                    None => {
                        assert(eff.disconnect);
                    },
                }
            }
            assert forall|a: Seq<u8>|
                !(oldm.contains_id(a) && (forward_all || slot_leaders@.contains(a))) implies
                stats.stats_of(a) == stats0.stats_of(a) by {
                if exists|j: int| 0 <= j < all.len() && (#[trigger] all[j]).0@ == a && (
                forward_all || slot_leaders@.contains(a)) {
                    let j = choose|j: int|
                        0 <= j < all.len() && (#[trigger] all[j]).0@ == a && (forward_all
                            || slot_leaders@.contains(a));
                    assert(oldm.contains_id(a));
                }
            }
            assert forall|j: int| 0 <= j < failed@.len() implies oldm.contains_id(
                (#[trigger] failed@[j])@,
            ) && (forward_all || slot_leaders@.contains(failed@[j]@)) && queue_effect(
                oldm.queue_of(failed@[j]@),
                cv,
            ).disconnect by {
                let j2 = fsrc[j];
                assert(all[j2].0@ == failed@[j]@);
                Self::lemma_at(oldm, j2);
            }
            assert forall|a: Seq<u8>|
                oldm.contains_id(a) && (forward_all || slot_leaders@.contains(a))
                    && queue_effect(oldm.queue_of(a), cv).disconnect implies exists|j: int|
                0 <= j < failed@.len() && (#[trigger] failed@[j])@ == a by {
                let j = choose|j: int| 0 <= j < all.len() && all[j].0@ == a;
                Self::lemma_at(oldm, j);
                match dst[j] {
                    Some(p) => {
                        assert(!queue_effect(all[j].1, cv).disconnect);
                        assert(false);
                    },
                    None => {
                        match fdst[j] {
                            Some(q) => {
                                assert(failed@[q]@ == a);
                            },
                            None => {
                                assert(false);
                            },
                        }
                    },
                }
            }
        }
        failed
    }
}

impl SubscriberMap {
    /// Marks a subscriber's queue closed (the consumer side went away);
    /// later sends to it report `Closed`.
    pub fn close_queue(&mut self, pubkey: &Address)
        requires
            old(self).wf(),
        ensures
            final(self).wf(),
            forall|a: Seq<u8>|
                final(self).contains_id(a) == old(self).contains_id(a),
            old(self).contains_id(pubkey@) ==> final(self).queue_of(pubkey@).messages() == old(self).queue_of(pubkey@).messages() && final(self).queue_of(pubkey@).capacity() == old(self).queue_of(pubkey@).capacity() && final(self).queue_of(pubkey@).is_closed(),
            forall|a: Seq<u8>|
                a != pubkey@ && old(self).contains_id(a) ==> final(self).queue_of(a) == old(self).queue_of(a),
    {
        let ghost k0 = pubkey@;
        let mut i: usize = 0;
        while i < self.entries.len()
            invariant
                self.wf(),
                *old(self) == *self,
                pubkey@ == k0,
                i <= self.entries@.len(),
                forall|j: int| 0 <= j < i ==> self.entries@[j].0@ != pubkey@,
            decreases self.entries@.len() - i,
        {
            if self.entries[i].0.same_as(pubkey) {
                let ghost prev = *self;
                let (id, mut q) = self.entries.remove(i);
                q.close();
                let ghost e = (id, q);
                self.entries.insert(i, (id, q));
                proof {
                    let newm = *self;
                    assert(newm.entries@ =~= prev.entries@.update(i as int, e));
                    assert(newm.entries@[i as int] == e);
                    assert(e.0@ == k0);
                    assert forall|p: int| 0 <= p < newm.entries@.len() implies
                        #[trigger] newm.entries@[p].0@ == prev.entries@[p].0@ by {}
                    assert(newm.wf());
                    Self::lemma_at(prev, i as int);
                    Self::lemma_at(newm, i as int);
                    assert forall|a: Seq<u8>| #[trigger] newm.contains_id(a)
                        == prev.contains_id(a) by {
                        if newm.contains_id(a) {
                            let j = choose|j: int|
                                0 <= j < newm.entries@.len() && newm.entries@[j].0@ == a;
                            assert(prev.entries@[j].0@ == a);
                        }
                        if prev.contains_id(a) {
                            let j = choose|j: int|
                                0 <= j < prev.entries@.len() && prev.entries@[j].0@ == a;
                            assert(newm.entries@[j].0@ == a);
                        }
                    }
                    assert forall|a: Seq<u8>| a != k0 && prev.contains_id(a) implies
                        newm.queue_of(a) == prev.queue_of(a) by {
                        let j = choose|j: int|
                            0 <= j < prev.entries@.len() && prev.entries@[j].0@ == a;
                        assert(j != i);
                        Self::lemma_at(prev, j);
                        Self::lemma_at(newm, j);
                    }
                }
                return ;
            }
            i = i + 1;
        }
    }

    /// Consumer side of one subscriber's stream: takes the oldest pending
    /// message of that subscriber's queue.
    pub fn pop_message(&mut self, pubkey: &Address) -> (r: Option<SubscriberMessage>)
        requires
            old(self).wf(),
        ensures
            final(self).wf(),
            forall|a: Seq<u8>|
                final(self).contains_id(a) == old(self).contains_id(a),
            forall|a: Seq<u8>|
                a != pubkey@ && old(self).contains_id(a) ==> final(self).queue_of(a) == old(self).queue_of(a),
            !old(self).contains_id(pubkey@) ==> r is None && *final(self) == *old(self),
            old(self).contains_id(pubkey@) ==> {
                let q = old(self).queue_of(pubkey@);
                &&& final(self).queue_of(pubkey@).capacity() == q.capacity()
                &&& final(self).queue_of(pubkey@).is_closed() == q.is_closed()
                &&& match r {
                    Some(m) => q.messages().len() > 0 && m@ == q.messages().first() && final(self).queue_of(pubkey@).messages() == q.messages().drop_first(),
                    None => q.messages().len() == 0 && final(self).queue_of(
                        pubkey@,
                    ).messages() == q.messages(),
                }
            },
    {
        let ghost k0 = pubkey@;
        let mut i: usize = 0;
        while i < self.entries.len()
            invariant
                self.wf(),
                *old(self) == *self,
                pubkey@ == k0,
                i <= self.entries@.len(),
                forall|j: int| 0 <= j < i ==> self.entries@[j].0@ != pubkey@,
            decreases self.entries@.len() - i,
        {
            if self.entries[i].0.same_as(pubkey) {
                let ghost prev = *self;
                let (id, mut q) = self.entries.remove(i);
                let r = q.pop_front();
                let ghost e = (id, q);
                self.entries.insert(i, (id, q));
                proof {
                    let newm = *self;
                    assert(newm.entries@ =~= prev.entries@.update(i as int, e));
                    assert(newm.entries@[i as int] == e);
                    assert(e.0@ == k0);
                    assert forall|p: int| 0 <= p < newm.entries@.len() implies
                        #[trigger] newm.entries@[p].0@ == prev.entries@[p].0@ by {}
                    assert(newm.wf());
                    Self::lemma_at(prev, i as int);
                    Self::lemma_at(newm, i as int);
                    assert forall|a: Seq<u8>| #[trigger] newm.contains_id(a)
                        == prev.contains_id(a) by {
                        if newm.contains_id(a) {
                            let j = choose|j: int|
                                0 <= j < newm.entries@.len() && newm.entries@[j].0@ == a;
                            assert(prev.entries@[j].0@ == a);
                        }
                        if prev.contains_id(a) {
                            let j = choose|j: int|
                                0 <= j < prev.entries@.len() && prev.entries@[j].0@ == a;
                            assert(newm.entries@[j].0@ == a);
                        }
                    }
                    assert forall|a: Seq<u8>| a != k0 && prev.contains_id(a) implies
                        newm.queue_of(a) == prev.queue_of(a) by {
                        let j = choose|j: int|
                            0 <= j < prev.entries@.len() && prev.entries@[j].0@ == a;
                        assert(j != i);
                        Self::lemma_at(prev, j);
                        Self::lemma_at(newm, j);
                    }
                }
                return r;
            }
            i = i + 1;
        }
        None
    }

    /// Sends one heartbeat message, carrying the heartbeat counter, to
    /// every subscriber with a non-blocking send; returns the subscribers
    /// whose queue turned out closed, and how many sends found a full
    /// queue.
    #[verifier::rlimit(100)]
    #[verifier::spinoff_prover]
    /// How many queues are open but at capacity (a heartbeat send to
    /// them reports full).
    pub closed spec fn spec_full_count(&self) -> nat {
        Self::count_full(self.entries@)
    }

    /// Number of open at-capacity queues in a list of entries.
    closed spec fn count_full(entries: Seq<(Address, SubscriberQueue)>) -> nat
        decreases entries.len(),
    {
        if entries.len() == 0 {
            0
        } else {
            Self::count_full(entries.drop_last()) + (if !entries.last().1.is_closed()
                && entries.last().1.messages().len() >= entries.last().1.capacity() {
                1nat
            } else {
                0nat
            })
        }
    }

    pub fn heartbeat_all(&mut self, count: u64) -> (r: (Vec<Address>, u64))
        requires
            old(self).wf(),
        ensures
            final(self).wf(),
            r.1 == nat_sat(old(self).spec_full_count()),
            forall|a: Seq<u8>|
                final(self).contains_id(a) == old(self).contains_id(a),
            forall|a: Seq<u8>|
                #![trigger old(self).queue_of(a)]
                old(self).contains_id(a) ==> {
                    let q = old(self).queue_of(a);
                    &&& final(self).queue_of(a).capacity() == q.capacity()
                    &&& final(self).queue_of(a).is_closed() == q.is_closed()
                    &&& (q.is_closed() ==> final(self).queue_of(a).messages() == q.messages())
                    &&& (!q.is_closed() && q.messages().len() >= q.capacity() ==> final(self).queue_of(a).messages() == q.messages())
                    &&& (!q.is_closed() && q.messages().len() < q.capacity() ==> final(self).queue_of(a).messages() == q.messages().push(MsgView::Heartbeat(count)))
                },
            forall|j: int|
                0 <= j < r.0@.len() ==> old(self).contains_id((#[trigger] r.0@[j])@) && old(self).queue_of(r.0@[j]@).is_closed(),
            forall|a: Seq<u8>|
                old(self).contains_id(a) && old(self).queue_of(a).is_closed() ==> exists|
                    j: int,
                | 0 <= j < r.0@.len() && (#[trigger] r.0@[j])@ == a,
    {
        let ghost all = self.entries@;
        let mut failed: Vec<Address> = Vec::new();
        let mut fulls: u64 = 0;
        let ghost mut fulls_done: nat = 0;
        let ghost mut fsrc: Seq<int> = Seq::empty();
        let ghost mut fdst: Seq<Option<int>> = Seq::empty();
        let mut i: usize = 0;
        let n = self.entries.len();
        proof {
            assert(all.take(0) =~= Seq::<(Address, SubscriberQueue)>::empty());
        }
        while i < n
            invariant
                forall|p: int, q: int| 0 <= p < q < all.len() ==> all[p].0@ != all[q].0@,
                n == all.len(),
                i <= n,
                fulls_done == Self::count_full(all.take(i as int)),
                fulls == nat_sat(fulls_done),
                self.entries@.len() == n,
                forall|j: int|
                    i <= j < n ==> #[trigger] self.entries@[j] == all[j],
                forall|j: int|
                    0 <= j < n ==> (#[trigger] self.entries@[j]).0@ == all[j].0@,
                fdst.len() == i,
                fsrc.len() == failed@.len(),
                forall|q: int|
                    0 <= q < fsrc.len() ==> 0 <= #[trigger] fsrc[q] < i
                        && failed@[q]@ == all[fsrc[q]].0@ && all[fsrc[q]].1.is_closed(),
                forall|j: int|
                    0 <= j < i ==> {
                        let q = all[j].1;
                        let nq = (#[trigger] self.entries@[j]).1;
                        &&& nq.capacity() == q.capacity()
                        &&& nq.is_closed() == q.is_closed()
                        &&& (q.is_closed() ==> nq.messages() == q.messages() && (match fdst[j] {
                            Some(p) => 0 <= p < failed@.len() && failed@[p]@ == all[j].0@,
                            None => false,
                        }))
                        &&& (!q.is_closed() && q.messages().len() >= q.capacity()
                            ==> nq.messages() == q.messages())
                        &&& (!q.is_closed() && q.messages().len() < q.capacity()
                            ==> nq.messages() == q.messages().push(MsgView::Heartbeat(count)))
                    },
            decreases n - i,
        {
            proof {
                assert(self.entries@[i as int] == all[i as int]);
            }
            let ghost prev_entries = self.entries@;
            let (id, mut q) = self.entries.remove(i);
            let ghost q_before = q;
            let outcome = q.try_send(SubscriberMessage::Heartbeat(count));
            let id2 = id.clone();
            let ghost e = (id, q);
            self.entries.insert(i, (id, q));
            proof {
                assert(self.entries@ =~= prev_entries.update(i as int, e));
                assert(self.entries@[i as int] == e);
                assert(e.0@ == all[i as int].0@);
                assert forall|j: int| 0 <= j < n && j != i implies #[trigger] self.entries@[j]
                    == prev_entries[j] by {}
            }
            proof {
                assert(all.take(i + 1).drop_last() =~= all.take(i as int));
                assert(all.take(i + 1).last() == all[i as int]);
            }
            match outcome {
                TrySendOutcome::Closed => {
                    let ghost fp = failed@.len() as int;
                    failed.push(id2);
                    proof {
                        fsrc = fsrc.push(i as int);
                        fdst = fdst.push(Some(fp));
                    }
                },
                TrySendOutcome::Full => {
                    fulls = sat_add_u64(fulls, 1);
                    proof {
                        fulls_done = fulls_done + 1;
                        fdst = fdst.push(None);
                    }
                },
                TrySendOutcome::Sent => {
                    proof {
                        fdst = fdst.push(None);
                    }
                },
            }
            i = i + 1;
        }
        proof {
            assert(all.take(n as int) =~= all);
            let newm = *self;
            let oldm = *old(self);
            assert(newm.wf());
            assert forall|a: Seq<u8>| #[trigger] newm.contains_id(a) == oldm.contains_id(
                a,
            ) by {
                if newm.contains_id(a) {
                    let j = choose|j: int|
                        0 <= j < newm.entries@.len() && newm.entries@[j].0@ == a;
                    assert(oldm.entries@[j].0@ == a);
                }
                if oldm.contains_id(a) {
                    let j = choose|j: int|
                        0 <= j < oldm.entries@.len() && oldm.entries@[j].0@ == a;
                    assert(newm.entries@[j].0@ == a);
                }
            }
            assert forall|a: Seq<u8>|
                #![trigger oldm.queue_of(a)]
                oldm.contains_id(a) implies {
                let q = oldm.queue_of(a);
                &&& newm.queue_of(a).capacity() == q.capacity()
                &&& newm.queue_of(a).is_closed() == q.is_closed()
                &&& (q.is_closed() ==> newm.queue_of(a).messages() == q.messages())
                &&& (!q.is_closed() && q.messages().len() >= q.capacity() ==> newm.queue_of(
                    a,
                ).messages() == q.messages())
                &&& (!q.is_closed() && q.messages().len() < q.capacity() ==> newm.queue_of(
                    a,
                ).messages() == q.messages().push(MsgView::Heartbeat(count)))
            } by {
                let j = choose|j: int| 0 <= j < all.len() && all[j].0@ == a;
                Self::lemma_at(oldm, j);
                Self::lemma_at(newm, j);
            }
            assert forall|j: int| 0 <= j < failed@.len() implies oldm.contains_id(
                (#[trigger] failed@[j])@,
            ) && oldm.queue_of(failed@[j]@).is_closed() by {
                let j2 = fsrc[j];
                Self::lemma_at(oldm, j2);
            }
            assert forall|a: Seq<u8>|
                oldm.contains_id(a) && oldm.queue_of(a).is_closed() implies exists|j: int|
                0 <= j < failed@.len() && (#[trigger] failed@[j])@ == a by {
                let j = choose|j: int| 0 <= j < all.len() && all[j].0@ == a;
                Self::lemma_at(oldm, j);
                assert(all[j].1.is_closed());
                assert(newm.entries@[j] == self.entries@[j]);
                assert(self.entries@[j].0@ == all[j].0@);
                assert(match fdst[j] {
                    Some(p) => 0 <= p < failed@.len() && failed@[p]@ == all[j].0@,
                    None => false,
                });
                match fdst[j] {
                    Some(p) => {
                        assert(failed@[p]@ == a);
                    },
                    None => {
                        assert(false);
                    },
                }
            }
        }
        let ghost failedv = failed@;
        let r2 = (failed, fulls);
        proof {
            assert(r2.0@ == failedv);
            assert forall|a: Seq<u8>|
                old(self).contains_id(a) && old(self).queue_of(a).is_closed() implies exists|
                    j: int,
                | 0 <= j < r2.0@.len() && (#[trigger] r2.0@[j])@ == a by {
                let j = choose|j: int| 0 <= j < failedv.len() && failedv[j]@ == a;
                assert(r2.0@[j]@ == a);
            }
        }
        r2
    }
}

/// A packet batch as received from upstream, stamped with its reception
/// time (microseconds from an arbitrary monotonic origin).
pub struct RelayerPacketBatches {
    /// When the batch was received upstream.
    pub stamp_micros: u64,
    /// The verified packet batches.
    pub banking_packet_batch: Vec<Vec<Packet>>,
}

/// A subscription registered with the event loop.
pub enum Subscription {
    /// A validator subscribing to the packet stream.
    ValidatorPacketSubscription {
        /// The validator's identity.
        pubkey: Address,
        /// The outbound queue backing the validator's stream.
        sender: SubscriberQueue,
    },
}

/// Errors that end the event loop.
#[derive(PartialEq, Eq, Structural, Clone, Copy, Debug)]
pub enum RelayerError {
    /// An input channel disconnected; the relayer is shutting down.
    Shutdown,
}

/// Result type of the event-loop arms.
pub type RelayerResult<T> = Result<T, RelayerError>;

/// The TPU endpoints returned to a validator, in external numbering.
#[derive(PartialEq, Eq, Structural, Clone, Copy, Debug)]
pub struct TpuConfigs {
    /// Advertised transaction port.
    pub tpu_port: u16,
    /// Advertised forwarding port.
    pub tpu_forward_port: u16,
}

/// The packets kept from an incoming batch: flattened, minus discards,
/// minus denylisted transactions.
pub open spec fn spec_kept_packets(
    batches: Vec<Vec<Packet>>,
    denied: Set<Seq<u8>>,
    cache: Map<Seq<u8>, Seq<Seq<u8>>>,
) -> Seq<PacketView> {
    batches_view(batches).flatten().filter(|p: PacketView| spec_keep_packet(p, denied, cache))
}

/// The relayer core state: per-validator queues, the routing window, the
/// compliance denylist and the metric counters.
pub struct RelayerImpl {
    /// One outbound queue per subscribed validator.
    pub packet_subscriptions: SubscriberMap,
    /// Latest slot received from the health supervisor.
    pub highest_slot: u64,
    /// Leaders of `[highest_slot, highest_slot + slot_lookahead)`.
    pub slot_leaders: AddressSet,
    /// The compliance denylist; empty disables filtering.
    pub ofac_addresses: AddressSet,
    /// Packets per outbound protocol batch.
    pub validator_packet_batch_size: usize,
    /// Send to every subscriber instead of only upcoming leaders.
    pub forward_all: bool,
    /// How many slots ahead count as upcoming.
    pub slot_lookahead: u64,
    /// Advertised transaction ports, rotated per config request.
    pub tpu_quic_ports: Vec<u16>,
    /// Advertised forwarding ports, rotated per config request.
    pub tpu_fwd_quic_ports: Vec<u16>,
    /// Config-request counter driving the port rotation.
    pub seq: u64,
    /// Counters accumulated since the last metrics report.
    pub relayer_metrics: RelayerMetrics,
}

impl RelayerImpl {
    /// Structural invariant of the core state.
    pub open spec fn wf(&self) -> bool {
        &&& self.packet_subscriptions.wf()
        &&& self.relayer_metrics.packet_stats_per_validator.wf()
        &&& self.validator_packet_batch_size > 0
        &&& self.tpu_quic_ports@.len() > 0
        &&& self.tpu_fwd_quic_ports@.len() > 0
        &&& forall|i: int| 0 <= i < self.tpu_quic_ports@.len() ==> self.tpu_quic_ports@[i] >= 6
        &&& forall|i: int|
            0 <= i < self.tpu_fwd_quic_ports@.len() ==> self.tpu_fwd_quic_ports@[i] >= 6
    }

    /// A fresh core with no subscribers and no slot seen yet.
    pub fn new(
        ofac_addresses: AddressSet,
        tpu_quic_ports: Vec<u16>,
        tpu_fwd_quic_ports: Vec<u16>,
        validator_packet_batch_size: usize,
        forward_all: bool,
        slot_lookahead: u64,
    ) -> (r: RelayerImpl)
        requires
            validator_packet_batch_size > 0,
            tpu_quic_ports@.len() > 0,
            tpu_fwd_quic_ports@.len() > 0,
            forall|i: int| 0 <= i < tpu_quic_ports@.len() ==> tpu_quic_ports@[i] >= 6,
            forall|i: int| 0 <= i < tpu_fwd_quic_ports@.len() ==> tpu_fwd_quic_ports@[i] >= 6,
        ensures
            r.wf(),
            r.packet_subscriptions.spec_len() == 0,
            forall|a: Seq<u8>| !r.packet_subscriptions.contains_id(a),
            r.highest_slot == 0,
            r.ofac_addresses == ofac_addresses,
            r.validator_packet_batch_size == validator_packet_batch_size,
            r.forward_all == forward_all,
            r.slot_lookahead == slot_lookahead,
            r.seq == 0,
            r.relayer_metrics.highest_slot == 0,
            r.relayer_metrics.num_added_connections == 0,
            r.relayer_metrics.num_removed_connections == 0,
            r.relayer_metrics.num_current_connections == 0,
            r.relayer_metrics.num_heartbeats == 0,
            r.relayer_metrics.num_try_send_channel_full == 0,
            r.relayer_metrics.packet_subscriptions_total_queued == 0,
            forall|a: Seq<u8>|
                r.relayer_metrics.packet_stats_per_validator.stats_of(a)
                    == (PacketForwardStats { num_packets_forwarded: 0, num_packets_dropped: 0 }),
    {
        RelayerImpl {
            packet_subscriptions: SubscriberMap::new(),
            highest_slot: 0,
            slot_leaders: AddressSet::new(),
            ofac_addresses,
            validator_packet_batch_size,
            forward_all,
            slot_lookahead,
            tpu_quic_ports,
            tpu_fwd_quic_ports,
            seq: 0,
            relayer_metrics: RelayerMetrics::new(),
        }
    }

    /// Slot arm: a new slot arrived; remember it and recompute the set of
    /// leaders of the upcoming slot window from the schedule.
    pub fn update_highest_slot(&mut self, slot: u64, leader_schedule: &ScheduleMap)
        requires
            old(self).wf(),
            leader_schedule.wf(),
            slot + old(self).slot_lookahead <= u64::MAX,
        ensures
            final(self).wf(),
            final(self).highest_slot == slot,
            final(self).relayer_metrics.highest_slot == slot,
            forall|a: Seq<u8>|
                final(self).slot_leaders@.contains(a) <==> exists|s: u64|
                    slot <= s < slot + old(self).slot_lookahead && #[trigger] leader_schedule@.contains_key(
                        s,
                    ) && leader_schedule@[s] == a,
            final(self).packet_subscriptions == old(self).packet_subscriptions,
            final(self).ofac_addresses == old(self).ofac_addresses,
            final(self).forward_all == old(self).forward_all,
            final(self).slot_lookahead == old(self).slot_lookahead,
            final(self).validator_packet_batch_size == old(self).validator_packet_batch_size,
            final(self).tpu_quic_ports == old(self).tpu_quic_ports,
            final(self).tpu_fwd_quic_ports == old(self).tpu_fwd_quic_ports,
            final(self).seq == old(self).seq,
            final(self).relayer_metrics.packet_stats_per_validator == old(self).relayer_metrics.packet_stats_per_validator,
            final(self).relayer_metrics.num_added_connections == old(
                self,
            ).relayer_metrics.num_added_connections,
            final(self).relayer_metrics.num_removed_connections == old(
                self,
            ).relayer_metrics.num_removed_connections,
            final(self).relayer_metrics.num_heartbeats == old(
                self,
            ).relayer_metrics.num_heartbeats,
            final(self).relayer_metrics.num_try_send_channel_full == old(
                self,
            ).relayer_metrics.num_try_send_channel_full,
    {
        let mut slots: Vec<u64> = Vec::new();
        let mut s = slot;
        let end = slot + self.slot_lookahead;
        while s < end
            invariant
                slot <= s <= end,
                end == slot + self.slot_lookahead,
                slots@.len() == s - slot,
                forall|i: int| 0 <= i < slots@.len() ==> #[trigger] slots@[i] == slot + i,
            decreases end - s,
        {
            slots.push(s);
            s = s + 1;
        }
        let leaders = leader_schedule.leaders_for_slots(&slots);
        proof {
            assert forall|a: Seq<u8>| leaders@.contains(a) implies exists|s2: u64|
                slot <= s2 < slot + self.slot_lookahead
                    && #[trigger] leader_schedule@.contains_key(s2) && leader_schedule@[s2]
                    == a by {
                let i = choose|i: int|
                    0 <= i < slots@.len() && leader_schedule@.contains_key(
                        #[trigger] slots@[i],
                    ) && leader_schedule@[slots@[i]] == a;
                assert(leader_schedule@.contains_key(slots@[i]) && leader_schedule@[slots@[i]]
                    == a);
            }
            assert forall|a: Seq<u8>|
                (exists|s2: u64|
                    slot <= s2 < slot + self.slot_lookahead
                        && #[trigger] leader_schedule@.contains_key(s2)
                        && leader_schedule@[s2] == a) implies leaders@.contains(a) by {
                let s2 = choose|s2: u64|
                    slot <= s2 < slot + self.slot_lookahead
                        && #[trigger] leader_schedule@.contains_key(s2)
                        && leader_schedule@[s2] == a;
                assert(slots@[s2 - slot] == s2);
            }
        }
        self.highest_slot = slot;
        self.relayer_metrics.highest_slot = slot;
        self.slot_leaders = leaders;
    }

    /// Removes the given subscribers, dropping their queues, and counts
    /// the removals.
    pub fn drop_connections(&mut self, disconnected_pubkeys: Vec<Address>)
        requires
            old(self).wf(),
        ensures
            final(self).wf(),
            forall|a: Seq<u8>|
                final(self).packet_subscriptions.contains_id(a) <==> (old(self).packet_subscriptions.contains_id(a) && !exists|j: int|
                    0 <= j < disconnected_pubkeys@.len() && (#[trigger] disconnected_pubkeys@[j])@
                        == a),
            forall|a: Seq<u8>|
                final(self).packet_subscriptions.contains_id(a) ==> final(self).packet_subscriptions.queue_of(a) == old(self).packet_subscriptions.queue_of(a),
            final(self).relayer_metrics.num_removed_connections == sat_add(
                old(self).relayer_metrics.num_removed_connections,
                disconnected_pubkeys@.len() as u64,
            ),
            final(self).highest_slot == old(self).highest_slot,
            final(self).slot_leaders == old(self).slot_leaders,
            final(self).ofac_addresses == old(self).ofac_addresses,
            final(self).forward_all == old(self).forward_all,
            final(self).slot_lookahead == old(self).slot_lookahead,
            final(self).validator_packet_batch_size == old(self).validator_packet_batch_size,
            final(self).seq == old(self).seq,
            final(self).relayer_metrics.num_heartbeats == old(self).relayer_metrics.num_heartbeats,
            final(self).relayer_metrics.num_added_connections == old(
                self,
            ).relayer_metrics.num_added_connections,
            final(self).relayer_metrics.num_try_send_channel_full == old(
                self,
            ).relayer_metrics.num_try_send_channel_full,
            final(self).relayer_metrics.highest_slot == old(self).relayer_metrics.highest_slot,
            final(self).relayer_metrics.packet_stats_per_validator == old(self).relayer_metrics.packet_stats_per_validator,
    {
        let n = disconnected_pubkeys.len();
        self.relayer_metrics.num_removed_connections = sat_add_u64(
            self.relayer_metrics.num_removed_connections,
            n as u64,
        );
        let mut j: usize = 0;
        while j < n
            invariant
                self.packet_subscriptions.wf(),
                n == disconnected_pubkeys@.len(),
                j <= n,
                *self == (RelayerImpl {
                    packet_subscriptions: self.packet_subscriptions,
                    relayer_metrics: self.relayer_metrics,
                    ..*old(self)
                }),
                self.relayer_metrics == (RelayerMetrics {
                    num_removed_connections: self.relayer_metrics.num_removed_connections,
                    ..old(self).relayer_metrics
                }),
                self.relayer_metrics.num_removed_connections == sat_add(
                    old(self).relayer_metrics.num_removed_connections,
                    n as u64,
                ),
                forall|a: Seq<u8>|
                    self.packet_subscriptions.contains_id(a) <==> (old(self).packet_subscriptions.contains_id(a) && !exists|p: int|
                        0 <= p < j && (#[trigger] disconnected_pubkeys@[p])@ == a),
                forall|a: Seq<u8>|
                    self.packet_subscriptions.contains_id(a)
                        ==> self.packet_subscriptions.queue_of(a) == old(self).packet_subscriptions.queue_of(a),
            decreases n - j,
        {
            let ghost before = self.packet_subscriptions;
            self.packet_subscriptions.remove(&disconnected_pubkeys[j]);
            proof {
                let a0 = disconnected_pubkeys@[j as int]@;
                assert forall|a: Seq<u8>| self.packet_subscriptions.contains_id(a) implies (
                old(self).packet_subscriptions.contains_id(a) && !exists|p: int|
                    0 <= p < j + 1 && (#[trigger] disconnected_pubkeys@[p])@ == a) by {
                    assert(a != a0);
                    assert(before.contains_id(a));
                }
            }
            j = j + 1;
        }
    }

    /// Subscription arm: registers a validator's queue, replacing any it
    /// already had (the old stream drops), and counts new connections.
    pub fn handle_subscription(&mut self, subscription: Subscription)
        requires
            old(self).wf(),
        ensures
            final(self).wf(),
            ({
                let Subscription::ValidatorPacketSubscription { pubkey, sender } = subscription;
                &&& final(self).packet_subscriptions.contains_id(pubkey@)
                &&& final(self).packet_subscriptions.queue_of(pubkey@) == sender
                &&& forall|a: Seq<u8>|
                    a != pubkey@ ==> final(self).packet_subscriptions.contains_id(a) == old(self).packet_subscriptions.contains_id(a)
                &&& forall|a: Seq<u8>|
                    a != pubkey@ && old(self).packet_subscriptions.contains_id(a) ==> final(self).packet_subscriptions.queue_of(a) == old(self).packet_subscriptions.queue_of(a)
                &&& final(self).relayer_metrics.num_added_connections == if old(self).packet_subscriptions.contains_id(pubkey@) {
                    old(self).relayer_metrics.num_added_connections
                } else {
                    sat_add(old(self).relayer_metrics.num_added_connections, 1)
                }
            }),
            final(self).highest_slot == old(self).highest_slot,
            final(self).slot_leaders == old(self).slot_leaders,
            final(self).ofac_addresses == old(self).ofac_addresses,
            final(self).forward_all == old(self).forward_all,
            final(self).slot_lookahead == old(self).slot_lookahead,
            final(self).validator_packet_batch_size == old(self).validator_packet_batch_size,
            final(self).relayer_metrics.packet_stats_per_validator == old(self).relayer_metrics.packet_stats_per_validator,
    {
        match subscription {
            Subscription::ValidatorPacketSubscription { pubkey, sender } => {
                let duplicate = self.packet_subscriptions.insert(pubkey, sender);
                if !duplicate {
                    self.relayer_metrics.num_added_connections = sat_add_u64(
                        self.relayer_metrics.num_added_connections,
                        1,
                    );
                }
            },
        }
    }

    /// Configuration arm: the advertised TPU endpoints, rotating through
    /// the configured port pools; ports are returned in the external
    /// numbering, six below the bound port.
    pub fn get_tpu_configs(&mut self) -> (r: TpuConfigs)
        requires
            old(self).wf(),
        ensures
            final(self).wf(),
            r.tpu_port == old(self).tpu_quic_ports@[(old(self).seq % (old(self).tpu_quic_ports@.len() as u64)) as int] - 6,
            r.tpu_forward_port == old(self).tpu_fwd_quic_ports@[(old(self).seq % (old(self).tpu_fwd_quic_ports@.len() as u64)) as int] - 6,
            final(self).seq == if old(self).seq == u64::MAX {
                0
            } else {
                old(self).seq + 1
            },
            final(self).packet_subscriptions == old(self).packet_subscriptions,
            final(self).highest_slot == old(self).highest_slot,
            final(self).relayer_metrics == old(self).relayer_metrics,
    {
        let n1 = self.tpu_quic_ports.len() as u64;
        let n2 = self.tpu_fwd_quic_ports.len() as u64;
        let i1 = (self.seq % n1) as usize;
        let i2 = (self.seq % n2) as usize;
        let r = TpuConfigs {
            tpu_port: self.tpu_quic_ports[i1] - 6,
            tpu_forward_port: self.tpu_fwd_quic_ports[i2] - 6,
        };
        self.seq = if self.seq == u64::MAX {
            0
        } else {
            self.seq + 1
        };
        r
    }
}

/// Subscription entry point: gated on health, it allocates the fresh
/// bounded queue that backs the validator's response stream.
pub fn subscribe_packets(health_state: HealthState, pubkey: Address) -> (r: Result<
    Subscription,
    StatusError,
>)
    ensures
        r is Ok <==> health_state == HealthState::Healthy,
        r is Err ==> r->Err_0 == StatusError::Internal,
        r is Ok ==> ({
            let Subscription::ValidatorPacketSubscription { pubkey: p, sender: q } = r->Ok_0;
            &&& p@ == pubkey@
            &&& q.messages() =~= Seq::<MsgView>::empty()
            &&& q.capacity() == SUBSCRIBER_QUEUE_CAPACITY
            &&& !q.is_closed()
        }),
{
    match check_health(health_state) {
        Ok(()) => Ok(
            Subscription::ValidatorPacketSubscription {
                pubkey,
                sender: SubscriberQueue::new(SUBSCRIBER_QUEUE_CAPACITY),
            },
        ),
        Err(e) => Err(e),
    }
}

impl SubscriberMap {
    /// A non-empty map subscribes some identity.
    proof fn lemma_nonempty(m: SubscriberMap)
        requires
            m.wf(),
            m.spec_len() > 0,
        ensures
            exists|a: Seq<u8>| m.contains_id(a),
    {
        Self::lemma_at(m, 0);
    }
}

impl RelayerImpl {
    /// Packet arm: flattens and filters the incoming batches, cuts the
    /// kept packets into protocol batches, and sends each batch to every
    /// recipient with a non-blocking send.  Subscribers whose queue turned
    /// out closed are removed from the map and returned.
    pub fn forward_packets(
        &mut self,
        packet_batches: RelayerPacketBatches,
        address_lookup_table_cache: &TableCache,
    ) -> (failed: Vec<Address>)
        requires
            old(self).wf(),
            address_lookup_table_cache.wf(),
        ensures
            final(self).wf(),
            ({
                let kept = spec_kept_packets(
                    packet_batches.banking_packet_batch,
                    old(self).ofac_addresses@,
                    address_lookup_table_cache@,
                );
                let cv = spec_chunks(kept, old(self).validator_packet_batch_size as nat);
                let subs0 = old(self).packet_subscriptions;
                let stats0 = old(self).relayer_metrics.packet_stats_per_validator;
                &&& forall|a: Seq<u8>|
                    subs0.contains_id(a) && !(old(self).forward_all || old(self).slot_leaders@.contains(a)) ==> final(self).packet_subscriptions.contains_id(
                        a,
                    ) && final(self).packet_subscriptions.queue_of(a) == subs0.queue_of(a)
                &&& forall|a: Seq<u8>|
                    !subs0.contains_id(a) ==> !final(self).packet_subscriptions.contains_id(a)
                &&& forall|a: Seq<u8>|
                    #![trigger subs0.queue_of(a)]
                    subs0.contains_id(a) && (old(self).forward_all || old(self).slot_leaders@.contains(a)) ==> {
                        let eff = queue_effect(subs0.queue_of(a), cv);
                        &&& (eff.disconnect ==> !final(self).packet_subscriptions.contains_id(
                            a,
                        ))
                        &&& (!eff.disconnect ==> final(self).packet_subscriptions.contains_id(
                            a,
                        ) && final(self).packet_subscriptions.queue_of(a).messages()
                            == eff.queue && final(self).packet_subscriptions.queue_of(
                            a,
                        ).capacity() == subs0.queue_of(a).capacity() && final(self).packet_subscriptions.queue_of(a).is_closed() == subs0.queue_of(
                            a,
                        ).is_closed())
                        &&& final(self).relayer_metrics.packet_stats_per_validator.stats_of(a)
                            == stats_after(stats0.stats_of(a), eff)
                    }
                &&& forall|a: Seq<u8>|
                    !(subs0.contains_id(a) && (old(self).forward_all || old(self).slot_leaders@.contains(a))) ==> final(self).relayer_metrics.packet_stats_per_validator.stats_of(a) == stats0.stats_of(
                        a,
                    )
                &&& forall|j: int|
                    0 <= j < failed@.len() ==> subs0.contains_id((#[trigger] failed@[j])@) && (
                    old(self).forward_all || old(self).slot_leaders@.contains(failed@[j]@))
                        && queue_effect(subs0.queue_of(failed@[j]@), cv).disconnect
                &&& forall|a: Seq<u8>|
                    subs0.contains_id(a) && (old(self).forward_all || old(self).slot_leaders@.contains(a)) && queue_effect(
                        subs0.queue_of(a),
                        cv,
                    ).disconnect ==> exists|j: int|
                        0 <= j < failed@.len() && (#[trigger] failed@[j])@ == a
            }),
            final(self).highest_slot == old(self).highest_slot,
            final(self).slot_leaders == old(self).slot_leaders,
            final(self).ofac_addresses == old(self).ofac_addresses,
            final(self).forward_all == old(self).forward_all,
            final(self).slot_lookahead == old(self).slot_lookahead,
            final(self).validator_packet_batch_size == old(self).validator_packet_batch_size,
            final(self).seq == old(self).seq,
            final(self).relayer_metrics.num_heartbeats == old(self).relayer_metrics.num_heartbeats,
            final(self).relayer_metrics.num_removed_connections == old(self).relayer_metrics.num_removed_connections,
            final(self).relayer_metrics.num_added_connections == old(
                self,
            ).relayer_metrics.num_added_connections,
            final(self).relayer_metrics.num_try_send_channel_full == old(
                self,
            ).relayer_metrics.num_try_send_channel_full,
            final(self).relayer_metrics.highest_slot == old(self).relayer_metrics.highest_slot,
    {
        let kept = prepare_packets(
            &packet_batches.banking_packet_batch,
            &self.ofac_addresses,
            address_lookup_table_cache,
        );
        let chunks = chunk_packets(&kept, self.validator_packet_batch_size);
        let failed = self.packet_subscriptions.deliver_to_recipients(
            &chunks,
            self.forward_all,
            &self.slot_leaders,
            &mut self.relayer_metrics.packet_stats_per_validator,
        );
        failed
    }

    /// Heartbeat arm while healthy: sends one heartbeat to every
    /// subscriber and returns the subscribers whose queue turned out
    /// closed.
    pub fn handle_heartbeat(&mut self) -> (failed: Vec<Address>)
        requires
            old(self).wf(),
        ensures
            final(self).wf(),
            forall|a: Seq<u8>|
                final(self).packet_subscriptions.contains_id(a) == old(self).packet_subscriptions.contains_id(a),
            forall|a: Seq<u8>|
                #![trigger old(self).packet_subscriptions.queue_of(a)]
                old(self).packet_subscriptions.contains_id(a) ==> {
                    let q = old(self).packet_subscriptions.queue_of(a);
                    &&& final(self).packet_subscriptions.queue_of(a).capacity() == q.capacity()
                    &&& final(self).packet_subscriptions.queue_of(a).is_closed()
                        == q.is_closed()
                    &&& (q.is_closed() ==> final(self).packet_subscriptions.queue_of(
                        a,
                    ).messages() == q.messages())
                    &&& (!q.is_closed() && q.messages().len() >= q.capacity() ==> final(self).packet_subscriptions.queue_of(a).messages() == q.messages())
                    &&& (!q.is_closed() && q.messages().len() < q.capacity() ==> final(self).packet_subscriptions.queue_of(a).messages() == q.messages().push(
                        MsgView::Heartbeat(old(self).relayer_metrics.num_heartbeats),
                    ))
                },
            forall|j: int|
                0 <= j < failed@.len() ==> old(self).packet_subscriptions.contains_id(
                    (#[trigger] failed@[j])@,
                ) && old(self).packet_subscriptions.queue_of(failed@[j]@).is_closed(),
            forall|a: Seq<u8>|
                old(self).packet_subscriptions.contains_id(a) && old(self).packet_subscriptions.queue_of(a).is_closed() ==> exists|j: int|
                    0 <= j < failed@.len() && (#[trigger] failed@[j])@ == a,
            final(self).relayer_metrics.num_heartbeats == sat_add(
                old(self).relayer_metrics.num_heartbeats,
                1,
            ),
            final(self).relayer_metrics.num_try_send_channel_full == sat_add(
                old(self).relayer_metrics.num_try_send_channel_full,
                nat_sat(old(self).packet_subscriptions.spec_full_count()),
            ),
            final(self).relayer_metrics.num_added_connections == old(
                self,
            ).relayer_metrics.num_added_connections,
            final(self).highest_slot == old(self).highest_slot,
            final(self).slot_leaders == old(self).slot_leaders,
            final(self).ofac_addresses == old(self).ofac_addresses,
            final(self).forward_all == old(self).forward_all,
            final(self).slot_lookahead == old(self).slot_lookahead,
            final(self).validator_packet_batch_size == old(self).validator_packet_batch_size,
            final(self).relayer_metrics.packet_stats_per_validator == old(self).relayer_metrics.packet_stats_per_validator,
            final(self).relayer_metrics.num_removed_connections == old(self).relayer_metrics.num_removed_connections,
    {
        let (failed, fulls) = self.packet_subscriptions.heartbeat_all(
            self.relayer_metrics.num_heartbeats,
        );
        self.relayer_metrics.num_try_send_channel_full = sat_add_u64(
            self.relayer_metrics.num_try_send_channel_full,
            fulls,
        );
        self.relayer_metrics.num_heartbeats = sat_add_u64(
            self.relayer_metrics.num_heartbeats,
            1,
        );
        failed
    }

    /// Heartbeat arm: while healthy, heartbeat every subscriber and drop
    /// the ones whose stream closed; on an unhealthy tick, disconnect
    /// every subscriber.
    pub fn heartbeat_tick(&mut self, health_state: HealthState)
        requires
            old(self).wf(),
        ensures
            final(self).wf(),
            health_state != HealthState::Healthy ==> final(self).packet_subscriptions.spec_len() == 0 && forall|a: Seq<u8>|
                !final(self).packet_subscriptions.contains_id(a),
            health_state == HealthState::Healthy ==> forall|a: Seq<u8>|
                #![trigger old(self).packet_subscriptions.queue_of(a)]
                old(self).packet_subscriptions.contains_id(a) ==> {
                    let q = old(self).packet_subscriptions.queue_of(a);
                    &&& (q.is_closed() ==> !final(self).packet_subscriptions.contains_id(a))
                    &&& (!q.is_closed() ==> final(self).packet_subscriptions.contains_id(a)
                        && final(self).packet_subscriptions.queue_of(a).capacity()
                        == q.capacity() && !final(self).packet_subscriptions.queue_of(
                        a,
                    ).is_closed() && (if q.messages().len() < q.capacity() {
                        final(self).packet_subscriptions.queue_of(a).messages()
                            == q.messages().push(
                            MsgView::Heartbeat(old(self).relayer_metrics.num_heartbeats),
                        )
                    } else {
                        final(self).packet_subscriptions.queue_of(a).messages()
                            == q.messages()
                    }))
                },
            health_state == HealthState::Healthy ==> forall|a: Seq<u8>|
                !old(self).packet_subscriptions.contains_id(a) ==> !final(self).packet_subscriptions.contains_id(a),
            final(self).highest_slot == old(self).highest_slot,
            final(self).slot_leaders == old(self).slot_leaders,
            final(self).ofac_addresses == old(self).ofac_addresses,
            final(self).forward_all == old(self).forward_all,
            final(self).slot_lookahead == old(self).slot_lookahead,
            final(self).validator_packet_batch_size == old(self).validator_packet_batch_size,
    {
        if health_state == HealthState::Healthy {
            let ghost before = *self;
            let failed = self.handle_heartbeat();
            let ghost mid = *self;
            self.drop_connections(failed);
            proof {
                assert forall|a: Seq<u8>|
                    #![trigger before.packet_subscriptions.queue_of(a)]
                    before.packet_subscriptions.contains_id(a) implies {
                    let q = before.packet_subscriptions.queue_of(a);
                    &&& (q.is_closed() ==> !self.packet_subscriptions.contains_id(a))
                    &&& (!q.is_closed() ==> self.packet_subscriptions.contains_id(a)
                        && self.packet_subscriptions.queue_of(a).capacity() == q.capacity()
                        && !self.packet_subscriptions.queue_of(a).is_closed() && (if q.messages().len()
                        < q.capacity() {
                        self.packet_subscriptions.queue_of(a).messages() == q.messages().push(
                            MsgView::Heartbeat(before.relayer_metrics.num_heartbeats),
                        )
                    } else {
                        self.packet_subscriptions.queue_of(a).messages() == q.messages()
                    }))
                } by {
                    let q = before.packet_subscriptions.queue_of(a);
                    if q.is_closed() {
                        assert(exists|j: int|
                            0 <= j < failed@.len() && (#[trigger] failed@[j])@ == a);
                    } else {
                        if exists|j: int|
                            0 <= j < failed@.len() && (#[trigger] failed@[j])@ == a {
                            let j = choose|j: int|
                                0 <= j < failed@.len() && (#[trigger] failed@[j])@ == a;
                            assert(before.packet_subscriptions.queue_of(
                                failed@[j]@,
                            ).is_closed());
                            assert(false);
                        }
                        assert(mid.packet_subscriptions.contains_id(a));
                    }
                }
            }
        } else {
            let all = self.packet_subscriptions.connected_validators();
            self.drop_connections(all);
            proof {
                assert forall|a: Seq<u8>|
                    !self.packet_subscriptions.contains_id(a) by {
                    if self.packet_subscriptions.contains_id(a) {
                        assert(old(self).packet_subscriptions.contains_id(a));
                        assert(exists|j: int|
                            0 <= j < all@.len() && (#[trigger] all@[j])@ == a);
                    }
                }
                if self.packet_subscriptions.spec_len() > 0 {
                    SubscriberMap::lemma_nonempty(self.packet_subscriptions);
                }
            }
        }
    }

    /// The identities currently subscribed.
    pub fn connected_validators(&self) -> (r: Vec<Address>)
        requires
            self.wf(),
        ensures
            r@.len() == self.packet_subscriptions.spec_len(),
            forall|j: int|
                0 <= j < r@.len() ==> self.packet_subscriptions.contains_id(
                    #[trigger] r@[j]@,
                ),
            forall|a: Seq<u8>|
                self.packet_subscriptions.contains_id(a) ==> exists|j: int|
                    0 <= j < r@.len() && r@[j]@ == a,
    {
        self.packet_subscriptions.connected_validators()
    }
}

/// Total number of packets across a list of chunks.
pub open spec fn total_packets(chunks: Seq<Seq<PacketView>>) -> nat
    decreases chunks.len(),
{
    if chunks.len() == 0 {
        0
    } else {
        chunks.first().len() + total_packets(chunks.drop_first())
    }
}

/// How many leading chunks a queue accepts: none when it is closed,
/// otherwise as many as fit in its remaining room.
pub open spec fn spec_accepted_count(q_len: int, closed: bool, cap: int, n: int) -> int {
    if closed {
        0
    } else if cap - q_len <= 0 {
        0
    } else if n <= cap - q_len {
        n
    } else {
        cap - q_len
    }
}

/// Closed form of one delivery: the queue accepts exactly its room's
/// worth of leading chunks, appended in order behind what was already
/// pending; everything else is dropped and counted, and a closed queue
/// accepts nothing and marks the subscriber for disconnection.
pub proof fn lemma_deliver_characterization(
    q: Seq<MsgView>,
    closed: bool,
    cap: nat,
    chunks: Seq<Seq<PacketView>>,
)
    ensures
        ({
            let eff = spec_deliver(q, closed, cap, chunks);
            let k = spec_accepted_count(q.len() as int, closed, cap as int, chunks.len() as int);
            &&& 0 <= k <= chunks.len()
            &&& eff.queue =~= q + chunks.take(k).map_values(
                |c: Seq<PacketView>| MsgView::Batch(c),
            )
            &&& eff.forwarded == total_packets(chunks.take(k))
            &&& eff.dropped == if closed {
                0nat
            } else {
                total_packets(chunks.skip(k))
            }
            &&& eff.disconnect == (closed && chunks.len() > 0)
        }),
    decreases chunks.len(),
{
    let eff = spec_deliver(q, closed, cap, chunks);
    let k = spec_accepted_count(q.len() as int, closed, cap as int, chunks.len() as int);
    let bf = |c: Seq<PacketView>| MsgView::Batch(c);
    if chunks.len() == 0 {
        assert(chunks.take(0) =~= Seq::<Seq<PacketView>>::empty());
        assert(chunks.skip(0) =~= chunks);
        assert(eff.queue =~= q + chunks.take(0).map_values(bf));
    } else if closed {
        assert(chunks.take(0) =~= Seq::<Seq<PacketView>>::empty());
        assert(eff.queue =~= q + chunks.take(0).map_values(bf));
    } else if q.len() >= cap {
        let rest_chunks = chunks.drop_first();
        lemma_deliver_characterization(q, closed, cap, rest_chunks);
        let krest = spec_accepted_count(
            q.len() as int,
            closed,
            cap as int,
            rest_chunks.len() as int,
        );
        assert(k == 0 && krest == 0);
        assert(rest_chunks.take(0) =~= Seq::<Seq<PacketView>>::empty());
        assert(chunks.take(0) =~= Seq::<Seq<PacketView>>::empty());
        assert(rest_chunks.skip(0) =~= rest_chunks);
        assert(chunks.skip(0) =~= chunks);
        assert(eff.dropped == chunks.first().len() + total_packets(rest_chunks));
        assert(eff.queue =~= q + chunks.take(0).map_values(bf));
    } else {
        let q2 = q.push(MsgView::Batch(chunks.first()));
        let rest_chunks = chunks.drop_first();
        lemma_deliver_characterization(q2, closed, cap, rest_chunks);
        let k2 = spec_accepted_count(
            q2.len() as int,
            closed,
            cap as int,
            rest_chunks.len() as int,
        );
        assert(k == k2 + 1);
        assert(chunks.take(k).first() == chunks.first());
        assert(chunks.take(k).drop_first() =~= rest_chunks.take(k2));
        assert(chunks.skip(k) =~= rest_chunks.skip(k2));
        assert(total_packets(chunks.take(k)) == chunks.first().len() + total_packets(
            rest_chunks.take(k2),
        ));
        assert(eff.queue =~= q2 + rest_chunks.take(k2).map_values(bf));
        assert(q2 + rest_chunks.take(k2).map_values(bf) =~= q + chunks.take(k).map_values(
            bf,
        )) by {
            assert(chunks.take(k).map_values(bf).first() == bf(chunks.first()));
            assert(chunks.take(k).map_values(bf).drop_first() =~= rest_chunks.take(
                k2,
            ).map_values(bf));
        }
    }
}

/// Delivery appends and never reorders: every message already pending
/// keeps its position, and the appended messages are the accepted leading
/// chunks, as batches, in chunk order.
pub proof fn lemma_delivery_preserves_order(
    q: Seq<MsgView>,
    closed: bool,
    cap: nat,
    chunks: Seq<Seq<PacketView>>,
)
    ensures
        ({
            let eff = spec_deliver(q, closed, cap, chunks);
            let k = spec_accepted_count(q.len() as int, closed, cap as int, chunks.len() as int);
            &&& q.len() <= eff.queue.len()
            &&& forall|i: int| 0 <= i < q.len() ==> eff.queue[i] == q[i]
            &&& eff.queue.len() == q.len() + k
            &&& forall|j: int|
                0 <= j < k ==> eff.queue[q.len() + j] == MsgView::Batch(chunks[j])
        }),
{
    lemma_deliver_characterization(q, closed, cap, chunks);
}

/// A full open queue receives nothing from a delivery: every packet of
/// every chunk is dropped and counted, and the queue itself is left as it
/// was.
pub proof fn lemma_full_queue_drops_all(
    q: Seq<MsgView>,
    cap: nat,
    chunks: Seq<Seq<PacketView>>,
)
    requires
        q.len() >= cap,
    ensures
        ({
            let eff = spec_deliver(q, false, cap, chunks);
            &&& eff.queue == q
            &&& eff.forwarded == 0
            &&& eff.dropped == total_packets(chunks)
            &&& !eff.disconnect
        }),
{
    lemma_deliver_characterization(q, false, cap, chunks);
    let eff = spec_deliver(q, false, cap, chunks);
    assert(chunks.take(0) =~= Seq::<Seq<PacketView>>::empty());
    assert(chunks.skip(0) =~= chunks);
    assert(eff.queue =~= q);
}

/// An open queue with room for the whole delivery receives every chunk,
/// in order, and drops nothing.
pub proof fn lemma_open_queue_receives_all(
    q: Seq<MsgView>,
    cap: nat,
    chunks: Seq<Seq<PacketView>>,
)
    requires
        q.len() + chunks.len() <= cap,
    ensures
        ({
            let eff = spec_deliver(q, false, cap, chunks);
            &&& eff.queue =~= q + chunks.map_values(|c: Seq<PacketView>| MsgView::Batch(c))
            &&& eff.forwarded == total_packets(chunks)
            &&& eff.dropped == 0
            &&& !eff.disconnect
        }),
{
    lemma_deliver_characterization(q, false, cap, chunks);
    let k = spec_accepted_count(q.len() as int, false, cap as int, chunks.len() as int);
    assert(k == chunks.len());
    assert(chunks.take(k) =~= chunks);
    assert(chunks.skip(k) =~= Seq::<Seq<PacketView>>::empty());
}

/// Every element of every chunk comes from the chunked sequence.
proof fn lemma_chunks_elements(s: Seq<PacketView>, sz: nat)
    requires
        sz > 0,
    ensures
        forall|i: int, j: int|
            0 <= i < spec_chunks(s, sz).len() && 0 <= j < spec_chunks(s, sz)[i].len()
                ==> s.contains(#[trigger] spec_chunks(s, sz)[i][j]),
    decreases s.len(),
{
    let chunks = spec_chunks(s, sz);
    if s.len() == 0 {
    } else if s.len() <= sz {
        assert forall|i: int, j: int|
            0 <= i < chunks.len() && 0 <= j < chunks[i].len() implies s.contains(
            #[trigger] chunks[i][j],
        ) by {
            assert(chunks[i] == s);
            assert(s[j] == chunks[i][j]);
        }
    } else {
        lemma_chunks_elements(s.skip(sz as int), sz);
        assert forall|i: int, j: int|
            0 <= i < chunks.len() && 0 <= j < chunks[i].len() implies s.contains(
            #[trigger] chunks[i][j],
        ) by {
            if i == 0 {
                assert(chunks[0] == s.take(sz as int));
                assert(s.take(sz as int)[j] == s[j]);
            } else {
                let rest = spec_chunks(s.skip(sz as int), sz);
                assert(chunks[i] == rest[i - 1]);
                assert(s.skip(sz as int).contains(rest[i - 1][j]));
                let x = choose|x: int|
                    0 <= x < s.skip(sz as int).len() && s.skip(sz as int)[x] == rest[i - 1][j];
                assert(s[x + sz] == rest[i - 1][j]);
            }
        }
    }
}

/// Every packet of every chunk the packet arm sends out passed the
/// admission filter: it is not marked discard, and with a non-empty
/// denylist it decodes to a transaction the denylist filter keeps.
pub proof fn lemma_outgoing_chunks_pass_filter(
    batches: Vec<Vec<Packet>>,
    denied: Set<Seq<u8>>,
    cache: Map<Seq<u8>, Seq<Seq<u8>>>,
    sz: nat,
)
    requires
        sz > 0,
    ensures
        ({
            let kept = spec_kept_packets(batches, denied, cache);
            let chunks = spec_chunks(kept, sz);
            forall|i: int, j: int|
                0 <= i < chunks.len() && 0 <= j < chunks[i].len() ==> spec_keep_packet(
                    #[trigger] chunks[i][j],
                    denied,
                    cache,
                )
        }),
{
    let pred = |p: PacketView| spec_keep_packet(p, denied, cache);
    let flat = batches_view(batches).flatten();
    let kept = flat.filter(pred);
    flat.filter_lemma(pred);
    lemma_chunks_elements(kept, sz);
    let chunks = spec_chunks(kept, sz);
    assert forall|i: int, j: int|
        0 <= i < chunks.len() && 0 <= j < chunks[i].len() implies spec_keep_packet(
        #[trigger] chunks[i][j],
        denied,
        cache,
    ) by {
        assert(kept.contains(chunks[i][j]));
        let x = choose|x: int| 0 <= x < kept.len() && kept[x] == chunks[i][j];
        assert(pred(kept[x]));
    }
}

} // verus!

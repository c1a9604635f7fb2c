//! Forward/delay stage and forwarded-packet intake.
//!
//! Verified batches from upstream are stamped with their reception time
//! and enqueued for the relayer core; the same batch is tee'd into a
//! bounded queue for the external block-engine collaborator, where a full
//! queue drops (counted) and never blocks the upstream.
//!
//! Delay semantics: as in the behavior this models, the stage enqueues
//! immediately and enforces no minimum delay on the dequeue side; the
//! reception stamp carries the timing downstream (it feeds the latency
//! histogram), and the configured packet delay remains an operational
//! knob.  `ready_at_micros` gives the dequeue-side bound an implementation
//! enforcing a strict delay would use.

use vstd::prelude::*;

use crate::queue::{clone_packets, packets_view, Packet};
use crate::relayer::{batches_view, sat_add, RelayerPacketBatches};

verus! {

/// Depth of the delay queue between this stage and the relayer core.
pub const DELAY_PACKET_QUEUE_CAPACITY: usize = 10000;

/// Upper bound on packets marked and drained in one forwarded-packet
/// intake pass.
pub const FORWARDED_PACKET_DRAIN_LIMIT: usize = 1024;

/// Clones a list of packet batches, keeping its contents.
pub fn clone_batches(v: &Vec<Vec<Packet>>) -> (r: Vec<Vec<Packet>>)
    ensures
        batches_view(r) == batches_view(*v),
{
    let mut r: Vec<Vec<Packet>> = Vec::new();
    let mut i: usize = 0;
    while i < v.len()
        invariant
            i <= v@.len(),
            r@.len() == i,
            forall|j: int|
                0 <= j < i ==> packets_view(#[trigger] r@[j]) == packets_view(v@[j]),
        decreases v@.len() - i,
    {
        r.push(clone_packets(&v[i]));
        i = i + 1;
    }
    proof {
        assert(batches_view(r) =~= batches_view(*v));
    }
    r
}

/// The forward/delay stage: the stamped queue feeding the relayer core
/// and the bounded tee towards the block engine.
pub struct ForwardDelayStage {
    delay_queue: Vec<RelayerPacketBatches>,
    block_engine_queue: Vec<Vec<Vec<Packet>>>,
    block_engine_capacity: usize,
    num_block_engine_dropped: u64,
    packet_delay_ms: u32,
}

impl ForwardDelayStage {
    /// Batches stamped and waiting for the relayer core, oldest first.
    pub closed spec fn delay_queue(&self) -> Seq<RelayerPacketBatches> {
        self.delay_queue@
    }

    /// Batches waiting for the block engine, oldest first, by view.
    pub closed spec fn block_engine_queue(&self) -> Seq<Seq<Seq<crate::queue::PacketView>>> {
        self.block_engine_queue@.map_values(|b: Vec<Vec<Packet>>| batches_view(b))
    }

    /// The block-engine queue's bound.
    pub closed spec fn block_engine_capacity(&self) -> nat {
        self.block_engine_capacity as nat
    }

    /// Batches dropped because the block-engine queue was full.
    pub closed spec fn num_block_engine_dropped(&self) -> u64 {
        self.num_block_engine_dropped
    }

    /// The configured (operational) packet delay.
    pub closed spec fn packet_delay_ms(&self) -> u32 {
        self.packet_delay_ms
    }

    /// An empty stage.
    pub fn new(packet_delay_ms: u32, block_engine_capacity: usize) -> (r: ForwardDelayStage)
        ensures
            r.delay_queue() =~= Seq::<RelayerPacketBatches>::empty(),
            r.block_engine_queue() =~= Seq::<Seq<Seq<crate::queue::PacketView>>>::empty(),
            r.block_engine_capacity() == block_engine_capacity,
            r.num_block_engine_dropped() == 0,
            r.packet_delay_ms() == packet_delay_ms,
    {
        ForwardDelayStage {
            delay_queue: Vec::new(),
            block_engine_queue: Vec::new(),
            block_engine_capacity,
            num_block_engine_dropped: 0,
            packet_delay_ms,
        }
    }

    /// A verified batch arrived: stamp it with its reception time and
    /// queue it for the relayer core; tee a copy towards the block
    /// engine, dropping (counted) when that queue is full.
    pub fn on_verified_batch(&mut self, banking_packet_batch: Vec<Vec<Packet>>, now_micros: u64)
        ensures
            final(self).block_engine_capacity() == old(self).block_engine_capacity(),
            final(self).packet_delay_ms() == old(self).packet_delay_ms(),
            final(self).delay_queue().len() == old(self).delay_queue().len() + 1,
            final(self).delay_queue().last().stamp_micros == now_micros,
            batches_view(final(self).delay_queue().last().banking_packet_batch)
                == batches_view(banking_packet_batch),
            forall|i: int|
                0 <= i < old(self).delay_queue().len() ==> final(self).delay_queue()[i] == old(self).delay_queue()[i],
            old(self).block_engine_queue().len() < old(self).block_engine_capacity() ==> final(self).block_engine_queue() == old(self).block_engine_queue().push(
                batches_view(banking_packet_batch),
            ) && final(self).num_block_engine_dropped() == old(self).num_block_engine_dropped(),
            old(self).block_engine_queue().len() >= old(self).block_engine_capacity()
                ==> final(self).block_engine_queue() == old(self).block_engine_queue()
                && final(self).num_block_engine_dropped() == sat_add(
                old(self).num_block_engine_dropped(),
                1,
            ),
    {
        let ghost bview = batches_view(banking_packet_batch);
        if self.block_engine_queue.len() < self.block_engine_capacity {
            let copy = clone_batches(&banking_packet_batch);
            let ghost prev = self.block_engine_queue@;
            self.block_engine_queue.push(copy);
            proof {
                assert(self.block_engine_queue() =~= prev.map_values(
                    |b: Vec<Vec<Packet>>| batches_view(b),
                ).push(bview));
            }
        } else {
            self.num_block_engine_dropped = if self.num_block_engine_dropped == u64::MAX {
                u64::MAX
            } else {
                self.num_block_engine_dropped + 1
            };
        }
        self.delay_queue.push(
            RelayerPacketBatches { stamp_micros: now_micros, banking_packet_batch },
        );
    }

    /// The relayer core dequeues the oldest stamped batch.
    pub fn pop_delayed(&mut self) -> (r: Option<RelayerPacketBatches>)
        ensures
            final(self).block_engine_queue() == old(self).block_engine_queue(),
            final(self).block_engine_capacity() == old(self).block_engine_capacity(),
            final(self).num_block_engine_dropped() == old(self).num_block_engine_dropped(),
            final(self).packet_delay_ms() == old(self).packet_delay_ms(),
            match r {
                Some(b) => old(self).delay_queue().len() > 0 && b == old(self).delay_queue().first() && final(self).delay_queue() == old(self).delay_queue().drop_first(),
                None => old(self).delay_queue().len() == 0 && final(self).delay_queue()
                    == old(self).delay_queue(),
            },
    {
        if self.delay_queue.len() == 0 {
            None
        } else {
            Some(self.delay_queue.remove(0))
        }
    }

    /// The block-engine side dequeues the oldest tee'd batch.
    pub fn pop_block_engine(&mut self) -> (r: Option<Vec<Vec<Packet>>>)
        ensures
            final(self).delay_queue() == old(self).delay_queue(),
            final(self).block_engine_capacity() == old(self).block_engine_capacity(),
            final(self).num_block_engine_dropped() == old(self).num_block_engine_dropped(),
            final(self).packet_delay_ms() == old(self).packet_delay_ms(),
            match r {
                Some(b) => old(self).block_engine_queue().len() > 0 && batches_view(b) == old(self).block_engine_queue().first() && final(self).block_engine_queue() == old(self).block_engine_queue().drop_first(),
                None => old(self).block_engine_queue().len() == 0 && final(self).block_engine_queue() == old(self).block_engine_queue(),
            },
    {
        if self.block_engine_queue.len() == 0 {
            None
        } else {
            let ghost prev = self.block_engine_queue@;
            let b = self.block_engine_queue.remove(0);
            proof {
                assert(self.block_engine_queue() =~= prev.map_values(
                    |x: Vec<Vec<Packet>>| batches_view(x),
                ).drop_first());
            }
            Some(b)
        }
    }
}

/// When a stamped batch becomes eligible for dispatch under a strict
/// minimum delay: its reception time plus the configured delay.
pub fn ready_at_micros(stamp_micros: u64, packet_delay_ms: u32) -> (r: u64)
    ensures
        stamp_micros + (packet_delay_ms as u64) * 1000 <= u64::MAX ==> r == stamp_micros + (
        packet_delay_ms as u64) * 1000,
        stamp_micros + (packet_delay_ms as u64) * 1000 > u64::MAX ==> r == u64::MAX,
{
    let delay_us = (packet_delay_ms as u64) * 1000;
    if delay_us > u64::MAX - stamp_micros {
        u64::MAX
    } else {
        stamp_micros + delay_us
    }
}

/// Marks every packet of a forwarded batch with the forwarded flag, so a
/// packet is never forwarded in a loop; nothing else changes.
pub fn mark_batch_forwarded(batch: &mut Vec<Packet>)
    ensures
        final(batch)@.len() == old(batch)@.len(),
        forall|i: int|
            0 <= i < old(batch)@.len() ==> (#[trigger] final(batch)@[i])@
                == (crate::queue::PacketView { forwarded: true, ..old(batch)@[i]@ }),
{
    let ghost all = batch@;
    let n = batch.len();
    let mut marked: Vec<Packet> = Vec::new();
    let mut i: usize = 0;
    while i < n
        invariant
            n == all.len(),
            batch@ == all,
            i <= n,
            marked@.len() == i,
            forall|j: int|
                0 <= j < i ==> (#[trigger] marked@[j])@ == (crate::queue::PacketView {
                    forwarded: true,
                    ..all[j]@
                }),
        decreases n - i,
    {
        let p = batch[i].clone();
        marked.push(Packet { discard: p.discard, forwarded: true, tx: p.tx });
        i = i + 1;
    }
    *batch = marked;
}

/// Whether a forwarded-packet intake pass keeps draining: it stops once
/// more packets than the drain limit have been collected.
pub fn keep_draining(num_packets: usize) -> (r: bool)
    ensures
        r == (num_packets <= FORWARDED_PACKET_DRAIN_LIMIT),
{
    num_packets <= FORWARDED_PACKET_DRAIN_LIMIT
}

} // verus!

//! Per-subscriber outbound queues.
//!
//! Each subscribed validator owns one bounded FIFO queue of outbound
//! messages.  The event loop enqueues with a non-blocking send: a full
//! queue drops the message (counted), a closed queue marks the subscriber
//! for disconnection, and in neither case is any other subscriber held up.

use vstd::prelude::*;

use crate::filter::{Transaction, TxView};

verus! {

/// A transaction packet as the relayer routes it: the discard flag set by
/// upstream signature verification, the forwarded flag, and the decoded
/// transaction (`None` when the payload does not decode).
#[derive(Debug)]
pub struct Packet {
    /// Upstream marked this packet to be dropped.
    pub discard: bool,
    /// The packet was forwarded by another validator.
    pub forwarded: bool,
    /// The packet's payload, decoded; `None` if undecodable.
    pub tx: Option<Transaction>,
}

/// Mathematical view of a packet.
pub struct PacketView {
    /// Upstream marked this packet to be dropped.
    pub discard: bool,
    /// The packet was forwarded by another validator.
    pub forwarded: bool,
    /// View of the decoded transaction, if any.
    pub tx: Option<TxView>,
}

impl View for Packet {
    type V = PacketView;

    open spec fn view(&self) -> PacketView {
        PacketView {
            discard: self.discard,
            forwarded: self.forwarded,
            tx: match self.tx {
                Some(tx) => Some(tx@),
                None => None,
            },
        }
    }
}

/// A message on a subscriber's stream: a batch of packets or a heartbeat.
#[derive(Debug)]
pub enum SubscriberMessage {
    /// A batch of routed packets.
    Batch(Vec<Packet>),
    /// A liveness heartbeat, carrying the heartbeat counter.
    Heartbeat(u64),
}

/// Mathematical view of a subscriber message.
pub enum MsgView {
    /// A batch of routed packets.
    Batch(Seq<PacketView>),
    /// A liveness heartbeat, carrying the heartbeat counter.
    Heartbeat(u64),
}

impl View for SubscriberMessage {
    type V = MsgView;

    open spec fn view(&self) -> MsgView {
        match self {
            SubscriberMessage::Batch(v) => MsgView::Batch(
                v@.map_values(|p: Packet| p@),
            ),
            SubscriberMessage::Heartbeat(c) => MsgView::Heartbeat(*c),
        }
    }
}

/// The views of a list of packets.
pub open spec fn packets_view(v: Vec<Packet>) -> Seq<PacketView> {
    v@.map_values(|p: Packet| p@)
}

/// Outcome of a non-blocking send into a subscriber queue.
#[derive(PartialEq, Eq, Structural, Clone, Copy, Debug)]
pub enum TrySendOutcome {
    /// The message was enqueued.
    Sent,
    /// The queue was at capacity; the message was dropped.
    Full,
    /// The subscriber is gone; the queue accepts nothing further.
    Closed,
}

/// Bounded FIFO queue of outbound messages for one validator.
#[derive(Debug)]
pub struct SubscriberQueue {
    messages: Vec<SubscriberMessage>,
    capacity: usize,
    closed: bool,
}

impl SubscriberQueue {
    /// Messages pending on the queue, oldest first.
    pub closed spec fn messages(&self) -> Seq<MsgView> {
        self.messages@.map_values(|m: SubscriberMessage| m@)
    }

    /// The fixed capacity the queue was created with.
    pub closed spec fn capacity(&self) -> nat {
        self.capacity as nat
    }

    /// Whether the consumer side is gone.
    pub closed spec fn is_closed(&self) -> bool {
        self.closed
    }

    /// An empty open queue with the given capacity.
    pub fn new(capacity: usize) -> (r: SubscriberQueue)
        ensures
            r.messages() =~= Seq::<MsgView>::empty(),
            r.capacity() == capacity,
            !r.is_closed(),
    {
        SubscriberQueue { messages: Vec::new(), capacity, closed: false }
    }

    /// Number of pending messages.
    pub fn len(&self) -> (r: usize)
        ensures
            r == self.messages().len(),
    {
        self.messages.len()
    }

    /// Non-blocking send: enqueue if the queue is open and has room,
    /// report `Full` or `Closed` otherwise without changing anything.
    pub fn try_send(&mut self, msg: SubscriberMessage) -> (r: TrySendOutcome)
        ensures
            final(self).capacity() == old(self).capacity(),
            final(self).is_closed() == old(self).is_closed(),
            match r {
                TrySendOutcome::Sent => !old(self).is_closed() && old(self).messages().len()
                    < old(self).capacity() && final(self).messages() == old(
                    self,
                ).messages().push(msg@),
                TrySendOutcome::Full => !old(self).is_closed() && old(self).messages().len()
                    >= old(self).capacity() && final(self).messages() == old(self).messages(),
                TrySendOutcome::Closed => old(self).is_closed() && final(self).messages()
                    == old(self).messages(),
            },
    {
        if self.closed {
            TrySendOutcome::Closed
        } else if self.messages.len() >= self.capacity {
            TrySendOutcome::Full
        } else {
            let ghost m = msg;
            let ghost prev = self.messages@;
            self.messages.push(msg);
            proof {
                assert(self.messages@ =~= prev.push(m));
                assert(self.messages() =~= prev.map_values(|x: SubscriberMessage| x@).push(
                    m@,
                ));
            }
            TrySendOutcome::Sent
        }
    }

    /// Consumer side: take the oldest pending message.
    pub fn pop_front(&mut self) -> (r: Option<SubscriberMessage>)
        ensures
            final(self).capacity() == old(self).capacity(),
            final(self).is_closed() == old(self).is_closed(),
            match r {
                Some(m) => old(self).messages().len() > 0 && m@ == old(
                    self,
                ).messages().first() && final(self).messages() == old(
                    self,
                ).messages().drop_first(),
                None => old(self).messages().len() == 0 && final(self).messages() == old(
                    self,
                ).messages(),
            },
    {
        if self.messages.len() == 0 {
            None
        } else {
            let ghost prev = self.messages@;
            let m = self.messages.remove(0);
            proof {
                assert(self.messages@ =~= prev.drop_first());
                assert(self.messages() =~= prev.map_values(
                    |x: SubscriberMessage| x@,
                ).drop_first());
            }
            Some(m)
        }
    }

    /// The subscriber went away: the queue accepts nothing further.
    pub fn close(&mut self)
        ensures
            final(self).capacity() == old(self).capacity(),
            final(self).messages() == old(self).messages(),
            final(self).is_closed(),
    {
        self.closed = true;
    }
}

impl Clone for Packet {
    fn clone(&self) -> (r: Self)
        ensures
            r@ == self@,
    {
        Packet {
            discard: self.discard,
            forwarded: self.forwarded,
            tx: match &self.tx {
                Some(tx) => Some(tx.clone()),
                None => None,
            },
        }
    }
}

/// Clones a list of packets, keeping its contents.
pub fn clone_packets(v: &Vec<Packet>) -> (r: Vec<Packet>)
    ensures
        packets_view(r) == packets_view(*v),
{
    let mut r: Vec<Packet> = Vec::new();
    let mut i: usize = 0;
    while i < v.len()
        invariant
            i <= v@.len(),
            r@.len() == i,
            forall|j: int| 0 <= j < i ==> (#[trigger] r@[j])@ == v@[j]@,
        decreases v@.len() - i,
    {
        r.push(v[i].clone());
        i = i + 1;
    }
    proof {
        assert(packets_view(r) =~= packets_view(*v));
    }
    r
}

} // verus!

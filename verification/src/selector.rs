//! Upstream source selector.
//!
//! Several remote sources each report their latest observed slot.  The
//! selector keeps a per-source latest slot, routes request traffic to the
//! source holding the maximum, and publishes a slot downstream exactly when
//! it strictly exceeds every slot published before, so the published stream
//! is strictly increasing whatever order the sources' events arrive in.

use vstd::prelude::*;

verus! {

/// Bound of the published slot channel: a slow consumer stalls slot
/// propagation rather than missing updates.
pub const SLOT_QUEUE_CAPACITY: usize = 100;

/// A sequence is strictly increasing.
pub open spec fn strictly_increasing(s: Seq<u64>) -> bool {
    forall|i: int, j: int| 0 <= i < j < s.len() ==> s[i] < s[j]
}

/// Tracks the latest slot of each upstream source and the slots published
/// downstream so far.
pub struct LoadBalancer {
    server_to_slot: Vec<u64>,
    highest_slot: u64,
    published: Ghost<Seq<u64>>,
}

impl LoadBalancer {
    /// Latest slot reported by each source, by source index.
    pub closed spec fn slots(&self) -> Seq<u64> {
        self.server_to_slot@
    }

    /// Slots handed downstream so far, oldest first.
    pub closed spec fn published(&self) -> Seq<u64> {
        self.published@
    }

    /// The slots published so far are strictly increasing, and the current
    /// maximum is the last of them (or the initial zero before the first).
    pub closed spec fn wf(&self) -> bool {
        &&& strictly_increasing(self.published@)
        &&& if self.published@.len() == 0 {
            self.highest_slot == 0
        } else {
            self.highest_slot == self.published@.last()
        }
        &&& forall|i: int| 0 <= i < self.published@.len() ==> self.published@[i] > 0
    }

    /// A selector over `n` sources, none of which has reported yet.
    pub fn new(n: usize) -> (r: LoadBalancer)
        ensures
            r.wf(),
            r.slots() =~= Seq::new(n as nat, |i: int| 0u64),
            r.published() =~= Seq::<u64>::empty(),
    {
        let mut server_to_slot: Vec<u64> = Vec::new();
        let mut i: usize = 0;
        while i < n
            invariant
                i <= n,
                server_to_slot@ =~= Seq::new(i as nat, |j: int| 0u64),
            decreases n - i,
        {
            server_to_slot.push(0);
            i = i + 1;
        }
        LoadBalancer { server_to_slot, highest_slot: 0, published: Ghost(Seq::empty()) }
    }

    /// Number of sources.
    pub fn num_sources(&self) -> (r: usize)
        ensures
            r == self.slots().len(),
    {
        self.server_to_slot.len()
    }

    /// Records a slot event from one source.  The source's latest slot is
    /// updated unconditionally; the slot is handed back for publication
    /// exactly when it strictly exceeds every slot published so far.
    pub fn record_slot(&mut self, source: usize, slot: u64) -> (r: Option<u64>)
        requires
            old(self).wf(),
            source < old(self).slots().len(),
        ensures
            final(self).wf(),
            final(self).slots() == old(self).slots().update(source as int, slot),
            match r {
                Some(p) => p == slot && final(self).published() == old(self).published().push(
                    slot,
                ) && forall|i: int|
                    0 <= i < old(self).published().len() ==> old(self).published()[i] < slot,
                None => final(self).published() == old(self).published() && (
                old(self).published().len() > 0 ==> slot <= old(self).published().last()) && (
                old(self).published().len() == 0 ==> slot == 0),
            },
    {
        self.server_to_slot.set(source, slot);
        if slot > self.highest_slot {
            self.highest_slot = slot;
            proof {
                self.published@ = self.published@.push(slot);
            }
            Some(slot)
        } else {
            None
        }
    }

    /// The source holding the maximum observed slot, and that slot.  Every
    /// request is routed to this source.
    pub fn get_highest_slot(&self) -> (r: (usize, u64))
        requires
            self.slots().len() > 0,
        ensures
            r.0 < self.slots().len(),
            self.slots()[r.0 as int] == r.1,
            forall|i: int| 0 <= i < self.slots().len() ==> self.slots()[i] <= r.1,
    {
        let mut best: usize = 0;
        let mut best_slot: u64 = self.server_to_slot[0];
        let mut i: usize = 1;
        while i < self.server_to_slot.len()
            invariant
                1 <= i <= self.slots().len(),
                best < i,
                self.slots()[best as int] == best_slot,
                forall|j: int| 0 <= j < i ==> self.slots()[j] <= best_slot,
            decreases self.slots().len() - i,
        {
            if self.server_to_slot[i] > best_slot {
                best = i;
                best_slot = self.server_to_slot[i];
            }
            i = i + 1;
        }
        (best, best_slot)
    }
}

/// Whatever order slot events arrive in, the stream the selector publishes
/// is strictly increasing: each published slot exceeds all earlier ones.
pub proof fn lemma_published_strictly_increasing(s: &LoadBalancer)
    requires
        s.wf(),
    ensures
        strictly_increasing(s.published()),
{
}

} // verus!

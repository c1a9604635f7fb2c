//! Leader schedule cache: maps absolute slots to the identity of the
//! validator scheduled to lead that slot.
//!
//! A periodic refresh fetches the epoch's schedule (each leader with its
//! slot indexes relative to the epoch start) and converts it to absolute
//! slots; the whole mapping is then replaced at once, so readers see either
//! the old or the new schedule.

use vstd::prelude::*;

use crate::addr::{Address, AddressSet};

verus! {

/// Leader schedule snapshot: absolute slot -> leader identity.
#[derive(Debug)]
pub struct ScheduleMap {
    entries: Vec<(u64, Address)>,
}

impl View for ScheduleMap {
    type V = Map<u64, Seq<u8>>;

    closed spec fn view(&self) -> Map<u64, Seq<u8>> {
        Map::new(
            |s: u64| exists|i: int| 0 <= i < self.entries@.len() && self.entries@[i].0 == s,
            |s: u64|
                {
                    let i = choose|i: int|
                        0 <= i < self.entries@.len() && self.entries@[i].0 == s;
                    self.entries@[i].1@
                },
        )
    }
}

impl ScheduleMap {
    /// Internal invariant: slots are pairwise distinct.
    pub closed spec fn wf(&self) -> bool {
        forall|i: int, j: int|
            0 <= i < j < self.entries@.len() ==> self.entries@[i].0 != self.entries@[j].0
    }

    /// The empty schedule.
    pub fn new() -> (r: ScheduleMap)
        ensures
            r.wf(),
            r@ =~= Map::<u64, Seq<u8>>::empty(),
    {
        let r = ScheduleMap { entries: Vec::new() };
        proof {
            assert(r@ =~= Map::<u64, Seq<u8>>::empty());
        }
        r
    }

    /// With distinct slots, the view holds exactly the entry stored at any
    /// index, under that entry's slot.
    proof fn lemma_at(c: ScheduleMap, i: int)
        requires
            c.wf(),
            0 <= i < c.entries@.len(),
        ensures
            c@.contains_key(c.entries@[i].0),
            c@[c.entries@[i].0] == c.entries@[i].1@,
    {
        let s = c.entries@[i].0;
        assert(c@.contains_key(s));
        let j = choose|j: int| 0 <= j < c.entries@.len() && c.entries@[j].0 == s;
        if j < i {
            assert(c.entries@[j].0 != c.entries@[i].0);
        } else if i < j {
            assert(c.entries@[i].0 != c.entries@[j].0);
        }
    }

    /// Assigns a leader to a slot, replacing any earlier assignment.
    pub fn assign(&mut self, slot: u64, leader: Address)
        requires
            old(self).wf(),
        ensures
            final(self).wf(),
            final(self)@ =~= old(self)@.insert(slot, leader@),
    {
        let ghost v0 = leader@;
        let mut i: usize = 0;
        while i < self.entries.len()
            invariant
                self.wf(),
                *old(self) == *self,
                leader@ == v0,
                i <= self.entries@.len(),
                forall|j: int| 0 <= j < i ==> self.entries@[j].0 != slot,
            decreases self.entries@.len() - i,
        {
            if self.entries[i].0 == slot {
                let ghost prev = *self;
                let ghost e = (slot, leader);
                self.entries.set(i, (slot, leader));
                proof {
                    let newc = *self;
                    assert(newc.entries@ =~= prev.entries@.update(i as int, e));
                    assert forall|p: int| 0 <= p < newc.entries@.len() implies
                        #[trigger] newc.entries@[p].0 == prev.entries@[p].0 by {}
                    assert(newc.wf());
                    Self::lemma_view_after_update(prev, newc, i as int, slot, v0);
                }
                return ;
            }
            i = i + 1;
        }
        let ghost prev = *self;
        let ghost e = (slot, leader);
        self.entries.push((slot, leader));
        proof {
            let newc = *self;
            assert(newc.entries@ =~= prev.entries@.push(e));
            let n = prev.entries@.len() as int;
            assert forall|p: int, q: int|
                0 <= p < q < newc.entries@.len() implies newc.entries@[p].0
                != newc.entries@[q].0 by {
                if q < n {
                    assert(prev.entries@[p].0 != prev.entries@[q].0);
                } else {
                    assert(newc.entries@[q].0 == slot);
                    assert(prev.entries@[p].0 != slot);
                }
            }
            Self::lemma_view_after_update(prev, newc, n, slot, v0);
        }
    }

    /// If `newc` agrees with `prev` except that position `i` (possibly one
    /// past the end of `prev`) now holds slot `s0` with leader `v0`, and
    /// `prev` held `s0` nowhere else, then the view gained exactly that
    /// binding.
    proof fn lemma_view_after_update(
        prev: ScheduleMap,
        newc: ScheduleMap,
        i: int,
        s0: u64,
        v0: Seq<u8>,
    )
        requires
            prev.wf(),
            newc.wf(),
            0 <= i < newc.entries@.len(),
            newc.entries@.len() == if i < prev.entries@.len() {
                prev.entries@.len()
            } else {
                prev.entries@.len() + 1
            },
            forall|p: int|
                0 <= p < newc.entries@.len() && p != i ==> newc.entries@[p]
                    == prev.entries@[p],
            newc.entries@[i].0 == s0,
            newc.entries@[i].1@ == v0,
            forall|p: int| 0 <= p < prev.entries@.len() && p != i ==> prev.entries@[p].0 != s0,
            i < prev.entries@.len() ==> prev.entries@[i].0 == s0,
        ensures
            newc@ =~= prev@.insert(s0, v0),
    {
        assert forall|s: u64| #[trigger] newc@.contains_key(s) implies prev@.insert(
            s0,
            v0,
        ).contains_key(s) by {
            let j = choose|j: int| 0 <= j < newc.entries@.len() && newc.entries@[j].0 == s;
            if j != i {
                assert(prev.entries@[j].0 == s);
            }
        }
        assert forall|s: u64| #[trigger] prev@.insert(s0, v0).contains_key(s) implies
            newc@.contains_key(s) by {
            if s == s0 {
                assert(newc.entries@[i].0 == s);
            } else {
                let j = choose|j: int| 0 <= j < prev.entries@.len() && prev.entries@[j].0 == s;
                assert(newc.entries@[j].0 == s);
            }
        }
        assert forall|s: u64| #[trigger] newc@.contains_key(s) implies newc@[s]
            == prev@.insert(s0, v0)[s] by {
            let j = choose|j: int| 0 <= j < newc.entries@.len() && newc.entries@[j].0 == s;
            Self::lemma_at(newc, j);
            if j == i {
                assert(s == s0);
            } else {
                assert(prev.entries@[j].0 == s);
                assert(s != s0);
                Self::lemma_at(prev, j);
            }
        }
    }

    /// The leader scheduled for a slot, if the schedule assigns one.
    pub fn leader_for_slot(&self, slot: u64) -> (r: Option<&Address>)
        requires
            self.wf(),
        ensures
            match r {
                Some(a) => self@.contains_key(slot) && a@ == self@[slot],
                None => !self@.contains_key(slot),
            },
    {
        let mut i: usize = 0;
        while i < self.entries.len()
            invariant
                self.wf(),
                i <= self.entries@.len(),
                forall|j: int| 0 <= j < i ==> self.entries@[j].0 != slot,
            decreases self.entries@.len() - i,
        {
            if self.entries[i].0 == slot {
                proof {
                    Self::lemma_at(*self, i as int);
                }
                return Some(&self.entries[i].1);
            }
            i = i + 1;
        }
        None
    }

    /// The set of leaders scheduled for any of the given slots; a slot the
    /// schedule does not assign contributes nothing.
    pub fn leaders_for_slots(&self, slots: &Vec<u64>) -> (r: AddressSet)
        requires
            self.wf(),
        ensures
            forall|a: Seq<u8>|
                r@.contains(a) <==> exists|i: int|
                    0 <= i < slots@.len() && self@.contains_key(#[trigger] slots@[i])
                        && self@[slots@[i]] == a,
    {
        let mut found: Vec<Address> = Vec::new();
        // for each collected leader, the slot position it came from
        let ghost mut picks: Seq<int> = Seq::empty();
        // for each processed slot position, where its leader was stored
        let ghost mut rev: Seq<Option<int>> = Seq::empty();
        let mut i: usize = 0;
        while i < slots.len()
            invariant
                self.wf(),
                i <= slots@.len(),
                picks.len() == found@.len(),
                rev.len() == i,
                forall|j: int|
                    0 <= j < found@.len() ==> 0 <= #[trigger] picks[j] < i
                        && self@.contains_key(slots@[picks[j]]) && self@[slots@[picks[j]]]
                        == found@[j]@,
                forall|k: int|
                    0 <= k < i ==> match #[trigger] rev[k] {
                        Some(j) => 0 <= j < found@.len() && self@.contains_key(slots@[k])
                            && found@[j]@ == self@[slots@[k]],
                        None => !self@.contains_key(slots@[k]),
                    },
            decreases slots@.len() - i,
        {
            let ghost prevfound = found@;
            match self.leader_for_slot(slots[i]) {
                Some(a) => {
                    found.push(a.clone());
                    proof {
                        picks = picks.push(i as int);
                        rev = rev.push(Some(prevfound.len() as int));
                        assert(forall|j: int|
                            0 <= j < prevfound.len() ==> #[trigger] found@[j] == prevfound[j]);
                        assert(found@[prevfound.len() as int]@ == self@[slots@[i as int]]);
                    }
                },
                None => {
                    proof {
                        rev = rev.push(None);
                    }
                },
            }
            i = i + 1;
        }
        let r = AddressSet::from_items(found);
        proof {
            assert forall|a: Seq<u8>| #[trigger] r@.contains(a) implies exists|k: int|
                0 <= k < slots@.len() && self@.contains_key(#[trigger] slots@[k])
                    && self@[slots@[k]] == a by {
                let j = choose|j: int| 0 <= j < found@.len() && found@[j]@ == a;
                let k = picks[j];
                assert(0 <= k < slots@.len() && self@.contains_key(slots@[k])
                    && self@[slots@[k]] == a);
            }
            assert forall|a: Seq<u8>|
                (exists|k: int|
                    0 <= k < slots@.len() && self@.contains_key(#[trigger] slots@[k])
                        && self@[slots@[k]] == a) implies r@.contains(a) by {
                let k = choose|k: int|
                    0 <= k < slots@.len() && self@.contains_key(#[trigger] slots@[k])
                        && self@[slots@[k]] == a;
                match rev[k] {
                    Some(j) => {
                        assert(found@[j]@ == a);
                        assert(r@.contains(a));
                    },
                    None => {
                        assert(false);
                    },
                }
            }
        }
        r
    }

    /// True iff the schedule assigns some slot to this validator.
    pub fn is_scheduled_validator(&self, pubkey: &Address) -> (r: bool)
        requires
            self.wf(),
        ensures
            r == exists|s: u64| #[trigger] self@.contains_key(s) && self@[s] == pubkey@,
    {
        let mut i: usize = 0;
        while i < self.entries.len()
            invariant
                self.wf(),
                i <= self.entries@.len(),
                forall|j: int| 0 <= j < i ==> self.entries@[j].1@ != pubkey@,
            decreases self.entries@.len() - i,
        {
            if self.entries[i].1.same_as(pubkey) {
                proof {
                    Self::lemma_at(*self, i as int);
                }
                return true;
            }
            i = i + 1;
        }
        proof {
            if exists|s: u64| #[trigger] self@.contains_key(s) && self@[s] == pubkey@ {
                let s = choose|s: u64| #[trigger] self@.contains_key(s) && self@[s] == pubkey@;
                let j = choose|j: int| 0 <= j < self.entries@.len() && self.entries@[j].0 == s;
                Self::lemma_at(*self, j);
                assert(self.entries@[j].1@ == pubkey@);
            }
        }
        false
    }
}

/// One line of a fetched epoch schedule: a leader and the slots it leads,
/// as indexes relative to the epoch start.
#[derive(Debug)]
pub struct LeaderScheduleEntry {
    /// The scheduled validator.
    pub leader: Address,
    /// Slot indexes relative to the start of the epoch.
    pub slots: Vec<u64>,
}

/// Converts a fetched epoch schedule to a snapshot keyed by absolute slot:
/// each relative index is shifted by `epoch_offset`, the first absolute
/// slot of the epoch.
pub fn build_absolute_schedule(entries: &Vec<LeaderScheduleEntry>, epoch_offset: u64) -> (r:
    ScheduleMap)
    requires
        forall|i: int, j: int|
            0 <= i < entries@.len() && 0 <= j < entries@[i].slots@.len()
                ==> entries@[i].slots@[j] + epoch_offset <= u64::MAX,
    ensures
        r.wf(),
        forall|i: int, j: int|
            0 <= i < entries@.len() && 0 <= j < entries@[i].slots@.len() ==> r@.contains_key(
                (entries@[i].slots@[j] + epoch_offset) as u64,
            ),
        forall|s: u64|
            #[trigger] r@.contains_key(s) ==> exists|i: int, j: int|
                0 <= i < entries@.len() && 0 <= j < entries@[i].slots@.len()
                    && entries@[i].slots@[j] + epoch_offset == s && r@[s] == entries@[i].leader@,
{
    let mut r = ScheduleMap::new();
    let mut i: usize = 0;
    while i < entries.len()
        invariant
            r.wf(),
            i <= entries@.len(),
            forall|i2: int, j2: int|
                0 <= i2 < entries@.len() && 0 <= j2 < entries@[i2].slots@.len()
                    ==> entries@[i2].slots@[j2] + epoch_offset <= u64::MAX,
            forall|i2: int, j2: int|
                0 <= i2 < i && 0 <= j2 < entries@[i2].slots@.len() ==> r@.contains_key(
                    (entries@[i2].slots@[j2] + epoch_offset) as u64,
                ),
            forall|s: u64|
                #[trigger] r@.contains_key(s) ==> exists|i2: int, j2: int|
                    0 <= i2 < i && 0 <= j2 < entries@[i2].slots@.len()
                        && entries@[i2].slots@[j2] + epoch_offset == s && r@[s]
                        == entries@[i2].leader@,
        decreases entries@.len() - i,
    {
        let entry = &entries[i];
        let mut j: usize = 0;
        while j < entry.slots.len()
            invariant
                r.wf(),
                i < entries@.len(),
                entry == &entries@[i as int],
                j <= entry.slots@.len(),
                forall|i2: int, j2: int|
                    0 <= i2 < entries@.len() && 0 <= j2 < entries@[i2].slots@.len()
                        ==> entries@[i2].slots@[j2] + epoch_offset <= u64::MAX,
                forall|i2: int, j2: int|
                    0 <= i2 < i && 0 <= j2 < entries@[i2].slots@.len() ==> r@.contains_key(
                        (entries@[i2].slots@[j2] + epoch_offset) as u64,
                    ),
                forall|j2: int|
                    0 <= j2 < j ==> r@.contains_key(
                        (entries@[i as int].slots@[j2] + epoch_offset) as u64,
                    ),
                forall|s: u64|
                    #[trigger] r@.contains_key(s) ==> exists|i2: int, j2: int|
                        (0 <= i2 < i || (i2 == i && 0 <= j2 < j)) && 0 <= i2 < entries@.len()
                            && 0 <= j2 < entries@[i2].slots@.len()
                            && entries@[i2].slots@[j2] + epoch_offset == s && r@[s]
                            == entries@[i2].leader@,
            decreases entry.slots@.len() - j,
    {
            let abs = entry.slots[j] + epoch_offset;
            r.assign(abs, entry.leader.clone());
            j = j + 1;
        }
        i = i + 1;
    }
    r
}

/// The first absolute slot of the current epoch, from the epoch info's
/// absolute slot and its index within the epoch.
pub fn epoch_offset(absolute_slot: u64, slot_index: u64) -> (r: u64)
    requires
        slot_index <= absolute_slot,
    ensures
        r == absolute_slot - slot_index,
{
    absolute_slot - slot_index
}

} // verus!

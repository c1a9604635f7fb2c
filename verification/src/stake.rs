//! Validator stake map.
//!
//! A periodic refresh fetches each validator's activated stake; operator
//! overrides replace the fetched amounts for the validators they name.
//! The combined map drives connection limits and prioritisation.

use vstd::prelude::*;

use crate::addr::Address;

verus! {

/// Stake per validator identity.
pub struct StakeMap {
    entries: Vec<(Address, u64)>,
}

impl View for StakeMap {
    type V = Map<Seq<u8>, u64>;

    closed spec fn view(&self) -> Map<Seq<u8>, u64> {
        Map::new(
            |a: Seq<u8>|
                exists|i: int| 0 <= i < self.entries@.len() && self.entries@[i].0@ == a,
            |a: Seq<u8>|
                {
                    let i = choose|i: int|
                        0 <= i < self.entries@.len() && self.entries@[i].0@ == a;
                    self.entries@[i].1
                },
        )
    }
}

/// The map described by a list of stake entries, later entries replacing
/// earlier ones with the same identity.
pub open spec fn stake_entries_map(s: Seq<(Address, u64)>) -> Map<Seq<u8>, u64>
    decreases s.len(),
{
    if s.len() == 0 {
        Map::empty()
    } else {
        stake_entries_map(s.drop_last()).insert(s.last().0@, s.last().1)
    }
}

impl StakeMap {
    /// Internal invariant: identities are pairwise distinct.
    pub closed spec fn wf(&self) -> bool {
        forall|i: int, j: int|
            0 <= i < j < self.entries@.len() ==> self.entries@[i].0@ != self.entries@[j].0@
    }

    /// The empty map.
    pub fn new() -> (r: StakeMap)
        ensures
            r.wf(),
            r@ =~= Map::<Seq<u8>, u64>::empty(),
    {
        let r = StakeMap { entries: Vec::new() };
        proof {
            assert(r@ =~= Map::<Seq<u8>, u64>::empty());
        }
        r
    }

    /// With distinct identities, the view holds exactly the entry stored
    /// at any index.
    proof fn lemma_at(c: StakeMap, i: int)
        requires
            c.wf(),
            0 <= i < c.entries@.len(),
        ensures
            c@.contains_key(c.entries@[i].0@),
            c@[c.entries@[i].0@] == c.entries@[i].1,
    {
        let k = c.entries@[i].0@;
        assert(c@.contains_key(k));
        let j = choose|j: int| 0 <= j < c.entries@.len() && c.entries@[j].0@ == k;
        if j < i {
            assert(c.entries@[j].0@ != c.entries@[i].0@);
        } else if i < j {
            assert(c.entries@[i].0@ != c.entries@[j].0@);
        }
    }

    /// Sets one validator's stake, replacing any amount it had.
    pub fn upsert(&mut self, validator: Address, stake: u64)
        requires
            old(self).wf(),
        ensures
            final(self).wf(),
            final(self)@ =~= old(self)@.insert(validator@, stake),
    {
        let ghost k0 = validator@;
        let mut i: usize = 0;
        while i < self.entries.len()
            invariant
                self.wf(),
                *old(self) == *self,
                validator@ == k0,
                i <= self.entries@.len(),
                forall|j: int| 0 <= j < i ==> self.entries@[j].0@ != validator@,
            decreases self.entries@.len() - i,
        {
            if self.entries[i].0.same_as(&validator) {
                let ghost prev = *self;
                let ghost e = (validator, stake);
                self.entries.set(i, (validator, stake));
                proof {
                    let newc = *self;
                    assert(newc.entries@ =~= prev.entries@.update(i as int, e));
                    assert forall|p: int| 0 <= p < newc.entries@.len() implies
                        #[trigger] newc.entries@[p].0@ == prev.entries@[p].0@ by {}
                    assert(newc.wf());
                    Self::lemma_view_after_update(prev, newc, i as int, k0, stake);
                }
                return ;
            }
            i = i + 1;
        }
        let ghost prev = *self;
        let ghost e = (validator, stake);
        self.entries.push((validator, stake));
        proof {
            let newc = *self;
            assert(newc.entries@ =~= prev.entries@.push(e));
            let n = prev.entries@.len() as int;
            assert forall|p: int, q: int|
                0 <= p < q < newc.entries@.len() implies newc.entries@[p].0@
                != newc.entries@[q].0@ by {
                if q < n {
                    assert(prev.entries@[p].0@ != prev.entries@[q].0@);
                } else {
                    assert(newc.entries@[q].0@ == k0);
                    assert(prev.entries@[p].0@ != k0);
                }
            }
            Self::lemma_view_after_update(prev, newc, n, k0, stake);
        }
    }

    /// If `newc` agrees with `prev` except that position `i` (possibly
    /// one past the end of `prev`) now binds `k0` to `v0`, and `prev`
    /// held `k0` nowhere else, the view gained exactly that binding.
    proof fn lemma_view_after_update(prev: StakeMap, newc: StakeMap, i: int, k0: Seq<u8>, v0: u64)
        requires
            prev.wf(),
            newc.wf(),
            0 <= i < newc.entries@.len(),
            newc.entries@.len() == if i < prev.entries@.len() {
                prev.entries@.len()
            } else {
                prev.entries@.len() + 1
            },
            forall|p: int|
                0 <= p < newc.entries@.len() && p != i ==> newc.entries@[p]
                    == prev.entries@[p],
            newc.entries@[i].0@ == k0,
            newc.entries@[i].1 == v0,
            forall|p: int| 0 <= p < prev.entries@.len() && p != i ==> prev.entries@[p].0@ != k0,
            i < prev.entries@.len() ==> prev.entries@[i].0@ == k0,
        ensures
            newc@ =~= prev@.insert(k0, v0),
    {
        assert forall|k: Seq<u8>| #[trigger] newc@.contains_key(k) implies prev@.insert(
            k0,
            v0,
        ).contains_key(k) by {
            let j = choose|j: int| 0 <= j < newc.entries@.len() && newc.entries@[j].0@ == k;
            if j != i {
                assert(prev.entries@[j].0@ == k);
            }
        }
        assert forall|k: Seq<u8>| #[trigger] prev@.insert(k0, v0).contains_key(k) implies
            newc@.contains_key(k) by {
            if k == k0 {
                assert(newc.entries@[i].0@ == k);
            } else {
                let j = choose|j: int| 0 <= j < prev.entries@.len() && prev.entries@[j].0@ == k;
                assert(newc.entries@[j].0@ == k);
            }
        }
        assert forall|k: Seq<u8>| #[trigger] newc@.contains_key(k) implies newc@[k]
            == prev@.insert(k0, v0)[k] by {
            let j = choose|j: int| 0 <= j < newc.entries@.len() && newc.entries@[j].0@ == k;
            Self::lemma_at(newc, j);
            if j == i {
                assert(k == k0);
            } else {
                assert(prev.entries@[j].0@ == k);
                assert(k != k0);
                Self::lemma_at(prev, j);
            }
        }
    }

    /// One validator's stake, if it has any.
    pub fn stake_of(&self, validator: &Address) -> (r: Option<u64>)
        requires
            self.wf(),
        ensures
            match r {
                Some(v) => self@.contains_key(validator@) && v == self@[validator@],
                None => !self@.contains_key(validator@),
            },
    {
        let mut i: usize = 0;
        while i < self.entries.len()
            invariant
                self.wf(),
                i <= self.entries@.len(),
                forall|j: int| 0 <= j < i ==> self.entries@[j].0@ != validator@,
            decreases self.entries@.len() - i,
        {
            if self.entries[i].0.same_as(validator) {
                proof {
                    Self::lemma_at(*self, i as int);
                }
                return Some(self.entries[i].1);
            }
            i = i + 1;
        }
        None
    }
}

/// Combines one refresh of fetched stakes with the operator overrides:
/// the overrides replace the fetched amount for every validator they
/// name.
pub fn try_refresh_pk_to_stake(fetched: Vec<(Address, u64)>, overrides: &Vec<(Address, u64)>) -> (r:
    StakeMap)
    ensures
        r.wf(),
        r@ == stake_entries_map(fetched@ + overrides@),
{
    let mut r = StakeMap::new();
    let mut fetched = fetched;
    let ghost allf = fetched@;
    let nf = fetched.len();
    let mut i: usize = 0;
    proof {
        assert(allf.take(0) =~= Seq::<(Address, u64)>::empty());
    }
    while i < nf
        invariant
            r.wf(),
            nf == allf.len(),
            i <= nf,
            fetched@ == allf.skip(i as int),
            r@ == stake_entries_map(allf.take(i as int)),
        decreases nf - i,
    {
        let (a, st) = fetched.remove(0);
        proof {
            assert((a, st) == allf[i as int]);
            assert(fetched@ =~= allf.skip(i + 1));
            assert(allf.take(i + 1).drop_last() =~= allf.take(i as int));
            assert(allf.take(i + 1).last() == allf[i as int]);
        }
        r.upsert(a, st);
        i = i + 1;
    }
    proof {
        assert(allf.take(nf as int) =~= allf);
    }
    let no = overrides.len();
    let mut j: usize = 0;
    proof {
        assert((allf + overrides@.take(0)) =~= allf);
    }
    while j < no
        invariant
            r.wf(),
            nf == allf.len(),
            no == overrides@.len(),
            j <= no,
            r@ == stake_entries_map(allf + overrides@.take(j as int)),
        decreases no - j,
    {
        let a = overrides[j].0.clone();
        let st = overrides[j].1;
        proof {
            assert((allf + overrides@.take(j + 1)).drop_last() =~= allf + overrides@.take(
                j as int,
            ));
            assert((allf + overrides@.take(j + 1)).last() == overrides@[j as int]);
        }
        r.upsert(a, st);
        proof {
            assert(r@ =~= stake_entries_map(allf + overrides@.take(j as int)).insert(
                overrides@[j as int].0@,
                overrides@[j as int].1,
            ));
        }
        j = j + 1;
    }
    proof {
        assert((allf + overrides@.take(no as int)) =~= allf + overrides@);
    }
    r
}

} // verus!

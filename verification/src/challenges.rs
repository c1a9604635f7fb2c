//! Authentication challenge store.
//!
//! At most one challenge is active per client IP (an IPv4 address, held as
//! its 32-bit value).  Expiry order is kept in an outside priority queue so
//! the sweeper can pop expired challenges from the front; the challenge
//! data itself lives in a verified association list, and an invariant ties
//! the two together.

use vstd::prelude::*;

use crate::addr::Address;

verus! {

/// Capacity of the challenge store; more concurrent challenges than this
/// are refused.
pub const AUTH_CHALLENGES_CAPACITY: usize = 100000;

/// The entries of the expiry queue: client IP to expiry time.
pub uninterp spec fn expiry_entries(q: ExpiryQueue) -> Map<u32, i64>;

/// Priority queue of challenge expiry times keyed by client IP, soonest
/// expiry first.  Holds the outside keyed priority queue; everything the
/// store needs from it goes through the trusted wrappers below.
#[verifier::external_body]
pub struct ExpiryQueue {
    inner: keyed_priority_queue::KeyedPriorityQueue<u32, std::cmp::Reverse<i64>>,
}

impl View for ExpiryQueue {
    type V = Map<u32, i64>;

    open spec fn view(&self) -> Map<u32, i64> {
        expiry_entries(*self)
    }
}

impl ExpiryQueue {
    /// Relies on `KeyedPriorityQueue::new`: an empty queue.
    #[verifier::external_body]
    pub fn new() -> (r: ExpiryQueue)
        ensures
            r@ =~= Map::empty(),
    {
        ExpiryQueue { inner: keyed_priority_queue::KeyedPriorityQueue::new() }
    }

    /// Relies on `KeyedPriorityQueue::push`: inserts the key with the
    /// given priority, replacing the priority of an existing key.
    #[verifier::external_body]
    pub fn push(&mut self, ip: u32, expires_at: i64)
        ensures
            expiry_entries(*final(self)) == expiry_entries(*old(self)).insert(ip, expires_at),
    {
        let _ = self.inner.push(ip, std::cmp::Reverse(expires_at));
    }

    /// Relies on `KeyedPriorityQueue::get_priority`: the priority stored
    /// under a key, if the key is present.
    #[verifier::external_body]
    pub fn get_priority(&self, ip: u32) -> (r: Option<i64>)
        ensures
            match r {
                Some(e) => expiry_entries(*self).contains_key(ip) && expiry_entries(*self)[ip]
                    == e,
                None => !expiry_entries(*self).contains_key(ip),
            },
    {
        self.inner.get_priority(&ip).map(|p| p.0)
    }

    /// Relies on `KeyedPriorityQueue::remove`: removes a key and reports
    /// whether it was present.
    #[verifier::external_body]
    pub fn remove(&mut self, ip: u32) -> (removed: bool)
        ensures
            expiry_entries(*final(self)) == expiry_entries(*old(self)).remove(ip),
            removed == expiry_entries(*old(self)).contains_key(ip),
    {
        self.inner.remove(&ip).is_some()
    }

    /// Relies on `KeyedPriorityQueue::peek`: the entry with the maximal
    /// priority, which under the reversed ordering is the soonest expiry;
    /// among equal expiries, any one of them.
    #[verifier::external_body]
    pub fn peek(&self) -> (r: Option<(u32, i64)>)
        ensures
            match r {
                Some(e) => expiry_entries(*self).contains_key(e.0) && expiry_entries(*self)[e.0]
                    == e.1 && forall|k: u32|
                    #[trigger] expiry_entries(*self).contains_key(k) ==> e.1 <= expiry_entries(*self)[k],
                None => expiry_entries(*self) =~= Map::<u32, i64>::empty(),
            },
    {
        self.inner.peek().map(|(k, p)| (*k, p.0))
    }
}

/// One issued challenge: the random string the client must sign, the
/// claims of the tokens that a successful exchange will mint, and the
/// challenge's own expiry.
pub struct AuthChallenge {
    /// The random string the client signs.
    pub challenge: String,
    /// Claims of the short-lived access token.
    pub access_claims: Claims,
    /// Claims of the long-lived refresh token.
    pub refresh_claims: Claims,
    /// When the challenge itself lapses (unix seconds).
    pub expires_at_utc: i64,
}

/// The claims embedded in a signed token.
pub struct Claims {
    /// The client's IPv4 address.
    pub client_ip: u32,
    /// The client's identity.
    pub client_pubkey: Address,
    /// When the token lapses (unix seconds).
    pub expires_at_utc: i64,
}

/// Mathematical view of token claims.
pub struct ClaimsView {
    /// The client's IPv4 address.
    pub client_ip: u32,
    /// The client's identity.
    pub client_pubkey: Seq<u8>,
    /// When the token lapses (unix seconds).
    pub expires_at_utc: i64,
}

impl View for Claims {
    type V = ClaimsView;

    open spec fn view(&self) -> ClaimsView {
        ClaimsView {
            client_ip: self.client_ip,
            client_pubkey: self.client_pubkey@,
            expires_at_utc: self.expires_at_utc,
        }
    }
}

impl Claims {
    /// A token is expired once its embedded expiry is not in the future.
    pub open spec fn spec_expired(&self, now: i64) -> bool {
        self.expires_at_utc <= now
    }

    /// A token is expired once its embedded expiry is not in the future.
    pub fn is_expired(&self, now: i64) -> (r: bool)
        ensures
            r == self.spec_expired(now),
    {
        self.expires_at_utc <= now
    }
}

/// Mathematical view of a stored challenge.
pub struct AuthChallengeView {
    /// The random string the client signs.
    pub challenge: Seq<char>,
    /// Claims of the access token to be minted.
    pub access_claims: ClaimsView,
    /// Claims of the refresh token to be minted.
    pub refresh_claims: ClaimsView,
    /// When the challenge lapses (unix seconds).
    pub expires_at_utc: i64,
}

impl View for AuthChallenge {
    type V = AuthChallengeView;

    open spec fn view(&self) -> AuthChallengeView {
        AuthChallengeView {
            challenge: self.challenge@,
            access_claims: self.access_claims@,
            refresh_claims: self.refresh_claims@,
            expires_at_utc: self.expires_at_utc,
        }
    }
}

impl AuthChallenge {
    /// A challenge is expired once its expiry is not in the future.
    pub open spec fn spec_expired(&self, now: i64) -> bool {
        self.expires_at_utc <= now
    }

    /// A challenge is expired once its expiry is not in the future.
    pub fn is_expired(&self, now: i64) -> (r: bool)
        ensures
            r == self.spec_expired(now),
    {
        self.expires_at_utc <= now
    }
}

/// The challenge store: at most one active challenge per client IP, with
/// expiry-ordered sweeping.
pub struct AuthChallenges {
    expiry: ExpiryQueue,
    entries: Vec<(u32, AuthChallenge)>,
}

impl AuthChallenges {
    /// Internal invariant: IPs are pairwise distinct, and the expiry queue
    /// holds exactly the stored IPs with their challenges' expiry times.
    pub closed spec fn wf(&self) -> bool {
        &&& forall|i: int, j: int|
            0 <= i < j < self.entries@.len() ==> self.entries@[i].0 != self.entries@[j].0
        &&& forall|k: u32|
            #[trigger] expiry_entries(self.expiry).contains_key(k) <==> exists|i: int|
                0 <= i < self.entries@.len() && (#[trigger] self.entries@[i]).0 == k
        &&& forall|i: int|
            0 <= i < self.entries@.len() ==> expiry_entries(self.expiry)[
                (#[trigger] self.entries@[i]).0] == self.entries@[i].1.expires_at_utc
    }

    /// Whether an IP has a stored challenge.
    pub closed spec fn contains_ip(&self, ip: u32) -> bool {
        exists|i: int| 0 <= i < self.entries@.len() && (#[trigger] self.entries@[i]).0 == ip
    }

    /// The challenge stored for an IP.
    pub closed spec fn challenge_of(&self, ip: u32) -> AuthChallengeView {
        let i = choose|i: int|
            0 <= i < self.entries@.len() && (#[trigger] self.entries@[i]).0 == ip;
        self.entries@[i].1@
    }

    /// Number of stored challenges.
    pub closed spec fn spec_len(&self) -> nat {
        self.entries@.len()
    }

    /// The empty store.
    pub fn new() -> (r: AuthChallenges)
        ensures
            r.wf(),
            r.spec_len() == 0,
            forall|ip: u32| !r.contains_ip(ip),
    {
        AuthChallenges { expiry: ExpiryQueue::new(), entries: Vec::new() }
    }

    /// Number of stored challenges.
    pub fn len(&self) -> (r: usize)
        ensures
            r == self.spec_len(),
    {
        self.entries.len()
    }

    /// With distinct IPs, any stored entry is what the store reports.
    proof fn lemma_at(m: &AuthChallenges, i: int)
        requires
            m.wf(),
            0 <= i < m.entries@.len(),
        ensures
            m.contains_ip(m.entries@[i].0),
            m.challenge_of(m.entries@[i].0) == m.entries@[i].1@,
    {
        let ip = m.entries@[i].0;
        let j = choose|j: int|
            0 <= j < m.entries@.len() && (#[trigger] m.entries@[j]).0 == ip;
        if j < i {
            assert(m.entries@[j].0 != m.entries@[i].0);
        } else if i < j {
            assert(m.entries@[i].0 != m.entries@[j].0);
        }
    }

    /// Stores a challenge for an IP, replacing any challenge that IP
    /// already had.
    pub fn push(&mut self, ip: u32, challenge: AuthChallenge)
        requires
            old(self).wf(),
        ensures
            final(self).wf(),
            final(self).contains_ip(ip),
            final(self).challenge_of(ip) == challenge@,
            forall|k: u32| k != ip ==> final(self).contains_ip(k) == old(self).contains_ip(k),
            forall|k: u32|
                k != ip && old(self).contains_ip(k) ==> final(self).challenge_of(k) == old(
                    self,
                ).challenge_of(k),
            final(self).spec_len() == if old(self).contains_ip(ip) {
                old(self).spec_len()
            } else {
                old(self).spec_len() + 1
            },
    {
        let ghost cv = challenge@;
        let expires = challenge.expires_at_utc;
        self.expiry.push(ip, expires);
        let mut i: usize = 0;
        while i < self.entries.len()
            invariant
                old(self).wf(),
                self.entries@ == old(self).entries@,
                expiry_entries(self.expiry) == expiry_entries(old(self).expiry).insert(
                    ip,
                    expires,
                ),
                challenge@ == cv,
                challenge.expires_at_utc == expires,
                cv.expires_at_utc == expires,
                i <= self.entries@.len(),
                forall|j: int| 0 <= j < i ==> self.entries@[j].0 != ip,
            decreases self.entries@.len() - i,
        {
            if self.entries[i].0 == ip {
                let ghost prev = self.entries@;
                let ghost e = (ip, challenge);
                self.entries.set(i, (ip, challenge));
                proof {
                    assert(self.entries@ =~= prev.update(i as int, e));
                    Self::lemma_push_sync(old(self), self, prev, i as int, ip, cv, expires);
                }
                return ;
            }
            i = i + 1;
        }
        let ghost prev = self.entries@;
        let ghost e = (ip, challenge);
        self.entries.push((ip, challenge));
        proof {
            assert(self.entries@ =~= prev.push(e));
            Self::lemma_push_sync(old(self), self, prev, prev.len() as int, ip, cv, expires);
        }
    }

    /// After storing a challenge at one position (replacing or appending),
    /// the store invariant holds and exactly the one IP's challenge
    /// changed.
    proof fn lemma_push_sync(
        prevs: &AuthChallenges,
        news: &AuthChallenges,
        preventries: Seq<(u32, AuthChallenge)>,
        i: int,
        ip: u32,
        cv: AuthChallengeView,
        expires: i64,
    )
        requires
            prevs.wf(),
            preventries == prevs.entries@,
            expiry_entries(news.expiry) == expiry_entries(prevs.expiry).insert(ip, expires),
            0 <= i < news.entries@.len(),
            news.entries@.len() == if i < preventries.len() {
                preventries.len()
            } else {
                preventries.len() + 1
            },
            forall|p: int|
                0 <= p < news.entries@.len() && p != i ==> news.entries@[p]
                    == preventries[p],
            news.entries@[i].0 == ip,
            news.entries@[i].1@ == cv,
            news.entries@[i].1.expires_at_utc == expires,
            cv.expires_at_utc == expires,
            forall|p: int| 0 <= p < preventries.len() && p != i ==> preventries[p].0 != ip,
            i < preventries.len() ==> preventries[i].0 == ip,
        ensures
            news.wf(),
            news.contains_ip(ip),
            news.challenge_of(ip) == cv,
            forall|k: u32| k != ip ==> news.contains_ip(k) == prevs.contains_ip(k),
            forall|k: u32|
                k != ip && prevs.contains_ip(k) ==> news.challenge_of(k) == prevs.challenge_of(
                    k,
                ),
    {
        assert forall|p: int, q: int|
            0 <= p < q < news.entries@.len() implies news.entries@[p].0
            != news.entries@[q].0 by {
            if p != i && q != i {
                assert(preventries[p].0 != preventries[q].0);
            } else if p == i {
                assert(news.entries@[q] == preventries[q]);
                assert(preventries[q].0 != ip);
            } else {
                assert(news.entries@[p] == preventries[p]);
                assert(preventries[p].0 != ip);
            }
        }
        assert forall|k: u32| #[trigger] expiry_entries(news.expiry).contains_key(k) implies
            exists|p: int|
                0 <= p < news.entries@.len() && (#[trigger] news.entries@[p]).0 == k by {
            if k == ip {
                assert(news.entries@[i].0 == k);
            } else {
                let p = choose|p: int|
                    0 <= p < preventries.len() && (#[trigger] preventries[p]).0 == k;
                assert(news.entries@[p].0 == k);
            }
        }
        assert forall|p: int|
            0 <= p < news.entries@.len() implies expiry_entries(news.expiry).contains_key(
            (#[trigger] news.entries@[p]).0,
        ) && expiry_entries(news.expiry)[news.entries@[p].0]
            == news.entries@[p].1.expires_at_utc by {
            if p != i {
                assert(preventries[p].0 != ip);
                assert(prevs.contains_ip(preventries[p].0));
            }
        }
        assert(news.wf());
        Self::lemma_at(news, i);
        assert forall|k: u32| k != ip implies news.contains_ip(k) == prevs.contains_ip(k) by {
            if news.contains_ip(k) {
                let p = choose|p: int|
                    0 <= p < news.entries@.len() && (#[trigger] news.entries@[p]).0 == k;
                assert(p != i);
                assert(preventries[p].0 == k);
            }
            if prevs.contains_ip(k) {
                let p = choose|p: int|
                    0 <= p < preventries.len() && (#[trigger] preventries[p]).0 == k;
                assert(p != i);
                assert(news.entries@[p].0 == k);
            }
        }
        assert forall|k: u32| k != ip && prevs.contains_ip(k) implies news.challenge_of(k)
            == prevs.challenge_of(k) by {
            let p = choose|p: int|
                0 <= p < preventries.len() && (#[trigger] preventries[p]).0 == k;
            assert(p != i);
            Self::lemma_at(prevs, p);
            Self::lemma_at(news, p);
        }
    }

    /// The challenge stored for an IP, if any.
    pub fn get_priority(&self, ip: u32) -> (r: Option<&AuthChallenge>)
        requires
            self.wf(),
        ensures
            match r {
                Some(c) => self.contains_ip(ip) && c@ == self.challenge_of(ip),
                None => !self.contains_ip(ip),
            },
    {
        let mut i: usize = 0;
        while i < self.entries.len()
            invariant
                self.wf(),
                i <= self.entries@.len(),
                forall|j: int| 0 <= j < i ==> self.entries@[j].0 != ip,
            decreases self.entries@.len() - i,
        {
            if self.entries[i].0 == ip {
                proof {
                    Self::lemma_at(self, i as int);
                }
                return Some(&self.entries[i].1);
            }
            i = i + 1;
        }
        None
    }

    /// Removes the challenge stored for an IP, if any.
    pub fn remove(&mut self, ip: u32)
        requires
            old(self).wf(),
        ensures
            final(self).wf(),
            !final(self).contains_ip(ip),
            forall|k: u32| k != ip ==> final(self).contains_ip(k) == old(self).contains_ip(k),
            forall|k: u32|
                k != ip && old(self).contains_ip(k) ==> final(self).challenge_of(k) == old(
                    self,
                ).challenge_of(k),
            final(self).spec_len() == if old(self).contains_ip(ip) {
                (old(self).spec_len() - 1) as nat
            } else {
                old(self).spec_len()
            },
    {
        let _ = self.expiry.remove(ip);
        let mut i: usize = 0;
        while i < self.entries.len()
            invariant
                old(self).wf(),
                self.entries@ == old(self).entries@,
                expiry_entries(self.expiry) == expiry_entries(old(self).expiry).remove(ip),
                i <= self.entries@.len(),
                forall|j: int| 0 <= j < i ==> self.entries@[j].0 != ip,
            decreases self.entries@.len() - i,
        {
            if self.entries[i].0 == ip {
                let ghost prev = self.entries@;
                let _ = self.entries.remove(i);
                proof {
                    assert(self.entries@ =~= prev.remove(i as int));
                    Self::lemma_remove_sync(old(self), self, prev, i as int, ip);
                }
                return ;
            }
            i = i + 1;
        }
        proof {
            assert(!old(self).contains_ip(ip));
            assert forall|k: u32| #[trigger] expiry_entries(self.expiry).contains_key(
                k,
            ) implies exists|p: int|
                0 <= p < self.entries@.len() && (#[trigger] self.entries@[p]).0 == k by {}
            assert forall|p: int|
                0 <= p < self.entries@.len() implies expiry_entries(self.expiry)[
                (#[trigger] self.entries@[p]).0] == self.entries@[p].1.expires_at_utc by {
                assert(self.entries@[p].0 != ip);
                assert(old(self).contains_ip(self.entries@[p].0));
            }
            assert(self.wf());
        }
    }

    /// After removing the entry at one position, the invariant holds and
    /// exactly that IP disappeared.
    proof fn lemma_remove_sync(
        prevs: &AuthChallenges,
        news: &AuthChallenges,
        preventries: Seq<(u32, AuthChallenge)>,
        i: int,
        ip: u32,
    )
        requires
            prevs.wf(),
            preventries == prevs.entries@,
            expiry_entries(news.expiry) == expiry_entries(prevs.expiry).remove(ip),
            0 <= i < preventries.len(),
            preventries[i].0 == ip,
            news.entries@ == preventries.remove(i),
        ensures
            news.wf(),
            !news.contains_ip(ip),
            forall|k: u32| k != ip ==> news.contains_ip(k) == prevs.contains_ip(k),
            forall|k: u32|
                k != ip && prevs.contains_ip(k) ==> news.challenge_of(k) == prevs.challenge_of(
                    k,
                ),
            news.spec_len() == preventries.len() - 1,
    {
        assert(news.entries@.len() == preventries.len() - 1);
        assert forall|p: int| 0 <= p < news.entries@.len() implies #[trigger] news.entries@[p]
            == (if p < i {
            preventries[p]
        } else {
            preventries[p + 1]
        }) by {}
        assert forall|p: int, q: int|
            0 <= p < q < news.entries@.len() implies news.entries@[p].0
            != news.entries@[q].0 by {
            let p2 = if p < i {
                p
            } else {
                p + 1
            };
            let q2 = if q < i {
                q
            } else {
                q + 1
            };
            assert(preventries[p2].0 != preventries[q2].0);
        }
        assert forall|p: int|
            0 <= p < news.entries@.len() implies (#[trigger] news.entries@[p]).0 != ip by {
            let p2 = if p < i {
                p
            } else {
                p + 1
            };
            if p2 != i {
                assert(preventries[p2].0 != preventries[i].0 || p2 == i);
            }
        }
        assert forall|k: u32| #[trigger] expiry_entries(news.expiry).contains_key(k) implies
            exists|p: int|
                0 <= p < news.entries@.len() && (#[trigger] news.entries@[p]).0 == k by {
            assert(k != ip);
            let p = choose|p: int|
                0 <= p < preventries.len() && (#[trigger] preventries[p]).0 == k;
            assert(p != i);
            let p2 = if p < i {
                p
            } else {
                p - 1
            };
            assert(news.entries@[p2].0 == k);
        }
        assert forall|p: int|
            0 <= p < news.entries@.len() implies expiry_entries(news.expiry).contains_key(
            (#[trigger] news.entries@[p]).0,
        ) && expiry_entries(news.expiry)[news.entries@[p].0]
            == news.entries@[p].1.expires_at_utc by {
            let p2 = if p < i {
                p
            } else {
                p + 1
            };
            assert(news.entries@[p] == preventries[p2]);
            assert(prevs.contains_ip(preventries[p2].0));
            assert(news.entries@[p].0 != ip);
        }
        assert(news.wf());
        assert forall|k: u32| k != ip implies news.contains_ip(k) == prevs.contains_ip(k) by {
            if news.contains_ip(k) {
                let p = choose|p: int|
                    0 <= p < news.entries@.len() && (#[trigger] news.entries@[p]).0 == k;
                let p2 = if p < i {
                    p
                } else {
                    p + 1
                };
                assert(preventries[p2].0 == k);
            }
            if prevs.contains_ip(k) {
                let p = choose|p: int|
                    0 <= p < preventries.len() && (#[trigger] preventries[p]).0 == k;
                assert(p != i);
                let p2 = if p < i {
                    p
                } else {
                    p - 1
                };
                assert(news.entries@[p2].0 == k);
            }
        }
        assert forall|k: u32| k != ip && prevs.contains_ip(k) implies news.challenge_of(k)
            == prevs.challenge_of(k) by {
            let p = choose|p: int|
                0 <= p < preventries.len() && (#[trigger] preventries[p]).0 == k;
            assert(p != i);
            let p2 = if p < i {
                p
            } else {
                p - 1
            };
            assert(news.entries@[p2].0 == k);
            Self::lemma_at(prevs, p);
            Self::lemma_at(news, p2);
        }
    }

    /// Sweeps expired challenges: pops from the soonest-expiry end while
    /// the head has lapsed.  Afterwards exactly the unexpired challenges
    /// remain, unchanged.
    pub fn remove_all_expired(&mut self, now: i64)
        requires
            old(self).wf(),
        ensures
            final(self).wf(),
            forall|ip: u32|
                final(self).contains_ip(ip) <==> (old(self).contains_ip(ip) && old(
                    self,
                ).challenge_of(ip).expires_at_utc > now),
            forall|ip: u32|
                final(self).contains_ip(ip) ==> final(self).challenge_of(ip) == old(
                    self,
                ).challenge_of(ip),
    {
        loop
            invariant
                self.wf(),
                forall|ip: u32|
                    self.contains_ip(ip) ==> old(self).contains_ip(ip)
                        && self.challenge_of(ip) == old(self).challenge_of(ip),
                forall|ip: u32|
                    old(self).contains_ip(ip) && old(self).challenge_of(ip).expires_at_utc
                        > now ==> self.contains_ip(ip),
                forall|ip: u32|
                    old(self).contains_ip(ip) && !self.contains_ip(ip) ==> old(
                        self,
                    ).challenge_of(ip).expires_at_utc <= now,
            decreases self.spec_len(),
        {
            let head = self.expiry.peek();
            match head {
                Some((ip, expires_at)) => {
                    if expires_at <= now {
                        proof {
                            assert(self.contains_ip(ip));
                            let i = choose|i: int|
                                0 <= i < self.entries@.len() && (
                                #[trigger] self.entries@[i]).0 == ip;
                            Self::lemma_at(self, i);
                            assert(self.challenge_of(ip).expires_at_utc == expires_at);
                        }
                        self.remove(ip);
                    } else {
                        proof {
                            assert forall|ip2: u32|
                                old(self).contains_ip(ip2) && old(self).challenge_of(
                                    ip2,
                                ).expires_at_utc <= now implies !self.contains_ip(ip2) by {
                                if self.contains_ip(ip2) {
                                    let i = choose|i: int|
                                        0 <= i < self.entries@.len() && (
                                        #[trigger] self.entries@[i]).0 == ip2;
                                    Self::lemma_at(self, i);
                                    assert(expiry_entries(self.expiry).contains_key(ip2));
                                    assert(expiry_entries(self.expiry)[ip2] >= expires_at);
                                    assert(self.challenge_of(ip2).expires_at_utc > now);
                                }
                            }
                        }
                        return ;
                    }
                },
                None => {
                    proof {
                        assert forall|ip2: u32| !self.contains_ip(ip2) by {
                            if self.contains_ip(ip2) {
                                assert(expiry_entries(self.expiry).contains_key(ip2));
                            }
                        }
                    }
                    return ;
                },
            }
        }
    }
}

} // verus!

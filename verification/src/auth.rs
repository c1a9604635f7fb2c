//! Validator authentication: challenge issuance, signature verification,
//! token minting and refresh, and the per-request token check.
//!
//! A validator first asks for a challenge bound to its IP and public key,
//! then proves its identity by signing `"{pubkey_base58}-{challenge}"`
//! with its Ed25519 key; the service answers with an RSA-SHA256-signed
//! access/refresh token pair whose claims were fixed when the challenge
//! was issued.  All decisions are verified; the cryptography (random
//! challenge text, Ed25519 verification, RSA token signing) is called
//! through narrow trusted wrappers.

use vstd::prelude::*;

use jwt::SignWithKey;
use jwt::VerifyWithKey;
use rand::Rng;

use crate::addr::Address;
use crate::challenges::{
    AuthChallenge, AuthChallengeView, AuthChallenges, Claims, ClaimsView,
    AUTH_CHALLENGES_CAPACITY,
};
use crate::health::{check_health, HealthState, StatusError};
use crate::schedule::ScheduleMap;

verus! {

/// Roles a caller may claim on the challenge endpoint; only validators
/// are served.
#[derive(PartialEq, Eq, Structural, Clone, Copy, Debug)]
pub enum Role {
    /// Another relayer.
    Relayer,
    /// A bundle searcher.
    Searcher,
    /// A validator; the only role this service issues challenges to.
    Validator,
    /// A shred stream subscriber.
    ShredstreamSubscriber,
}

/// The base58 text of a byte string, a function of the bytes alone.
pub uninterp spec fn base58_of(bytes: Seq<u8>) -> Seq<char>;

/// Relies on `bs58::encode`: the base58 text of the bytes, depending on
/// the bytes alone.
#[verifier::external_body]
pub(crate) fn base58_encode(bytes: &Vec<u8>) -> (r: String)
    ensures
        r@ == base58_of(bytes@),
{
    bs58::encode(bytes.as_slice()).into_string()
}

/// Relies on rand's `Alphanumeric` distribution: a fresh random string of
/// nine alphanumeric characters.
#[verifier::external_body]
pub(crate) fn generate_challenge_token() -> (r: String)
    ensures
        r@.len() == 9,
{
    rand::thread_rng().sample_iter(&rand::distributions::Alphanumeric).take(9).map(
        char::from,
    ).collect()
}

/// Whether a byte string is a well-formed Ed25519 public key: 32 bytes
/// that decompress to a curve point; a function of the bytes alone.
pub uninterp spec fn ed25519_pubkey_wf(pubkey: Seq<u8>) -> bool;

/// Relies on `ed25519_dalek::PublicKey::from_bytes`: accepts exactly the
/// well-formed keys (anything not 32 bytes, or not a valid curve point,
/// is rejected; the source rejects wrong lengths outright).
#[verifier::external_body]
pub(crate) fn ed25519_pubkey_ok(bytes: &Vec<u8>) -> (r: bool)
    ensures
        r == (bytes@.len() == 32 && ed25519_pubkey_wf(bytes@)),
        bytes@.len() != 32 ==> r == false,
{
    ed25519_dalek::PublicKey::from_bytes(bytes.as_slice()).is_ok()
}

/// Whether the signature bytes are a valid Ed25519 signature of the
/// message by the public key; a function of the three byte strings alone.
pub uninterp spec fn ed25519_valid(pubkey: Seq<u8>, message: Seq<u8>, signature: Seq<u8>) -> bool;

/// Relies on `ed25519_dalek::PublicKey::verify`: accepts exactly a valid
/// Ed25519 signature of the message by the key; an unparseable key or
/// signature is reported as invalid.
#[verifier::external_body]
pub(crate) fn ed25519_verify(pubkey: &Vec<u8>, message: &Vec<u8>, signature: &Vec<u8>) -> (r:
    bool)
    ensures
        r == ed25519_valid(pubkey@, message@, signature@),
{
    let pk = match ed25519_dalek::PublicKey::from_bytes(pubkey.as_slice()) {
        Ok(pk) => pk,
        Err(_) => return false,
    };
    let sig = match ed25519_dalek::Signature::try_from(signature.as_slice()) {
        Ok(sig) => sig,
        Err(_) => return false,
    };
    ed25519_dalek::Verifier::verify(&pk, message.as_slice(), &sig).is_ok()
}

#[verifier::external_type_specification]
#[verifier::external_body]
#[verifier::reject_recursive_types(T)]
pub struct ExPKeyWithDigest<T>(jwt::PKeyWithDigest<T>);

#[verifier::external_type_specification]
#[verifier::external_body]
pub struct ExPrivate(openssl::pkey::Private);

#[verifier::external_type_specification]
#[verifier::external_body]
pub struct ExPublic(openssl::pkey::Public);

/// The token the service's RSA-SHA256 key signs over the claims
/// `{client_ip, client_pubkey, expires_at_utc}`, or nothing when the key
/// cannot sign (not an RSA-SHA256 key).  RS256 signing is deterministic,
/// so this is a function of the key and claims alone.
pub uninterp spec fn rsa_token_of(
    key: jwt::PKeyWithDigest<openssl::pkey::Private>,
    client_ip: u32,
    client_pubkey_b58: Seq<char>,
    expires_at_utc: i64,
) -> Option<Seq<char>>;

/// Relies on jwt's `SignWithKey` with an RSA-SHA256 key: signs the claims
/// `{client_ip, client_pubkey, expires_at_utc}` into a token string.
/// Keys of any other kind are refused here, since jwt rejects no
/// unsupported key/digest pair gracefully.
#[verifier::external_body]
pub(crate) fn sign_claims(
    key: &jwt::PKeyWithDigest<openssl::pkey::Private>,
    client_ip: u32,
    client_pubkey_b58: &String,
    expires_at_utc: i64,
) -> (r: Option<String>)
    ensures
        match r {
            Some(t) => rsa_token_of(*key, client_ip, client_pubkey_b58@, expires_at_utc)
                == Some(t@),
            None => rsa_token_of(*key, client_ip, client_pubkey_b58@, expires_at_utc)
                is None,
        },
{
    if key.key.id() != openssl::pkey::Id::RSA
        || key.digest.type_() != openssl::nid::Nid::SHA256 {
        return None;
    }
    let mut claims = std::collections::BTreeMap::new();
    claims.insert("client_ip".to_string(), format!("{}", client_ip));
    claims.insert("client_pubkey".to_string(), client_pubkey_b58.clone());
    claims.insert("expires_at_utc".to_string(), format!("{}", expires_at_utc));
    claims.sign_with_key(key).ok()
}

/// The claims `(client_ip, client_pubkey, expires_at_utc)` a token
/// carries when it verifies against the RSA public key, or nothing when
/// it does not.  RSA verification is deterministic, so this is a function
/// of the key and token text alone.
pub uninterp spec fn rsa_claims_of(
    key: jwt::PKeyWithDigest<openssl::pkey::Public>,
    token: Seq<char>,
) -> Option<(u32, Seq<char>, i64)>;

/// Relies on jwt's `VerifyWithKey` with an RSA-SHA256 public key: returns
/// the embedded claims exactly when the token's signature verifies.  Keys
/// of any other kind are refused here, since jwt rejects no unsupported
/// key/digest pair gracefully.
#[verifier::external_body]
pub(crate) fn verify_claims(
    key: &jwt::PKeyWithDigest<openssl::pkey::Public>,
    token: &String,
) -> (r: Option<(u32, String, i64)>)
    ensures
        match r {
            Some(c) => rsa_claims_of(*key, token@) == Some((c.0, c.1@, c.2)),
            None => rsa_claims_of(*key, token@) is None,
        },
{
    if key.key.id() != openssl::pkey::Id::RSA
        || key.digest.type_() != openssl::nid::Nid::SHA256 {
        return None;
    }
    let claims: std::collections::BTreeMap<String, String> = match token.as_str().verify_with_key(
        key,
    ) {
        Ok(c) => c,
        Err(_) => return None,
    };
    let ip = claims.get("client_ip")?.parse::<u32>().ok()?;
    let pk = claims.get("client_pubkey")?.clone();
    let exp = claims.get("expires_at_utc")?.parse::<i64>().ok()?;
    Some((ip, pk, exp))
}

/// Character-for-character equality of two strings.
fn str_eq(a: &str, b: &str) -> (r: bool)
    ensures
        r == (a@ == b@),
{
    broadcast use vstd::utf8::encode_utf8_decode_utf8;

    let av = a.as_bytes_vec();
    let bv = b.as_bytes_vec();
    let r = av == bv;
    proof {
        if r {
            assert(av@ =~= bv@);
            assert(vstd::utf8::decode_utf8(vstd::utf8::encode_utf8(a@)) == a@);
            assert(vstd::utf8::decode_utf8(vstd::utf8::encode_utf8(b@)) == b@);
        } else {
            if a@ == b@ {
                assert(av@ == bv@);
                assert(av@ =~= bv@);
                assert(false);
            }
        }
    }
    r
}

/// The exact text a client must sign to claim a challenge: the base58 of
/// its public key, a dash, and the challenge string.
pub open spec fn expected_challenge(pubkey: Seq<u8>, challenge: Seq<char>) -> Seq<char> {
    base58_of(pubkey).push('-') + challenge
}

/// Authorization policy deciding which validator identities may
/// authenticate.
pub trait ValidatorAuther: Sized {
    /// The policy's own well-formedness.
    spec fn wf(&self) -> bool;

    /// Which identities the policy admits.
    spec fn spec_authorized(&self, pubkey: Seq<u8>) -> bool;

    /// Decides whether an identity is admitted.
    fn is_authorized(&self, pubkey: &Address) -> (r: bool)
        requires
            self.wf(),
        ensures
            r == self.spec_authorized(pubkey@),
    ;
}

/// The two authorization policies: anyone in the leader schedule, or a
/// fixed allowlist.
pub enum ValidatorStore {
    /// Admit exactly the identities the leader schedule assigns slots to.
    LeaderSchedule(ScheduleMap),
    /// Admit exactly a fixed set of identities.
    UserDefined(crate::addr::AddressSet),
}

/// The standard authorization policy.
pub struct ValidatorAutherImpl {
    /// Where the admitted identities come from.
    pub store: ValidatorStore,
}

impl ValidatorAuther for ValidatorAutherImpl {
    open spec fn wf(&self) -> bool {
        match self.store {
            ValidatorStore::LeaderSchedule(m) => m.wf(),
            ValidatorStore::UserDefined(_) => true,
        }
    }

    open spec fn spec_authorized(&self, pubkey: Seq<u8>) -> bool {
        match self.store {
            ValidatorStore::LeaderSchedule(m) => exists|s: u64|
                #[trigger] m@.contains_key(s) && m@[s] == pubkey,
            ValidatorStore::UserDefined(set) => set@.contains(pubkey),
        }
    }

    fn is_authorized(&self, pubkey: &Address) -> (r: bool) {
        match &self.store {
            ValidatorStore::LeaderSchedule(m) => m.is_scheduled_validator(pubkey),
            ValidatorStore::UserDefined(set) => set.contains(pubkey),
        }
    }
}

/// Every check of a token exchange passes: the key is well-formed, the
/// caller's IP holds a challenge issued to exactly that key, the
/// presented text is the expected challenge text, and the 64-byte
/// signature is a valid Ed25519 signature of that text by the key.
pub open spec fn spec_exchange_accepted(
    store: AuthChallenges,
    client_ip: u32,
    client_pubkey: Seq<u8>,
    challenge: Seq<char>,
    signed_challenge: Seq<u8>,
) -> bool {
    &&& client_pubkey.len() == 32
    &&& ed25519_pubkey_wf(client_pubkey)
    &&& store.contains_ip(client_ip)
    &&& store.challenge_of(client_ip).access_claims.client_pubkey == client_pubkey
    &&& challenge == expected_challenge(
        client_pubkey,
        store.challenge_of(client_ip).challenge,
    )
    &&& signed_challenge.len() == 64
    &&& ed25519_valid(
        client_pubkey,
        vstd::utf8::encode_utf8(challenge),
        signed_challenge,
    )
}

/// A minted token pair with the absolute expiry of each token.
pub struct TokenPair {
    /// The short-lived access token.
    pub access_token: String,
    /// When the access token lapses (unix seconds).
    pub access_expires_at_utc: i64,
    /// The long-lived refresh token.
    pub refresh_token: String,
    /// When the refresh token lapses (unix seconds).
    pub refresh_expires_at_utc: i64,
}

/// The authentication service: challenge store, signing keys, token
/// lifetimes and the authorization policy.
pub struct AuthServiceImpl<V: ValidatorAuther> {
    /// Decides which identities may authenticate.
    pub validator_auther: V,
    /// Active challenges, at most one per client IP.
    pub auth_challenges: AuthChallenges,
    /// RSA private key signing minted tokens.
    pub signing_key: jwt::PKeyWithDigest<openssl::pkey::Private>,
    /// RSA public key verifying presented tokens.
    pub verifying_key: jwt::PKeyWithDigest<openssl::pkey::Public>,
    /// Lifetime of access tokens (seconds).
    pub access_token_ttl_secs: i64,
    /// Lifetime of refresh tokens (seconds).
    pub refresh_token_ttl_secs: i64,
    /// Lifetime of challenges (seconds).
    pub challenge_ttl_secs: i64,
}

impl<V: ValidatorAuther> AuthServiceImpl<V> {
    /// Structural invariant of the service.
    pub open spec fn wf(&self) -> bool {
        &&& self.auth_challenges.wf()
        &&& self.validator_auther.wf()
        &&& self.access_token_ttl_secs >= 0
        &&& self.refresh_token_ttl_secs >= 0
        &&& self.challenge_ttl_secs >= 0
    }

    /// A fresh service with an empty challenge store.
    pub fn new(
        validator_auther: V,
        signing_key: jwt::PKeyWithDigest<openssl::pkey::Private>,
        verifying_key: jwt::PKeyWithDigest<openssl::pkey::Public>,
        access_token_ttl_secs: i64,
        refresh_token_ttl_secs: i64,
        challenge_ttl_secs: i64,
    ) -> (r: AuthServiceImpl<V>)
        requires
            validator_auther.wf(),
            access_token_ttl_secs >= 0,
            refresh_token_ttl_secs >= 0,
            challenge_ttl_secs >= 0,
        ensures
            r.wf(),
            r.validator_auther == validator_auther,
            r.auth_challenges.spec_len() == 0,
            forall|ip: u32| !r.auth_challenges.contains_ip(ip),
            r.access_token_ttl_secs == access_token_ttl_secs,
            r.refresh_token_ttl_secs == refresh_token_ttl_secs,
            r.challenge_ttl_secs == challenge_ttl_secs,
    {
        AuthServiceImpl {
            validator_auther,
            auth_challenges: AuthChallenges::new(),
            signing_key,
            verifying_key,
            access_token_ttl_secs,
            refresh_token_ttl_secs,
            challenge_ttl_secs,
        }
    }

    /// Issues a challenge to a caller, or returns the one its IP already
    /// holds.  Issuance is idempotent while a challenge is unexpired:
    /// asking again returns the same challenge string and changes
    /// nothing.
    pub fn generate_auth_challenge(
        &mut self,
        health_state: HealthState,
        client_ip: u32,
        role: Role,
        pubkey: Vec<u8>,
        now: i64,
    ) -> (r: Result<String, StatusError>)
        requires
            old(self).wf(),
            now >= 0,
            now + old(self).access_token_ttl_secs <= i64::MAX,
            now + old(self).refresh_token_ttl_secs <= i64::MAX,
            now + old(self).challenge_ttl_secs <= i64::MAX,
        ensures
            final(self).wf(),
            final(self).access_token_ttl_secs == old(self).access_token_ttl_secs,
            final(self).refresh_token_ttl_secs == old(self).refresh_token_ttl_secs,
            final(self).challenge_ttl_secs == old(self).challenge_ttl_secs,
            final(self).validator_auther == old(self).validator_auther,
            ({
                let s0 = old(self).auth_challenges;
                let s1 = final(self).auth_challenges;
                if health_state != HealthState::Healthy {
                    r == Err::<String, StatusError>(StatusError::Internal) && s1 == s0
                } else if s0.spec_len() >= AUTH_CHALLENGES_CAPACITY {
                    r == Err::<String, StatusError>(StatusError::ResourceExhausted) && s1
                        == s0
                } else if s0.contains_ip(client_ip) && s0.challenge_of(
                    client_ip,
                ).expires_at_utc > now {
                    r is Ok && r->Ok_0@ == s0.challenge_of(client_ip).challenge && s1 == s0
                } else if role != Role::Validator {
                    r == Err::<String, StatusError>(StatusError::InvalidArgument) && s1 == s0
                } else if pubkey@.len() != 32 {
                    r == Err::<String, StatusError>(StatusError::InvalidArgument) && s1 == s0
                } else if !old(self).validator_auther.spec_authorized(pubkey@) {
                    r == Err::<String, StatusError>(StatusError::PermissionDenied) && s1 == s0
                } else {
                    &&& r is Ok
                    &&& r->Ok_0@.len() == 9
                    &&& s1.contains_ip(client_ip)
                    &&& s1.challenge_of(client_ip) == (AuthChallengeView {
                        challenge: r->Ok_0@,
                        access_claims: ClaimsView {
                            client_ip,
                            client_pubkey: pubkey@,
                            expires_at_utc: (now + old(self).access_token_ttl_secs) as i64,
                        },
                        refresh_claims: ClaimsView {
                            client_ip,
                            client_pubkey: pubkey@,
                            expires_at_utc: (now + old(self).refresh_token_ttl_secs) as i64,
                        },
                        expires_at_utc: (now + old(self).challenge_ttl_secs) as i64,
                    })
                    &&& forall|k: u32|
                        k != client_ip ==> s1.contains_ip(k) == s0.contains_ip(k)
                    &&& forall|k: u32|
                        k != client_ip && s0.contains_ip(k) ==> s1.challenge_of(k)
                            == s0.challenge_of(k)
                }
            }),
    {
        if check_health(health_state).is_err() {
            return Err(StatusError::Internal);
        }
        if self.auth_challenges.len() >= AUTH_CHALLENGES_CAPACITY {
            return Err(StatusError::ResourceExhausted);
        }
        let mut existing_fresh = false;
        match self.auth_challenges.get_priority(client_ip) {
            Some(c) => {
                if !c.is_expired(now) {
                    existing_fresh = true;
                }
            },
            None => {},
        }
        if existing_fresh {
            let c = match self.auth_challenges.get_priority(client_ip) {
                Some(c) => c,
                None => {
                    return Err(StatusError::Internal);
                },
            };
            return Ok(c.challenge.as_str().to_owned());
        }
        if role != Role::Validator {
            return Err(StatusError::InvalidArgument);
        }
        let pubkey_addr = match Address::from_bytes(pubkey) {
            Some(a) => a,
            None => {
                return Err(StatusError::InvalidArgument);
            },
        };
        if !self.validator_auther.is_authorized(&pubkey_addr) {
            return Err(StatusError::PermissionDenied);
        }
        let challenge = generate_challenge_token();
        let returned = challenge.as_str().to_owned();
        let access_pk = pubkey_addr.clone();
        let refresh_pk = pubkey_addr;
        self.auth_challenges.push(
            client_ip,
            AuthChallenge {
                challenge,
                access_claims: Claims {
                    client_ip,
                    client_pubkey: access_pk,
                    expires_at_utc: now + self.access_token_ttl_secs,
                },
                refresh_claims: Claims {
                    client_ip,
                    client_pubkey: refresh_pk,
                    expires_at_utc: now + self.refresh_token_ttl_secs,
                },
                expires_at_utc: now + self.challenge_ttl_secs,
            },
        );
        Ok(returned)
    }

    /// The deterministic checks of a token exchange: the caller's IP must
    /// hold a challenge, the presented public key must be the one the
    /// challenge was issued to, the presented text must be exactly
    /// `"{pubkey_base58}-{challenge}"`, and the signature must be 64
    /// bytes.
    pub fn validate_token_request(
        store: &AuthChallenges,
        client_ip: u32,
        client_pubkey: &Address,
        challenge: &String,
        signed_challenge_len: usize,
    ) -> (r: Result<(), StatusError>)
        requires
            store.wf(),
        ensures
            ({
                if !store.contains_ip(client_ip) {
                    r == Err::<(), StatusError>(StatusError::PermissionDenied)
                } else if store.challenge_of(client_ip).access_claims.client_pubkey
                    != client_pubkey@ {
                    r == Err::<(), StatusError>(StatusError::PermissionDenied)
                } else if challenge@ != expected_challenge(
                    client_pubkey@,
                    store.challenge_of(client_ip).challenge,
                ) {
                    r == Err::<(), StatusError>(StatusError::InvalidArgument)
                } else if signed_challenge_len != 64 {
                    r == Err::<(), StatusError>(StatusError::InvalidArgument)
                } else {
                    r is Ok
                }
            }),
    {
        let stored = match store.get_priority(client_ip) {
            Some(c) => c,
            None => {
                return Err(StatusError::PermissionDenied);
            },
        };
        if !stored.access_claims.client_pubkey.same_as(client_pubkey) {
            return Err(StatusError::PermissionDenied);
        }
        let mut expected = base58_encode(client_pubkey.as_bytes());
        expected.append("-");
        expected.append(stored.challenge.as_str());
        proof {
            reveal_strlit("-");
            assert("-"@ =~= seq!['-']);
            assert(expected@ =~= expected_challenge(
                client_pubkey@,
                store.challenge_of(client_ip).challenge,
            ));
        }
        if !str_eq(expected.as_str(), challenge.as_str()) {
            return Err(StatusError::InvalidArgument);
        }
        if signed_challenge_len != 64 {
            return Err(StatusError::InvalidArgument);
        }
        Ok(())
    }

    /// Exchanges a signed challenge for a token pair.  The claims of both
    /// tokens were fixed at challenge issuance; on success the challenge
    /// is consumed.  Every error path leaves the store unchanged.
    pub fn generate_auth_tokens(
        &mut self,
        health_state: HealthState,
        client_ip: u32,
        client_pubkey: Vec<u8>,
        challenge: String,
        signed_challenge: Vec<u8>,
    ) -> (r: Result<TokenPair, StatusError>)
        requires
            old(self).wf(),
        ensures
            final(self).wf(),
            final(self).access_token_ttl_secs == old(self).access_token_ttl_secs,
            final(self).refresh_token_ttl_secs == old(self).refresh_token_ttl_secs,
            final(self).challenge_ttl_secs == old(self).challenge_ttl_secs,
            final(self).validator_auther == old(self).validator_auther,
            final(self).signing_key == old(self).signing_key,
            final(self).verifying_key == old(self).verifying_key,
            r is Err ==> final(self).auth_challenges == old(self).auth_challenges,
            health_state != HealthState::Healthy ==> r is Err && r->Err_0
                == StatusError::Internal,
            health_state == HealthState::Healthy && !(client_pubkey@.len() == 32
                && ed25519_pubkey_wf(client_pubkey@)) ==> r is Err && r->Err_0
                == StatusError::InvalidArgument,
            health_state == HealthState::Healthy && client_pubkey@.len() == 32
                && ed25519_pubkey_wf(client_pubkey@) && !old(
                self,
            ).auth_challenges.contains_ip(client_ip) ==> r is Err && r->Err_0
                == StatusError::PermissionDenied,
            health_state == HealthState::Healthy && client_pubkey@.len() == 32
                && ed25519_pubkey_wf(client_pubkey@) && old(self).auth_challenges.contains_ip(
                client_ip,
            ) && old(self).auth_challenges.challenge_of(
                client_ip,
            ).access_claims.client_pubkey != client_pubkey@ ==> r is Err && r->Err_0
                == StatusError::PermissionDenied,
            health_state == HealthState::Healthy && client_pubkey@.len() == 32
                && ed25519_pubkey_wf(client_pubkey@) && old(self).auth_challenges.contains_ip(
                client_ip,
            ) && old(self).auth_challenges.challenge_of(
                client_ip,
            ).access_claims.client_pubkey == client_pubkey@ && !spec_exchange_accepted(
                old(self).auth_challenges,
                client_ip,
                client_pubkey@,
                challenge@,
                signed_challenge@,
            ) ==> r is Err && r->Err_0 == StatusError::InvalidArgument,
            health_state == HealthState::Healthy && spec_exchange_accepted(
                old(self).auth_challenges,
                client_ip,
                client_pubkey@,
                challenge@,
                signed_challenge@,
            ) ==> ({
                let c = old(self).auth_challenges.challenge_of(client_ip);
                let b58 = base58_of(c.access_claims.client_pubkey);
                let access_tok = rsa_token_of(
                    old(self).signing_key,
                    client_ip,
                    b58,
                    c.access_claims.expires_at_utc,
                );
                let refresh_tok = rsa_token_of(
                    old(self).signing_key,
                    client_ip,
                    b58,
                    c.refresh_claims.expires_at_utc,
                );
                &&& (access_tok is Some && refresh_tok is Some ==> r is Ok)
                &&& (access_tok is None || refresh_tok is None ==> r is Err && r->Err_0
                    == StatusError::Internal)
            }),
            r is Ok ==> ({
                let s0 = old(self).auth_challenges;
                let c = s0.challenge_of(client_ip);
                let b58 = base58_of(c.access_claims.client_pubkey);
                &&& health_state == HealthState::Healthy
                &&& spec_exchange_accepted(
                    s0,
                    client_ip,
                    client_pubkey@,
                    challenge@,
                    signed_challenge@,
                )
                &&& Some(r->Ok_0.access_token@) == rsa_token_of(
                    old(self).signing_key,
                    client_ip,
                    b58,
                    c.access_claims.expires_at_utc,
                )
                &&& Some(r->Ok_0.refresh_token@) == rsa_token_of(
                    old(self).signing_key,
                    client_ip,
                    b58,
                    c.refresh_claims.expires_at_utc,
                )
                &&& r->Ok_0.access_expires_at_utc == c.access_claims.expires_at_utc
                &&& r->Ok_0.refresh_expires_at_utc == c.refresh_claims.expires_at_utc
                &&& !final(self).auth_challenges.contains_ip(client_ip)
                &&& forall|k: u32|
                    k != client_ip ==> final(self).auth_challenges.contains_ip(k)
                        == s0.contains_ip(k)
                &&& forall|k: u32|
                    k != client_ip && s0.contains_ip(k) ==> final(self).auth_challenges.challenge_of(k) == s0.challenge_of(k)
            }),
    {
        if check_health(health_state).is_err() {
            return Err(StatusError::Internal);
        }
        if !ed25519_pubkey_ok(&client_pubkey) {
            return Err(StatusError::InvalidArgument);
        }
        let pubkey_addr = match Address::from_bytes(client_pubkey) {
            Some(a) => a,
            None => {
                return Err(StatusError::InvalidArgument);
            },
        };
        match Self::validate_token_request(
            &self.auth_challenges,
            client_ip,
            &pubkey_addr,
            &challenge,
            signed_challenge.len(),
        ) {
            Ok(()) => {},
            Err(e) => {
                return Err(e);
            },
        }
        let challenge_bytes = challenge.as_str().as_bytes_vec();
        if !ed25519_verify(pubkey_addr.as_bytes(), &challenge_bytes, &signed_challenge) {
            return Err(StatusError::InvalidArgument);
        }
        let stored = match self.auth_challenges.get_priority(client_ip) {
            Some(c) => c,
            None => {
                return Err(StatusError::PermissionDenied);
            },
        };
        let pk_b58 = base58_encode(stored.access_claims.client_pubkey.as_bytes());
        let access_expiry = stored.access_claims.expires_at_utc;
        let refresh_expiry = stored.refresh_claims.expires_at_utc;
        let access_token = match sign_claims(
            &self.signing_key,
            client_ip,
            &pk_b58,
            access_expiry,
        ) {
            Some(t) => t,
            None => {
                return Err(StatusError::Internal);
            },
        };
        let refresh_token = match sign_claims(
            &self.signing_key,
            client_ip,
            &pk_b58,
            refresh_expiry,
        ) {
            Some(t) => t,
            None => {
                return Err(StatusError::Internal);
            },
        };
        self.auth_challenges.remove(client_ip);
        Ok(
            TokenPair {
                access_token,
                access_expires_at_utc: access_expiry,
                refresh_token,
                refresh_expires_at_utc: refresh_expiry,
            },
        )
    }

    /// A refresh token must be unexpired to mint a new access token.
    pub fn refresh_claims_check(expires_at_utc: i64, now: i64) -> (r: Result<(), StatusError>)
        ensures
            r is Ok <==> expires_at_utc > now,
            r is Err ==> r->Err_0 == StatusError::PermissionDenied,
    {
        if expires_at_utc <= now {
            Err(StatusError::PermissionDenied)
        } else {
            Ok(())
        }
    }

    /// Mints a fresh access token from a refresh token: the token must
    /// verify with the service's public key and be unexpired; the new
    /// access token carries the refresh token's identity and expires
    /// `access_token_ttl` from now.  The refresh token is not extended.
    pub fn refresh_access_token(
        &self,
        health_state: HealthState,
        refresh_token: &String,
        now: i64,
    ) -> (r: Result<(String, i64), StatusError>)
        requires
            self.wf(),
            now >= 0,
            now + self.access_token_ttl_secs <= i64::MAX,
        ensures
            health_state != HealthState::Healthy ==> r is Err && r->Err_0
                == StatusError::Internal,
            ({
                let cl = rsa_claims_of(self.verifying_key, refresh_token@);
                let c = cl->0;
                &&& (health_state == HealthState::Healthy && cl is None ==> r is Err
                    && r->Err_0 == StatusError::PermissionDenied)
                &&& (health_state == HealthState::Healthy && cl is Some && c.2 <= now ==> r
                    is Err && r->Err_0 == StatusError::PermissionDenied)
                &&& (health_state == HealthState::Healthy && cl is Some && c.2 > now ==> {
                    let tok = rsa_token_of(
                        self.signing_key,
                        c.0,
                        c.1,
                        (now + self.access_token_ttl_secs) as i64,
                    );
                    &&& (tok is Some ==> r is Ok && Some(r->Ok_0.0@) == tok && r->Ok_0.1
                        == now + self.access_token_ttl_secs)
                    &&& (tok is None ==> r is Err && r->Err_0 == StatusError::Internal)
                })
            }),
            r is Ok ==> health_state == HealthState::Healthy && r->Ok_0.1 == now
                + self.access_token_ttl_secs,
    {
        if check_health(health_state).is_err() {
            return Err(StatusError::Internal);
        }
        let (claim_ip, claim_pk_b58, claim_expiry) = match verify_claims(
            &self.verifying_key,
            refresh_token,
        ) {
            Some(c) => c,
            None => {
                return Err(StatusError::PermissionDenied);
            },
        };
        match Self::refresh_claims_check(claim_expiry, now) {
            Ok(()) => {},
            Err(e) => {
                return Err(e);
            },
        }
        let expires_at_utc = now + self.access_token_ttl_secs;
        match sign_claims(&self.signing_key, claim_ip, &claim_pk_b58, expires_at_utc) {
            Some(t) => Ok((t, expires_at_utc)),
            None => Err(StatusError::Internal),
        }
    }
}

/// Per-request token check: the bearer token must verify with the
/// service's public key and be unexpired; the embedded identity (IP,
/// base58 public key, expiry) is attached to the request.  Anything else
/// is unauthenticated.
pub fn intercept_token(
    verifying_key: &jwt::PKeyWithDigest<openssl::pkey::Public>,
    token: &String,
    now: i64,
) -> (r: Result<(u32, String, i64), StatusError>)
    ensures
        ({
            let cl = rsa_claims_of(*verifying_key, token@);
            let c = cl->0;
            &&& (cl is None ==> r is Err && r->Err_0 == StatusError::Unauthenticated)
            &&& (cl is Some && c.2 <= now ==> r is Err && r->Err_0
                == StatusError::Unauthenticated)
            &&& (cl is Some && c.2 > now ==> r is Ok && r->Ok_0.0 == c.0 && r->Ok_0.1@
                == c.1 && r->Ok_0.2 == c.2)
        }),
        r is Ok ==> r->Ok_0.2 > now,
        r is Err ==> r->Err_0 == StatusError::Unauthenticated,
{
    match verify_claims(verifying_key, token) {
        Some((ip, pk, expiry)) => {
            if expiry <= now {
                Err(StatusError::Unauthenticated)
            } else {
                Ok((ip, pk, expiry))
            }
        },
        None => Err(StatusError::Unauthenticated),
    }
}

} // verus!

//! Authentication tests with the real cryptography: challenge issuance,
//! the sign/verify round trip of minted tokens, replay with a wrong key,
//! refresh after expiry, and the challenge sweeper.

use ed25519_dalek::Signer;
use jito_relayer::addr::{Address, AddressSet};
use jito_relayer::auth::{
    intercept_token, AuthServiceImpl, Role, ValidatorAutherImpl, ValidatorStore,
};
use jito_relayer::challenges::AuthChallenges;
use jito_relayer::health::{HealthState, StatusError};

fn addr_from(bytes: &[u8]) -> Address {
    Address::from_bytes(bytes.to_vec()).expect("32 bytes")
}

fn ed25519_keypair(seed: u8) -> ed25519_dalek::Keypair {
    let secret = ed25519_dalek::SecretKey::from_bytes(&[seed; 32]).expect("secret");
    let public = ed25519_dalek::PublicKey::from(&secret);
    ed25519_dalek::Keypair { secret, public }
}

fn rsa_keys() -> (
    jwt::PKeyWithDigest<openssl::pkey::Private>,
    jwt::PKeyWithDigest<openssl::pkey::Public>,
) {
    let rsa = openssl::rsa::Rsa::generate(2048).expect("rsa");
    let private = openssl::pkey::PKey::from_rsa(rsa).expect("pkey");
    let public_pem = private.public_key_to_pem().expect("pem");
    let public = openssl::pkey::PKey::public_key_from_pem(&public_pem).expect("pubkey");
    (
        jwt::PKeyWithDigest { digest: openssl::hash::MessageDigest::sha256(), key: private },
        jwt::PKeyWithDigest { digest: openssl::hash::MessageDigest::sha256(), key: public },
    )
}

fn service(
    allowed: Vec<Address>,
    access_ttl: i64,
    refresh_ttl: i64,
    challenge_ttl: i64,
) -> AuthServiceImpl<ValidatorAutherImpl> {
    let (signing, verifying) = rsa_keys();
    AuthServiceImpl::new(
        ValidatorAutherImpl { store: ValidatorStore::UserDefined(AddressSet::from_items(allowed)) },
        signing,
        verifying,
        access_ttl,
        refresh_ttl,
        challenge_ttl,
    )
}

#[test]
fn test_mint_and_verify_tokens() {
    // a token minted by the exchange verifies with the service's public
    // key until its embedded expiry
    let keypair = ed25519_keypair(7);
    let pubkey = keypair.public.to_bytes().to_vec();
    let mut svc = service(vec![addr_from(&pubkey)], 1800, 180_000, 1800);
    let ip: u32 = 0x0A000001;
    let now: i64 = 1_000_000;

    let challenge = svc
        .generate_auth_challenge(HealthState::Healthy, ip, Role::Validator, pubkey.clone(), now)
        .expect("challenge issued");
    assert_eq!(challenge.chars().count(), 9);

    let to_sign = format!("{}-{}", bs58::encode(&pubkey).into_string(), challenge);
    let signature = keypair.sign(to_sign.as_bytes()).to_bytes().to_vec();

    let pair = svc
        .generate_auth_tokens(HealthState::Healthy, ip, pubkey.clone(), to_sign, signature)
        .expect("tokens minted");
    assert_eq!(pair.access_expires_at_utc, now + 1800);
    assert_eq!(pair.refresh_expires_at_utc, now + 180_000);

    // the access token verifies until its expiry and carries the identity
    let claims = intercept_token(&svc.verifying_key, &pair.access_token, now + 10)
        .expect("token verifies");
    assert_eq!(claims.0, ip);
    assert_eq!(claims.1, bs58::encode(&pubkey).into_string());
    assert_eq!(claims.2, now + 1800);
    // after the expiry it is rejected
    let late = intercept_token(&svc.verifying_key, &pair.access_token, now + 1800);
    assert_eq!(late, Err(StatusError::Unauthenticated));
    // a corrupted token never verifies
    let mut corrupted = pair.access_token.clone();
    corrupted.push('A');
    assert!(intercept_token(&svc.verifying_key, &corrupted, now + 10).is_err());

    // the refresh token mints a fresh access token
    let (new_access, new_expiry) = svc
        .refresh_access_token(HealthState::Healthy, &pair.refresh_token, now + 100)
        .expect("refresh works");
    assert_eq!(new_expiry, now + 100 + 1800);
    assert!(intercept_token(&svc.verifying_key, &new_access, now + 200).is_ok());
}

#[test]
fn test_challenge_issue_idempotent() {
    // repeated issuance for the same IP returns the same challenge string
    // while it is unexpired
    let keypair = ed25519_keypair(8);
    let pubkey = keypair.public.to_bytes().to_vec();
    let mut svc = service(vec![addr_from(&pubkey)], 10, 20, 100);
    let ip: u32 = 1;
    let c1 = svc
        .generate_auth_challenge(HealthState::Healthy, ip, Role::Validator, pubkey.clone(), 1000)
        .expect("issued");
    let c2 = svc
        .generate_auth_challenge(HealthState::Healthy, ip, Role::Validator, pubkey.clone(), 1050)
        .expect("reissued");
    assert_eq!(c1, c2);
    // after the challenge lapses a new one is issued and is returned again
    let c3 = svc
        .generate_auth_challenge(HealthState::Healthy, ip, Role::Validator, pubkey.clone(), 1100)
        .expect("fresh");
    let c4 = svc
        .generate_auth_challenge(HealthState::Healthy, ip, Role::Validator, pubkey.clone(), 1101)
        .expect("still fresh");
    assert_eq!(c3, c4);
}

#[test]
fn test_challenge_replay_with_wrong_pubkey() {
    // a client issues a challenge for one key, then tries the exchange
    // with another: permission denied, and the store is unchanged
    let kp1 = ed25519_keypair(9);
    let pk1 = kp1.public.to_bytes().to_vec();
    let kp2 = ed25519_keypair(10);
    let pk2 = kp2.public.to_bytes().to_vec();
    let mut svc =
        service(vec![addr_from(&pk1), addr_from(&pk2)], 1800, 180_000, 1800);
    let ip: u32 = 5;
    let challenge = svc
        .generate_auth_challenge(HealthState::Healthy, ip, Role::Validator, pk1.clone(), 1000)
        .expect("issued");

    let to_sign = format!("{}-{}", bs58::encode(&pk2).into_string(), challenge);
    let signature = kp2.sign(to_sign.as_bytes()).to_bytes().to_vec();
    let denied =
        svc.generate_auth_tokens(HealthState::Healthy, ip, pk2.clone(), to_sign, signature);
    assert!(matches!(denied, Err(StatusError::PermissionDenied)));

    // the earlier challenge is still in place
    let again = svc
        .generate_auth_challenge(HealthState::Healthy, ip, Role::Validator, pk1.clone(), 1001)
        .expect("unchanged");
    assert_eq!(again, challenge);
}

#[test]
fn test_bad_signature_rejected() {
    let keypair = ed25519_keypair(11);
    let pubkey = keypair.public.to_bytes().to_vec();
    let mut svc = service(vec![addr_from(&pubkey)], 1800, 180_000, 1800);
    let ip: u32 = 6;
    let challenge = svc
        .generate_auth_challenge(HealthState::Healthy, ip, Role::Validator, pubkey.clone(), 1000)
        .expect("issued");
    let to_sign = format!("{}-{}", bs58::encode(&pubkey).into_string(), challenge);
    // sign the wrong message
    let signature = keypair.sign(b"something else").to_bytes().to_vec();
    let denied =
        svc.generate_auth_tokens(HealthState::Healthy, ip, pubkey.clone(), to_sign, signature);
    assert!(matches!(denied, Err(StatusError::InvalidArgument)));
}

#[test]
fn test_refresh_after_expiry() {
    // tokens minted with a short refresh lifetime: after it lapses, the
    // refresh call is denied
    let keypair = ed25519_keypair(12);
    let pubkey = keypair.public.to_bytes().to_vec();
    let mut svc = service(vec![addr_from(&pubkey)], 1, 2, 100);
    let ip: u32 = 7;
    let now: i64 = 1000;
    let challenge = svc
        .generate_auth_challenge(HealthState::Healthy, ip, Role::Validator, pubkey.clone(), now)
        .expect("issued");
    let to_sign = format!("{}-{}", bs58::encode(&pubkey).into_string(), challenge);
    let signature = keypair.sign(to_sign.as_bytes()).to_bytes().to_vec();
    let pair = svc
        .generate_auth_tokens(HealthState::Healthy, ip, pubkey.clone(), to_sign, signature)
        .expect("minted");
    // three seconds later the refresh token (lifetime two seconds) lapsed
    let denied = svc.refresh_access_token(HealthState::Healthy, &pair.refresh_token, now + 3);
    assert!(matches!(denied, Err(StatusError::PermissionDenied)));
}

#[test]
fn test_auth_gates_and_validation_errors() {
    let keypair = ed25519_keypair(13);
    let pubkey = keypair.public.to_bytes().to_vec();
    let mut svc = service(vec![addr_from(&pubkey)], 1800, 180_000, 1800);

    // unhealthy: internal error
    let r = svc.generate_auth_challenge(HealthState::Unhealthy, 1, Role::Validator, pubkey.clone(), 0);
    assert!(matches!(r, Err(StatusError::Internal)));
    // wrong role
    let r = svc.generate_auth_challenge(HealthState::Healthy, 1, Role::Searcher, pubkey.clone(), 0);
    assert!(matches!(r, Err(StatusError::InvalidArgument)));
    // wrong pubkey length
    let r = svc.generate_auth_challenge(HealthState::Healthy, 1, Role::Validator, vec![1, 2, 3], 0);
    assert!(matches!(r, Err(StatusError::InvalidArgument)));
    // unauthorized pubkey
    let other = ed25519_keypair(14).public.to_bytes().to_vec();
    let r = svc.generate_auth_challenge(HealthState::Healthy, 1, Role::Validator, other, 0);
    assert!(matches!(r, Err(StatusError::PermissionDenied)));
    // token exchange with a malformed public key
    let r = svc.generate_auth_tokens(
        HealthState::Healthy,
        99,
        vec![1, 2, 3],
        "anything".to_string(),
        vec![0; 64],
    );
    assert!(matches!(r, Err(StatusError::InvalidArgument)));
    // token exchange without a challenge
    let r = svc.generate_auth_tokens(
        HealthState::Healthy,
        99,
        pubkey.clone(),
        "anything".to_string(),
        vec![0; 64],
    );
    assert!(matches!(r, Err(StatusError::PermissionDenied)));
    // wrong signature length
    let challenge = svc
        .generate_auth_challenge(HealthState::Healthy, 2, Role::Validator, pubkey.clone(), 0)
        .expect("issued");
    let to_sign = format!("{}-{}", bs58::encode(&pubkey).into_string(), challenge);
    let r = svc.generate_auth_tokens(HealthState::Healthy, 2, pubkey.clone(), to_sign, vec![0; 63]);
    assert!(matches!(r, Err(StatusError::InvalidArgument)));
    // mismatched challenge text
    let r = svc.generate_auth_tokens(
        HealthState::Healthy,
        2,
        pubkey.clone(),
        "wrong-text".to_string(),
        vec![0; 64],
    );
    assert!(matches!(r, Err(StatusError::InvalidArgument)));
}

#[test]
fn test_challenge_sweeper_removes_expired() {
    let mut store = AuthChallenges::new();
    let keypair = ed25519_keypair(15);
    let pubkey = keypair.public.to_bytes().to_vec();
    let mut svc = service(vec![addr_from(&pubkey)], 10, 20, 50);
    svc.generate_auth_challenge(HealthState::Healthy, 1, Role::Validator, pubkey.clone(), 100)
        .expect("issued");
    // swap the store out to drive the sweeper directly
    std::mem::swap(&mut store, &mut svc.auth_challenges);
    assert_eq!(store.len(), 1);
    store.remove_all_expired(120);
    assert_eq!(store.len(), 1);
    store.remove_all_expired(150);
    assert_eq!(store.len(), 0);
}

#[test]
fn test_unsupported_key_pair_fails_cleanly() {
    // a verifying key with a digest the token scheme does not use cannot
    // verify anything, and nothing panics
    let rsa = openssl::rsa::Rsa::generate(2048).expect("rsa");
    let private = openssl::pkey::PKey::from_rsa(rsa).expect("pkey");
    let public_pem = private.public_key_to_pem().expect("pem");
    let public = openssl::pkey::PKey::public_key_from_pem(&public_pem).expect("pubkey");
    let odd_key =
        jwt::PKeyWithDigest { digest: openssl::hash::MessageDigest::sha1(), key: public };
    let r = intercept_token(&odd_key, &"anything".to_string(), 0);
    assert_eq!(r, Err(StatusError::Unauthenticated));
}

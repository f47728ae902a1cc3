//! Recovery-coordinator scenarios, run against the real engine.

use std::convert::TryFrom;

use tofnd::kv::StoreError;
use tofnd::recover::{session_nonce, KeygenInit, RecoverRequest, RecoveryError};
use tofnd::service::new_service;

const SEED: [u8; 64] = [7u8; 64];

fn engine_keypair(seed: &[u8; 64], hardened: bool, ceremony: &[u8], party: usize, subshare: usize) -> tofn::ecdsa::KeyPair {
    let nonce = session_nonce(hardened, ceremony, party, subshare);
    let srk = tofn::sdk::api::SecretRecoveryKey::try_from(&seed[..]).unwrap();
    tofn::ecdsa::keygen(&srk, &nonce).unwrap()
}

fn expected_vk(seed: &[u8; 64], hardened: bool, ceremony: &[u8], party: usize, subshare: usize) -> Vec<u8> {
    engine_keypair(seed, hardened, ceremony, party, subshare)
        .encoded_verifying_key()
        .to_vec()
}

/// One identical blob per peer: the recovering party's expected verifying
/// keys, concatenated in sub-share order.
fn blobs_for(
    seed: &[u8; 64],
    hardened: bool,
    ceremony: &[u8],
    my_index: usize,
    counts: &[usize],
) -> Vec<Vec<u8>> {
    let mut record: Vec<u8> = Vec::new();
    for i in 0..counts[my_index] {
        record.extend_from_slice(&expected_vk(seed, hardened, ceremony, my_index, i));
    }
    (0..counts.len()).map(|_| record.clone()).collect()
}

fn sample_init() -> KeygenInit {
    KeygenInit {
        new_key_uid: b"key1".to_vec(),
        party_uids: vec![b"A".to_vec(), b"B".to_vec(), b"C".to_vec()],
        party_share_counts: vec![2, 1, 1],
        my_index: 0,
        threshold: 1,
    }
}

#[test]
fn recover_commits_shares() {
    let mut service = new_service();
    service.seed = SEED;
    let counts = [2usize, 1, 1];
    let request = RecoverRequest {
        keygen_init: Some(sample_init()),
        share_recovery_infos: blobs_for(&SEED, true, b"key1", 0, &counts),
    };
    assert!(service.handle_recover(request).is_ok());

    let entry = service.shares_kv.get(b"key1").unwrap();
    assert_eq!(entry.shares.len(), 2);
    for (i, share) in entry.shares.iter().enumerate() {
        let kp = engine_keypair(&SEED, true, b"key1", 0, i);
        let expected = tofn::sdk::api::serialize(kp.signing_key()).unwrap();
        assert_eq!(share, &expected);
    }
    assert_eq!(entry.party_uids, vec![b"A".to_vec(), b"B".to_vec(), b"C".to_vec()]);
    assert_eq!(entry.share_counts, vec![2, 1, 1]);
    assert_eq!(entry.my_index, 0);
}

#[test]
fn recovery_is_pure() {
    let mut service = new_service();
    service.seed = SEED;
    let counts = vec![2usize, 1, 1];
    let blobs = blobs_for(&SEED, true, b"key1", 0, &counts);
    let first = service
        .recover_secret_key_shares(&SEED, &blobs, 0, b"key1", &counts, 1)
        .unwrap();
    let second = service
        .recover_secret_key_shares(&SEED, &blobs, 0, b"key1", &counts, 1)
        .unwrap();
    assert_eq!(first, second);
}

#[test]
fn malformed_blob_aborts_with_zero_commits() {
    let mut service = new_service();
    service.seed = SEED;
    let counts = [2usize, 1, 1];
    let mut blobs = blobs_for(&SEED, true, b"key1", 0, &counts);
    blobs[1].truncate(10);
    let request = RecoverRequest {
        keygen_init: Some(sample_init()),
        share_recovery_infos: blobs,
    };
    assert_eq!(
        service.handle_recover(request).unwrap_err(),
        RecoveryError::MalformedBlob(1)
    );
    assert_eq!(service.shares_kv.get(b"key1").unwrap_err(), StoreError::KeyNotFound);

    // No dangling reservation: a clean retry succeeds.
    let retry = RecoverRequest {
        keygen_init: Some(sample_init()),
        share_recovery_infos: blobs_for(&SEED, true, b"key1", 0, &counts),
    };
    assert!(service.handle_recover(retry).is_ok());
}

#[test]
fn wrong_expected_key_fails_subshare() {
    let mut service = new_service();
    service.seed = SEED;
    let counts = [2usize, 1, 1];
    let mut blobs = blobs_for(&SEED, true, b"key1", 0, &counts);
    blobs[2][40] ^= 0xff;
    let request = RecoverRequest {
        keygen_init: Some(sample_init()),
        share_recovery_infos: blobs,
    };
    assert_eq!(
        service.handle_recover(request).unwrap_err(),
        RecoveryError::ShareRecoveryFailed(1)
    );
    assert_eq!(service.shares_kv.get(b"key1").unwrap_err(), StoreError::KeyNotFound);
}

#[test]
fn legacy_mode_short_nonce_fails_derivation() {
    let mut service = new_service();
    service.seed = SEED;
    service.safe_keygen = false;
    let counts = [1usize];
    let mut init = sample_init();
    init.new_key_uid = b"k".to_vec();
    init.party_uids = vec![b"A".to_vec()];
    init.party_share_counts = vec![1];
    init.threshold = 0;
    let request = RecoverRequest {
        keygen_init: Some(init),
        share_recovery_infos: blobs_for(&SEED, false, b"key1", 0, &counts),
    };
    assert_eq!(
        service.handle_recover(request).unwrap_err(),
        RecoveryError::DerivationFailed(0)
    );
}

#[test]
fn legacy_and_hardened_derive_different_keys() {
    let hardened = expected_vk(&SEED, true, b"key1", 0, 0);
    let legacy = expected_vk(&SEED, false, b"key1", 0, 0);
    assert_ne!(hardened, legacy);
}

#[test]
fn hardened_nonce_frames_party_and_subshare() {
    let nonce = session_nonce(true, b"abcd", 1, 2);
    let mut expected = b"abcd".to_vec();
    expected.extend_from_slice(&[1, 0, 0, 0, 0, 0, 0, 0]);
    expected.extend_from_slice(&[2, 0, 0, 0, 0, 0, 0, 0]);
    assert_eq!(nonce, expected);
    assert_eq!(session_nonce(false, b"abcd", 1, 2), b"abcd".to_vec());
}

#[test]
fn missing_init_is_malformed() {
    let mut service = new_service();
    service.seed = SEED;
    let request = RecoverRequest { keygen_init: None, share_recovery_infos: vec![] };
    assert_eq!(
        service.handle_recover(request).unwrap_err(),
        RecoveryError::MalformedInit
    );
}

#[test]
fn oversized_threshold_is_malformed() {
    let mut service = new_service();
    service.seed = SEED;
    let counts = [2usize, 1, 1];
    let mut init = sample_init();
    init.threshold = 4;
    let request = RecoverRequest {
        keygen_init: Some(init),
        share_recovery_infos: blobs_for(&SEED, true, b"key1", 0, &counts),
    };
    assert_eq!(
        service.handle_recover(request).unwrap_err(),
        RecoveryError::MalformedInit
    );
}

#[test]
fn second_recovery_finds_key_committed() {
    let mut service = new_service();
    service.seed = SEED;
    let counts = [2usize, 1, 1];
    let request = RecoverRequest {
        keygen_init: Some(sample_init()),
        share_recovery_infos: blobs_for(&SEED, true, b"key1", 0, &counts),
    };
    assert!(service.handle_recover(request).is_ok());
    let again = RecoverRequest {
        keygen_init: Some(sample_init()),
        share_recovery_infos: blobs_for(&SEED, true, b"key1", 0, &counts),
    };
    assert_eq!(
        service.handle_recover(again).unwrap_err(),
        RecoveryError::Store(StoreError::KeyAlreadyExists)
    );
}

#[test]
fn restarted_party_share_is_interchangeable() {
    // Before the restart: derive the sub-share keypair and sign once.
    let digest: tofn::sdk::api::MessageDigest = [42u8; 32].into();
    let kp_before = engine_keypair(&SEED, true, b"key1", 0, 0);
    let sig_before = tofn::ecdsa::sign(kp_before.signing_key(), &digest).unwrap();

    // The restarted party holds only its seed; recover through the store.
    let mut service = new_service();
    service.seed = SEED;
    let counts = [1usize, 1, 1];
    let mut init = sample_init();
    init.party_share_counts = vec![1, 1, 1];
    let request = RecoverRequest {
        keygen_init: Some(init),
        share_recovery_infos: blobs_for(&SEED, true, b"key1", 0, &counts),
    };
    assert!(service.handle_recover(request).is_ok());

    // The recovered material is bit-identical to the pre-restart key...
    let entry = service.shares_kv.get(b"key1").unwrap();
    let expected = tofn::sdk::api::serialize(kp_before.signing_key()).unwrap();
    assert_eq!(entry.shares, vec![expected]);

    // ...and signing with the re-derived keypair gives the same signature.
    let kp_after = engine_keypair(&SEED, true, b"key1", 0, 0);
    let sig_after = tofn::ecdsa::sign(kp_after.signing_key(), &digest).unwrap();
    assert_eq!(sig_before, sig_after);
    assert!(tofn::ecdsa::verify(kp_after.encoded_verifying_key(), &digest, &sig_after).unwrap());
}

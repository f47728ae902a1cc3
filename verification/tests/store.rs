//! Reservation-store scenarios.

use tofnd::kv::{KvStore, Reservation, StoreEntry, StoreError};

fn sample_entry() -> StoreEntry {
    StoreEntry {
        shares: vec![vec![1u8, 2, 3]],
        party_uids: vec![b"A".to_vec(), b"B".to_vec()],
        share_counts: vec![1, 1],
        my_index: 0,
    }
}

#[test]
fn fresh_store_has_tokens_available() {
    let kv = KvStore::new();
    assert!(kv.tokens_available());
}

#[test]
fn reserve_twice_second_fails() {
    let mut kv = KvStore::new();
    let first = kv.reserve(b"key1");
    assert!(first.is_ok());
    let second = kv.reserve(b"key1");
    assert_eq!(second.unwrap_err(), StoreError::KeyAlreadyReserved);
}

#[test]
fn reserve_distinct_keys_both_succeed() {
    let mut kv = KvStore::new();
    assert!(kv.reserve(b"key1").is_ok());
    assert!(kv.reserve(b"key2").is_ok());
}

#[test]
fn put_after_abandon_fails_then_reserve_succeeds() {
    let mut kv = KvStore::new();
    let res = kv.reserve(b"key1").unwrap();
    let stale = Reservation { key: res.key.clone(), token: res.token };
    kv.abandon(res);
    let put = kv.put(stale, sample_entry());
    assert_eq!(put.unwrap_err(), StoreError::ReservationInvalid);
    assert_eq!(kv.get(b"key1").unwrap_err(), StoreError::KeyNotFound);
    assert!(kv.reserve(b"key1").is_ok());
}

#[test]
fn stale_token_rejected_after_rereserve() {
    let mut kv = KvStore::new();
    let res = kv.reserve(b"key1").unwrap();
    let stale = Reservation { key: res.key.clone(), token: res.token };
    kv.abandon(res);
    let fresh = kv.reserve(b"key1").unwrap();
    assert_ne!(fresh.token, stale.token);
    let put = kv.put(stale, sample_entry());
    assert_eq!(put.unwrap_err(), StoreError::ReservationInvalid);
    assert!(kv.put(fresh, sample_entry()).is_ok());
}

#[test]
fn get_round_trip() {
    let mut kv = KvStore::new();
    assert_eq!(kv.get(b"key1").unwrap_err(), StoreError::KeyNotFound);
    let res = kv.reserve(b"key1").unwrap();
    assert_eq!(kv.get(b"key1").unwrap_err(), StoreError::KeyNotFound);
    assert!(kv.put(res, sample_entry()).is_ok());
    let got = kv.get(b"key1").unwrap();
    assert_eq!(got.shares, vec![vec![1u8, 2, 3]]);
    assert_eq!(got.party_uids, vec![b"A".to_vec(), b"B".to_vec()]);
    assert_eq!(got.share_counts, vec![1, 1]);
    assert_eq!(got.my_index, 0);
}

#[test]
fn committed_key_is_terminal() {
    let mut kv = KvStore::new();
    let res = kv.reserve(b"key1").unwrap();
    assert!(kv.put(res, sample_entry()).is_ok());
    assert_eq!(kv.reserve(b"key1").unwrap_err(), StoreError::KeyAlreadyExists);
    let forged = Reservation { key: b"key1".to_vec(), token: 999 };
    assert_eq!(kv.put(forged, sample_entry()).unwrap_err(), StoreError::ReservationInvalid);
    let forged2 = Reservation { key: b"key1".to_vec(), token: 999 };
    kv.abandon(forged2);
    assert_eq!(kv.get(b"key1").unwrap().shares, vec![vec![1u8, 2, 3]]);
}

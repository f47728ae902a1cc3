//! Service constructors and transport-message shapes.

use tofnd::message::{MessageOut, MessageOutData};
use tofnd::service::{get_db_path, new_service, with_db_name};

#[test]
fn db_path_is_root_plus_name() {
    assert_eq!(get_db_path(b"shares"), b".tofnd/shares".to_vec());
    assert_eq!(get_db_path(b""), b".tofnd/".to_vec());
}

#[test]
fn named_service_starts_empty() {
    let service = with_db_name(b"test-db");
    assert_eq!(service.db_name, b"test-db".to_vec());
    assert!(service.shares_kv.get(b"anything").is_err());
}

#[test]
fn fresh_service_defaults() {
    let service = new_service();
    assert!(service.safe_keygen);
    assert!(service.db_name.is_empty());
}

#[test]
fn traffic_constructors() {
    let b = MessageOut::new_bcast(b"hello");
    match b.data {
        Some(MessageOutData::Traffic(t)) => {
            assert!(t.is_broadcast);
            assert!(t.to_party_uid.is_empty());
            assert_eq!(t.payload, b"hello".to_vec());
        }
        _ => panic!("broadcast traffic expected"),
    }

    let p = MessageOut::new_p2p(b"B", b"secret");
    match p.data {
        Some(MessageOutData::Traffic(t)) => {
            assert!(!t.is_broadcast);
            assert_eq!(t.to_party_uid, b"B".to_vec());
            assert_eq!(t.payload, b"secret".to_vec());
        }
        _ => panic!("p2p traffic expected"),
    }
}

#[test]
fn result_constructors() {
    let k = MessageOut::new_keygen_result(b"pubkey");
    match k.data {
        Some(MessageOutData::KeygenResult(v)) => assert_eq!(v, b"pubkey".to_vec()),
        _ => panic!("keygen result expected"),
    }
    let s = MessageOut::new_sign_result(b"sig");
    match s.data {
        Some(MessageOutData::SignResult(v)) => assert_eq!(v, b"sig".to_vec()),
        _ => panic!("sign result expected"),
    }
}

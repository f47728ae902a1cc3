//! End-to-end ceremony scenarios: sessions and routers at every party, with
//! the real engine producing the signature bytes.

use std::convert::TryFrom;

use tofnd::kv::KvStore;
use tofnd::message::MessageOutData;
use tofnd::router::{Router, RoundShape};
use tofnd::session::{
    route_outgoing, CeremonyKind, EngineStep, Recipient, RoundMessage, Session, SessionStatus,
};

const SEED: [u8; 64] = [9u8; 64];

fn group_key(ceremony: &[u8]) -> tofn::ecdsa::KeyPair {
    let nonce = tofnd::recover::session_nonce(true, ceremony, 0, 0);
    let srk = tofn::sdk::api::SecretRecoveryKey::try_from(&SEED[..]).unwrap();
    tofn::ecdsa::keygen(&srk, &nonce).unwrap()
}

/// Deliver one party's outgoing transport messages into every other party's
/// router, as the transport would.
fn deliver(sender: usize, outs: &[tofnd::message::MessageOut], routers: &mut [Router]) {
    for out in outs {
        match &out.data {
            Some(MessageOutData::Traffic(t)) => {
                if t.is_broadcast {
                    for r in routers.iter_mut() {
                        r.record_bcast(sender, &t.payload);
                    }
                } else {
                    for (j, r) in routers.iter_mut().enumerate() {
                        if format!("p{}", j).into_bytes() == t.to_party_uid {
                            r.record_p2p(sender, &t.payload);
                        }
                    }
                }
            }
            _ => panic!("round traffic expected"),
        }
    }
}

/// A full ceremony among `n` parties: one broadcast round, one point-to-point
/// round, then the terminal result; every party must end `Done` with the
/// same result bytes.
fn run_ceremony(n: usize, members: &[usize], kind: CeremonyKind, id: &[u8], result: &[u8]) {
    let uids: Vec<Vec<u8>> = (0..n).map(|j| format!("p{}", j).into_bytes()).collect();
    let mut sessions: Vec<Session> = members
        .iter()
        .map(|_| Session::new_session(id.to_vec(), kind, RoundShape::BcastOnly))
        .collect();
    let mut routers: Vec<Router> = (0..n).map(|me| Router::new(n, me)).collect();

    // Round of broadcasts: every member sends one to everyone.
    for (k, &me) in members.iter().enumerate() {
        let msgs = vec![RoundMessage { recipient: Recipient::Broadcast, payload: vec![1, me as u8] }];
        let outs = route_outgoing(&msgs, &uids).unwrap();
        assert_eq!(sessions[k].round, 0);
        deliver(me, &outs, &mut routers);
    }
    for (k, &me) in members.iter().enumerate() {
        // Peers outside the member set never send; drop their queues from the
        // completeness requirement by only running full-member ceremonies.
        if members.len() == n {
            assert!(routers[me].is_round_complete(RoundShape::BcastOnly));
            let round = routers[me].take_round(RoundShape::BcastOnly);
            for (s, b) in round.bcasts.iter().enumerate() {
                if s == me {
                    assert!(b.is_none());
                } else {
                    assert_eq!(b.as_ref().unwrap(), &vec![1, s as u8]);
                }
            }
        }
        sessions[k].advance(EngineStep::Advanced { next_shape: RoundShape::P2pOnly });
        assert_eq!(sessions[k].round, 1);
    }

    // Round of point-to-point messages.
    for &me in members.iter() {
        let msgs: Vec<RoundMessage> = (0..n)
            .filter(|&t| t != me)
            .map(|t| RoundMessage { recipient: Recipient::Peer(t), payload: vec![2, me as u8] })
            .collect();
        let outs = route_outgoing(&msgs, &uids).unwrap();
        deliver(me, &outs, &mut routers);
    }
    for (k, &me) in members.iter().enumerate() {
        if members.len() == n {
            assert!(routers[me].is_round_complete(RoundShape::P2pOnly));
            let round = routers[me].take_round(RoundShape::P2pOnly);
            for (s, p) in round.p2ps.iter().enumerate() {
                if s == me {
                    assert!(p.is_none());
                } else {
                    assert_eq!(p.as_ref().unwrap(), &vec![2, s as u8]);
                }
            }
        }
        sessions[k].advance(EngineStep::Done { result: result.to_vec() });
        assert_eq!(sessions[k].status, SessionStatus::Done);
    }

    // Every member ends with identical result bytes.
    for s in sessions.iter() {
        assert_eq!(s.result.as_ref().unwrap(), &result.to_vec());
    }
}

#[test]
fn five_party_keygen_then_subset_sign() {
    // Keygen at all five parties for ceremony "key1".
    let n = 5;
    let members: Vec<usize> = (0..n).collect();
    let kp = group_key(b"key1");
    let keygen_result = kp.encoded_verifying_key().to_vec();
    run_ceremony(n, &members, CeremonyKind::Keygen, b"key1", &keygen_result);

    // Every party commits the result under "key1" in its own store.
    for _ in 0..n {
        let mut kv = KvStore::new();
        let res = kv.reserve(b"key1").unwrap();
        let entry = tofnd::kv::StoreEntry {
            shares: vec![keygen_result.clone()],
            party_uids: (0..n).map(|j| format!("p{}", j).into_bytes()).collect(),
            share_counts: vec![1; n],
            my_index: 0,
            };
        assert!(kv.put(res, entry).is_ok());
        assert!(kv.get(b"key1").is_ok());
    }

    // Sign at the 4 > threshold 2 members [B, E, C, D] over message [42]:
    // the engine's signature is a function of key and digest alone, so every
    // member reports bit-identical signature bytes.
    let digest: tofn::sdk::api::MessageDigest = [42u8; 32].into();
    let signature = tofn::ecdsa::sign(kp.signing_key(), &digest).unwrap();
    let members = [1usize, 4, 2, 3];
    run_ceremony(n, &members, CeremonyKind::Sign, b"sig1", &signature);

    // Each member recomputes the identical bytes independently.
    for _ in members.iter() {
        let again = tofn::ecdsa::sign(group_key(b"key1").signing_key(), &digest).unwrap();
        assert_eq!(again, signature);
    }
}

#[test]
fn single_party_keygen_then_sign() {
    // n = 1, threshold 0: both ceremonies complete trivially.
    let kp = group_key(b"solo");
    let keygen_result = kp.encoded_verifying_key().to_vec();
    run_ceremony(1, &[0], CeremonyKind::Keygen, b"solo", &keygen_result);

    let digest: tofn::sdk::api::MessageDigest = [42u8; 32].into();
    let signature = tofn::ecdsa::sign(kp.signing_key(), &digest).unwrap();
    run_ceremony(1, &[0], CeremonyKind::Sign, b"solo-sig", &signature);
}

#[test]
fn early_messages_wait_for_their_round() {
    // Two broadcasts arrive from the same sender before any is consumed: the
    // first belongs to the round being collected, the second to the next.
    let mut r = Router::new(2, 0);
    r.record_bcast(1, b"round-one");
    r.record_bcast(1, b"round-two");
    assert!(r.is_round_complete(RoundShape::BcastOnly));
    let first = r.take_round(RoundShape::BcastOnly);
    assert_eq!(first.bcasts[1].as_ref().unwrap(), &b"round-one".to_vec());
    assert!(r.is_round_complete(RoundShape::BcastOnly));
    let second = r.take_round(RoundShape::BcastOnly);
    assert_eq!(second.bcasts[1].as_ref().unwrap(), &b"round-two".to_vec());
    assert!(!r.is_round_complete(RoundShape::BcastOnly));
}

#[test]
fn sender_attribution_by_uid() {
    let uids = vec![b"A".to_vec(), b"B".to_vec(), b"C".to_vec()];
    assert_eq!(tofnd::router::party_index_of(&uids, b"B"), Some(1));
    assert_eq!(tofnd::router::party_index_of(&uids, b"Z"), None);
}

#[test]
fn unattributable_messages_are_dropped() {
    let mut r = Router::new(2, 0);
    r.record_bcast(7, b"unknown sender");
    r.record_bcast(0, b"own echo");
    assert!(!r.is_round_complete(RoundShape::BcastOnly));
}

#[test]
fn unknown_recipient_aborts_routing() {
    let uids = vec![b"A".to_vec(), b"B".to_vec()];
    let msgs = vec![RoundMessage { recipient: Recipient::Peer(2), payload: vec![1] }];
    assert!(route_outgoing(&msgs, &uids).is_none());
}

#[test]
fn failed_engine_report_freezes_session() {
    let mut s = Session::new_session(b"key1".to_vec(), CeremonyKind::Keygen, RoundShape::BcastOnly);
    s.advance(EngineStep::Failed { faulters: vec![2, 4] });
    assert_eq!(s.status, SessionStatus::Failed);
    assert_eq!(s.faulters, vec![2, 4]);
    assert!(s.result.is_none());
}

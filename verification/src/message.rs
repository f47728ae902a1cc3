//! Messages as the transport sees them.
//!
//! A round message is either broadcast to every peer or addressed to exactly
//! one; its payload is opaque to the core. Participant identities travel as
//! opaque byte strings.

use vstd::prelude::*;
use vstd::slice::slice_to_vec;

verus! {

/// One message to forward over the transport: a receiver (empty for a
/// broadcast), an opaque payload, and the broadcast flag.
pub struct TrafficOut {
    pub to_party_uid: Vec<u8>,
    pub payload: Vec<u8>,
    pub is_broadcast: bool,
}

/// What one outbound message carries: protocol traffic, or a terminal result.
pub enum MessageOutData {
    Traffic(TrafficOut),
    KeygenResult(Vec<u8>),
    SignResult(Vec<u8>),
}

/// One message of the outbound stream.
pub struct MessageOut {
    pub data: Option<MessageOutData>,
}

impl MessageOut {
    /// Traffic addressed to every peer.
    pub fn new_bcast(bcast: &[u8]) -> (r: Self)
        ensures
            r.data matches Some(MessageOutData::Traffic(t)) && t.payload@ == bcast@
                && t.is_broadcast && t.to_party_uid@.len() == 0,
    {
        Self::new_traffic(&[], bcast, true)
    }

    /// Traffic addressed to exactly one peer.
    pub fn new_p2p(receiver_id: &[u8], p2p: &[u8]) -> (r: Self)
        ensures
            r.data matches Some(MessageOutData::Traffic(t)) && t.payload@ == p2p@
                && !t.is_broadcast && t.to_party_uid@ == receiver_id@,
    {
        Self::new_traffic(receiver_id, p2p, false)
    }

    /// Traffic with an explicit broadcast flag.
    pub fn new_traffic(receiver_id: &[u8], msg: &[u8], is_broadcast: bool) -> (r: Self)
        ensures
            r.data matches Some(MessageOutData::Traffic(t)) && t.payload@ == msg@
                && t.is_broadcast == is_broadcast && t.to_party_uid@ == receiver_id@,
    {
        MessageOut {
            data: Some(
                MessageOutData::Traffic(
                    TrafficOut {
                        to_party_uid: slice_to_vec(receiver_id),
                        payload: slice_to_vec(msg),
                        is_broadcast,
                    },
                ),
            ),
        }
    }

    /// The terminal message of a keygen ceremony.
    pub fn new_keygen_result(result: &[u8]) -> (r: Self)
        ensures
            r.data matches Some(MessageOutData::KeygenResult(v)) && v@ == result@,
    {
        MessageOut { data: Some(MessageOutData::KeygenResult(slice_to_vec(result))) }
    }

    /// The terminal message of a signing ceremony.
    pub fn new_sign_result(result: &[u8]) -> (r: Self)
        ensures
            r.data matches Some(MessageOutData::SignResult(v)) && v@ == result@,
    {
        MessageOut { data: Some(MessageOutData::SignResult(slice_to_vec(result))) }
    }
}

} // verus!

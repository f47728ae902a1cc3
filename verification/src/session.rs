//! Protocol session: drives one ceremony's round-machine to completion.
//!
//! The round-machine itself is an opaque capability; the session is the
//! decision core around it. Rounds are strictly sequential: the next round
//! begins only when the engine has consumed the previous round's full
//! incoming set, and a terminal report (done or failed) freezes the session.
//! The host performs the engine calls and the transport work, and feeds each
//! report back as an [`EngineStep`].

use vstd::prelude::*;

use crate::message::{MessageOut, MessageOutData};
use crate::router::RoundShape;

verus! {

/// Whether this session produces key material (persisted through the store)
/// or a signature (returned upward without persistence).
#[derive(Clone, Copy, PartialEq, Eq, Structural, Debug)]
pub enum CeremonyKind {
    Keygen,
    Sign,
}

/// Session progress: strictly `InProgress` until a terminal report, then
/// terminal forever.
#[derive(Clone, Copy, PartialEq, Eq, Structural, Debug)]
pub enum SessionStatus {
    InProgress,
    Done,
    Failed,
}

/// What the engine reported after consuming one full round.
pub enum EngineStep {
    /// More rounds follow; the engine expects this shape next.
    Advanced { next_shape: RoundShape },
    /// The ceremony completed with these opaque result bytes.
    Done { result: Vec<u8> },
    /// The engine rejected its input, naming the party indices it blames.
    Failed { faulters: Vec<usize> },
}

/// Where one outgoing round message goes.
#[derive(Clone, Copy, PartialEq, Eq, Structural, Debug)]
pub enum Recipient {
    Broadcast,
    Peer(usize),
}

/// One outgoing round message of the local party; the sender is implicit.
pub struct RoundMessage {
    pub recipient: Recipient,
    pub payload: Vec<u8>,
}

/// One ceremony's round-loop state.
pub struct Session {
    /// The ceremony this session drives.
    pub ceremony_id: Vec<u8>,
    pub kind: CeremonyKind,
    /// Rounds consumed so far.
    pub round: usize,
    /// The shape the engine expects for the round being collected.
    pub expected_shape: RoundShape,
    pub status: SessionStatus,
    /// The engine's result bytes, exactly when the session is `Done`.
    pub result: Option<Vec<u8>>,
    /// The engine's blamed party indices, from a `Failed` report.
    pub faulters: Vec<usize>,
}

impl Session {
    /// Result bytes exist exactly on a completed session.
    pub open spec fn wf(self) -> bool {
        &&& (self.status == SessionStatus::InProgress ==> self.result is None)
        &&& (self.status == SessionStatus::Failed ==> self.result is None)
        &&& (self.status == SessionStatus::Done ==> self.result is Some)
    }

    /// A session at round zero, awaiting the first round of the given shape.
    pub fn new_session(ceremony_id: Vec<u8>, kind: CeremonyKind, first_shape: RoundShape) -> (r:
        Session)
        ensures
            r.ceremony_id == ceremony_id,
            r.kind == kind,
            r.round == 0,
            r.expected_shape == first_shape,
            r.status == SessionStatus::InProgress,
            r.result is None,
            r.faulters@.len() == 0,
            r.wf(),
    {
        Session {
            ceremony_id,
            kind,
            round: 0,
            expected_shape: first_shape,
            status: SessionStatus::InProgress,
            result: None,
            faulters: Vec::new(),
        }
    }

    /// Consume the engine's report on one full round.
    ///
    /// An `Advanced` report moves the session to the next round and to the
    /// next expected shape; a `Done` report freezes it with the result; a
    /// `Failed` report freezes it with the blamed parties. Nothing else of
    /// the session changes, and a frozen session takes no further step.
    pub fn advance(&mut self, step: EngineStep)
        requires
            old(self).wf(),
            old(self).status == SessionStatus::InProgress,
            old(self).round < usize::MAX,
        ensures
            final(self).wf(),
            final(self).ceremony_id == old(self).ceremony_id,
            final(self).kind == old(self).kind,
            match step {
                EngineStep::Advanced { next_shape } => {
                    &&& final(self).status == SessionStatus::InProgress
                    &&& final(self).round == old(self).round + 1
                    &&& final(self).expected_shape == next_shape
                    &&& final(self).result is None
                    &&& final(self).faulters == old(self).faulters
                },
                EngineStep::Done { result } => {
                    &&& final(self).status == SessionStatus::Done
                    &&& final(self).round == old(self).round
                    &&& final(self).result == Some(result)
                    &&& final(self).faulters == old(self).faulters
                },
                EngineStep::Failed { faulters } => {
                    &&& final(self).status == SessionStatus::Failed
                    &&& final(self).round == old(self).round
                    &&& final(self).result is None
                    &&& final(self).faulters == faulters
                },
            },
    {
        match step {
            EngineStep::Advanced { next_shape } => {
                self.round = self.round + 1;
                self.expected_shape = next_shape;
            },
            EngineStep::Done { result } => {
                self.status = SessionStatus::Done;
                self.result = Some(result);
            },
            EngineStep::Failed { faulters } => {
                self.status = SessionStatus::Failed;
                self.faulters = faulters;
            },
        }
    }
}

/// A recipient the participant list can deliver to.
pub open spec fn recipient_valid(m: RoundMessage, n_parties: int) -> bool {
    match m.recipient {
        Recipient::Broadcast => true,
        Recipient::Peer(p) => p < n_parties,
    }
}

/// The transport message that carries one round message: a broadcast names
/// no recipient; a point-to-point message names exactly its peer's identity.
pub open spec fn routed_ok(m: RoundMessage, uids: Seq<Seq<u8>>, out: MessageOut) -> bool {
    match m.recipient {
        Recipient::Broadcast => out.data matches Some(MessageOutData::Traffic(t))
            && t.is_broadcast && t.payload@ == m.payload@ && t.to_party_uid@.len() == 0,
        Recipient::Peer(p) => out.data matches Some(MessageOutData::Traffic(t))
            && !t.is_broadcast && t.payload@ == m.payload@ && t.to_party_uid@ == uids[p as int],
    }
}

/// Translate one round's outgoing messages into transport messages, looking
/// each point-to-point recipient up in the participant list. Succeeds exactly
/// when every recipient is a known party index; an unknown recipient is an
/// out-of-protocol message and aborts the round.
pub fn route_outgoing(msgs: &Vec<RoundMessage>, party_uids: &Vec<Vec<u8>>) -> (r: Option<
    Vec<MessageOut>,
>)
    ensures
        match r {
            Some(outs) => {
                &&& outs@.len() == msgs@.len()
                &&& forall|i: int|
                    0 <= i < msgs@.len() ==> routed_ok(
                        msgs@[i],
                        party_uids.deep_view(),
                        #[trigger] outs@[i],
                    )
                &&& forall|i: int|
                    0 <= i < msgs@.len() ==> recipient_valid(
                        #[trigger] msgs@[i],
                        party_uids@.len() as int,
                    )
            },
            None => !(forall|i: int|
                0 <= i < msgs@.len() ==> recipient_valid(
                    #[trigger] msgs@[i],
                    party_uids@.len() as int,
                )),
        },
{
    let n = msgs.len();
    let mut outs: Vec<MessageOut> = Vec::new();
    let mut i: usize = 0;
    while i < n
        invariant
            n == msgs@.len(),
            i <= n,
            outs@.len() == i,
            forall|j: int|
                0 <= j < i ==> routed_ok(msgs@[j], party_uids.deep_view(), #[trigger] outs@[j]),
            forall|j: int|
                0 <= j < i ==> recipient_valid(#[trigger] msgs@[j], party_uids@.len() as int),
        decreases n - i,
    {
        let m = &msgs[i];
        match m.recipient {
            Recipient::Broadcast => {
                let out = MessageOut::new_bcast(m.payload.as_slice());
                outs.push(out);
                proof {
                    assert(routed_ok(msgs@[i as int], party_uids.deep_view(), outs@[i as int]));
                }
            },
            Recipient::Peer(p) => {
                if p >= party_uids.len() {
                    return None;
                }
                let out = MessageOut::new_p2p(party_uids[p].as_slice(), m.payload.as_slice());
                outs.push(out);
                proof {
                    assert(party_uids.deep_view()[p as int] == party_uids@[p as int]@);
                    assert(routed_ok(msgs@[i as int], party_uids.deep_view(), outs@[i as int]));
                }
            },
        }
        i += 1;
    }
    Some(outs)
}

} // verus!

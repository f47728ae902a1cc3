//! Per-session message router.
//!
//! The transport delivers a continuous stream of tagged messages; the engine
//! consumes round-local sets. The router keeps one first-in-first-out queue
//! per peer and per message kind: a message that arrives ahead of the locally
//! consumed round simply waits in its queue, so round membership is inferred
//! from arrival order alone. A payload that cannot be attributed to a known
//! party index is dropped silently; the round then never completes, which the
//! session observes as a stall, not as a distinct error.

use vstd::prelude::*;
use vstd::slice::slice_to_vec;

verus! {

/// The message shape the engine expects in one round.
#[derive(Clone, Copy, PartialEq, Eq, Structural, Debug)]
pub enum RoundShape {
    NoMessages,
    BcastOnly,
    P2pOnly,
    BcastAndP2p,
}

pub open spec fn shape_has_bcast(s: RoundShape) -> bool {
    s == RoundShape::BcastOnly || s == RoundShape::BcastAndP2p
}

pub open spec fn shape_has_p2p(s: RoundShape) -> bool {
    s == RoundShape::P2pOnly || s == RoundShape::BcastAndP2p
}

/// Removing a sequence's element and putting another back at the same
/// position is a pointwise update.
proof fn lemma_remove_insert<A>(a: Seq<A>, i: int, x: A)
    requires
        0 <= i < a.len(),
    ensures
        a.remove(i).insert(i, x) =~= a.update(i, x),
{
    a.remove_ensures(i);
    a.remove(i).insert_ensures(i, x);
    assert forall|j: int|
        0 <= j < a.len() implies a.remove(i).insert(i, x)[j] == a.update(i, x)[j] by {
        if j > i {
            assert(a.remove(i).insert(i, x)[j] == a.remove(i)[j - 1]);
            assert(a.remove(i)[j - 1] == a[j]);
        }
    }
}

/// Pushing onto a vector pushes its element views.
proof fn lemma_deep_view_push(pre: Vec<Vec<u8>>, post: Vec<Vec<u8>>, x: Vec<u8>)
    requires
        post@ == pre@.push(x),
    ensures
        post.deep_view() =~= pre.deep_view().push(x@),
{
    assert forall|i: int|
        0 <= i < post.deep_view().len() implies post.deep_view()[i] == pre.deep_view().push(x@)[i]
    by {
        if i < pre@.len() {
            assert(post@[i] == pre@[i]);
        } else {
            assert(post@[i] == x);
        }
    }
}

/// Dropping a vector's first element drops the first element view.
proof fn lemma_deep_view_remove_front(pre: Vec<Vec<u8>>, post: Vec<Vec<u8>>)
    requires
        pre@.len() > 0,
        post@ == pre@.remove(0),
    ensures
        post.deep_view() =~= pre.deep_view().remove(0),
{
    pre@.remove_ensures(0);
    pre.deep_view().remove_ensures(0);
    assert forall|i: int|
        0 <= i < post.deep_view().len() implies post.deep_view()[i] == pre.deep_view().remove(0)[i]
    by {
        assert(post@[i] == pre@[i + 1]);
        assert(pre.deep_view().remove(0)[i] == pre.deep_view()[i + 1]);
    }
}

/// The position of a participant identity in the ordered list: the party
/// index that incoming traffic is attributed to. `None` means the sender is
/// unknown, and its traffic is dropped.
pub fn party_index_of(party_uids: &Vec<Vec<u8>>, uid: &[u8]) -> (r: Option<usize>)
    ensures
        match r {
            Some(i) => i < party_uids@.len() && party_uids@[i as int]@ == uid@ && (forall|j: int|
                0 <= j < i ==> #[trigger] party_uids@[j]@ != uid@),
            None => forall|j: int|
                0 <= j < party_uids@.len() ==> #[trigger] party_uids@[j]@ != uid@,
        },
{
    let n = party_uids.len();
    let mut i: usize = 0;
    while i < n
        invariant
            n == party_uids@.len(),
            i <= n,
            forall|j: int| 0 <= j < i ==> #[trigger] party_uids@[j]@ != uid@,
        decreases n - i,
    {
        if crate::kv::bytes_eq(party_uids[i].as_slice(), uid) {
            return Some(i);
        }
        i += 1;
    }
    None
}

/// One round's full incoming set, indexed by sender: `None` stands at the
/// local party's own position and wherever the shape carries no such message.
pub struct RoundIn {
    pub bcasts: Vec<Option<Vec<u8>>>,
    pub p2ps: Vec<Option<Vec<u8>>>,
}

/// Buffers transport messages per sender until the session consumes a round.
pub struct Router {
    party_count: usize,
    me: usize,
    bcast_queues: Vec<Vec<Vec<u8>>>,
    p2p_queues: Vec<Vec<Vec<u8>>>,
}

impl Router {
    /// Number of participants this router routes among.
    pub closed spec fn n(self) -> int {
        self.party_count as int
    }

    /// The local party's index.
    pub closed spec fn me(self) -> int {
        self.me as int
    }

    /// Broadcast payloads received from `s` and not yet consumed, oldest first.
    pub closed spec fn bcasts_from(self, s: int) -> Seq<Seq<u8>> {
        self.bcast_queues@[s].deep_view()
    }

    /// Point-to-point payloads received from `s` and not yet consumed, oldest
    /// first.
    pub closed spec fn p2ps_from(self, s: int) -> Seq<Seq<u8>> {
        self.p2p_queues@[s].deep_view()
    }

    pub closed spec fn wf(self) -> bool {
        &&& 0 < self.party_count
        &&& self.me < self.party_count
        &&& self.bcast_queues@.len() == self.party_count
        &&& self.p2p_queues@.len() == self.party_count
    }

    /// A round of the given shape is complete exactly when every other
    /// participant's required message of each kind has been recorded.
    pub open spec fn round_complete(self, shape: RoundShape) -> bool {
        forall|s: int|
            #![trigger self.bcasts_from(s)]
            #![trigger self.p2ps_from(s)]
            0 <= s < self.n() && s != self.me() ==> ((shape_has_bcast(shape)
                ==> self.bcasts_from(s).len() > 0) && (shape_has_p2p(shape)
                ==> self.p2ps_from(s).len() > 0))
    }

    /// A fresh router with every queue empty.
    pub fn new(party_count: usize, me: usize) -> (r: Router)
        requires
            0 < party_count,
            me < party_count,
        ensures
            r.wf(),
            r.n() == party_count,
            r.me() == me,
            forall|s: int|
                #![trigger r.bcasts_from(s)]
                #![trigger r.p2ps_from(s)]
                0 <= s < party_count ==> r.bcasts_from(s).len() == 0 && r.p2ps_from(s).len() == 0,
    {
        let mut bcast_queues: Vec<Vec<Vec<u8>>> = Vec::new();
        let mut p2p_queues: Vec<Vec<Vec<u8>>> = Vec::new();
        let mut i: usize = 0;
        while i < party_count
            invariant
                i <= party_count,
                bcast_queues@.len() == i,
                p2p_queues@.len() == i,
                forall|j: int| 0 <= j < i ==> #[trigger] bcast_queues@[j]@.len() == 0,
                forall|j: int| 0 <= j < i ==> #[trigger] p2p_queues@[j]@.len() == 0,
            decreases party_count - i,
        {
            bcast_queues.push(Vec::new());
            p2p_queues.push(Vec::new());
            i += 1;
        }
        Router { party_count, me, bcast_queues, p2p_queues }
    }

    /// Record a broadcast payload from `sender`; an unattributable sender
    /// (out of range, or the local party itself) is dropped silently.
    pub fn record_bcast(&mut self, sender: usize, payload: &[u8])
        requires
            old(self).wf(),
        ensures
            final(self).wf(),
            recorded_one(
                *old(self),
                *final(self),
                sender as int,
                payload@,
                true,
            ),
    {
        if sender < self.party_count && sender != self.me {
            let ghost pre = *self;
            let mut q = self.bcast_queues.remove(sender);
            let ghost q0 = q;
            let pv = slice_to_vec(payload);
            let ghost pvg = pv;
            q.push(pv);
            proof {
                lemma_deep_view_push(q0, q, pvg);
            }
            self.bcast_queues.insert(sender, q);
            proof {
                lemma_remove_insert(pre.bcast_queues@, sender as int, q);
                assert(self.bcast_queues@ =~= pre.bcast_queues@.update(sender as int, q));
                assert(self.bcasts_from(sender as int) =~= pre.bcasts_from(sender as int).push(
                    payload@,
                ));
            }
        }
    }

    /// Record a point-to-point payload from `sender`; an unattributable
    /// sender is dropped silently.
    pub fn record_p2p(&mut self, sender: usize, payload: &[u8])
        requires
            old(self).wf(),
        ensures
            final(self).wf(),
            recorded_one(
                *old(self),
                *final(self),
                sender as int,
                payload@,
                false,
            ),
    {
        if sender < self.party_count && sender != self.me {
            let ghost pre = *self;
            let mut q = self.p2p_queues.remove(sender);
            let ghost q0 = q;
            let pv = slice_to_vec(payload);
            let ghost pvg = pv;
            q.push(pv);
            proof {
                lemma_deep_view_push(q0, q, pvg);
            }
            self.p2p_queues.insert(sender, q);
            proof {
                lemma_remove_insert(pre.p2p_queues@, sender as int, q);
                assert(self.p2p_queues@ =~= pre.p2p_queues@.update(sender as int, q));
                assert(self.p2ps_from(sender as int) =~= pre.p2ps_from(sender as int).push(
                    payload@,
                ));
            }
        }
    }

    /// Does the current round, of the given shape, have its full incoming set?
    pub fn is_round_complete(&self, shape: RoundShape) -> (r: bool)
        requires
            self.wf(),
        ensures
            r == self.round_complete(shape),
    {
        let need_bcast = shape == RoundShape::BcastOnly || shape == RoundShape::BcastAndP2p;
        let need_p2p = shape == RoundShape::P2pOnly || shape == RoundShape::BcastAndP2p;
        let n = self.party_count;
        let mut s: usize = 0;
        while s < n
            invariant
                self.wf(),
                n == self.party_count,
                s <= n,
                need_bcast == shape_has_bcast(shape),
                need_p2p == shape_has_p2p(shape),
                forall|j: int|
                    #![trigger self.bcasts_from(j)]
                    #![trigger self.p2ps_from(j)]
                    0 <= j < s && j != self.me() ==> ((shape_has_bcast(shape)
                        ==> self.bcasts_from(j).len() > 0) && (shape_has_p2p(shape)
                        ==> self.p2ps_from(j).len() > 0)),
            decreases n - s,
        {
            if s != self.me {
                if need_bcast && self.bcast_queues[s].len() == 0 {
                    proof {
                        assert(self.bcasts_from(s as int).len() == 0);
                    }
                    return false;
                }
                if need_p2p && self.p2p_queues[s].len() == 0 {
                    proof {
                        assert(self.p2ps_from(s as int).len() == 0);
                    }
                    return false;
                }
                proof {
                    assert(need_bcast ==> self.bcasts_from(s as int).len() > 0);
                    assert(need_p2p ==> self.p2ps_from(s as int).len() > 0);
                }
            }
            s += 1;
        }
        true
    }

    /// Consume the current round's full incoming set.
    pub fn take_round(&mut self, shape: RoundShape) -> (r: RoundIn)
        requires
            old(self).wf(),
            old(self).round_complete(shape),
        ensures
            final(self).wf(),
            take_round_spec(*old(self), *final(self), shape, r),
    {
        let need_bcast = shape == RoundShape::BcastOnly || shape == RoundShape::BcastAndP2p;
        let need_p2p = shape == RoundShape::P2pOnly || shape == RoundShape::BcastAndP2p;
        let n = self.party_count;
        let mut bcasts: Vec<Option<Vec<u8>>> = Vec::new();
        let mut p2ps: Vec<Option<Vec<u8>>> = Vec::new();
        let mut s: usize = 0;
        while s < n
            invariant
                self.wf(),
                n == self.party_count,
                self.party_count == old(self).party_count,
                self.me == old(self).me,
                s <= n,
                need_bcast == shape_has_bcast(shape),
                need_p2p == shape_has_p2p(shape),
                old(self).round_complete(shape),
                bcasts@.len() == s,
                p2ps@.len() == s,
                forall|j: int|
                    s <= j < n ==> self.bcasts_from(j) == #[trigger] old(self).bcasts_from(j),
                forall|j: int|
                    s <= j < n ==> self.p2ps_from(j) == #[trigger] old(self).p2ps_from(j),
                forall|j: int|
                    0 <= j < s ==> taken_one(
                        #[trigger] old(self).bcasts_from(j),
                        self.bcasts_from(j),
                        bcasts@[j].deep_view(),
                        shape_has_bcast(shape),
                        j == self.me(),
                    ),
                forall|j: int|
                    0 <= j < s ==> taken_one(
                        #[trigger] old(self).p2ps_from(j),
                        self.p2ps_from(j),
                        p2ps@[j].deep_view(),
                        shape_has_p2p(shape),
                        j == self.me(),
                    ),
            decreases n - s,
        {
            if s != self.me && need_bcast {
                let ghost pre = *self;
                proof {
                    assert(pre.bcasts_from(s as int) == old(self).bcasts_from(s as int));
                    assert(pre.bcasts_from(s as int).len() > 0);
                }
                let mut q = self.bcast_queues.remove(s);
                let ghost q0 = q;
                assert(q.deep_view() == old(self).bcasts_from(s as int));
                let front = q.remove(0);
                proof {
                    lemma_deep_view_remove_front(q0, q);
                    assert(front@ == q0.deep_view()[0]);
                }
                self.bcast_queues.insert(s, q);
                proof {
                    lemma_remove_insert(pre.bcast_queues@, s as int, q);
                    assert(self.bcast_queues@ =~= pre.bcast_queues@.update(s as int, q));
                    assert(self.bcasts_from(s as int) =~= pre.bcasts_from(s as int).remove(0));
                }
                bcasts.push(Some(front));
            } else {
                bcasts.push(None);
            }
            if s != self.me && need_p2p {
                let ghost pre = *self;
                proof {
                    assert(pre.p2ps_from(s as int) == old(self).p2ps_from(s as int));
                    assert(pre.p2ps_from(s as int).len() > 0);
                }
                let mut q = self.p2p_queues.remove(s);
                let ghost q0 = q;
                assert(q.deep_view() == old(self).p2ps_from(s as int));
                let front = q.remove(0);
                proof {
                    lemma_deep_view_remove_front(q0, q);
                    assert(front@ == q0.deep_view()[0]);
                }
                self.p2p_queues.insert(s, q);
                proof {
                    lemma_remove_insert(pre.p2p_queues@, s as int, q);
                    assert(self.p2p_queues@ =~= pre.p2p_queues@.update(s as int, q));
                    assert(self.p2ps_from(s as int) =~= pre.p2ps_from(s as int).remove(0));
                }
                p2ps.push(Some(front));
            } else {
                p2ps.push(None);
            }
            s += 1;
        }
        RoundIn { bcasts, p2ps }
    }
}

/// Exactly what recording one payload does to the router: attributable
/// payloads join the back of the sender's queue of that kind; everything
/// else is dropped silently and the router is unchanged.
pub open spec fn recorded_one(
    pre: Router,
    post: Router,
    sender: int,
    payload: Seq<u8>,
    is_bcast: bool,
) -> bool {
    &&& post.n() == pre.n()
    &&& post.me() == pre.me()
    &&& if 0 <= sender < pre.n() && sender != pre.me() {
        &&& if is_bcast {
            &&& post.bcasts_from(sender) == pre.bcasts_from(sender).push(payload)
            &&& forall|j: int|
                0 <= j < pre.n() && j != sender ==> #[trigger] post.bcasts_from(j)
                    == pre.bcasts_from(j)
            &&& forall|j: int| 0 <= j < pre.n() ==> #[trigger] post.p2ps_from(j) == pre.p2ps_from(j)
        } else {
            &&& post.p2ps_from(sender) == pre.p2ps_from(sender).push(payload)
            &&& forall|j: int|
                0 <= j < pre.n() && j != sender ==> #[trigger] post.p2ps_from(j) == pre.p2ps_from(
                    j,
                )
            &&& forall|j: int|
                0 <= j < pre.n() ==> #[trigger] post.bcasts_from(j) == pre.bcasts_from(j)
        }
    } else {
        post == pre
    }
}

/// What consuming a round does to one sender's queue of one kind: where the
/// shape requires a message from a peer, the queue's front is handed out and
/// leaves the queue; everywhere else nothing moves.
pub open spec fn taken_one(
    pre_q: Seq<Seq<u8>>,
    post_q: Seq<Seq<u8>>,
    out: Option<Seq<u8>>,
    need: bool,
    is_me: bool,
) -> bool {
    if need && !is_me {
        &&& pre_q.len() > 0
        &&& out == Some(pre_q[0])
        &&& post_q == pre_q.remove(0)
    } else {
        &&& out is None
        &&& post_q == pre_q
    }
}

/// Exactly what [`Router::take_round`] does, sender by sender.
pub open spec fn take_round_spec(pre: Router, post: Router, shape: RoundShape, r: RoundIn) -> bool {
    &&& post.n() == pre.n()
    &&& post.me() == pre.me()
    &&& r.bcasts@.len() == pre.n()
    &&& r.p2ps@.len() == pre.n()
    &&& forall|s: int|
        0 <= s < pre.n() ==> taken_one(
            pre.bcasts_from(s),
            #[trigger] post.bcasts_from(s),
            r.bcasts@[s].deep_view(),
            shape_has_bcast(shape),
            s == pre.me(),
        )
    &&& forall|s: int|
        0 <= s < pre.n() ==> taken_one(
            pre.p2ps_from(s),
            #[trigger] post.p2ps_from(s),
            r.p2ps@[s].deep_view(),
            shape_has_p2p(shape),
            s == pre.me(),
        )
}

} // verus!

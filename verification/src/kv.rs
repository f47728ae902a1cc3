//! Key-value store with a reservation protocol.
//!
//! Each key walks a strictly monotonic state machine
//! `Unreserved -> Reserved(token) -> Committed(entry)`: at most one live
//! reservation exists per key, a committed entry is terminal and never
//! updated in place, and a reservation can be abandoned, returning the key
//! to `Unreserved`. Reservation tokens are issued from a monotonic counter,
//! so a token from an abandoned reservation never matches a later one.

use vstd::prelude::*;
use vstd::slice::slice_to_vec;

verus! {

/// Secret-share material and participant metadata committed under one
/// ceremony identifier. Immutable once committed.
#[derive(Debug)]
pub struct StoreEntry {
    /// Serialized secret-share material, one blob per locally owned sub-share.
    pub shares: Vec<Vec<u8>>,
    /// Participant identities, in ceremony order.
    pub party_uids: Vec<Vec<u8>>,
    /// Number of sub-shares each participant holds, parallel to `party_uids`.
    pub share_counts: Vec<usize>,
    /// The local party's position in `party_uids`.
    pub my_index: usize,
}

/// Mathematical value of a [`StoreEntry`].
pub struct StoreEntryView {
    pub shares: Seq<Seq<u8>>,
    pub party_uids: Seq<Seq<u8>>,
    pub share_counts: Seq<usize>,
    pub my_index: usize,
}

impl View for StoreEntry {
    type V = StoreEntryView;

    open spec fn view(&self) -> StoreEntryView {
        StoreEntryView {
            shares: self.shares.deep_view(),
            party_uids: self.party_uids.deep_view(),
            share_counts: self.share_counts@,
            my_index: self.my_index,
        }
    }
}

/// State of one key's column inside the store. `Vacant` marks a column whose
/// key is currently `Unreserved` (a released reservation leaves one behind).
enum KeyState {
    Vacant,
    Reserved(u64),
    Committed(StoreEntry),
}

/// State of one key as the contracts speak of it; an `Unreserved` key has
/// no state at all.
pub enum KeyStateView {
    Reserved(u64),
    Committed(StoreEntryView),
}

/// Transient claim on a key, handed out by [`KvStore::reserve`] and spent by
/// [`KvStore::put`] or [`KvStore::abandon`].
#[derive(Debug)]
pub struct Reservation {
    pub key: Vec<u8>,
    pub token: u64,
}

/// The errors of the store, surfaced verbatim to callers.
#[derive(Clone, Copy, PartialEq, Eq, Structural, Debug)]
pub enum StoreError {
    /// `reserve` found a live reservation on the key.
    KeyAlreadyReserved,
    /// `reserve` found the key already committed.
    KeyAlreadyExists,
    /// `put` presented a token that does not match the key's live
    /// reservation.
    ReservationInvalid,
    /// `get` found the key unreserved or not yet committed.
    KeyNotFound,
}

/// Map from ceremony identifier to [`StoreEntry`], with a
/// single-writer-per-key guarantee enforced by reservations.
pub struct KvStore {
    keys: Vec<Vec<u8>>,
    states: Vec<KeyState>,
    next_token: u64,
}

spec fn seq_contains(ks: Seq<Seq<u8>>, k: Seq<u8>) -> bool {
    exists|i: int| 0 <= i < ks.len() && ks[i] == k
}

spec fn seq_index_of(ks: Seq<Seq<u8>>, k: Seq<u8>) -> int {
    choose|i: int| 0 <= i < ks.len() && ks[i] == k
}

spec fn unique_keys(ks: Seq<Seq<u8>>) -> bool {
    forall|i: int, j: int| 0 <= i < j < ks.len() ==> ks[i] != ks[j]
}

/// In a duplicate-free key sequence, the index found for a key present at
/// position `i` is `i` itself.
proof fn lemma_found_index(ks: Seq<Seq<u8>>, i: int)
    requires
        unique_keys(ks),
        0 <= i < ks.len(),
    ensures
        seq_contains(ks, ks[i]),
        seq_index_of(ks, ks[i]) == i,
{
    assert(seq_contains(ks, ks[i]));
    let w = seq_index_of(ks, ks[i]);
    assert(0 <= w < ks.len() && ks[w] == ks[i]);
    if w < i {
        assert(ks[w] != ks[i]);
    }
    if i < w {
        assert(ks[i] != ks[w]);
    }
}

impl KeyState {
    spec fn view_spec(self) -> Option<KeyStateView> {
        match self {
            KeyState::Vacant => None,
            KeyState::Reserved(t) => Some(KeyStateView::Reserved(t)),
            KeyState::Committed(e) => Some(KeyStateView::Committed(e@)),
        }
    }
}

impl KvStore {
    spec fn key_views(self) -> Seq<Seq<u8>> {
        Seq::new(self.keys@.len(), |i: int| self.keys@[i]@)
    }

    /// Internal well-formedness: parallel columns, no duplicate key, and
    /// every live token below the issue counter.
    pub closed spec fn wf(self) -> bool {
        &&& self.keys@.len() == self.states@.len()
        &&& unique_keys(self.key_views())
        &&& forall|i: int|
            0 <= i < self.states@.len() ==> (#[trigger] self.states@[i] matches KeyState::Reserved(
                t,
            ) ==> t < self.next_token)
    }

    /// The state the key is in: `None` means `Unreserved`.
    pub closed spec fn state_of(self, k: Seq<u8>) -> Option<KeyStateView> {
        if seq_contains(self.key_views(), k) {
            self.states@[seq_index_of(self.key_views(), k)].view_spec()
        } else {
            None
        }
    }

    /// The token counter; fresh reservations take values from here upward.
    pub closed spec fn token_counter(self) -> u64 {
        self.next_token
    }

    pub open spec fn is_unreserved(self, k: Seq<u8>) -> bool {
        self.state_of(k) is None
    }

    pub open spec fn is_reserved(self, k: Seq<u8>) -> bool {
        self.state_of(k) matches Some(KeyStateView::Reserved(_))
    }

    pub open spec fn is_committed(self, k: Seq<u8>) -> bool {
        self.state_of(k) matches Some(KeyStateView::Committed(_))
    }

    /// An empty store: every key `Unreserved`.
    pub fn new() -> (r: KvStore)
        ensures
            r.wf(),
            forall|k: Seq<u8>| r.state_of(k) is None,
            r.token_counter() == 0,
    {
        KvStore { keys: Vec::new(), states: Vec::new(), next_token: 0 }
    }

    /// Can another reservation token still be issued? `reserve` asks for
    /// this as a precondition; a host checks it here first.
    pub fn tokens_available(&self) -> (r: bool)
        ensures
            r == (self.token_counter() < u64::MAX),
    {
        self.next_token < u64::MAX
    }

    /// Linear scan for the key's column index.
    fn find_index(&self, key: &[u8]) -> (r: Option<usize>)
        requires
            self.wf(),
        ensures
            match r {
                Some(i) => {
                    &&& i < self.keys@.len()
                    &&& self.key_views()[i as int] == key@
                    &&& seq_contains(self.key_views(), key@)
                    &&& seq_index_of(self.key_views(), key@) == i as int
                    &&& self.state_of(key@) == self.states@[i as int].view_spec()
                },
                None => {
                    &&& !seq_contains(self.key_views(), key@)
                    &&& self.state_of(key@) is None
                },
            },
    {
        let n = self.keys.len();
        let mut i: usize = 0;
        while i < n
            invariant
                self.wf(),
                n == self.keys@.len(),
                i <= n,
                forall|j: int| 0 <= j < i ==> self.key_views()[j] != key@,
            decreases n - i,
        {
            if bytes_eq(self.keys[i].as_slice(), key) {
                proof {
                    assert(self.key_views()[i as int] == key@);
                    lemma_found_index(self.key_views(), i as int);
                }
                return Some(i);
            }
            i += 1;
        }
        None
    }

    /// Claim the key for one writer.
    ///
    /// Succeeds exactly on an `Unreserved` key, marking it `Reserved` under a
    /// fresh token; fails `KeyAlreadyReserved` on a live reservation and
    /// `KeyAlreadyExists` on a committed key, leaving the store unchanged.
    pub fn reserve(&mut self, key: &[u8]) -> (r: Result<Reservation, StoreError>)
        requires
            old(self).wf(),
            old(self).token_counter() < u64::MAX,
        ensures
            final(self).wf(),
            reserve_spec(*old(self), *final(self), key@, r),
    {
        let token = self.next_token;
        match self.find_index(key) {
            Some(i) => {
                let vacant = match &self.states[i] {
                    KeyState::Vacant => true,
                    KeyState::Reserved(_) => false,
                    KeyState::Committed(_) => false,
                };
                if vacant {
                    let ghost pre = *self;
                    self.states[i] = KeyState::Reserved(token);
                    self.next_token = token + 1;
                    proof {
                        pre.lemma_set_state(*self, i as int);
                    }
                    Ok(Reservation { key: slice_to_vec(key), token })
                } else {
                    let e = match &self.states[i] {
                        KeyState::Vacant => StoreError::KeyAlreadyReserved,
                        KeyState::Reserved(_) => StoreError::KeyAlreadyReserved,
                        KeyState::Committed(_) => StoreError::KeyAlreadyExists,
                    };
                    Err(e)
                }
            },
            None => {
                let ghost pre = *self;
                self.keys.push(slice_to_vec(key));
                self.states.push(KeyState::Reserved(token));
                self.next_token = token + 1;
                proof {
                    pre.lemma_push_state(*self, key@);
                }
                Ok(Reservation { key: slice_to_vec(key), token })
            },
        }
    }

    /// Commit a value under a reservation.
    ///
    /// Succeeds exactly when the key's live reservation carries the
    /// presented token, making the key `Committed(value)`; fails
    /// `ReservationInvalid` otherwise, leaving the store unchanged.
    pub fn put(&mut self, reservation: Reservation, value: StoreEntry) -> (r: Result<
        (),
        StoreError,
    >)
        requires
            old(self).wf(),
        ensures
            final(self).wf(),
            put_spec(*old(self), *final(self), reservation.key@, reservation.token, value@, r),
    {
        match self.find_index(reservation.key.as_slice()) {
            Some(i) => {
                let matches_live = match &self.states[i] {
                    KeyState::Reserved(t) => *t == reservation.token,
                    KeyState::Vacant => false,
                    KeyState::Committed(_) => false,
                };
                if matches_live {
                    let ghost pre = *self;
                    self.states[i] = KeyState::Committed(value);
                    proof {
                        pre.lemma_set_state(*self, i as int);
                    }
                    Ok(())
                } else {
                    Err(StoreError::ReservationInvalid)
                }
            },
            None => Err(StoreError::ReservationInvalid),
        }
    }

    /// Read the committed value under a key.
    ///
    /// Succeeds exactly on a `Committed` key, returning the committed entry;
    /// fails `KeyNotFound` on an `Unreserved` or merely `Reserved` key.
    pub fn get(&self, key: &[u8]) -> (r: Result<&StoreEntry, StoreError>)
        requires
            self.wf(),
        ensures
            get_spec(
                *self,
                key@,
                match r {
                    Ok(e) => Ok(e@),
                    Err(e) => Err(e),
                },
            ),
    {
        match self.find_index(key) {
            Some(i) => match &self.states[i] {
                KeyState::Committed(e) => Ok(e),
                KeyState::Reserved(_) => Err(StoreError::KeyNotFound),
                KeyState::Vacant => Err(StoreError::KeyNotFound),
            },
            None => Err(StoreError::KeyNotFound),
        }
    }

    /// Release a reservation without committing.
    ///
    /// If the key's live reservation carries the presented token, the key
    /// returns to `Unreserved`; in every other state the store is unchanged.
    pub fn abandon(&mut self, reservation: Reservation)
        requires
            old(self).wf(),
        ensures
            final(self).wf(),
            abandon_spec(*old(self), *final(self), reservation.key@, reservation.token),
    {
        match self.find_index(reservation.key.as_slice()) {
            Some(i) => {
                let matches_live = match &self.states[i] {
                    KeyState::Reserved(t) => *t == reservation.token,
                    KeyState::Vacant => false,
                    KeyState::Committed(_) => false,
                };
                if matches_live {
                    let ghost pre = *self;
                    self.states[i] = KeyState::Vacant;
                    proof {
                        pre.lemma_set_state(*self, i as int);
                    }
                }
            },
            None => {},
        }
    }

    /// Overwriting one column's state leaves every other key's state, and
    /// the whole key column, untouched.
    proof fn lemma_set_state(self, post: KvStore, i: int)
        requires
            self.wf(),
            0 <= i < self.keys@.len(),
            post.keys@ == self.keys@,
            post.states@ == self.states@.update(i, post.states@[i]),
        ensures
            post.key_views() == self.key_views(),
            post.state_of(self.key_views()[i]) == post.states@[i].view_spec(),
            forall|k2: Seq<u8>|
                k2 != self.key_views()[i] ==> post.state_of(k2) == self.state_of(k2),
    {
        assert(post.key_views() =~= self.key_views());
        let ks = self.key_views();
        lemma_found_index(ks, i);
        assert forall|k2: Seq<u8>| k2 != ks[i] implies post.state_of(k2) == self.state_of(
            k2,
        ) by {
            if seq_contains(ks, k2) {
                let w = seq_index_of(ks, k2);
                assert(0 <= w < ks.len() && ks[w] == k2);
                assert(w != i);
                assert(post.states@[w] == self.states@[w]);
            }
        }
    }

    /// Pushing a fresh key column extends the map at exactly that key.
    proof fn lemma_push_state(self, post: KvStore, k: Seq<u8>)
        requires
            self.wf(),
            !seq_contains(self.key_views(), k),
            post.keys@.len() == self.keys@.len() + 1,
            post.keys@ == self.keys@.push(post.keys@[self.keys@.len() as int]),
            post.keys@[self.keys@.len() as int]@ == k,
            post.states@ == self.states@.push(post.states@[self.keys@.len() as int]),
        ensures
            unique_keys(post.key_views()),
            post.state_of(k) == post.states@[self.keys@.len() as int].view_spec(),
            forall|k2: Seq<u8>| k2 != k ==> post.state_of(k2) == self.state_of(k2),
    {
        let n = self.keys@.len() as int;
        let ks = self.key_views();
        let pks = post.key_views();
        assert(pks.len() == n + 1);
        assert forall|j: int| 0 <= j < n implies pks[j] == ks[j] by {
            assert(post.keys@[j] == self.keys@[j]);
        }
        assert(pks[n] == k);
        assert forall|i: int, j: int| 0 <= i < j < pks.len() implies pks[i] != pks[j] by {
            if j < n {
                assert(pks[i] == ks[i] && pks[j] == ks[j]);
            } else {
                assert(pks[i] == ks[i]);
                if ks[i] == k {
                    assert(seq_contains(ks, k));
                }
            }
        }
        lemma_found_index(pks, n);
        assert forall|k2: Seq<u8>| k2 != k implies post.state_of(k2) == self.state_of(k2) by {
            if seq_contains(ks, k2) {
                let w = seq_index_of(ks, k2);
                assert(0 <= w < ks.len() && ks[w] == k2);
                assert(pks[w] == k2);
                lemma_found_index(pks, w);
                assert(post.states@[w] == self.states@[w]);
            } else {
                if seq_contains(pks, k2) {
                    let w = seq_index_of(pks, k2);
                    assert(0 <= w < pks.len() && pks[w] == k2);
                    assert(w == n);
                }
            }
        }
    }
}

/// Bytewise equality of two slices.
pub fn bytes_eq(a: &[u8], b: &[u8]) -> (r: bool)
    ensures
        r == (a@ == b@),
{
    if a.len() != b.len() {
        return false;
    }
    let n = a.len();
    let mut i: usize = 0;
    while i < n
        invariant
            n == a@.len(),
            n == b@.len(),
            i <= n,
            forall|j: int| 0 <= j < i ==> a@[j] == b@[j],
        decreases n - i,
    {
        if a[i] != b[i] {
            return false;
        }
        i += 1;
    }
    proof {
        assert(a@ =~= b@);
    }
    true
}

/// Exactly what [`KvStore::reserve`] does: success if and only if the key was
/// `Unreserved`, the token fresh from the counter, no other key touched.
pub open spec fn reserve_spec(
    pre: KvStore,
    post: KvStore,
    k: Seq<u8>,
    r: Result<Reservation, StoreError>,
) -> bool {
    match r {
        Ok(res) => {
            &&& pre.state_of(k) is None
            &&& res.key@ == k
            &&& res.token == pre.token_counter()
            &&& post.state_of(k) == Some(KeyStateView::Reserved(res.token))
            &&& post.token_counter() == pre.token_counter() + 1
            &&& forall|k2: Seq<u8>| k2 != k ==> post.state_of(k2) == pre.state_of(k2)
        },
        Err(e) => {
            &&& post == pre
            &&& (e == StoreError::KeyAlreadyReserved <==> pre.is_reserved(k))
            &&& (e == StoreError::KeyAlreadyExists <==> pre.is_committed(k))
            &&& !(pre.state_of(k) is None)
        },
    }
}

/// Exactly what [`KvStore::put`] does: success if and only if the key's live
/// reservation carries the presented token; the key then holds exactly the
/// committed value.
pub open spec fn put_spec(
    pre: KvStore,
    post: KvStore,
    k: Seq<u8>,
    token: u64,
    v: StoreEntryView,
    r: Result<(), StoreError>,
) -> bool {
    match r {
        Ok(()) => {
            &&& pre.state_of(k) == Some(KeyStateView::Reserved(token))
            &&& post.state_of(k) == Some(KeyStateView::Committed(v))
            &&& post.token_counter() == pre.token_counter()
            &&& forall|k2: Seq<u8>| k2 != k ==> post.state_of(k2) == pre.state_of(k2)
        },
        Err(e) => {
            &&& post == pre
            &&& e == StoreError::ReservationInvalid
            &&& pre.state_of(k) != Some(KeyStateView::Reserved(token))
        },
    }
}

/// Exactly what [`KvStore::get`] does: the committed value if and only if the
/// key is `Committed`, else `KeyNotFound`; the store is never changed.
pub open spec fn get_spec(s: KvStore, k: Seq<u8>, r: Result<StoreEntryView, StoreError>) -> bool {
    match r {
        Ok(v) => s.state_of(k) == Some(KeyStateView::Committed(v)),
        Err(e) => {
            &&& e == StoreError::KeyNotFound
            &&& !s.is_committed(k)
        },
    }
}

/// Exactly what [`KvStore::abandon`] does: a matching live reservation
/// returns the key to `Unreserved`; anything else leaves the store unchanged.
pub open spec fn abandon_spec(pre: KvStore, post: KvStore, k: Seq<u8>, token: u64) -> bool {
    &&& if pre.state_of(k) == Some(KeyStateView::Reserved(token)) {
        &&& post.state_of(k) is None
        &&& forall|k2: Seq<u8>| k2 != k ==> post.state_of(k2) == pre.state_of(k2)
    } else {
        post == pre
    }
    &&& post.token_counter() == pre.token_counter()
}

/// Law: of two reservations of one unreserved key in direct succession,
/// exactly one succeeds; the other fails `KeyAlreadyReserved`.
pub proof fn law_reserve_mutual_exclusion(
    s0: KvStore,
    s1: KvStore,
    s2: KvStore,
    k: Seq<u8>,
    r1: Result<Reservation, StoreError>,
    r2: Result<Reservation, StoreError>,
)
    requires
        s0.is_unreserved(k),
        reserve_spec(s0, s1, k, r1),
        reserve_spec(s1, s2, k, r2),
    ensures
        r1 is Ok,
        r2 == Err::<Reservation, StoreError>(StoreError::KeyAlreadyReserved),
{
}

/// Law: a `put` using the token of an abandoned reservation fails
/// `ReservationInvalid` and commits nothing; a subsequent `reserve` of the
/// key then succeeds.
pub proof fn law_put_after_abandon_fails(
    s0: KvStore,
    s1: KvStore,
    s2: KvStore,
    s3: KvStore,
    s4: KvStore,
    k: Seq<u8>,
    res: Reservation,
    v: StoreEntryView,
    rp: Result<(), StoreError>,
    r2: Result<Reservation, StoreError>,
)
    requires
        reserve_spec(s0, s1, k, Ok(res)),
        abandon_spec(s1, s2, res.key@, res.token),
        put_spec(s2, s3, res.key@, res.token, v, rp),
        reserve_spec(s3, s4, k, r2),
    ensures
        rp == Err::<(), StoreError>(StoreError::ReservationInvalid),
        s3 == s2,
        !s3.is_committed(k),
        r2 is Ok,
{
}

/// Law (round trip): before a commit, `get` fails `KeyNotFound`; after the
/// commit, `get` returns exactly the committed value.
pub proof fn law_get_round_trip(
    s0: KvStore,
    s1: KvStore,
    k: Seq<u8>,
    token: u64,
    v: StoreEntryView,
    g_before: Result<StoreEntryView, StoreError>,
    g_after: Result<StoreEntryView, StoreError>,
)
    requires
        get_spec(s0, k, g_before),
        put_spec(s0, s1, k, token, v, Ok(())),
        get_spec(s1, k, g_after),
    ensures
        g_before == Err::<StoreEntryView, StoreError>(StoreError::KeyNotFound),
        g_after == Ok::<StoreEntryView, StoreError>(v),
{
}

/// Law: a read of a committed key returns exactly the committed value —
/// the round trip holds from whatever operation established the commit.
pub proof fn law_commit_round_trip(
    s: KvStore,
    k: Seq<u8>,
    v: StoreEntryView,
    g: Result<StoreEntryView, StoreError>,
)
    requires
        s.state_of(k) == Some(KeyStateView::Committed(v)),
        get_spec(s, k, g),
    ensures
        g == Ok::<StoreEntryView, StoreError>(v),
{
}

/// Law: tokens are never reused. After a reservation is abandoned and the
/// key reserved afresh, the stale token differs from the live one, so a
/// `put` presenting it still fails and changes nothing.
pub proof fn law_stale_token_after_rereserve(
    s0: KvStore,
    s1: KvStore,
    s2: KvStore,
    s3: KvStore,
    s4: KvStore,
    k: Seq<u8>,
    res: Reservation,
    res2: Reservation,
    v: StoreEntryView,
    rp: Result<(), StoreError>,
)
    requires
        reserve_spec(s0, s1, k, Ok(res)),
        abandon_spec(s1, s2, res.key@, res.token),
        reserve_spec(s2, s3, k, Ok(res2)),
        put_spec(s3, s4, res.key@, res.token, v, rp),
    ensures
        res2.token != res.token,
        rp == Err::<(), StoreError>(StoreError::ReservationInvalid),
        s4 == s3,
{
}

/// Law: a committed key is terminal under `reserve`, whichever key the
/// reservation aims at.
pub proof fn law_committed_stable_reserve(
    pre: KvStore,
    post: KvStore,
    k: Seq<u8>,
    k2: Seq<u8>,
    r: Result<Reservation, StoreError>,
)
    requires
        pre.is_committed(k),
        reserve_spec(pre, post, k2, r),
    ensures
        post.state_of(k) == pre.state_of(k),
{
}

/// Law: a committed key is terminal under `put`, whichever reservation is
/// presented.
pub proof fn law_committed_stable_put(
    pre: KvStore,
    post: KvStore,
    k: Seq<u8>,
    k2: Seq<u8>,
    token: u64,
    v: StoreEntryView,
    r: Result<(), StoreError>,
)
    requires
        pre.is_committed(k),
        put_spec(pre, post, k2, token, v, r),
    ensures
        post.state_of(k) == pre.state_of(k),
{
}

/// Law: a committed key is terminal under `abandon`, whichever reservation is
/// presented.
pub proof fn law_committed_stable_abandon(
    pre: KvStore,
    post: KvStore,
    k: Seq<u8>,
    k2: Seq<u8>,
    token: u64,
)
    requires
        pre.is_committed(k),
        abandon_spec(pre, post, k2, token),
    ensures
        post.state_of(k) == pre.state_of(k),
{
}

} // verus!

//! Share-recovery coordinator.
//!
//! A party that lost its local state rebuilds its secret-share material from
//! its secret seed and one recovery blob per peer, then commits the result
//! through the store under the ordinary reservation discipline. The whole
//! flow is a pure function of its inputs up to the final store write; any
//! failure aborts with zero shares committed and no dangling reservation.

use vstd::prelude::*;
use vstd::pervasive::unreached;
use vstd::slice::{slice_subrange, slice_to_vec};

use crate::engine::{derive_share_material, keypair_derivation_ok, share_bytes_of, vk_of};
use crate::kv::{bytes_eq, KeyStateView, StoreEntry, StoreError};
use crate::service::Gg20Service;

verus! {

/// Ceremony-init parameters, as they arrive from the wire.
pub struct KeygenInit {
    /// The ceremony identifier: the store key and the derivation nonce.
    pub new_key_uid: Vec<u8>,
    /// Participant identities, in ceremony order.
    pub party_uids: Vec<Vec<u8>>,
    /// Sub-shares held by each participant, parallel to `party_uids`.
    pub party_share_counts: Vec<usize>,
    /// The local party's position in `party_uids`.
    pub my_index: usize,
    /// Minimum signer count minus one for a valid signature.
    pub threshold: usize,
}

/// A recovery request: ceremony-init parameters plus one opaque recovery
/// blob per peer.
pub struct RecoverRequest {
    pub keygen_init: Option<KeygenInit>,
    pub share_recovery_infos: Vec<Vec<u8>>,
}

/// Why a recovery aborted. Every abort commits nothing.
#[derive(Clone, Copy, PartialEq, Eq, Structural, Debug)]
pub enum RecoveryError {
    /// Missing or inconsistent ceremony-init parameters.
    MalformedInit,
    /// The named peer's recovery blob cannot be decoded.
    MalformedBlob(usize),
    /// The engine refused to derive the keypair of the named sub-share.
    DerivationFailed(usize),
    /// The named sub-share could not be reconstructed: a peer's record
    /// disagrees with the derived verifying key.
    ShareRecoveryFailed(usize),
    /// The store refused the commit.
    Store(StoreError),
}

/// Total sub-share count over all participants.
pub open spec fn total_shares(counts: Seq<usize>) -> int
    decreases counts.len(),
{
    if counts.len() == 0 {
        0
    } else {
        total_shares(counts.drop_last()) + counts.last()
    }
}

/// Every participant observes the identical, coherent parameter set: parallel
/// lists, a valid local index, and a threshold below the total share count.
pub open spec fn keygen_init_wf(init: KeygenInit) -> bool {
    &&& init.party_uids@.len() == init.party_share_counts@.len()
    &&& 0 < init.party_uids@.len()
    &&& init.my_index < init.party_uids@.len()
    &&& total_shares(init.party_share_counts@) <= usize::MAX
    &&& (init.threshold as int) < total_shares(init.party_share_counts@)
}

/// A prefix's total never exceeds the whole total.
proof fn lemma_total_prefix_le(counts: Seq<usize>, j: int)
    requires
        0 <= j <= counts.len(),
    ensures
        total_shares(counts.take(j)) <= total_shares(counts),
    decreases counts.len() - j,
{
    if j < counts.len() {
        assert(counts.take(j + 1).drop_last() =~= counts.take(j));
        assert(counts.take(j + 1).last() == counts[j]);
        lemma_total_prefix_le(counts, j + 1);
    } else {
        assert(counts.take(j) =~= counts);
    }
}

/// The total sub-share count, or `None` where it exceeds the machine limit.
fn compute_total_shares(counts: &Vec<usize>) -> (r: Option<usize>)
    ensures
        match r {
            Some(t) => t == total_shares(counts@),
            None => total_shares(counts@) > usize::MAX,
        },
{
    let n = counts.len();
    let mut sum: usize = 0;
    let mut i: usize = 0;
    while i < n
        invariant
            n == counts@.len(),
            i <= n,
            sum == total_shares(counts@.take(i as int)),
        decreases n - i,
    {
        let c = counts[i];
        proof {
            assert(counts@.take(i + 1 as int).drop_last() =~= counts@.take(i as int));
            assert(counts@.take(i + 1 as int).last() == counts@[i as int]);
        }
        if c > usize::MAX - sum {
            proof {
                lemma_total_prefix_le(counts@, i + 1 as int);
            }
            return None;
        }
        sum = sum + c;
        i += 1;
    }
    proof {
        assert(counts@.take(n as int) =~= counts@);
    }
    Some(sum)
}

/// Validate ceremony-init parameters; returns them unchanged exactly when
/// they are coherent.
pub fn keygen_sanitize_args(init: KeygenInit) -> (r: Result<KeygenInit, RecoveryError>)
    ensures
        match r {
            Ok(s) => s == init && keygen_init_wf(init),
            Err(e) => e == RecoveryError::MalformedInit && !keygen_init_wf(init),
        },
{
    if init.party_uids.len() != init.party_share_counts.len() {
        return Err(RecoveryError::MalformedInit);
    }
    if init.party_uids.len() == 0 {
        return Err(RecoveryError::MalformedInit);
    }
    if init.my_index >= init.party_uids.len() {
        return Err(RecoveryError::MalformedInit);
    }
    match compute_total_shares(&init.party_share_counts) {
        Some(total) => {
            if init.threshold >= total {
                return Err(RecoveryError::MalformedInit);
            }
            Ok(init)
        },
        None => Err(RecoveryError::MalformedInit),
    }
}

/// Little-endian bytes of `x`, `k` bytes long.
pub open spec fn le_bytes(x: int, k: nat) -> Seq<u8>
    decreases k,
{
    if k == 0 {
        Seq::empty()
    } else {
        seq![(x % 256) as u8] + le_bytes(x / 256, (k - 1) as nat)
    }
}

fn le_bytes_exec(x: u64, k: usize) -> (r: Vec<u8>)
    ensures
        r@ == le_bytes(x as int, k as nat),
    decreases k,
{
    let mut r: Vec<u8> = Vec::new();
    if k == 0 {
        proof {
            assert(r@ =~= le_bytes(x as int, 0));
        }
        return r;
    }
    r.push((x % 256) as u8);
    let mut rest = le_bytes_exec(x / 256, k - 1);
    r.append(&mut rest);
    proof {
        assert(r@ =~= seq![((x as int) % 256) as u8] + le_bytes(x as int / 256, (k - 1) as nat));
    }
    r
}

/// The session nonce handed to the engine for one sub-share's derivation.
///
/// The hardened mode separates sub-shares by appending the party and
/// sub-share indices to the ceremony identifier; the legacy mode, kept for
/// shares derived under it, uses the bare identifier for every sub-share.
pub open spec fn spec_session_nonce(
    hardened: bool,
    base: Seq<u8>,
    party: usize,
    subshare: usize,
) -> Seq<u8> {
    if hardened {
        base + le_bytes(party as int, 8) + le_bytes(subshare as int, 8)
    } else {
        base
    }
}

/// Build the derivation nonce of one sub-share.
pub fn session_nonce(hardened: bool, base: &[u8], party: usize, subshare: usize) -> (r: Vec<u8>)
    ensures
        r@ == spec_session_nonce(hardened, base@, party, subshare),
{
    let mut r = slice_to_vec(base);
    if hardened {
        let mut p = le_bytes_exec(party as u64, 8);
        r.append(&mut p);
        let mut s2 = le_bytes_exec(subshare as u64, 8);
        r.append(&mut s2);
    }
    r
}

/// One peer's recovery blob: the expected verifying key of every sub-share
/// of the recovering party, 33 bytes each, concatenated in sub-share order.
/// Decodes exactly when the length fits that shape.
pub fn parse_recovery_blob(blob: &[u8], share_count: usize) -> (r: Option<Vec<Vec<u8>>>)
    ensures
        match r {
            Some(keys) => {
                &&& blob@.len() == 33 * share_count
                &&& keys@.len() == share_count
                &&& forall|i: int|
                    0 <= i < share_count ==> #[trigger] keys@[i]@ == blob_key(blob@, i)
            },
            None => blob@.len() != 33 * share_count,
        },
{
    if blob.len() % 33 != 0 || blob.len() / 33 != share_count {
        proof {
            assert(blob@.len() != 33 * share_count) by (nonlinear_arith)
                requires
                    blob@.len() % 33 != 0 || blob@.len() / 33 != share_count as int,
            ;
        }
        return None;
    }
    proof {
        assert(blob@.len() == 33 * share_count) by (nonlinear_arith)
            requires
                blob@.len() % 33 == 0 && blob@.len() / 33 == share_count as int,
        ;
    }
    let blob_len = blob.len();
    let mut keys: Vec<Vec<u8>> = Vec::new();
    let mut i: usize = 0;
    while i < share_count
        invariant
            blob@.len() == 33 * share_count,
            blob_len == blob@.len(),
            i <= share_count,
            keys@.len() == i,
            forall|j: int| 0 <= j < i ==> #[trigger] keys@[j]@ == blob_key(blob@, j),
        decreases share_count - i,
    {
        proof {
            assert(33 * (i as int) + 33 <= 33 * (share_count as int)) by (nonlinear_arith)
                requires
                    (i as int) < share_count as int,
            ;
            assert(33 * (i as int) + 33 <= blob@.len());
        }
        let start = 33 * i;
        let piece = slice_to_vec(slice_subrange(blob, start, start + 33));
        keys.push(piece);
        i += 1;
    }
    Some(keys)
}

/// Does every peer's record of this sub-share's verifying key agree with the
/// derived one? Exact over whatever key the engine handed back.
pub fn subshare_key_agreed(vk: &Vec<u8>, parsed: &Vec<Vec<Vec<u8>>>, subshare: usize) -> (r: bool)
    requires
        forall|j: int| 0 <= j < parsed@.len() ==> subshare < #[trigger] parsed@[j]@.len(),
    ensures
        r == (forall|j: int|
            0 <= j < parsed@.len() ==> #[trigger] parsed@[j]@[subshare as int]@ == vk@),
{
    let n = parsed.len();
    let mut j: usize = 0;
    while j < n
        invariant
            n == parsed@.len(),
            j <= n,
            forall|j2: int| 0 <= j2 < parsed@.len() ==> subshare < #[trigger] parsed@[j2]@.len(),
            forall|j2: int|
                0 <= j2 < j ==> #[trigger] parsed@[j2]@[subshare as int]@ == vk@,
        decreases n - j,
    {
        if !bytes_eq(parsed[j][subshare].as_slice(), vk.as_slice()) {
            return false;
        }
        j += 1;
    }
    true
}

/// The structural conditions on a recovery's arguments: a blob per peer, a
/// valid local index, and a coherent threshold.
pub open spec fn recovery_args_ok(
    n_blobs: int,
    my_index: usize,
    counts: Seq<usize>,
    threshold: usize,
) -> bool {
    &&& my_index < counts.len()
    &&& n_blobs == counts.len()
    &&& total_shares(counts) <= usize::MAX
    &&& (threshold as int) < total_shares(counts)
}

/// The verifying key one peer's blob records for one sub-share.
pub open spec fn blob_key(blob: Seq<u8>, i: int) -> Seq<u8> {
    blob.subrange(33 * i, 33 * i + 33)
}

/// Every peer's blob decodes: one key per locally owned sub-share.
pub open spec fn blobs_ok(blobs: Seq<Seq<u8>>, share_count: int) -> bool {
    forall|j: int| 0 <= j < blobs.len() ==> (#[trigger] blobs[j]).len() == 33 * share_count
}

/// One sub-share reconstructs: its keypair derives, and every peer's record
/// of its verifying key agrees with the derived one.
pub open spec fn subshare_ok(
    seed: Seq<u8>,
    hardened: bool,
    base: Seq<u8>,
    my_index: usize,
    blobs: Seq<Seq<u8>>,
    i: int,
) -> bool {
    &&& keypair_derivation_ok(seed, spec_session_nonce(hardened, base, my_index, i as usize))
    &&& forall|j: int|
        0 <= j < blobs.len() ==> #[trigger] blob_key(blobs[j], i) == vk_of(
            seed,
            spec_session_nonce(hardened, base, my_index, i as usize),
        )
}

/// The whole recovery succeeds: coherent arguments, decodable blobs, and
/// every locally owned sub-share reconstructs.
pub open spec fn recovery_ok(
    seed: Seq<u8>,
    hardened: bool,
    base: Seq<u8>,
    blobs: Seq<Seq<u8>>,
    my_index: usize,
    counts: Seq<usize>,
    threshold: usize,
) -> bool {
    &&& recovery_args_ok(blobs.len() as int, my_index, counts, threshold)
    &&& blobs_ok(blobs, counts[my_index as int] as int)
    &&& forall|i: int|
        0 <= i < counts[my_index as int] ==> #[trigger] subshare_ok(
            seed,
            hardened,
            base,
            my_index,
            blobs,
            i,
        )
}

/// The share material recovery produces for one sub-share: a function of the
/// seed, the derivation mode, and the ceremony identity alone.
pub open spec fn recovered_share(
    seed: Seq<u8>,
    hardened: bool,
    base: Seq<u8>,
    my_index: usize,
    i: int,
) -> Seq<u8> {
    share_bytes_of(seed, spec_session_nonce(hardened, base, my_index, i as usize))
}

/// Exactly what [`Gg20Service::recover_secret_key_shares`] returns: success
/// if and only if the whole recovery reconstructs, with the share material
/// pinned; each failure carries its first offender.
pub open spec fn recover_shares_spec(
    seed: Seq<u8>,
    hardened: bool,
    base: Seq<u8>,
    blobs: Seq<Seq<u8>>,
    my_index: usize,
    counts: Seq<usize>,
    threshold: usize,
    r: Result<Seq<Seq<u8>>, RecoveryError>,
) -> bool {
    &&& (r is Ok <==> recovery_ok(seed, hardened, base, blobs, my_index, counts, threshold))
    &&& match r {
        Ok(shares) => {
            &&& shares.len() == counts[my_index as int]
            &&& forall|i: int|
                0 <= i < shares.len() ==> #[trigger] shares[i] == recovered_share(
                    seed,
                    hardened,
                    base,
                    my_index,
                    i,
                )
        },
        Err(RecoveryError::MalformedInit) => !recovery_args_ok(
            blobs.len() as int,
            my_index,
            counts,
            threshold,
        ),
        Err(RecoveryError::MalformedBlob(j)) => {
            &&& recovery_args_ok(blobs.len() as int, my_index, counts, threshold)
            &&& 0 <= j < blobs.len()
            &&& blobs[j as int].len() != 33 * counts[my_index as int]
            &&& forall|j2: int|
                0 <= j2 < j ==> (#[trigger] blobs[j2]).len() == 33 * counts[my_index as int]
        },
        Err(RecoveryError::DerivationFailed(i)) => {
            &&& recovery_args_ok(blobs.len() as int, my_index, counts, threshold)
            &&& blobs_ok(blobs, counts[my_index as int] as int)
            &&& 0 <= i < counts[my_index as int]
            &&& !keypair_derivation_ok(
                seed,
                spec_session_nonce(hardened, base, my_index, i),
            )
            &&& forall|i2: int|
                0 <= i2 < i ==> #[trigger] subshare_ok(seed, hardened, base, my_index, blobs, i2)
        },
        Err(RecoveryError::ShareRecoveryFailed(i)) => {
            &&& recovery_args_ok(blobs.len() as int, my_index, counts, threshold)
            &&& blobs_ok(blobs, counts[my_index as int] as int)
            &&& 0 <= i < counts[my_index as int]
            &&& keypair_derivation_ok(
                seed,
                spec_session_nonce(hardened, base, my_index, i),
            )
            &&& !subshare_ok(seed, hardened, base, my_index, blobs, i as int)
            &&& forall|i2: int|
                0 <= i2 < i ==> #[trigger] subshare_ok(seed, hardened, base, my_index, blobs, i2)
        },
        Err(RecoveryError::Store(_)) => false,
    }
}

/// Law: recovery is pure. Two recoveries on bit-identical inputs under the
/// same derivation mode agree: they succeed together, and on success they
/// produce bit-identical share material.
pub proof fn law_recovery_pure(
    seed: Seq<u8>,
    hardened: bool,
    base: Seq<u8>,
    blobs: Seq<Seq<u8>>,
    my_index: usize,
    counts: Seq<usize>,
    threshold: usize,
    r1: Result<Seq<Seq<u8>>, RecoveryError>,
    r2: Result<Seq<Seq<u8>>, RecoveryError>,
)
    requires
        recover_shares_spec(seed, hardened, base, blobs, my_index, counts, threshold, r1),
        recover_shares_spec(seed, hardened, base, blobs, my_index, counts, threshold, r2),
    ensures
        r1 is Ok <==> r2 is Ok,
        r1 matches Ok(s1) ==> (r2 matches Ok(s2) && s1 == s2),
{
    if r1 is Ok && r2 is Ok {
        let s1 = r1->Ok_0;
        let s2 = r2->Ok_0;
        assert forall|i: int| 0 <= i < s1.len() implies s1[i] == s2[i] by {
            assert(s1[i] == recovered_share(seed, hardened, base, my_index, i));
            assert(s2[i] == recovered_share(seed, hardened, base, my_index, i));
        }
        assert(s1 =~= s2);
    }
}

impl Gg20Service {
    /// Reconstruct one sub-share: derive its keypair and share material from
    /// the seed, and check the derived verifying key against every peer's
    /// record. Succeeds if and only if derivation succeeds and every record
    /// agrees.
    fn recover(
        &self,
        secret_recovery_key: &[u8; 64],
        parsed_infos: &Vec<Vec<Vec<u8>>>,
        my_tofnd_index: usize,
        session_nonce_base: &[u8],
        subshare_id: usize,
    ) -> (r: Result<Vec<u8>, RecoveryError>)
        requires
            forall|j: int|
                0 <= j < parsed_infos@.len() ==> subshare_id < #[trigger] parsed_infos@[j]@.len(),
        ensures
            match r {
                Ok(v) => {
                    &&& keypair_derivation_ok(
                        secret_recovery_key@,
                        spec_session_nonce(
                            self.safe_keygen,
                            session_nonce_base@,
                            my_tofnd_index,
                            subshare_id,
                        ),
                    )
                    &&& forall|j: int|
                        0 <= j < parsed_infos@.len()
                            ==> #[trigger] parsed_infos@[j]@[subshare_id as int]@ == vk_of(
                            secret_recovery_key@,
                            spec_session_nonce(
                                self.safe_keygen,
                                session_nonce_base@,
                                my_tofnd_index,
                                subshare_id,
                            ),
                        )
                    &&& v@ == recovered_share(
                        secret_recovery_key@,
                        self.safe_keygen,
                        session_nonce_base@,
                        my_tofnd_index,
                        subshare_id as int,
                    )
                    &&& v@.len() > 0
                },
                Err(RecoveryError::DerivationFailed(i)) => {
                    &&& i == subshare_id
                    &&& !keypair_derivation_ok(
                        secret_recovery_key@,
                        spec_session_nonce(
                            self.safe_keygen,
                            session_nonce_base@,
                            my_tofnd_index,
                            subshare_id,
                        ),
                    )
                },
                Err(RecoveryError::ShareRecoveryFailed(i)) => {
                    &&& i == subshare_id
                    &&& keypair_derivation_ok(
                        secret_recovery_key@,
                        spec_session_nonce(
                            self.safe_keygen,
                            session_nonce_base@,
                            my_tofnd_index,
                            subshare_id,
                        ),
                    )
                    &&& !(forall|j: int|
                        0 <= j < parsed_infos@.len()
                            ==> #[trigger] parsed_infos@[j]@[subshare_id as int]@ == vk_of(
                            secret_recovery_key@,
                            spec_session_nonce(
                                self.safe_keygen,
                                session_nonce_base@,
                                my_tofnd_index,
                                subshare_id,
                            ),
                        ))
                },
                _ => false,
            },
    {
        let nonce = session_nonce(
            self.safe_keygen,
            session_nonce_base,
            my_tofnd_index,
            subshare_id,
        );
        let material = match derive_share_material(secret_recovery_key, nonce.as_slice()) {
            Some(p) => p,
            None => {
                return Err(RecoveryError::DerivationFailed(subshare_id));
            },
        };
        let (vk, share) = material;
        if !subshare_key_agreed(&vk, parsed_infos, subshare_id) {
            return Err(RecoveryError::ShareRecoveryFailed(subshare_id));
        }
        Ok(share)
    }

    /// Rebuild every locally owned sub-share from the seed, the ceremony
    /// nonce and the peers' recovery blobs. Pure in its inputs: no state is
    /// read or written, and the result is pinned by [`recover_shares_spec`] —
    /// success exactly when every sub-share reconstructs, the share material
    /// a function of seed, mode and ceremony alone, every failure naming its
    /// first offender.
    pub fn recover_secret_key_shares(
        &self,
        secret_recovery_key: &[u8; 64],
        serialized_share_recovery_infos: &Vec<Vec<u8>>,
        my_tofnd_index: usize,
        session_nonce: &[u8],
        party_share_counts: &Vec<usize>,
        threshold: usize,
    ) -> (r: Result<Vec<Vec<u8>>, RecoveryError>)
        ensures
            recover_shares_spec(
                secret_recovery_key@,
                self.safe_keygen,
                session_nonce@,
                serialized_share_recovery_infos.deep_view(),
                my_tofnd_index,
                party_share_counts@,
                threshold,
                match r {
                    Ok(shares) => Ok(shares.deep_view()),
                    Err(e) => Err(e),
                },
            ),
    {
        let ghost blobs = serialized_share_recovery_infos.deep_view();
        let n = party_share_counts.len();
        if my_tofnd_index >= n || serialized_share_recovery_infos.len() != n {
            return Err(RecoveryError::MalformedInit);
        }
        match compute_total_shares(party_share_counts) {
            Some(total) => {
                if threshold >= total {
                    return Err(RecoveryError::MalformedInit);
                }
            },
            None => {
                return Err(RecoveryError::MalformedInit);
            },
        }
        let my_share_count = party_share_counts[my_tofnd_index];

        let mut parsed: Vec<Vec<Vec<u8>>> = Vec::new();
        let mut j: usize = 0;
        while j < n
            invariant
                blobs == serialized_share_recovery_infos.deep_view(),
                n == serialized_share_recovery_infos@.len(),
                n == party_share_counts@.len(),
                blobs.len() == n,
                my_tofnd_index < n,
                recovery_args_ok(blobs.len() as int, my_tofnd_index, party_share_counts@, threshold),
                my_share_count == party_share_counts@[my_tofnd_index as int],
                j <= n,
                parsed@.len() == j,
                forall|j2: int|
                    0 <= j2 < j ==> #[trigger] parsed@[j2]@.len() == my_share_count,
                forall|j2: int|
                    0 <= j2 < j ==> (#[trigger] blobs[j2]).len() == 33 * my_share_count,
                forall|j2: int, i2: int|
                    #![trigger parsed@[j2]@[i2]]
                    0 <= j2 < j && 0 <= i2 < my_share_count ==> parsed@[j2]@[i2]@ == blob_key(
                        blobs[j2],
                        i2,
                    ),
            decreases n - j,
        {
            proof {
                assert(blobs[j as int] == serialized_share_recovery_infos@[j as int]@);
            }
            match parse_recovery_blob(
                serialized_share_recovery_infos[j].as_slice(),
                my_share_count,
            ) {
                Some(keys) => {
                    parsed.push(keys);
                },
                None => {
                    proof {
                        assert(!blobs_ok(blobs, my_share_count as int));
                    }
                    return Err(RecoveryError::MalformedBlob(j));
                },
            }
            j += 1;
        }

        let mut shares: Vec<Vec<u8>> = Vec::new();
        let mut i: usize = 0;
        while i < my_share_count
            invariant
                blobs == serialized_share_recovery_infos.deep_view(),
                n == serialized_share_recovery_infos@.len(),
                my_share_count == party_share_counts@[my_tofnd_index as int],
                my_tofnd_index < party_share_counts@.len(),
                recovery_args_ok(
                    blobs.len() as int,
                    my_tofnd_index,
                    party_share_counts@,
                    threshold,
                ),
                blobs_ok(blobs, my_share_count as int),
                parsed@.len() == n,
                forall|j2: int|
                    0 <= j2 < n ==> #[trigger] parsed@[j2]@.len() == my_share_count,
                forall|j2: int, i2: int|
                    #![trigger parsed@[j2]@[i2]]
                    0 <= j2 < n && 0 <= i2 < my_share_count ==> parsed@[j2]@[i2]@ == blob_key(
                        blobs[j2],
                        i2,
                    ),
                i <= my_share_count,
                shares@.len() == i,
                forall|i2: int|
                    0 <= i2 < i ==> #[trigger] shares@[i2]@ == recovered_share(
                        secret_recovery_key@,
                        self.safe_keygen,
                        session_nonce@,
                        my_tofnd_index,
                        i2,
                    ),
                forall|i2: int|
                    0 <= i2 < i ==> #[trigger] subshare_ok(
                        secret_recovery_key@,
                        self.safe_keygen,
                        session_nonce@,
                        my_tofnd_index,
                        blobs,
                        i2,
                    ),
            decreases my_share_count - i,
        {
            match self.recover(
                secret_recovery_key,
                &parsed,
                my_tofnd_index,
                session_nonce,
                i,
            ) {
                Ok(share) => {
                    proof {
                        assert forall|j2: int| 0 <= j2 < blobs.len() implies #[trigger] blob_key(
                            blobs[j2],
                            i as int,
                        ) == vk_of(
                            secret_recovery_key@,
                            spec_session_nonce(
                                self.safe_keygen,
                                session_nonce@,
                                my_tofnd_index,
                                i,
                            ),
                        ) by {
                            assert(parsed@[j2]@[i as int]@ == blob_key(blobs[j2], i as int));
                        }
                        assert(subshare_ok(
                            secret_recovery_key@,
                            self.safe_keygen,
                            session_nonce@,
                            my_tofnd_index,
                            blobs,
                            i as int,
                        ));
                    }
                    shares.push(share);
                },
                Err(e) => {
                    proof {
                        if e matches RecoveryError::DerivationFailed(i2) {
                            assert(!subshare_ok(
                                secret_recovery_key@,
                                self.safe_keygen,
                                session_nonce@,
                                my_tofnd_index,
                                blobs,
                                i as int,
                            ));
                        }
                        if e matches RecoveryError::ShareRecoveryFailed(i2) {
                            let nonce = spec_session_nonce(
                                self.safe_keygen,
                                session_nonce@,
                                my_tofnd_index,
                                i,
                            );
                            let w = choose|j2: int|
                                0 <= j2 < parsed@.len() && parsed@[j2]@[i as int]@ != vk_of(
                                    secret_recovery_key@,
                                    nonce,
                                );
                            assert(blob_key(blobs[w], i as int) == parsed@[w]@[i as int]@);
                            assert(!subshare_ok(
                                secret_recovery_key@,
                                self.safe_keygen,
                                session_nonce@,
                                my_tofnd_index,
                                blobs,
                                i as int,
                            ));
                        }
                    }
                    return Err(e);
                },
            }
            i += 1;
        }
        proof {
            assert(recovery_ok(
                secret_recovery_key@,
                self.safe_keygen,
                session_nonce@,
                blobs,
                my_tofnd_index,
                party_share_counts@,
                threshold,
            ));
            assert forall|i2: int| 0 <= i2 < shares@.len() implies #[trigger] shares.deep_view()[i2]
                == recovered_share(
                secret_recovery_key@,
                self.safe_keygen,
                session_nonce@,
                my_tofnd_index,
                i2,
            ) by {
                assert(shares@[i2].deep_view() =~= shares@[i2]@);
            }
        }
        Ok(shares)
    }

    /// Commit recovered share material under the ceremony identifier through
    /// the ordinary reserve-then-put discipline. Succeeds exactly on an
    /// `Unreserved` key, which then holds exactly the committed entry; every
    /// failure carries the store's verdict verbatim and leaves the store
    /// untouched.
    pub fn update_share_kv_store(
        &mut self,
        keygen_init_sanitized: KeygenInit,
        secret_key_shares: Vec<Vec<u8>>,
    ) -> (r: Result<(), RecoveryError>)
        requires
            old(self).shares_kv.wf(),
            old(self).shares_kv.token_counter() < u64::MAX,
        ensures
            final(self).shares_kv.wf(),
            final(self).safe_keygen == old(self).safe_keygen,
            final(self).seed == old(self).seed,
            final(self).db_name == old(self).db_name,
            r is Ok <==> old(self).shares_kv.state_of(keygen_init_sanitized.new_key_uid@) is None,
            match r {
                Ok(()) => {
                    &&& final(self).shares_kv.state_of(keygen_init_sanitized.new_key_uid@)
                        matches Some(KeyStateView::Committed(v)) && v.shares
                        == secret_key_shares.deep_view() && v.party_uids
                        == keygen_init_sanitized.party_uids.deep_view() && v.share_counts
                        == keygen_init_sanitized.party_share_counts@ && v.my_index
                        == keygen_init_sanitized.my_index
                    &&& final(self).shares_kv.token_counter() == old(self).shares_kv.token_counter() + 1
                    &&& forall|k2: Seq<u8>|
                        k2 != keygen_init_sanitized.new_key_uid@
                            ==> final(self).shares_kv.state_of(k2) == old(self).shares_kv.state_of(
                            k2,
                        )
                },
                Err(e) => {
                    &&& final(self).shares_kv == old(self).shares_kv
                    &&& match e {
                        RecoveryError::Store(se) => {
                            &&& (se == StoreError::KeyAlreadyReserved || se
                                == StoreError::KeyAlreadyExists)
                            &&& (se == StoreError::KeyAlreadyReserved <==> old(self).shares_kv.is_reserved(keygen_init_sanitized.new_key_uid@))
                            &&& (se == StoreError::KeyAlreadyExists <==> old(self).shares_kv.is_committed(keygen_init_sanitized.new_key_uid@))
                        },
                        _ => false,
                    }
                },
            },
    {
        let reservation = match self.shares_kv.reserve(
            keygen_init_sanitized.new_key_uid.as_slice(),
        ) {
            Ok(res) => res,
            Err(e) => {
                return Err(RecoveryError::Store(e));
            },
        };
        let kv_data = StoreEntry {
            shares: secret_key_shares,
            party_uids: keygen_init_sanitized.party_uids,
            share_counts: keygen_init_sanitized.party_share_counts,
            my_index: keygen_init_sanitized.my_index,
        };
        match self.shares_kv.put(reservation, kv_data) {
            Ok(()) => Ok(()),
            Err(_) => unreached(),
        }
    }

    /// Handle one recovery request end to end: sanitize the parameters,
    /// rebuild the share material, and commit it. Succeeds exactly when the
    /// parameters are coherent, every sub-share reconstructs, and the key is
    /// `Unreserved`; the committed entry then holds exactly the recovered
    /// material. Every failure leaves the store exactly as it was: zero
    /// shares committed, no dangling reservation.
    pub fn handle_recover(&mut self, request: RecoverRequest) -> (r: Result<(), RecoveryError>)
        requires
            old(self).shares_kv.wf(),
            old(self).shares_kv.token_counter() < u64::MAX,
        ensures
            final(self).shares_kv.wf(),
            final(self).safe_keygen == old(self).safe_keygen,
            final(self).seed == old(self).seed,
            final(self).db_name == old(self).db_name,
            r is Ok <==> (request.keygen_init matches Some(init) && keygen_init_wf(init)
                && recovery_ok(
                old(self).seed@,
                old(self).safe_keygen,
                init.new_key_uid@,
                request.share_recovery_infos.deep_view(),
                init.my_index,
                init.party_share_counts@,
                init.threshold,
            ) && old(self).shares_kv.state_of(init.new_key_uid@) is None),
            match r {
                Ok(()) => request.keygen_init matches Some(init) && (final(self).shares_kv.state_of(
                    init.new_key_uid@,
                ) matches Some(KeyStateView::Committed(v))
                    && v.party_uids == init.party_uids.deep_view() && v.share_counts
                    == init.party_share_counts@ && v.my_index == init.my_index && v.shares.len()
                    == init.party_share_counts@[init.my_index as int] && (forall|i: int|
                    0 <= i < v.shares.len() ==> #[trigger] v.shares[i] == recovered_share(
                        old(self).seed@,
                        old(self).safe_keygen,
                        init.new_key_uid@,
                        init.my_index,
                        i,
                    ))) && (forall|k2: Seq<u8>|
                    k2 != init.new_key_uid@ ==> final(self).shares_kv.state_of(k2) == old(self).shares_kv.state_of(k2)),
                Err(_) => final(self).shares_kv == old(self).shares_kv,
            },
    {
        let keygen_init = match request.keygen_init {
            Some(init) => init,
            None => {
                return Err(RecoveryError::MalformedInit);
            },
        };
        let keygen_init_sanitized = match keygen_sanitize_args(keygen_init) {
            Ok(s) => s,
            Err(e) => {
                return Err(e);
            },
        };

        let secret_recovery_key = self.seed;
        let secret_key_shares = match self.recover_secret_key_shares(
            &secret_recovery_key,
            &request.share_recovery_infos,
            keygen_init_sanitized.my_index,
            keygen_init_sanitized.new_key_uid.as_slice(),
            &keygen_init_sanitized.party_share_counts,
            keygen_init_sanitized.threshold,
        ) {
            Ok(shares) => shares,
            Err(e) => {
                return Err(e);
            },
        };

        self.update_share_kv_store(keygen_init_sanitized, secret_key_shares)
    }
}

} // verus!

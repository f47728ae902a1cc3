//! Trusted boundary to the cryptographic engine.
//!
//! The engine's mathematics are out of scope. Sub-share derivation is one
//! wrapper from plain values to plain values: its outcome and both of its
//! encodings depend on the seed and session nonce alone, so each is given a
//! name, and every verified contract above speaks in those names.

use vstd::prelude::*;

verus! {

/// Whether the engine derives a keypair from this seed and session nonce.
/// Derivation reads the seed and nonce alone, so the outcome is a function
/// of them.
pub uninterp spec fn keypair_derivation_ok(seed: Seq<u8>, nonce: Seq<u8>) -> bool;

/// The derived keypair's SEC1-encoded compressed verifying key: a function
/// of the seed and nonce alone.
pub uninterp spec fn vk_of(seed: Seq<u8>, nonce: Seq<u8>) -> Seq<u8>;

/// The derived keypair's encoded signing key — the secret share material: a
/// function of the seed and nonce alone.
pub uninterp spec fn share_bytes_of(seed: Seq<u8>, nonce: Seq<u8>) -> Seq<u8>;

/// Derive one sub-share's keypair and hand back its two encodings, the
/// verifying key and the secret signing key.
///
/// Relies on `tofn::ecdsa::keygen`: the keypair is derived deterministically
/// from the secret recovery key and the session nonce alone (a ChaCha20
/// stream seeded by an HMAC of exactly these inputs), and derivation rejects
/// a session nonce shorter than 4 or longer than 256 bytes. The encodings
/// rely on `KeyPair::encoded_verifying_key`, a 33-byte array, and on
/// `tofn::sdk::api::serialize` of the signing key, a 32-byte scalar whose
/// encoding always succeeds under the engine's size limit and is never
/// empty; both read the derived keypair alone.
#[verifier::external_body]
pub(crate) fn derive_share_material(seed: &[u8; 64], nonce: &[u8]) -> (r: Option<
    (Vec<u8>, Vec<u8>),
>)
    ensures
        r is Some <==> keypair_derivation_ok(seed@, nonce@),
        nonce@.len() < 4 || nonce@.len() > 256 ==> r is None,
        r matches Some(p) ==> p.0@ == vk_of(seed@, nonce@) && p.0@.len() == 33 && p.1@
            == share_bytes_of(seed@, nonce@) && p.1@.len() > 0,
{
    let key = match tofn::sdk::api::SecretRecoveryKey::try_from(&seed[..]) {
        Ok(k) => k,
        Err(_) => return None,
    };
    let kp = match tofn::ecdsa::keygen(&key, nonce) {
        Ok(kp) => kp,
        Err(_) => return None,
    };
    let vk = kp.encoded_verifying_key().to_vec();
    match tofn::sdk::api::serialize(kp.signing_key()) {
        Ok(share) => Some((vk, share)),
        Err(_) => None,
    }
}

} // verus!

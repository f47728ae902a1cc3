//! The daemon's service state: the share store plus the static recovery
//! configuration.

use vstd::prelude::*;
use vstd::slice::slice_to_vec;

use crate::kv::KvStore;

verus! {

/// One daemon's state. Sessions share nothing but the store, and the store
/// only at per-key granularity.
pub struct Gg20Service {
    /// Durable map from ceremony identifier to committed share material.
    pub shares_kv: KvStore,
    /// Selects the hardened keypair-derivation mode for recovery; the legacy
    /// mode stays selectable for shares derived under it.
    pub safe_keygen: bool,
    /// The local party's secret recovery seed.
    pub seed: [u8; 64],
    /// Name of the store's durable backing, chosen by the host.
    pub db_name: Vec<u8>,
}

/// A fresh service around an empty store, hardened derivation, and an
/// all-zero seed; the host sets the real seed before any recovery.
pub fn new_service() -> (r: Gg20Service)
    ensures
        r.shares_kv.wf(),
        forall|k: Seq<u8>| r.shares_kv.state_of(k) is None,
        r.shares_kv.token_counter() == 0,
        r.safe_keygen,
        r.db_name@.len() == 0,
{
    Gg20Service {
        shares_kv: KvStore::new(),
        safe_keygen: true,
        seed: [0u8; 64],
        db_name: Vec::new(),
    }
}

/// A fresh service whose store is backed under the given name.
pub fn with_db_name(db_name: &[u8]) -> (r: Gg20Service)
    ensures
        r.shares_kv.wf(),
        forall|k: Seq<u8>| r.shares_kv.state_of(k) is None,
        r.shares_kv.token_counter() == 0,
        r.safe_keygen,
        r.db_name@ == db_name@,
{
    let mut r = new_service();
    r.db_name = slice_to_vec(db_name);
    r
}

/// The directory prefix under which a named store lives.
pub open spec fn db_root() -> Seq<u8> {
    seq![46u8, 116u8, 111u8, 102u8, 110u8, 100u8, 47u8]
}

/// Where the store named `name` lives on disk: the fixed root directory
/// followed by the name.
pub fn get_db_path(name: &[u8]) -> (r: Vec<u8>)
    ensures
        r@ == db_root() + name@,
{
    let mut r: Vec<u8> = Vec::new();
    r.push(46);
    r.push(116);
    r.push(111);
    r.push(102);
    r.push(110);
    r.push(100);
    r.push(47);
    proof {
        assert(r@ =~= db_root());
    }
    let mut i: usize = 0;
    while i < name.len()
        invariant
            i <= name@.len(),
            r@ == db_root() + name@.subrange(0, i as int),
        decreases name@.len() - i,
    {
        r.push(name[i]);
        proof {
            assert(r@ =~= db_root() + name@.subrange(0, i + 1 as int));
        }
        i += 1;
    }
    proof {
        assert(name@.subrange(0, name@.len() as int) =~= name@);
    }
    r
}

} // verus!

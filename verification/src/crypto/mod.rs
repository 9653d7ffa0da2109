//! Cryptographic primitives: key derivation, the shared secret and the
//! long-term key pair.

use vstd::prelude::*;

pub mod hex;
pub mod kem;
pub mod sign;
pub mod secure_types;

verus! {

/// What BLAKE3 in key-derivation mode yields for a context string and
/// key material (32 bytes).
pub uninterp spec fn blake3_derive_key(context: Seq<char>, key_material: Seq<u8>) -> Seq<u8>;

/// Calls `blake3::derive_key`. Claimed: the result is the value that
/// `blake3_derive_key` names for the context and the key material; BLAKE3
/// is deterministic, so equal inputs give equal outputs.
#[verifier::external_body]
pub(crate) fn derive_key(context: &str, key_material: &[u8]) -> (r: [u8; 32])
    ensures
        r@ == blake3_derive_key(context@, key_material@),
{
    blake3::derive_key(context, key_material)
}

/// Domain label of the topology seed.
pub open spec fn topology_label() -> Seq<char> {
    "polygone topology v1"@
}

/// Domain label of the session key.
pub open spec fn session_key_label() -> Seq<char> {
    "polygone session key v1"@
}

/// 32 bytes of shared secret produced by the KEM.
#[derive(Clone)]
pub struct SharedSecret(pub [u8; 32]);

impl SharedSecret {
    /// Derive the topology seed and the session key from this secret,
    /// under two distinct BLAKE3 domain labels.
    pub fn derive(&self) -> (r: ([u8; 32], [u8; 32]))
        ensures
            r.0@ == blake3_derive_key(topology_label(), self.0@),
            r.1@ == blake3_derive_key(session_key_label(), self.0@),
    {
        let topo_seed = derive_key("polygone topology v1", &self.0);
        let session_key = derive_key("polygone session key v1", &self.0);
        proof {
            reveal_strlit("polygone topology v1");
            reveal_strlit("polygone session key v1");
        }
        (topo_seed, session_key)
    }
}

/// Deriving from one secret twice gives the same pair of values.
pub proof fn law_derive_is_deterministic(a: SharedSecret, b: SharedSecret)
    requires
        a.0@ == b.0@,
    ensures
        blake3_derive_key(topology_label(), a.0@) == blake3_derive_key(topology_label(), b.0@),
        blake3_derive_key(session_key_label(), a.0@) == blake3_derive_key(session_key_label(), b.0@),
{
}

/// A combined key pair: one KEM key pair (transport) and one signature
/// key pair (authentication).
pub struct KeyPair {
    /// KEM secret key.
    pub kem_sk: kem::KemSecretKey,
    /// KEM public key, shared with the peer out of band.
    pub kem_pk: kem::KemPublicKey,
    /// Signing secret key.
    pub sign_sk: sign::SignSecretKey,
    /// Signing public key.
    pub sign_pk: sign::SignPublicKey,
}

impl KeyPair {
    /// A fresh random key pair, from OS entropy (never fails).
    pub fn generate() -> (r: crate::error::Result<KeyPair>)
        ensures
            r is Ok,
            r matches Ok(kp) ==> kem::embedded_public_key(kp.kem_sk@) == kp.kem_pk@,
            r matches Ok(kp) ==> sign::mldsa_public_key_of(kp.sign_sk@) == Some(kp.sign_pk@),
    {
        let (kem_pk, kem_sk) = match kem::generate_keypair() {
            Ok(p) => p,
            Err(e) => return Err(e),
        };
        let (sign_pk, sign_sk) = match sign::generate_keypair() {
            Ok(p) => p,
            Err(e) => return Err(e),
        };
        Ok(KeyPair { kem_sk, kem_pk, sign_sk, sign_pk })
    }
}

} // verus!

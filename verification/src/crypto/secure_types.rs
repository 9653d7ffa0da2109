//! Length-checked holders of key material.

use vstd::prelude::*;
use super::kem::KemPublicKey;
use super::kem::KemSecretKey;
use super::sign::{SignPublicKey, SignSecretKey};
use crate::security;

verus! {

/// Number of bytes of a public key held by `SecurePublicKey`.
pub const MLKEM_PUBLIC_KEY_BYTES: usize = 800;
/// Number of bytes of a secret key held by `SecureSecretKey`.
pub const MLKEM_SECRET_KEY_BYTES: usize = 1632;
/// Number of bytes of a KEM ciphertext at this size.
pub const MLKEM_CIPHERTEXT_BYTES: usize = 768;
/// Number of bytes of a KEM shared secret.
pub const MLKEM_SHARED_SECRET_BYTES: usize = 32;
/// Number of bytes of a verification key held by `SecureVerifyKey`.
pub const MLDSA_PUBLIC_KEY_BYTES: usize = 2592;
/// Number of bytes of a signing key held by `SecureSigningKey`.
pub const MLDSA_SECRET_KEY_BYTES: usize = 4000;
/// Number of bytes of a signature at this size.
pub const MLDSA_SIGNATURE_BYTES: usize = 2429;

fn copy_bytes(src: &[u8]) -> (r: Vec<u8>)
    ensures
        r@ == src@,
{
    let mut r: Vec<u8> = Vec::new();
    let mut i: usize = 0;
    while i < src.len()
        invariant
            i <= src@.len(),
            r@ == src@.take(i as int),
        decreases src.len() - i,
    {
        r.push(src[i]);
        i = i + 1;
        assert(r@ =~= src@.take(i as int));
    }
    assert(src@.take(src@.len() as int) =~= src@);
    r
}

/// A KEM public key's bytes.
pub struct SecurePublicKey {
    bytes: Vec<u8>,
}

impl View for SecurePublicKey {
    type V = Seq<u8>;

    closed spec fn view(&self) -> Seq<u8> {
        self.bytes@
    }
}

impl SecurePublicKey {
    /// From exactly `MLKEM_PUBLIC_KEY_BYTES` bytes; other lengths refused.
    pub fn from_bytes(bytes: &[u8]) -> (r: core::result::Result<Self, &'static str>)
        ensures
            r is Ok <==> bytes@.len() == MLKEM_PUBLIC_KEY_BYTES,
            r matches Ok(k) ==> k@ == bytes@,
            r matches Err(e) ==> e@ == "Invalid public key length"@,
    {
        if bytes.len() != MLKEM_PUBLIC_KEY_BYTES {
            proof { reveal_strlit("Invalid public key length"); }
            return Err("Invalid public key length");
        }
        Ok(SecurePublicKey { bytes: copy_bytes(bytes) })
    }

    /// The bytes held.
    pub fn as_bytes(&self) -> (r: &[u8])
        ensures
            r@ == self@,
    {
        self.bytes.as_slice()
    }

    /// Parse the bytes as an ML-KEM-1024 public key.
    pub fn to_mlkem(&self) -> (r: core::result::Result<KemPublicKey, &'static str>)
        ensures
            r is Ok <==> self@.len() == super::kem::EK_SIZE,
            r matches Ok(k) ==> k@ == self@,
            r matches Err(e) ==> e@ == "Failed to parse public key"@,
    {
        match KemPublicKey::from_bytes(self.as_bytes()) {
            Ok(k) => Ok(k),
            Err(_) => {
                proof { reveal_strlit("Failed to parse public key"); }
                Err("Failed to parse public key")
            },
        }
    }

    /// Hold the bytes of an ML-KEM-1024 public key.
    pub fn from_mlkem(pk: &KemPublicKey) -> (r: Self)
        ensures
            r@ == pk@,
    {
        SecurePublicKey { bytes: copy_bytes(pk.as_bytes()) }
    }
}

/// A KEM secret key's bytes, with a record of whether locking was tried.
pub struct SecureSecretKey {
    bytes: Vec<u8>,
    locked: Option<bool>,
}

impl View for SecureSecretKey {
    type V = Seq<u8>;

    closed spec fn view(&self) -> Seq<u8> {
        self.bytes@
    }
}

impl SecureSecretKey {
    /// From exactly `MLKEM_SECRET_KEY_BYTES` bytes; other lengths refused.
    pub fn from_bytes(bytes: &[u8]) -> (r: core::result::Result<Self, &'static str>)
        ensures
            r is Ok <==> bytes@.len() == MLKEM_SECRET_KEY_BYTES,
            r matches Ok(k) ==> k@ == bytes@,
            r matches Err(e) ==> e@ == "Invalid secret key length"@,
    {
        if bytes.len() != MLKEM_SECRET_KEY_BYTES {
            proof { reveal_strlit("Invalid secret key length"); }
            return Err("Invalid secret key length");
        }
        Ok(SecureSecretKey { bytes: copy_bytes(bytes), locked: None })
    }

    /// The bytes held.
    pub fn as_bytes(&self) -> (r: &[u8])
        ensures
            r@ == self@,
    {
        self.bytes.as_slice()
    }

    /// Parse the bytes as an ML-KEM-1024 secret key.
    pub fn to_mlkem(&self) -> (r: core::result::Result<KemSecretKey, &'static str>)
        ensures
            r is Ok <==> self@.len() == super::kem::DK_SIZE,
            r matches Ok(k) ==> k@ == self@,
            r matches Err(e) ==> e@ == "Failed to parse secret key"@,
    {
        if self.bytes.len() != super::kem::DK_SIZE {
            proof { reveal_strlit("Failed to parse secret key"); }
            return Err("Failed to parse secret key");
        }
        match KemSecretKey::from_bytes(self.as_bytes()) {
            Ok(k) => Ok(k),
            Err(_) => Err("Failed to parse secret key"),
        }
    }

    /// Hold the bytes of an ML-KEM-1024 secret key.
    pub fn from_mlkem(sk: &KemSecretKey) -> (r: Self)
        ensures
            r@ == sk@,
    {
        SecureSecretKey { bytes: copy_bytes(sk.as_bytes()), locked: None }
    }

    /// Whether locking was tried, and what it gave.
    pub closed spec fn lock_tried(&self) -> Option<bool> {
        self.locked
    }

    /// Try once to lock the bytes in memory; later calls do nothing. The
    /// attempt never succeeds (see `security::lock_memory`), so the first
    /// call records `Some(false)`.
    pub fn lock_memory(&mut self)
        ensures
            final(self)@ == old(self)@,
            final(self).lock_tried() == (if old(self).lock_tried() is None { Some(false) } else { old(self).lock_tried() }),
    {
        if self.locked.is_none() {
            let supported = security::lock_memory(self.bytes.as_slice());
            self.locked = Some(supported);
        }
    }
}

/// A signing key's bytes, with a record of whether locking was tried.
pub struct SecureSigningKey {
    bytes: Vec<u8>,
    locked: Option<bool>,
}

impl View for SecureSigningKey {
    type V = Seq<u8>;

    closed spec fn view(&self) -> Seq<u8> {
        self.bytes@
    }
}

impl SecureSigningKey {
    /// From exactly `MLDSA_SECRET_KEY_BYTES` bytes; other lengths refused.
    pub fn from_bytes(bytes: &[u8]) -> (r: core::result::Result<Self, &'static str>)
        ensures
            r is Ok <==> bytes@.len() == MLDSA_SECRET_KEY_BYTES,
            r matches Ok(k) ==> k@ == bytes@,
            r matches Err(e) ==> e@ == "Invalid signing key length"@,
    {
        if bytes.len() != MLDSA_SECRET_KEY_BYTES {
            proof { reveal_strlit("Invalid signing key length"); }
            return Err("Invalid signing key length");
        }
        Ok(SecureSigningKey { bytes: copy_bytes(bytes), locked: None })
    }

    /// The bytes held.
    pub fn as_bytes(&self) -> (r: &[u8])
        ensures
            r@ == self@,
    {
        self.bytes.as_slice()
    }

    /// Parse the bytes as an ML-DSA-87 secret key.
    pub fn to_mldsa(&self) -> (r: core::result::Result<SignSecretKey, &'static str>)
        ensures
            r is Ok <==> self@.len() == super::sign::SIGN_SK_SIZE,
            r matches Ok(k) ==> k@ == self@,
            r matches Err(e) ==> e@ == "Failed to parse signing key"@,
    {
        match SignSecretKey::from_bytes(self.as_bytes()) {
            Ok(k) => Ok(k),
            Err(_) => {
                proof { reveal_strlit("Failed to parse signing key"); }
                Err("Failed to parse signing key")
            },
        }
    }

    /// Whether locking was tried, and what it gave.
    pub closed spec fn lock_tried(&self) -> Option<bool> {
        self.locked
    }

    /// Try once to lock the bytes in memory; later calls do nothing. The
    /// attempt never succeeds (see `security::lock_memory`), so the first
    /// call records `Some(false)`.
    pub fn lock_memory(&mut self)
        ensures
            final(self)@ == old(self)@,
            final(self).lock_tried() == (if old(self).lock_tried() is None { Some(false) } else { old(self).lock_tried() }),
    {
        if self.locked.is_none() {
            let supported = security::lock_memory(self.bytes.as_slice());
            self.locked = Some(supported);
        }
    }
}

/// A verification key's bytes.
pub struct SecureVerifyKey {
    bytes: Vec<u8>,
}

impl View for SecureVerifyKey {
    type V = Seq<u8>;

    closed spec fn view(&self) -> Seq<u8> {
        self.bytes@
    }
}

impl SecureVerifyKey {
    /// From exactly `MLDSA_PUBLIC_KEY_BYTES` bytes; other lengths refused.
    pub fn from_bytes(bytes: &[u8]) -> (r: core::result::Result<Self, &'static str>)
        ensures
            r is Ok <==> bytes@.len() == MLDSA_PUBLIC_KEY_BYTES,
            r matches Ok(k) ==> k@ == bytes@,
            r matches Err(e) ==> e@ == "Invalid verify key length"@,
    {
        if bytes.len() != MLDSA_PUBLIC_KEY_BYTES {
            proof { reveal_strlit("Invalid verify key length"); }
            return Err("Invalid verify key length");
        }
        Ok(SecureVerifyKey { bytes: copy_bytes(bytes) })
    }

    /// The bytes held.
    pub fn as_bytes(&self) -> (r: &[u8])
        ensures
            r@ == self@,
    {
        self.bytes.as_slice()
    }

    /// Parse the bytes as an ML-DSA-87 public key.
    pub fn to_mldsa(&self) -> (r: core::result::Result<SignPublicKey, &'static str>)
        ensures
            r is Ok <==> self@.len() == super::sign::SIGN_PK_SIZE,
            r matches Ok(k) ==> k@ == self@,
            r matches Err(e) ==> e@ == "Failed to parse verify key"@,
    {
        match SignPublicKey::from_bytes(self.as_bytes()) {
            Ok(k) => Ok(k),
            Err(_) => {
                proof { reveal_strlit("Failed to parse verify key"); }
                Err("Failed to parse verify key")
            },
        }
    }
}

/// A symmetric session key, with a record of whether locking was tried.
pub struct SessionKey {
    bytes: Vec<u8>,
    locked: Option<bool>,
}

impl View for SessionKey {
    type V = Seq<u8>;

    closed spec fn view(&self) -> Seq<u8> {
        self.bytes@
    }
}

impl SessionKey {
    /// A session key holding `bytes`.
    pub fn from_bytes(bytes: Vec<u8>) -> (r: Self)
        ensures
            r@ == bytes@,
    {
        SessionKey { bytes, locked: None }
    }

    /// The key's bytes.
    pub fn as_bytes(&self) -> (r: &[u8])
        ensures
            r@ == self@,
    {
        self.bytes.as_slice()
    }

    /// Whether locking was tried, and what it gave.
    pub closed spec fn lock_tried(&self) -> Option<bool> {
        self.locked
    }

    /// Try once to lock the bytes in memory; later calls do nothing. The
    /// attempt never succeeds (see `security::lock_memory`), so the first
    /// call records `Some(false)`.
    pub fn lock_memory(&mut self)
        ensures
            final(self)@ == old(self)@,
            final(self).lock_tried() == (if old(self).lock_tried() is None { Some(false) } else { old(self).lock_tried() }),
    {
        if self.locked.is_none() {
            let supported = security::lock_memory(self.bytes.as_slice());
            self.locked = Some(supported);
        }
    }
}

} // verus!

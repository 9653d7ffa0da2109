//! ML-KEM-1024 key encapsulation (FIPS 203).
//!
//! Keys and ciphertexts are held as their bytes; each type keeps the
//! length that ML-KEM-1024 fixes.

use vstd::prelude::*;
use super::SharedSecret;
use super::hex::{hex_decode, hex_decode_spec, hex_encode, hex_encode_spec, hex_error_text, trim, trim_spec};
use crate::error::{PolygoneError, Result};
use pqcrypto_traits::kem::{Ciphertext as _, PublicKey as _, SecretKey as _, SharedSecret as _};

verus! {

/// Byte size of an encapsulation (public) key.
pub const EK_SIZE: usize = 1568;
/// Byte size of a decapsulation (secret) key.
pub const DK_SIZE: usize = 3168;
/// Byte size of a ciphertext.
pub const CT_SIZE: usize = 1568;
/// Byte size of a shared secret.
pub const SS_SIZE: usize = 32;

/// The shared secret that ML-KEM-1024 decapsulation yields for a secret
/// key and a ciphertext.
pub uninterp spec fn mlkem_decapsulate(sk: Seq<u8>, ct: Seq<u8>) -> Seq<u8>;

/// The public key that an ML-KEM-1024 secret key carries: its bytes
/// 1536 to 3104, after the 1536 bytes of the inner secret vector.
pub open spec fn embedded_public_key(sk: Seq<u8>) -> Seq<u8> {
    sk.subrange(1536, 1536 + EK_SIZE as int)
}

/// Calls `mlkem1024::keypair`: a fresh random key pair, as the public and
/// the secret key's bytes. Claimed: their lengths, and that the secret key
/// carries the public key at bytes 1536 to 3104 (the key generation copies
/// it there, after the inner secret vector).
#[verifier::external_body]
fn mlkem_keypair() -> (r: (Vec<u8>, Vec<u8>))
    ensures
        r.0@.len() == EK_SIZE,
        r.1@.len() == DK_SIZE,
        embedded_public_key(r.1@) == r.0@,
{
    let (pk, sk) = pqcrypto_mlkem::mlkem1024::keypair();
    (pk.as_bytes().to_vec(), sk.as_bytes().to_vec())
}

/// The (ciphertext, shared secret) pairs that ML-KEM-1024 encapsulation
/// can give for a public key: one for each 32 bytes of coins that its
/// deterministic step may be run on.
pub uninterp spec fn mlkem_encaps_outcomes(pk: Seq<u8>) -> Set<(Seq<u8>, Seq<u8>)>;

/// Whether `ct` and `ss` are a possible outcome of encapsulating toward
/// `pk`.
pub open spec fn encapsulated_toward(pk: Seq<u8>, ct: Seq<u8>, ss: Seq<u8>) -> bool {
    mlkem_encaps_outcomes(pk).contains((ct, ss))
}

/// Calls `mlkem1024::encapsulate` on a public key given by its bytes:
/// a fresh random shared secret and the ciphertext that carries it.
/// Claimed: the ciphertext's length, and that the ciphertext and secret
/// are among the outcomes `mlkem_encaps_outcomes` names for `pk` (the
/// encapsulation draws 32 coin bytes at random, then runs its
/// deterministic step on `pk` and them). Which outcome comes is not
/// stated.
#[verifier::external_body]
fn mlkem_encapsulate(pk: &[u8]) -> (r: ([u8; 32], Vec<u8>))
    requires
        pk@.len() == EK_SIZE,
    ensures
        r.1@.len() == CT_SIZE,
        mlkem_encaps_outcomes(pk@).contains((r.1@, r.0@)),
{
    let pk = pqcrypto_mlkem::mlkem1024::PublicKey::from_bytes(pk).unwrap();
    let (ss, ct) = pqcrypto_mlkem::mlkem1024::encapsulate(&pk);
    let mut out = [0u8; 32];
    out.copy_from_slice(ss.as_bytes());
    (out, ct.as_bytes().to_vec())
}

/// Calls `mlkem1024::decapsulate` on a secret key and a ciphertext given
/// by their bytes. Claimed: the result is the shared secret that
/// `mlkem_decapsulate` names for them.
#[verifier::external_body]
fn mlkem_decapsulate_bytes(sk: &[u8], ct: &[u8]) -> (r: [u8; 32])
    requires
        sk@.len() == DK_SIZE,
        ct@.len() == CT_SIZE,
    ensures
        r@ == mlkem_decapsulate(sk@, ct@),
{
    let sk = pqcrypto_mlkem::mlkem1024::SecretKey::from_bytes(sk).unwrap();
    let ct = pqcrypto_mlkem::mlkem1024::Ciphertext::from_bytes(ct).unwrap();
    let ss = pqcrypto_mlkem::mlkem1024::decapsulate(&ct, &sk);
    let mut out = [0u8; 32];
    out.copy_from_slice(ss.as_bytes());
    out
}

fn copy_bytes(src: &[u8]) -> (r: Vec<u8>)
    ensures
        r@ == src@,
{
    let mut r: Vec<u8> = Vec::new();
    let mut i: usize = 0;
    while i < src.len()
        invariant
            i <= src@.len(),
            r@ == src@.take(i as int),
        decreases src.len() - i,
    {
        r.push(src[i]);
        i = i + 1;
        assert(r@ =~= src@.take(i as int));
    }
    assert(src@.take(src@.len() as int) =~= src@);
    r
}

/// ML-KEM-1024 public key.
pub struct KemPublicKey {
    bytes: Vec<u8>,
}

impl Clone for KemPublicKey {
    fn clone(&self) -> (r: Self)
        ensures
            r@ == self@,
    {
        proof { use_type_invariant(self); }
        KemPublicKey { bytes: copy_bytes(self.bytes.as_slice()) }
    }
}

impl View for KemPublicKey {
    type V = Seq<u8>;

    closed spec fn view(&self) -> Seq<u8> {
        self.bytes@
    }
}

impl KemPublicKey {
    #[verifier::type_invariant]
    spec fn inv(self) -> bool {
        self.bytes@.len() == EK_SIZE
    }

    /// The key's bytes.
    pub fn as_bytes(&self) -> (r: &[u8])
        ensures
            r@ == self@,
            r@.len() == EK_SIZE,
    {
        proof { use_type_invariant(self); }
        self.bytes.as_slice()
    }

    /// The key as lowercase hexadecimal.
    pub fn to_hex(&self) -> (r: String)
        ensures
            r@ == hex_encode_spec(self@),
    {
        hex_encode(self.as_bytes())
    }

    /// A key from exactly `EK_SIZE` bytes; any other length is refused as
    /// an invalid key file.
    pub fn from_bytes(b: &[u8]) -> (r: Result<Self>)
        ensures
            r is Ok <==> b@.len() == EK_SIZE,
            r matches Ok(k) ==> k@ == b@,
            r matches Err(e) ==> e matches PolygoneError::KeyFile(m) && m@ == "Invalid ML-KEM-1024 public key"@,
    {
        if b.len() != EK_SIZE {
            proof { reveal_strlit("Invalid ML-KEM-1024 public key"); }
            return Err(PolygoneError::KeyFile("Invalid ML-KEM-1024 public key".to_string()));
        }
        Ok(KemPublicKey { bytes: copy_bytes(b) })
    }

    /// A key from hexadecimal text (surrounding white space ignored).
    pub fn from_hex(s: &str) -> (r: Result<Self>)
        ensures
            r is Ok <==> (hex_decode_spec(trim_spec(s@)) matches Some(b) && b.len() == EK_SIZE),
            r matches Ok(k) ==> Some(k@) == hex_decode_spec(trim_spec(s@)),
            r matches Err(e) ==> e is KeyFile,
            hex_decode_spec(trim_spec(s@)) is None ==> (r matches Err(PolygoneError::KeyFile(m)) && m@.take(12) == "hex decode: "@),
    {
        proof { reveal_strlit("hex decode: "); }
        let bytes = match hex_decode(trim(s)) {
            Ok(b) => b,
            Err(msg) => return Err(PolygoneError::KeyFile(hex_error_text(msg))),
        };
        Self::from_bytes(bytes.as_slice())
    }
}

/// ML-KEM-1024 secret key.
pub struct KemSecretKey {
    bytes: Vec<u8>,
}

impl View for KemSecretKey {
    type V = Seq<u8>;

    closed spec fn view(&self) -> Seq<u8> {
        self.bytes@
    }
}

impl KemSecretKey {
    #[verifier::type_invariant]
    spec fn inv(self) -> bool {
        self.bytes@.len() == DK_SIZE
    }

    /// The key's bytes.
    pub fn as_bytes(&self) -> (r: &[u8])
        ensures
            r@ == self@,
            r@.len() == DK_SIZE,
    {
        proof { use_type_invariant(self); }
        self.bytes.as_slice()
    }

    /// The key as lowercase hexadecimal.
    pub fn to_hex(&self) -> (r: String)
        ensures
            r@ == hex_encode_spec(self@),
    {
        hex_encode(self.as_bytes())
    }

    /// A key from its `DK_SIZE` bytes (copying them needs exactly that
    /// many).
    pub fn from_bytes(b: &[u8]) -> (r: Result<Self>)
        requires
            b@.len() == DK_SIZE,
        ensures
            r matches Ok(k) && k@ == b@,
    {
        Ok(KemSecretKey { bytes: copy_bytes(b) })
    }

    /// A key from hexadecimal text (surrounding white space ignored).
    /// Text that decodes to another length than `DK_SIZE` is excluded, as
    /// copying it would fail.
    pub fn from_hex(s: &str) -> (r: Result<Self>)
        requires
            hex_decode_spec(trim_spec(s@)) matches Some(b) ==> b.len() == DK_SIZE,
        ensures
            r is Ok <==> hex_decode_spec(trim_spec(s@)) is Some,
            r matches Ok(k) ==> Some(k@) == hex_decode_spec(trim_spec(s@)),
            r matches Err(e) ==> e is KeyFile,
            hex_decode_spec(trim_spec(s@)) is None ==> (r matches Err(PolygoneError::KeyFile(m)) && m@.take(12) == "hex decode: "@),
    {
        proof { reveal_strlit("hex decode: "); }
        let bytes = match hex_decode(trim(s)) {
            Ok(b) => b,
            Err(msg) => return Err(PolygoneError::KeyFile(hex_error_text(msg))),
        };
        Self::from_bytes(bytes.as_slice())
    }
}

/// ML-KEM-1024 ciphertext.
pub struct KemCiphertext {
    bytes: Vec<u8>,
}

impl Clone for KemCiphertext {
    fn clone(&self) -> (r: Self)
        ensures
            r@ == self@,
    {
        proof { use_type_invariant(self); }
        KemCiphertext { bytes: copy_bytes(self.bytes.as_slice()) }
    }
}

impl View for KemCiphertext {
    type V = Seq<u8>;

    closed spec fn view(&self) -> Seq<u8> {
        self.bytes@
    }
}

impl KemCiphertext {
    #[verifier::type_invariant]
    spec fn inv(self) -> bool {
        self.bytes@.len() == CT_SIZE
    }

    /// The ciphertext's bytes.
    pub fn as_bytes(&self) -> (r: &[u8])
        ensures
            r@ == self@,
            r@.len() == CT_SIZE,
    {
        proof { use_type_invariant(self); }
        self.bytes.as_slice()
    }

    /// The ciphertext as lowercase hexadecimal.
    pub fn to_hex(&self) -> (r: String)
        ensures
            r@ == hex_encode_spec(self@),
    {
        hex_encode(self.as_bytes())
    }

    /// A ciphertext from exactly `CT_SIZE` bytes; any other length is
    /// refused.
    pub fn from_bytes(b: &[u8]) -> (r: Result<Self>)
        ensures
            r is Ok <==> b@.len() == CT_SIZE,
            r matches Ok(c) ==> c@ == b@,
            r matches Err(e) ==> e matches PolygoneError::KeyFile(m) && m@ == "Invalid ML-KEM-1024 ciphertext"@,
    {
        if b.len() != CT_SIZE {
            proof { reveal_strlit("Invalid ML-KEM-1024 ciphertext"); }
            return Err(PolygoneError::KeyFile("Invalid ML-KEM-1024 ciphertext".to_string()));
        }
        Ok(KemCiphertext { bytes: copy_bytes(b) })
    }

    /// A ciphertext from hexadecimal text (surrounding white space ignored).
    pub fn from_hex(s: &str) -> (r: Result<Self>)
        ensures
            r is Ok <==> (hex_decode_spec(trim_spec(s@)) matches Some(b) && b.len() == CT_SIZE),
            r matches Ok(c) ==> Some(c@) == hex_decode_spec(trim_spec(s@)),
            r matches Err(e) ==> e is KeyFile,
            hex_decode_spec(trim_spec(s@)) is None ==> (r matches Err(PolygoneError::KeyFile(m)) && m@.take(12) == "hex decode: "@),
    {
        proof { reveal_strlit("hex decode: "); }
        let bytes = match hex_decode(trim(s)) {
            Ok(b) => b,
            Err(msg) => return Err(PolygoneError::KeyFile(hex_error_text(msg))),
        };
        Self::from_bytes(bytes.as_slice())
    }
}

/// A fresh random key pair (never fails).
pub fn generate_keypair() -> (r: Result<(KemPublicKey, KemSecretKey)>)
    ensures
        r is Ok,
        r matches Ok((pk, sk)) ==> embedded_public_key(sk@) == pk@,
{
    let (pk, sk) = mlkem_keypair();
    Ok((KemPublicKey { bytes: pk }, KemSecretKey { bytes: sk }))
}

/// Encapsulate a fresh shared secret toward `pk` (never fails).
pub fn encapsulate(pk: &KemPublicKey) -> (r: Result<(KemCiphertext, SharedSecret)>)
    ensures
        r is Ok,
        r matches Ok((ct, ss)) ==> encapsulated_toward(pk@, ct@, ss.0@),
{
    let (ss, ct) = mlkem_encapsulate(pk.as_bytes());
    Ok((KemCiphertext { bytes: ct }, SharedSecret(ss)))
}

/// Recover the shared secret carried by `ct` (never fails): the value
/// ML-KEM-1024 decapsulation gives for the key and ciphertext bytes.
pub fn decapsulate(sk: &KemSecretKey, ct: &KemCiphertext) -> (r: Result<SharedSecret>)
    ensures
        r matches Ok(ss) && ss.0@ == mlkem_decapsulate(sk@, ct@),
{
    let ss = mlkem_decapsulate_bytes(sk.as_bytes(), ct.as_bytes());
    Ok(SharedSecret(ss))
}

} // verus!

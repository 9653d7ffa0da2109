//! ML-DSA-87 digital signatures (FIPS 204).

use vstd::prelude::*;
use super::hex::{hex_decode, hex_decode_spec, hex_encode, hex_encode_spec, hex_error_text, trim, trim_spec};
use crate::error::{PolygoneError, Result};
use pqcrypto_traits::sign::{PublicKey as _, SecretKey as _, SignedMessage as _};

verus! {

/// Byte size of a public key.
pub const SIGN_PK_SIZE: usize = 2592;
/// Byte size of a secret key.
pub const SIGN_SK_SIZE: usize = 4896;
/// Byte size of a signature.
pub const SIGNATURE_SIZE: usize = 4627;

/// Whether ML-DSA-87 opens (verifies) a signed message under a public key.
pub uninterp spec fn mldsa_opens(signed_message: Seq<u8>, pk: Seq<u8>) -> bool;

/// The public key that ML-DSA-87 key generation pairs with a secret key,
/// for a secret key that key generation can produce (the public key is
/// determined by the secret key's seed and secret vectors); `None` for any
/// other bytes.
pub uninterp spec fn mldsa_public_key_of(sk: Seq<u8>) -> Option<Seq<u8>>;

/// Calls `mldsa87::keypair`: a fresh random key pair, as the public and
/// the secret key's bytes. Claimed: their lengths, and that the public key
/// is the one `mldsa_public_key_of` pairs with the secret key.
#[verifier::external_body]
fn mldsa_keypair() -> (r: (Vec<u8>, Vec<u8>))
    ensures
        r.0@.len() == SIGN_PK_SIZE,
        r.1@.len() == SIGN_SK_SIZE,
        mldsa_public_key_of(r.1@) == Some(r.0@),
{
    let (pk, sk) = pqcrypto_mldsa::mldsa87::keypair();
    (pk.as_bytes().to_vec(), sk.as_bytes().to_vec())
}

/// Calls `mldsa87::sign` with a secret key given by its bytes: the signed
/// message, which is the signature followed by the message. Claimed: that
/// layout, and that a secret key from key generation yields a signed
/// message that opens under its paired public key (signing repeats until
/// its signature passes the checks that verification makes). The
/// signature bytes themselves are not stated: signing draws fresh
/// randomness.
#[verifier::external_body]
fn mldsa_sign(message: &[u8], sk: &[u8]) -> (r: Vec<u8>)
    requires
        sk@.len() == SIGN_SK_SIZE,
    ensures
        r@.len() == SIGNATURE_SIZE + message@.len(),
        r@.skip(SIGNATURE_SIZE as int) == message@,
        mldsa_public_key_of(sk@) matches Some(pk) ==> mldsa_opens(r@, pk),
{
    let sk = pqcrypto_mldsa::mldsa87::SecretKey::from_bytes(sk).unwrap();
    pqcrypto_mldsa::mldsa87::sign(message, &sk).as_bytes().to_vec()
}

/// Calls `mldsa87::open` on a signed message under a public key given by
/// its bytes. Claimed: the answer is the one `mldsa_opens` names.
#[verifier::external_body]
fn mldsa_open(signed_message: &[u8], pk: &[u8]) -> (r: bool)
    requires
        pk@.len() == SIGN_PK_SIZE,
    ensures
        r == mldsa_opens(signed_message@, pk@),
{
    let sm = pqcrypto_mldsa::mldsa87::SignedMessage::from_bytes(signed_message).unwrap();
    let pk = pqcrypto_mldsa::mldsa87::PublicKey::from_bytes(pk).unwrap();
    pqcrypto_mldsa::mldsa87::open(&sm, &pk).is_ok()
}

fn copy_bytes(src: &[u8]) -> (r: Vec<u8>)
    ensures
        r@ == src@,
{
    let mut r: Vec<u8> = Vec::new();
    let mut i: usize = 0;
    while i < src.len()
        invariant
            i <= src@.len(),
            r@ == src@.take(i as int),
        decreases src.len() - i,
    {
        r.push(src[i]);
        i = i + 1;
        assert(r@ =~= src@.take(i as int));
    }
    assert(src@.take(src@.len() as int) =~= src@);
    r
}

/// ML-DSA-87 public key.
#[derive(Debug)]
pub struct SignPublicKey {
    bytes: Vec<u8>,
}

impl Clone for SignPublicKey {
    fn clone(&self) -> (r: Self)
        ensures
            r@ == self@,
    {
        proof { use_type_invariant(self); }
        SignPublicKey { bytes: copy_bytes(self.bytes.as_slice()) }
    }
}

impl View for SignPublicKey {
    type V = Seq<u8>;

    closed spec fn view(&self) -> Seq<u8> {
        self.bytes@
    }
}

impl SignPublicKey {
    #[verifier::type_invariant]
    spec fn inv(self) -> bool {
        self.bytes@.len() == SIGN_PK_SIZE
    }

    /// The key's bytes.
    pub fn as_bytes(&self) -> (r: &[u8])
        ensures
            r@ == self@,
            r@.len() == SIGN_PK_SIZE,
    {
        proof { use_type_invariant(self); }
        self.bytes.as_slice()
    }

    /// A key from exactly `SIGN_PK_SIZE` bytes; any other length is
    /// refused.
    pub fn from_bytes(b: &[u8]) -> (r: Result<Self>)
        ensures
            r is Ok <==> b@.len() == SIGN_PK_SIZE,
            r matches Ok(k) ==> k@ == b@,
            r matches Err(e) ==> e matches PolygoneError::Serialization(m) && m@ == "Invalid Sign PK"@,
    {
        if b.len() != SIGN_PK_SIZE {
            proof { reveal_strlit("Invalid Sign PK"); }
            return Err(PolygoneError::Serialization("Invalid Sign PK".to_string()));
        }
        Ok(SignPublicKey { bytes: copy_bytes(b) })
    }

    /// The key as lowercase hexadecimal.
    pub fn to_hex(&self) -> (r: String)
        ensures
            r@ == hex_encode_spec(self@),
    {
        hex_encode(self.as_bytes())
    }

    /// A key from hexadecimal text (surrounding white space ignored).
    pub fn from_hex(s: &str) -> (r: Result<Self>)
        ensures
            r is Ok <==> (hex_decode_spec(trim_spec(s@)) matches Some(b) && b.len() == SIGN_PK_SIZE),
            r matches Ok(k) ==> Some(k@) == hex_decode_spec(trim_spec(s@)),
            r matches Err(e) ==> e is KeyFile || e is Serialization,
            hex_decode_spec(trim_spec(s@)) is None ==> (r matches Err(PolygoneError::KeyFile(m)) && m@.take(12) == "hex decode: "@),
    {
        proof { reveal_strlit("hex decode: "); }
        let bytes = match hex_decode(trim(s)) {
            Ok(b) => b,
            Err(msg) => return Err(PolygoneError::KeyFile(hex_error_text(msg))),
        };
        Self::from_bytes(bytes.as_slice())
    }
}

/// ML-DSA-87 secret key.
pub struct SignSecretKey {
    bytes: Vec<u8>,
}

impl View for SignSecretKey {
    type V = Seq<u8>;

    closed spec fn view(&self) -> Seq<u8> {
        self.bytes@
    }
}

impl SignSecretKey {
    #[verifier::type_invariant]
    spec fn inv(self) -> bool {
        self.bytes@.len() == SIGN_SK_SIZE
    }

    /// The key's bytes.
    pub fn as_bytes(&self) -> (r: &[u8])
        ensures
            r@ == self@,
            r@.len() == SIGN_SK_SIZE,
    {
        proof { use_type_invariant(self); }
        self.bytes.as_slice()
    }

    /// A key from exactly `SIGN_SK_SIZE` bytes; any other length is
    /// refused.
    pub fn from_bytes(b: &[u8]) -> (r: Result<Self>)
        ensures
            r is Ok <==> b@.len() == SIGN_SK_SIZE,
            r matches Ok(k) ==> k@ == b@,
            r matches Err(e) ==> e matches PolygoneError::Serialization(m) && m@ == "Invalid Sign SK"@,
    {
        if b.len() != SIGN_SK_SIZE {
            proof { reveal_strlit("Invalid Sign SK"); }
            return Err(PolygoneError::Serialization("Invalid Sign SK".to_string()));
        }
        Ok(SignSecretKey { bytes: copy_bytes(b) })
    }

    /// The key as lowercase hexadecimal.
    pub fn to_hex(&self) -> (r: String)
        ensures
            r@ == hex_encode_spec(self@),
    {
        hex_encode(self.as_bytes())
    }

    /// A key from hexadecimal text (surrounding white space ignored).
    pub fn from_hex(s: &str) -> (r: Result<Self>)
        ensures
            r is Ok <==> (hex_decode_spec(trim_spec(s@)) matches Some(b) && b.len() == SIGN_SK_SIZE),
            r matches Ok(k) ==> Some(k@) == hex_decode_spec(trim_spec(s@)),
            r matches Err(e) ==> e is KeyFile || e is Serialization,
            hex_decode_spec(trim_spec(s@)) is None ==> (r matches Err(PolygoneError::KeyFile(m)) && m@.take(12) == "hex decode: "@),
    {
        proof { reveal_strlit("hex decode: "); }
        let bytes = match hex_decode(trim(s)) {
            Ok(b) => b,
            Err(msg) => return Err(PolygoneError::KeyFile(hex_error_text(msg))),
        };
        Self::from_bytes(bytes.as_slice())
    }
}

/// A detached signature.
#[derive(Debug)]
pub struct Signature(Vec<u8>);

impl View for Signature {
    type V = Seq<u8>;

    closed spec fn view(&self) -> Seq<u8> {
        self.0@
    }
}

impl Signature {
    /// A signature from its bytes (not checked).
    pub fn from_vec(bytes: Vec<u8>) -> (r: Signature)
        ensures
            r@ == bytes@,
    {
        Signature(bytes)
    }

    /// The signature's bytes.
    pub fn as_bytes(&self) -> (r: &[u8])
        ensures
            r@ == self@,
    {
        self.0.as_slice()
    }
}

/// A fresh random key pair (never fails).
pub fn generate_keypair() -> (r: Result<(SignPublicKey, SignSecretKey)>)
    ensures
        r is Ok,
        r matches Ok((pk, sk)) ==> mldsa_public_key_of(sk@) == Some(pk@),
{
    let (pk, sk) = mldsa_keypair();
    Ok((SignPublicKey { bytes: pk }, SignSecretKey { bytes: sk }))
}

/// Sign a message: the detached signature, `SIGNATURE_SIZE` bytes. With a
/// generated secret key, the signature followed by the message opens under
/// the paired public key, so `verify` accepts it.
pub fn sign(sk: &SignSecretKey, message: &[u8]) -> (r: Signature)
    ensures
        r@.len() == SIGNATURE_SIZE,
        mldsa_public_key_of(sk@) matches Some(pk) ==> mldsa_opens(r@ + message@, pk),
{
    let signed = mldsa_sign(message, sk.as_bytes());
    let n = signed.len() - message.len();
    let mut sig: Vec<u8> = Vec::new();
    let mut i: usize = 0;
    while i < n
        invariant
            n == SIGNATURE_SIZE,
            n <= signed@.len(),
            i <= n,
            sig@ == signed@.take(i as int),
        decreases n - i,
    {
        sig.push(signed[i]);
        i = i + 1;
        assert(sig@ =~= signed@.take(i as int));
    }
    assert(signed@ =~= sig@ + message@);
    Signature(sig)
}

/// Verify a detached signature: accepted exactly when ML-DSA-87 opens the
/// signature followed by the message under the key; otherwise
/// `SignatureInvalid`.
pub fn verify(pk: &SignPublicKey, message: &[u8], sig: &Signature) -> (r: Result<()>)
    ensures
        r is Ok <==> mldsa_opens(sig@ + message@, pk@),
        r matches Err(e) ==> e is SignatureInvalid,
{
    let mut combined = copy_bytes(sig.as_bytes());
    let mut i: usize = 0;
    while i < message.len()
        invariant
            i <= message@.len(),
            combined@ == sig@ + message@.take(i as int),
        decreases message.len() - i,
    {
        combined.push(message[i]);
        i = i + 1;
        assert(combined@ =~= sig@ + message@.take(i as int));
    }
    assert(message@.take(message@.len() as int) =~= message@);
    if mldsa_open(combined.as_slice(), pk.as_bytes()) {
        Ok(())
    } else {
        Err(PolygoneError::SignatureInvalid)
    }
}

/// Sign, then verify: a signature made with a generated secret key is
/// accepted under the paired public key, whatever randomness signing drew.
pub proof fn law_sign_then_verify(pk: Seq<u8>, sk: Seq<u8>, message: Seq<u8>, signature: Seq<u8>)
    requires
        mldsa_public_key_of(sk) == Some(pk),
        mldsa_public_key_of(sk) matches Some(p) ==> mldsa_opens(signature + message, p),
    ensures
        mldsa_opens(signature + message, pk),
{
}

} // verus!

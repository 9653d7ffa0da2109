//! Key files: the text each key of a pair is kept as, and a pair read back
//! from those texts. Keys are kept as hexadecimal text in four files,
//! `kem.pk`, `sign.pk`, `kem.sk` and `sign.sk`.

use vstd::prelude::*;
use crate::crypto::{kem, sign, KeyPair};
use crate::crypto::hex::{hex_decode_spec, hex_encode_spec, trim_spec};
use crate::error::Result;

verus! {

/// Whether `text`, without surrounding white space, is the hexadecimal form
/// of exactly `size` bytes.
pub open spec fn parses_to_len(text: Seq<char>, size: nat) -> bool {
    hex_decode_spec(trim_spec(text)) matches Some(b) && b.len() == size
}

/// The files of a key pair, in the order they are written: each file's
/// name and the key in lowercase hexadecimal.
pub fn keypair_files(kp: &KeyPair) -> (r: Vec<(String, String)>)
    ensures
        r@.len() == 4,
        r@[0].0@ == "kem.pk"@ && r@[0].1@ == hex_encode_spec(kp.kem_pk@),
        r@[1].0@ == "sign.pk"@ && r@[1].1@ == hex_encode_spec(kp.sign_pk@),
        r@[2].0@ == "kem.sk"@ && r@[2].1@ == hex_encode_spec(kp.kem_sk@),
        r@[3].0@ == "sign.sk"@ && r@[3].1@ == hex_encode_spec(kp.sign_sk@),
{
    proof {
        reveal_strlit("kem.pk");
        reveal_strlit("sign.pk");
        reveal_strlit("kem.sk");
        reveal_strlit("sign.sk");
    }
    let mut r: Vec<(String, String)> = Vec::new();
    r.push(("kem.pk".to_string(), kp.kem_pk.to_hex()));
    r.push(("sign.pk".to_string(), kp.sign_pk.to_hex()));
    r.push(("kem.sk".to_string(), kp.kem_sk.to_hex()));
    r.push(("sign.sk".to_string(), kp.sign_sk.to_hex()));
    r
}

/// A key pair from the texts of its four files. Each text is read as
/// hexadecimal once surrounding white space is dropped; the first text
/// that is not a key of its kind is reported (KEM public key, KEM secret
/// key, signing public key, signing secret key, in that order). KEM secret
/// key text of another length than a KEM secret key is excluded, as
/// copying it would fail.
pub fn keypair_from_hex(kem_pk: &str, kem_sk: &str, sign_pk: &str, sign_sk: &str) -> (r: Result<KeyPair>)
    requires
        hex_decode_spec(trim_spec(kem_sk@)) matches Some(b) ==> b.len() == kem::DK_SIZE,
    ensures
        r is Ok <==> ({
            &&& parses_to_len(kem_pk@, kem::EK_SIZE as nat)
            &&& hex_decode_spec(trim_spec(kem_sk@)) is Some
            &&& parses_to_len(sign_pk@, sign::SIGN_PK_SIZE as nat)
            &&& parses_to_len(sign_sk@, sign::SIGN_SK_SIZE as nat)
        }),
        r matches Ok(kp) ==> ({
            &&& Some(kp.kem_pk@) == hex_decode_spec(trim_spec(kem_pk@))
            &&& Some(kp.kem_sk@) == hex_decode_spec(trim_spec(kem_sk@))
            &&& Some(kp.sign_pk@) == hex_decode_spec(trim_spec(sign_pk@))
            &&& Some(kp.sign_sk@) == hex_decode_spec(trim_spec(sign_sk@))
        }),
        r matches Err(e) ==> (e is KeyFile || e is Serialization),
{
    let kem_pk = match kem::KemPublicKey::from_hex(kem_pk) {
        Ok(k) => k,
        Err(e) => return Err(e),
    };
    let kem_sk = match kem::KemSecretKey::from_hex(kem_sk) {
        Ok(k) => k,
        Err(e) => return Err(e),
    };
    let sign_pk = match sign::SignPublicKey::from_hex(sign_pk) {
        Ok(k) => k,
        Err(e) => return Err(e),
    };
    let sign_sk = match sign::SignSecretKey::from_hex(sign_sk) {
        Ok(k) => k,
        Err(e) => return Err(e),
    };
    Ok(KeyPair { kem_sk, kem_pk, sign_sk, sign_pk })
}

} // verus!

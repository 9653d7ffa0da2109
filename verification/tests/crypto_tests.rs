use polygone::crypto::kem::{self, KemPublicKey, KemSecretKey};
use polygone::crypto::secure_types::{
    SecurePublicKey, SecureSecretKey, SessionKey, MLKEM_PUBLIC_KEY_BYTES, MLKEM_SECRET_KEY_BYTES,
};
use polygone::crypto::{sign, KeyPair, SharedSecret};
use polygone::keys::{keypair_files, keypair_from_hex};
use polygone::PolygoneError;

#[test]
fn keypair_generation_is_deterministically_fresh() {
    let kp1 = KeyPair::generate().unwrap();
    let kp2 = KeyPair::generate().unwrap();
    assert_ne!(kp1.kem_pk.as_bytes(), kp2.kem_pk.as_bytes());
}

#[test]
fn ml_kem_1024_round_trip() {
    let (pk, sk) = kem::generate_keypair().unwrap();
    let (ct, ss1) = kem::encapsulate(&pk).unwrap();
    let ss2 = kem::decapsulate(&sk, &ct).unwrap();
    assert_eq!(ss1.0, ss2.0);
}

#[test]
fn ml_kem_1024_keygen_consistent() {
    let (pk1, sk1) = kem::generate_keypair().unwrap();
    let (pk2, sk2) = kem::generate_keypair().unwrap();
    assert_ne!(pk1.as_bytes(), pk2.as_bytes());
    assert_ne!(sk1.as_bytes(), sk2.as_bytes());
}

#[test]
fn ml_kem_1024_hex_roundtrip() {
    let (pk, sk) = kem::generate_keypair().unwrap();
    let pk_hex = pk.to_hex();
    let sk_hex = sk.to_hex();
    let pk2 = KemPublicKey::from_hex(&pk_hex).unwrap();
    let sk2 = KemSecretKey::from_hex(&sk_hex).unwrap();
    assert_eq!(pk.as_bytes(), pk2.as_bytes());
    assert_eq!(sk.as_bytes(), sk2.as_bytes());
}

#[test]
fn shared_secret_derivation_is_deterministic() {
    let secret = SharedSecret([0xAB; 32]);
    let (t1, k1) = secret.derive();
    let (t2, k2) = secret.derive();
    assert_eq!(t1, t2);
    assert_eq!(k1, k2);
}

#[test]
fn topology_and_session_key_are_distinct() {
    let secret = SharedSecret([0xCD; 32]);
    let (topo, key) = secret.derive();
    assert_ne!(&topo[..], &key[..topo.len()]);
}

#[test]
fn shared_secret_derivation_matches_blake3() {
    let secret = SharedSecret([7u8; 32]);
    let (topo, key) = secret.derive();
    assert_eq!(topo, blake3::derive_key("polygone topology v1", &[7u8; 32]));
    assert_eq!(key, blake3::derive_key("polygone session key v1", &[7u8; 32]));
}

#[test]
fn test_secure_public_key() {
    let bytes = vec![0x42u8; MLKEM_PUBLIC_KEY_BYTES];
    let key = SecurePublicKey::from_bytes(&bytes).unwrap();
    assert_eq!(key.as_bytes().len(), MLKEM_PUBLIC_KEY_BYTES);
}

#[test]
fn test_secure_secret_key_zeroize() {
    let bytes = vec![0xFFu8; MLKEM_SECRET_KEY_BYTES];
    let key = SecureSecretKey::from_bytes(&bytes).unwrap();
    let _ = key.as_bytes();
    drop(key);
}

#[test]
fn test_session_key() {
    let key = SessionKey::from_bytes(vec![0xAA; 32]);
    assert_eq!(key.as_bytes().len(), 32);
    drop(key);
}

#[test]
fn secure_public_key_rejects_wrong_length() {
    assert_eq!(SecurePublicKey::from_bytes(&[1u8; 10]).err(), Some("Invalid public key length"));
    assert_eq!(SecureSecretKey::from_bytes(&[1u8; 10]).err(), Some("Invalid secret key length"));
}

#[test]
fn test_ml_kem_round_trip() {
    let (pk, sk) = kem::generate_keypair().unwrap();
    let (ct, ss1) = kem::encapsulate(&pk).unwrap();
    let ss2 = kem::decapsulate(&sk, &ct).unwrap();
    assert_eq!(ss1.0, ss2.0, "shared secrets mismatch");
}

#[test]
fn kem_key_sizes() {
    let (pk, sk) = kem::generate_keypair().unwrap();
    assert_eq!(pk.as_bytes().len(), kem::EK_SIZE);
    assert_eq!(sk.as_bytes().len(), kem::DK_SIZE);
    assert!(KemPublicKey::from_bytes(&[0u8; 3]).is_err());
}

#[test]
fn hex_text_of_keys() {
    let ct = kem::KemCiphertext::from_bytes(&[0xab; kem::CT_SIZE]).unwrap();
    let text = ct.to_hex();
    assert_eq!(text.len(), 2 * kem::CT_SIZE);
    assert!(text.starts_with("abab"));
    let padded = format!("  {}\n", text.to_uppercase());
    assert_eq!(kem::KemCiphertext::from_hex(&padded).unwrap().as_bytes(), &[0xab; kem::CT_SIZE][..]);
    assert!(kem::KemCiphertext::from_hex("abc").is_err());
    assert!(matches!(KemPublicKey::from_hex("zz"), Err(PolygoneError::KeyFile(_))));
}

#[test]
fn sign_and_verify() {
    let (pk, sk) = sign::generate_keypair().unwrap();
    let sig = sign::sign(&sk, b"hello");
    assert!(sign::verify(&pk, b"hello", &sig).is_ok());
    assert!(sign::verify(&pk, b"other", &sig).is_err());
}

#[test]
fn keypair_files_and_back() {
    let kp = KeyPair::generate().unwrap();
    let files = keypair_files(&kp);
    let names: Vec<&str> = files.iter().map(|(n, _)| n.as_str()).collect();
    assert_eq!(names, vec!["kem.pk", "sign.pk", "kem.sk", "sign.sk"]);
    let kp2 = keypair_from_hex(&files[0].1, &files[2].1, &files[1].1, &files[3].1).unwrap();
    assert_eq!(kp.kem_pk.as_bytes(), kp2.kem_pk.as_bytes());
    assert_eq!(kp.sign_sk.as_bytes(), kp2.sign_sk.as_bytes());
    let bad = keypair_from_hex("00", &files[2].1, &files[1].1, &files[3].1);
    assert!(matches!(bad, Err(PolygoneError::KeyFile(_))));
}

#[test]
fn error_hints() {
    assert_eq!(PolygoneError::SessionExpired.hint(), "Sessions expire after 30 seconds. Start a new one.");
    assert_eq!(PolygoneError::KeyFile("x".to_string()).hint(), "Run `polygone keygen` first to generate your keypair.");
    assert_eq!(PolygoneError::SignatureInvalid.hint(), "See `polygone --help` for usage.");
}

#[test]
fn from_hex_reports_decode_errors() {
    match KemPublicKey::from_hex("zz") {
        Err(PolygoneError::KeyFile(m)) => assert!(m.starts_with("hex decode: ")),
        _ => panic!("non-hexadecimal text must be refused"),
    }
}

#[test]
fn kem_secret_key_carries_public_key() {
    let kp = KeyPair::generate().unwrap();
    assert_eq!(&kp.kem_sk.as_bytes()[1536..3104], kp.kem_pk.as_bytes());
    let (pk, sk) = kem::generate_keypair().unwrap();
    assert_eq!(&sk.as_bytes()[1536..3104], pk.as_bytes());
}

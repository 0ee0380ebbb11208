use ed25519_dalek::Signer;
use zeta::identity::{SigningKey, build_signed_data, fingerprint, sign, verify};

fn hex(s: &str) -> Vec<u8> {
    (0..s.len()).step_by(2).map(|i| u8::from_str_radix(&s[i..i + 2], 16).unwrap()).collect()
}

fn rfc8032_key() -> SigningKey {
    let seed: [u8; 32] = hex("9d61b19deffd5a60ba844af492ec2cc44449c5697b326919703bac031cae7f60")
        .try_into()
        .unwrap();
    SigningKey::from_bytes(&seed)
}

#[test]
fn public_key_of_known_seed() {
    let key = rfc8032_key();
    assert_eq!(
        key.verifying_key(),
        hex("d75a980182b10ab7d54bfed3c964073a0ee172f3daa62325af021a68f707511a")
    );
    assert_eq!(key.to_bytes().to_vec(), hex("9d61b19deffd5a60ba844af492ec2cc44449c5697b326919703bac031cae7f60"));
}

#[test]
fn fingerprint_is_hex_of_first_eight_bytes() {
    let key = rfc8032_key();
    assert_eq!(fingerprint(&key.verifying_key()), "d75a980182b10ab7");
    assert_eq!(fingerprint(&[0x00, 0xff, 0x10]), "00ff10");
    assert_eq!(fingerprint(&[]), "");
    assert_eq!(fingerprint(&[0xab; 40]).len(), 16);
}

#[test]
fn signed_data_layout() {
    let d = build_signed_data("al", "é", 0x0102030405060708, 1);
    let mut want = b"al".to_vec();
    want.extend_from_slice("é".as_bytes());
    want.extend_from_slice(&0x0102030405060708u64.to_le_bytes());
    want.extend_from_slice(&1u64.to_le_bytes());
    assert_eq!(d, want);
}

#[test]
fn signature_round_trip() {
    let key = rfc8032_key();
    let pk = key.verifying_key();
    let sig = sign(&key, "alice", "bonjour", 1700000000, 42);
    assert_eq!(sig.len(), 64);
    assert!(verify(&pk, "alice", "bonjour", 1700000000, 42, &sig));
    assert!(!verify(&pk, "alice", "bonjour!", 1700000000, 42, &sig));
    assert!(!verify(&pk, "mallory", "bonjour", 1700000000, 42, &sig));
    assert!(!verify(&pk, "alice", "bonjour", 1700000001, 42, &sig));
    assert!(!verify(&pk, "alice", "bonjour", 1700000000, 43, &sig));
    assert!(!verify(&pk[..31], "alice", "bonjour", 1700000000, 42, &sig));
    assert!(!verify(&pk, "alice", "bonjour", 1700000000, 42, &sig[..63]));
    let mut bad = sig.clone();
    bad[0] ^= 1;
    assert!(!verify(&pk, "alice", "bonjour", 1700000000, 42, &bad));
}

#[test]
fn signature_is_deterministic_and_matches_dalek() {
    let key = rfc8032_key();
    let a = sign(&key, "n", "t", 5, 6);
    let b = sign(&key, "n", "t", 5, 6);
    assert_eq!(a, b);
    let dalek = ed25519_dalek::SigningKey::from_bytes(&key.to_bytes());
    let want = dalek.sign(&build_signed_data("n", "t", 5, 6)).to_bytes().to_vec();
    assert_eq!(a, want);
}

#[test]
fn stored_key_must_be_32_bytes() {
    assert!(SigningKey::from_stored(&[1u8; 31]).is_none());
    assert!(SigningKey::from_stored(&[1u8; 33]).is_none());
    let k = SigningKey::from_stored(&[7u8; 32]).unwrap();
    assert_eq!(k.to_bytes(), [7u8; 32]);
}

#[test]
fn fingerprint_depends_on_the_first_eight_bytes_alone() {
    let a = [1u8, 2, 3, 4, 5, 6, 7, 8, 9, 10];
    let b = [1u8, 2, 3, 4, 5, 6, 7, 8, 0, 0, 0];
    let c = [1u8, 2, 3, 4, 5, 6, 7, 9, 9, 10];
    assert_eq!(fingerprint(&a), fingerprint(&b));
    assert_ne!(fingerprint(&a), fingerprint(&c));
    assert_ne!(fingerprint(&[1, 2]), fingerprint(&[1, 2, 0]));
}

#[test]
fn key_that_is_not_a_curve_point_is_refused() {
    let bad: Vec<u8> = (0u8..=255)
        .map(|b| [b; 32])
        .find(|k| ed25519_dalek::VerifyingKey::from_bytes(k).is_err())
        .expect("some 32-byte string is not a point")
        .to_vec();
    assert!(!verify(&bad, "a", "b", 1, 2, &[0u8; 64]));
}

use ed25519_dalek::ed25519::signature::Signer;
use rand::rngs::OsRng;
use turret::crypto::{canonical_signing_bytes, public_key_of, sign, verify};

#[test]
fn signing_bytes_are_canonical() {
    let b = canonical_signing_bytes(b"agent-1", 123, b"nonce", b"body");
    assert_eq!(b, b"agent-1\n123\nnonce\nbody".to_vec());
}

#[test]
fn signing_bytes_keep_separators_when_empty() {
    let b = canonical_signing_bytes(b"", 0, b"", b"");
    assert_eq!(b, b"\n0\n\n".to_vec());
}

#[test]
fn ed25519_verify_roundtrip() {
    let mut rng = OsRng;
    let sk = ed25519_dalek::SigningKey::generate(&mut rng);
    let sk_bytes = sk.to_bytes();
    let vk = public_key_of(&sk_bytes);

    let sig = sign(&sk_bytes, b"agent-1", 123, b"nonce", b"body");
    verify(&vk, b"agent-1", 123, b"nonce", b"body", &sig).unwrap();
}

#[test]
fn verify_rejects_tampered_message() {
    let mut rng = OsRng;
    let sk = ed25519_dalek::SigningKey::generate(&mut rng);
    let sk_bytes = sk.to_bytes();
    let vk = public_key_of(&sk_bytes);

    let sig = sign(&sk_bytes, b"agent-1", 123, b"nonce", b"body");
    assert!(verify(&vk, b"agent-1", 123, b"nonce", b"tampered", &sig).is_err());
    assert!(verify(&vk, b"agent-2", 123, b"nonce", b"body", &sig).is_err());
    assert!(verify(&vk, b"agent-1", 124, b"nonce", b"body", &sig).is_err());
}

#[test]
fn verify_rejects_wrong_key() {
    let mut rng = OsRng;
    let sk1 = ed25519_dalek::SigningKey::generate(&mut rng);
    let sk2 = ed25519_dalek::SigningKey::generate(&mut rng);
    let vk2 = public_key_of(&sk2.to_bytes());

    let sig = sign(&sk1.to_bytes(), b"agent-1", 123, b"nonce", b"body");
    assert!(verify(&vk2, b"agent-1", 123, b"nonce", b"body", &sig).is_err());
}

#[test]
fn verify_rejects_zero_signature() {
    let mut rng = OsRng;
    let sk = ed25519_dalek::SigningKey::generate(&mut rng);
    let vk = public_key_of(&sk.to_bytes());
    assert!(verify(&vk, b"agent-1", 123, b"nonce", b"body", &[0u8; 64]).is_err());
}

#[test]
fn sign_matches_dalek_directly() {
    let mut rng = OsRng;
    let sk = ed25519_dalek::SigningKey::generate(&mut rng);
    let sk_bytes = sk.to_bytes();

    let sig = sign(&sk_bytes, b"agent-1", 123, b"nonce", b"body");
    let expected = sk.sign(b"agent-1\n123\nnonce\nbody").to_bytes();
    assert_eq!(sig.to_vec(), expected.to_vec());

    let vk = public_key_of(&sk_bytes);
    assert_eq!(vk.to_vec(), sk.verifying_key().to_bytes().to_vec());
}

#[test]
fn signing_bytes_render_large_timestamps() {
    let b = canonical_signing_bytes(b"p", u64::MAX, b"", b"");
    assert_eq!(b, b"p\n18446744073709551615\n\n".to_vec());
}

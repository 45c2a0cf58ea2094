//! Canonical signing bytes and the Ed25519 sign/verify binding.
//!
//! The canonical layout is `principal || "\n" || decimal(ts_ms) || "\n" ||
//! nonce || "\n" || body`; the envelope header is deliberately not part of it,
//! so a forwarded envelope stays verifiable end to end.

use vstd::prelude::*;

use ed25519_dalek::ed25519::signature::Signer;

use crate::wire::{spec_dec_digits, u64_to_decimal};

verus! {

#[derive(Clone, Copy, Debug, PartialEq, Eq, Structural)]
pub enum CryptoError {
    BadSignature,
}

/// The bytes that get signed: the four fields joined by `'\n'`, the timestamp
/// rendered in decimal ASCII. The separators are present even when a field is
/// empty.
pub open spec fn spec_canonical_signing_bytes(
    principal: Seq<u8>,
    ts_ms: u64,
    nonce: Seq<u8>,
    body: Seq<u8>,
) -> Seq<u8> {
    principal + seq![10u8] + spec_dec_digits(ts_ms as nat) + seq![10u8] + nonce + seq![10u8] + body
}

/// Build the canonical signing bytes for one envelope.
pub fn canonical_signing_bytes(principal: &[u8], ts_ms: u64, nonce: &[u8], body: &[u8]) -> (r: Vec<
    u8,
>)
    ensures
        r@ == spec_canonical_signing_bytes(principal@, ts_ms, nonce@, body@),
{
    let mut out: Vec<u8> = Vec::new();
    out.extend_from_slice(principal);
    out.push(10);
    let mut ts = u64_to_decimal(ts_ms);
    out.append(&mut ts);
    out.push(10);
    out.extend_from_slice(nonce);
    out.push(10);
    out.extend_from_slice(body);
    proof {
        assert(out@ =~= spec_canonical_signing_bytes(principal@, ts_ms, nonce@, body@));
    }
    out
}

/// The signature that Ed25519 produces from this secret key over this
/// message; a function of the two alone.
pub uninterp spec fn ed25519_signature(sk: Seq<u8>, msg: Seq<u8>) -> Seq<u8>;

/// The verifying key derived from this secret key.
pub uninterp spec fn ed25519_public_of(sk: Seq<u8>) -> Seq<u8>;

/// Whether strict Ed25519 verification accepts this (key, message,
/// signature) triple.
pub uninterp spec fn ed25519_verifies(vk: Seq<u8>, msg: Seq<u8>, sig: Seq<u8>) -> bool;

/// Relies on ed25519_dalek::SigningKey::sign: deterministic Ed25519 over the
/// message, and the produced signature passes strict verification under the
/// key's own verifying key.
#[verifier::external_body]
fn dalek_sign(sk: &[u8; 32], msg: &[u8]) -> (r: [u8; 64])
    ensures
        r@ == ed25519_signature(sk@, msg@),
        ed25519_verifies(ed25519_public_of(sk@), msg@, r@),
{
    let key = ed25519_dalek::SigningKey::from_bytes(sk);
    key.sign(msg).to_bytes()
}

/// Relies on ed25519_dalek::SigningKey::verifying_key: the public key is a
/// function of the secret key alone.
#[verifier::external_body]
fn dalek_public_key(sk: &[u8; 32]) -> (r: [u8; 32])
    ensures
        r@ == ed25519_public_of(sk@),
{
    ed25519_dalek::SigningKey::from_bytes(sk).verifying_key().to_bytes()
}

/// Relies on ed25519_dalek::VerifyingKey::verify_strict: deterministic strict
/// verification (non-canonical scalars and small-order points rejected). Key
/// bytes that decode to no valid point verify nothing.
#[verifier::external_body]
fn dalek_verify(vk: &[u8; 32], msg: &[u8], sig: &[u8; 64]) -> (r: bool)
    ensures
        r == ed25519_verifies(vk@, msg@, sig@),
{
    match ed25519_dalek::VerifyingKey::from_bytes(vk) {
        Ok(key) => key.verify_strict(msg, &ed25519_dalek::Signature::from_bytes(sig)).is_ok(),
        Err(_) => false,
    }
}

/// The verifying key that belongs to a 32-byte Ed25519 secret key.
pub fn public_key_of(sk: &[u8; 32]) -> (r: [u8; 32])
    ensures
        r@ == ed25519_public_of(sk@),
{
    dalek_public_key(sk)
}

/// Sign the canonical bytes of one envelope. The result verifies under the
/// secret key's own verifying key, and under no scheme-compliant check is it
/// anything but a function of the key and the four fields.
pub fn sign(sk: &[u8; 32], principal: &[u8], ts_ms: u64, nonce: &[u8], body: &[u8]) -> (sig: [u8;
    64])
    ensures
        sig@ == ed25519_signature(
            sk@,
            spec_canonical_signing_bytes(principal@, ts_ms, nonce@, body@),
        ),
        ed25519_verifies(
            ed25519_public_of(sk@),
            spec_canonical_signing_bytes(principal@, ts_ms, nonce@, body@),
            sig@,
        ),
{
    let bytes = canonical_signing_bytes(principal, ts_ms, nonce, body);
    dalek_sign(sk, bytes.as_slice())
}

/// Strictly verify a signature over the canonical bytes of one envelope.
/// Succeeds exactly when Ed25519 accepts the triple.
pub fn verify(
    vk: &[u8; 32],
    principal: &[u8],
    ts_ms: u64,
    nonce: &[u8],
    body: &[u8],
    sig: &[u8; 64],
) -> (r: Result<(), CryptoError>)
    ensures
        r is Ok <==> ed25519_verifies(
            vk@,
            spec_canonical_signing_bytes(principal@, ts_ms, nonce@, body@),
            sig@,
        ),
        r is Err ==> r == Err::<(), CryptoError>(CryptoError::BadSignature),
{
    let bytes = canonical_signing_bytes(principal, ts_ms, nonce, body);
    if dalek_verify(vk, bytes.as_slice(), sig) {
        Ok(())
    } else {
        Err(CryptoError::BadSignature)
    }
}

} // verus!
